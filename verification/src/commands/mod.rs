pub mod abort;
pub mod begin;
pub mod complete;
pub mod history;
pub mod install_hook;
pub mod list;
pub mod next;
pub mod status;
pub mod transcript;
