//! Sagas of focused steps with deliberate handoffs between agent sessions:
//! the saga and step records, the step lifecycle, and the decisions and
//! reports of each command.
use vstd::prelude::*;

pub mod commands;
pub mod error;
pub mod order;
pub mod saga;
pub mod session;
pub mod step;
pub mod text;

verus! {

/// The record of a saga, kept in `saga.toml`.
#[derive(Debug, Clone)]
pub struct SagaConfig {
    pub name: String,
    pub status: SagaStatus,
    pub current_step: u32,
    pub created_at: String,
    pub plan_file: String,
}

/// Whether a saga still has work ahead.
#[derive(Debug, Clone, Copy, PartialEq, Eq, Structural)]
pub enum SagaStatus {
    Active,
    Completed,
}

/// The name a saga status is written and shown with.
pub open spec fn saga_status_name(s: SagaStatus) -> Seq<char> {
    match s {
        SagaStatus::Active => seq!['a', 'c', 't', 'i', 'v', 'e'],
        SagaStatus::Completed => seq!['c', 'o', 'm', 'p', 'l', 'e', 't', 'e', 'd'],
    }
}

impl SagaStatus {
    /// The status as it is shown (`active`, `completed`).
    pub fn as_str(&self) -> (res: &'static str)
        ensures
            res@ == saga_status_name(*self),
    {
        match self {
            SagaStatus::Active => {
                let s = "active";
                proof {
                    reveal_strlit("active");
                }
                assert(s@ =~= saga_status_name(*self));
                s
            },
            SagaStatus::Completed => {
                let s = "completed";
                proof {
                    reveal_strlit("completed");
                }
                assert(s@ =~= saga_status_name(*self));
                s
            },
        }
    }
}

/// The record of one step, kept in `step.toml` in the step's directory.
#[derive(Debug, Clone)]
pub struct StepConfig {
    pub number: u32,
    pub slug: String,
    pub status: StepStatus,
    pub description: String,
    pub context_files: Vec<String>,
    pub created_at: String,
    pub completed_at: Option<String>,
    pub transcript_file: Option<String>,
}

/// Where a step stands in its lifecycle.
#[derive(Debug, Clone, Copy, PartialEq, Eq, Structural)]
pub enum StepStatus {
    Pending,
    InProgress,
    Completed,
    Blocked,
}

/// The name a step status is written and shown with.
pub open spec fn step_status_name(s: StepStatus) -> Seq<char> {
    match s {
        StepStatus::Pending => seq!['p', 'e', 'n', 'd', 'i', 'n', 'g'],
        StepStatus::InProgress => seq!['i', 'n', '-', 'p', 'r', 'o', 'g', 'r', 'e', 's', 's'],
        StepStatus::Completed => seq!['c', 'o', 'm', 'p', 'l', 'e', 't', 'e', 'd'],
        StepStatus::Blocked => seq!['b', 'l', 'o', 'c', 'k', 'e', 'd'],
    }
}

impl StepStatus {
    /// The status as it is shown (`pending`, `in-progress`, `completed`, `blocked`).
    pub fn as_str(&self) -> (res: &'static str)
        ensures
            res@ == step_status_name(*self),
    {
        match self {
            StepStatus::Pending => {
                let s = "pending";
                proof {
                    reveal_strlit("pending");
                }
                assert(s@ =~= step_status_name(*self));
                s
            },
            StepStatus::InProgress => {
                let s = "in-progress";
                proof {
                    reveal_strlit("in-progress");
                }
                assert(s@ =~= step_status_name(*self));
                s
            },
            StepStatus::Completed => {
                let s = "completed";
                proof {
                    reveal_strlit("completed");
                }
                assert(s@ =~= step_status_name(*self));
                s
            },
            StepStatus::Blocked => {
                let s = "blocked";
                proof {
                    reveal_strlit("blocked");
                }
                assert(s@ =~= step_status_name(*self));
                s
            },
        }
    }
}

/// Whether `c` is an ASCII digit.
pub open spec fn is_digit(c: char) -> bool {
    '0' <= c && c <= '9'
}

/// Whether every character of `s` is an ASCII digit.
pub open spec fn all_digits(s: Seq<char>) -> bool {
    forall|i: int| 0 <= i < s.len() ==> is_digit(#[trigger] s[i])
}

/// A year as chrono's `%Y` writes it: four digits for the years 0 to 9999,
/// else a sign and at least four digits.
pub open spec fn year_text(y: Seq<char>) -> bool {
    ||| y.len() == 4 && all_digits(y)
    ||| y.len() >= 5 && (y[0] == '+' || y[0] == '-') && all_digits(y.drop_first())
}

/// The shape of `%Y%m%dT%H%M%S`: a year, then `MMDDTHHMMSS`. For a year
/// from 0 to 9999 it is 15 characters, `T` at index 8, digits elsewhere.
pub open spec fn compact_stamp(s: Seq<char>) -> bool {
    let n = s.len();
    &&& n >= 15
    &&& year_text(s.take(n - 11))
    &&& all_digits(s.subrange(n - 11, n - 7))
    &&& s[n - 7] == 'T'
    &&& all_digits(s.subrange(n - 6, n as int))
}

/// The shape of `%Y-%m-%dT%H:%M:%S`: a year, then `-MM-DDTHH:MM:SS`. For a
/// year from 0 to 9999 it is 19 characters, `-` at 4 and 7, `T` at 10, `:` at
/// 13 and 16, digits elsewhere.
pub open spec fn iso_stamp(s: Seq<char>) -> bool {
    let n = s.len();
    &&& n >= 19
    &&& year_text(s.take(n - 15))
    &&& s[n - 15] == '-'
    &&& all_digits(s.subrange(n - 14, n - 12))
    &&& s[n - 12] == '-'
    &&& all_digits(s.subrange(n - 11, n - 9))
    &&& s[n - 9] == 'T'
    &&& all_digits(s.subrange(n - 8, n - 6))
    &&& s[n - 6] == ':'
    &&& all_digits(s.subrange(n - 5, n - 3))
    &&& s[n - 3] == ':'
    &&& all_digits(s.subrange(n - 2, n as int))
}

/// The current local time as `YYYYMMDDTHHMMSS` (chrono's `Local::now`, formatted
/// with `%Y%m%dT%H%M%S`). Which time it gives depends on the clock and the
/// machine's time zone; what holds of every outcome is the shape of the text,
/// as chrono's formatting code writes each field (the year zero-padded to
/// four digits, or signed outside 0 to 9999; every other field two digits).
#[verifier::external_body]
pub fn timestamp() -> (res: String)
    ensures
        compact_stamp(res@),
{
    chrono::Local::now().format("%Y%m%dT%H%M%S").to_string()
}

/// The current local time as `YYYY-MM-DDTHH:MM:SS` (chrono's `Local::now`,
/// formatted with `%Y-%m-%dT%H:%M:%S`). Which time it gives depends on the
/// clock and the machine's time zone; what holds of every outcome is the shape
/// of the text (see `timestamp`).
#[verifier::external_body]
pub fn timestamp_iso() -> (res: String)
    ensures
        iso_stamp(res@),
{
    chrono::Local::now().format("%Y-%m-%dT%H:%M:%S").to_string()
}

} // verus!
