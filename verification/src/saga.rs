//! Sagas: the record a new saga starts with.
use vstd::prelude::*;
use crate::error::Error;
use crate::text::owned;
use crate::{SagaConfig, SagaStatus};

verus! {

/// Where the plan lives, relative to the project directory.
pub open spec fn plan_file_path() -> Seq<char> {
    ".avoid-compaction/plan.md"@
}

/// The record of a new saga: active, before its first step, with its plan in
/// `.avoid-compaction/plan.md`.
pub open spec fn is_new_saga(c: SagaConfig, name: Seq<char>, created_at: Seq<char>) -> bool {
    &&& c.name@ == name
    &&& c.status == SagaStatus::Active
    &&& c.current_step == 0
    &&& c.created_at@ == created_at
    &&& c.plan_file@ == plan_file_path()
}

/// Starts a saga in the project at `path` (shown in errors), unless one
/// exists there already (`SagaAlreadyExists`).
pub fn init_saga(exists: bool, path: &str, name: &str, created_at: String) -> (res: Result<
    SagaConfig,
    Error,
>)
    ensures
        exists ==> (res matches Err(Error::SagaAlreadyExists { path: p }) && p@ == path@),
        !exists ==> (res matches Ok(c) && is_new_saga(c, name@, created_at@)),
{
    if exists {
        return Err(Error::SagaAlreadyExists { path: owned(path) });
    }
    Ok(
        SagaConfig {
            name: owned(name),
            status: SagaStatus::Active,
            current_step: 0,
            created_at,
            plan_file: owned(".avoid-compaction/plan.md"),
        },
    )
}

} // verus!
