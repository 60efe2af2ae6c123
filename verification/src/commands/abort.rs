//! `abort`: mark the current step as blocked.
use vstd::prelude::*;
use crate::error::Error;
use crate::step::{is_refusal, moved, transition_allowed, transition_step};
use crate::{SagaConfig, StepConfig, StepStatus};

verus! {

/// Blocks the current step, whose record as loaded is `current`: before the
/// first step there is nothing to block (`NoSteps`), without the record
/// `NoCurrentStep`, and the lifecycle may refuse the move.
pub fn run(config: &SagaConfig, current: Option<StepConfig>) -> (res: Result<StepConfig, Error>)
    ensures
        config.current_step == 0 ==> res matches Err(Error::NoSteps),
        config.current_step != 0 && current is None ==> res matches Err(Error::NoCurrentStep),
        (config.current_step != 0 && current is Some) ==> {
            &&& res is Ok <==> transition_allowed(current->0.status, StepStatus::Blocked)
            &&& res matches Ok(t) ==> moved(current->0, t, StepStatus::Blocked)
            &&& res matches Err(e) ==> is_refusal(e, current->0.status, StepStatus::Blocked)
        },
{
    if config.current_step == 0 {
        return Err(Error::NoSteps);
    }
    match current {
        Some(s) => {
            let mut s = s;
            transition_step(&mut s, StepStatus::Blocked)?;
            Ok(s)
        },
        None => Err(Error::NoCurrentStep),
    }
}

} // verus!
