//! `status`: the saga at a glance.
use vstd::prelude::*;
use crate::step::{completed_count, count_completed, StepOverview};
use crate::text::{decimal, pad3, push_decimal, push_pad3, push_str};
use crate::{saga_status_name, step_status_name, SagaConfig, StepConfig};

verus! {

/// The current step's lines, shown when there is a current step and its
/// record could be loaded.
pub open spec fn current_section(config: SagaConfig, current: Option<StepConfig>) -> Seq<char> {
    match current {
        Some(s) => if config.current_step > 0 {
            "\nCurrent: "@ + pad3(s.number as nat) + "-"@ + s.slug@ + " ["@ + step_status_name(
                s.status,
            ) + "]\n"@ + "  "@ + s.description@ + "\n"@
        } else {
            Seq::empty()
        },
        None => Seq::empty(),
    }
}

/// The text of `status`: name, status, step counts, current step number and
/// plan file, then the current step.
pub open spec fn status_text(
    config: SagaConfig,
    steps: Seq<StepOverview>,
    current: Option<StepConfig>,
) -> Seq<char> {
    "Saga: "@ + config.name@ + "\n"@ + "Status: "@ + saga_status_name(config.status) + "\n"@
        + "Steps: "@ + decimal(steps.len()) + " total, "@ + decimal(completed_count(steps))
        + " completed\n"@ + "Current step: "@ + decimal(config.current_step as nat) + "\n"@
        + "Plan: "@ + config.plan_file@ + "\n"@ + current_section(config, current)
}

/// The view of an optional reference to a step record.
pub open spec fn opt_step_ref(o: Option<&StepConfig>) -> Option<StepConfig> {
    match o {
        Some(s) => Some(*s),
        None => None,
    }
}

/// Renders `status` for the saga, all its steps, and the current step's
/// record when it could be loaded.
pub fn run(config: &SagaConfig, steps: &Vec<StepOverview>, current: Option<&StepConfig>) -> (res:
    String)
    ensures
        res@ == status_text(*config, steps@, opt_step_ref(current)),
{
    let mut head = String::new();
    push_str(&mut head, "Saga: ");
    push_str(&mut head, config.name.as_str());
    push_str(&mut head, "\n");
    push_str(&mut head, "Status: ");
    push_str(&mut head, config.status.as_str());
    push_str(&mut head, "\n");
    let done = count_completed(steps);
    let mut counts = String::new();
    push_str(&mut counts, "Steps: ");
    push_decimal(&mut counts, steps.len() as u64);
    push_str(&mut counts, " total, ");
    push_decimal(&mut counts, done as u64);
    push_str(&mut counts, " completed\n");
    let mut tail = String::new();
    push_str(&mut tail, "Current step: ");
    push_decimal(&mut tail, config.current_step as u64);
    push_str(&mut tail, "\n");
    push_str(&mut tail, "Plan: ");
    push_str(&mut tail, config.plan_file.as_str());
    push_str(&mut tail, "\n");
    let mut cur = String::new();
    if config.current_step > 0 {
        match current {
            Some(s) => {
                push_str(&mut cur, "\nCurrent: ");
                push_pad3(&mut cur, s.number as u64);
                push_str(&mut cur, "-");
                push_str(&mut cur, s.slug.as_str());
                push_str(&mut cur, " [");
                push_str(&mut cur, s.status.as_str());
                push_str(&mut cur, "]\n");
                push_str(&mut cur, "  ");
                push_str(&mut cur, s.description.as_str());
                push_str(&mut cur, "\n");
            },
            None => {},
        }
    }
    proof {
        reveal_strlit("-");
    }
    assert(cur@ =~= current_section(*config, opt_step_ref(current)));
    let mut out = head;
    push_str(&mut out, counts.as_str());
    push_str(&mut out, tail.as_str());
    push_str(&mut out, cur.as_str());
    assert(out@ =~= status_text(*config, steps@, opt_step_ref(current)));
    out
}

} // verus!
