//! `list`: the context files of the current step.
use vstd::prelude::*;
use crate::commands::status::opt_step_ref;
use crate::error::Error;
use crate::text::{indented_lines, pad3, push_indented_lines, push_pad3, push_str, views};
use crate::{SagaConfig, StepConfig};

verus! {

/// The text of `list` for the current step.
pub open spec fn context_text(s: StepConfig) -> Seq<char> {
    "Context files for step "@ + pad3(s.number as nat) + "-"@ + s.slug@ + ":\n"@
        + if s.context_files@.len() == 0 {
        "  (none)\n"@
    } else {
        indented_lines(views(s.context_files@))
    }
}

/// Renders `list`: nothing to list before the first step; otherwise the
/// current step's context files (`current` is its record as loaded; without
/// it, `NoCurrentStep`).
pub fn run(config: &SagaConfig, current: Option<&StepConfig>) -> (res: Result<String, Error>)
    ensures
        config.current_step == 0 ==> (res matches Ok(t) && t@
            == "No steps defined yet. No context files.\n"@),
        config.current_step != 0 ==> match opt_step_ref(current) {
            Some(s) => (res matches Ok(t) && t@ == context_text(s)),
            None => res matches Err(Error::NoCurrentStep),
        },
{
    let mut out = String::new();
    if config.current_step == 0 {
        push_str(&mut out, "No steps defined yet. No context files.\n");
        assert(out@ =~= "No steps defined yet. No context files.\n"@);
        return Ok(out);
    }
    match current {
        Some(s) => {
            push_str(&mut out, "Context files for step ");
            push_pad3(&mut out, s.number as u64);
            push_str(&mut out, "-");
            push_str(&mut out, s.slug.as_str());
            push_str(&mut out, ":\n");
            if s.context_files.len() == 0 {
                push_str(&mut out, "  (none)\n");
            } else {
                push_indented_lines(&mut out, &s.context_files);
            }
            proof {
                reveal_strlit("-");
            }
            assert(out@ =~= context_text(*s));
            Ok(out)
        },
        None => Err(Error::NoCurrentStep),
    }
}

} // verus!
