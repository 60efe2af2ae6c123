//! `next`: what the agent of a new session should do, and the exit code that
//! tells it which phase the saga is in.
use vstd::prelude::*;
use crate::commands::complete::opt_text;
use crate::error::Error;
use crate::step::{is_completed_overview, opt_view, step_dir_name_of, StepOverview};
use crate::text::{
    indented_lines, join, join_prefix, lines, lines_of, pad3, push_indented_lines, push_pad3,
    push_str, views,
};
use crate::{step_status_name, SagaConfig, SagaStatus, StepConfig, StepStatus};

verus! {

/// The exit code of `next`: 2 when there is no saga, 1 when the saga is
/// complete, 0 when there is a step (or the first step) to do.
pub open spec fn exit_code(saga: Option<SagaConfig>) -> u8 {
    match saga {
        None => 2,
        Some(c) => if c.status == SagaStatus::Completed {
            1
        } else {
            0
        },
    }
}

/// The text shown when no saga exists.
pub open spec fn no_saga_text() -> Seq<char> {
    "No saga found. Initialize one with: avoid-compaction init --name <name> --plan <file>\n"@
}

/// The text shown for a completed saga.
pub open spec fn finished_text(c: SagaConfig) -> Seq<char> {
    "Saga '"@ + c.name@ + "' is complete. No more steps.\n"@
}

/// The text shown before the first step: the saga, its plan, and how to
/// record the first unit of work.
pub open spec fn first_step_text(c: SagaConfig, plan: Option<Seq<char>>) -> Seq<char> {
    "=== FIRST STEP ===\nSaga: "@ + c.name@ + "\nNo prior context. This is the first step.\nPlan: "@
        + c.plan_file@ + "\n"@ + match plan {
        Some(p) => "\n--- Plan ---\n"@ + p + "\n"@,
        None => Seq::empty(),
    } + "\nAction: Review the plan, do the first unit of work, then run:\n"@
        + "  avoid-compaction complete --transcript <text> --summary <text> \\\n"@
        + "    --next-slug <slug> --next-prompt <file> --next-context <files>\n"@
}

/// The first three lines of a summary joined by spaces, or `(no summary)`.
pub open spec fn brief(summary: Option<Seq<char>>) -> Seq<char> {
    match summary {
        Some(c) => join(
            if lines(c).len() < 3 {
                lines(c)
            } else {
                lines(c).take(3)
            },
            " "@,
        ),
        None => "(no summary)"@,
    }
}

/// The prior-step lines: one per completed step, with its brief summary.
pub open spec fn prior_lines(steps: Seq<StepOverview>) -> Seq<char>
    decreases steps.len(),
{
    if steps.len() == 0 {
        Seq::empty()
    } else {
        let o = steps.last();
        prior_lines(steps.drop_last()) + if o.step.status == StepStatus::Completed {
            "  "@ + step_dir_name_of(o.step.number as nat, o.step.slug@) + ": "@ + brief(
                opt_view(o.summary),
            ) + "\n"@
        } else {
            Seq::empty()
        }
    }
}

/// Whether any step is completed.
pub open spec fn any_completed(steps: Seq<StepOverview>) -> bool {
    exists|i: int| 0 <= i < steps.len() && #[trigger] steps[i].step.status == StepStatus::Completed
}

/// The heading lines of the current step: number, slug, status, description.
pub open spec fn step_heading(s: StepConfig) -> Seq<char> {
    "=== STEP "@ + pad3(s.number as nat) + ": "@ + s.slug@ + " ===\n"@ + "Status: "@
        + step_status_name(s.status) + "\n"@ + "Description: "@ + s.description@ + "\n"@
}

/// The prompt of the current step, when its file exists.
pub open spec fn prompt_section(prompt: Option<Seq<char>>) -> Seq<char> {
    match prompt {
        Some(p) => "\n--- Prompt ---\n"@ + p + "\n"@,
        None => Seq::empty(),
    }
}

/// The context files of the current step, when it has any.
pub open spec fn context_section(files: Seq<Seq<char>>) -> Seq<char> {
    if files.len() > 0 {
        "\n--- Context Files ---\n"@ + indented_lines(files)
    } else {
        Seq::empty()
    }
}

/// The completed steps with their summaries, when there are any.
pub open spec fn prior_section(steps: Seq<StepOverview>) -> Seq<char> {
    if any_completed(steps) {
        "\n--- Prior Steps ---\n"@ + prior_lines(steps)
    } else {
        Seq::empty()
    }
}

/// The text shown for the current step: its heading, its prompt, its context
/// files, the completed steps with their summaries, and the plan file.
pub open spec fn step_text(
    c: SagaConfig,
    s: StepConfig,
    prompt: Option<Seq<char>>,
    steps: Seq<StepOverview>,
) -> Seq<char> {
    step_heading(s) + prompt_section(prompt) + context_section(views(s.context_files@))
        + prior_section(steps) + ("\nPlan: "@ + c.plan_file@ + "\n"@)
}

/// A prior step's brief is the first three lines of its summary (all of them
/// when it has fewer), joined by single spaces; `(no summary)` without one.
pub proof fn brief_is_first_three_lines(c: Seq<char>)
    ensures
        brief(None) == "(no summary)"@,
        lines(c).len() == 0 ==> brief(Some(c)) == Seq::<char>::empty(),
        lines(c).len() == 1 ==> brief(Some(c)) == lines(c)[0],
        lines(c).len() == 2 ==> brief(Some(c)) == lines(c)[0] + " "@ + lines(c)[1],
        lines(c).len() >= 3 ==> brief(Some(c)) == lines(c)[0] + " "@ + lines(c)[1] + " "@
            + lines(c)[2],
{
    let ls = lines(c);
    if ls.len() >= 3 {
        let t3 = ls.take(3);
        let t2 = t3.take(2);
        let t1 = t2.take(1);
        assert(t3.take(t3.len() - 1) =~= t2);
        assert(t2.take(t2.len() - 1) =~= t1);
        assert(join(t3, " "@) == join(t2, " "@) + " "@ + ls[2]);
        assert(join(t2, " "@) == join(t1, " "@) + " "@ + ls[1]);
        assert(join(t1, " "@) == ls[0]);
    } else if ls.len() == 2 {
        assert(ls.take(1).len() == 1);
        assert(join(ls, " "@) == join(ls.take(1), " "@) + " "@ + ls[1]);
        assert(join(ls.take(1), " "@) == ls[0]);
    }
}

/// Only completed steps are listed under Prior Steps, one line each: the
/// lines are those of the completed steps alone, a step that is not
/// completed adds nothing, a completed one adds a line, and the section is
/// shown exactly when some step is completed.
pub proof fn prior_steps_are_the_completed_ones(steps: Seq<StepOverview>)
    ensures
        prior_lines(steps) == prior_lines(steps.filter(is_completed_overview())),
        any_completed(steps) <==> steps.filter(is_completed_overview()).len() > 0,
        prior_section(steps).len() > 0 <==> steps.filter(is_completed_overview()).len() > 0,
        forall|s: Seq<StepOverview>, o: StepOverview|
            o.step.status != StepStatus::Completed ==> #[trigger] prior_lines(s.push(o))
                == prior_lines(s),
        forall|s: Seq<StepOverview>, o: StepOverview|
            o.step.status == StepStatus::Completed ==> #[trigger] prior_lines(s.push(o)).len()
                > prior_lines(s).len(),
    decreases steps.len(),
{
    let pred = is_completed_overview();
    assert forall|s: Seq<StepOverview>, o: StepOverview|
        o.step.status != StepStatus::Completed implies #[trigger] prior_lines(s.push(o))
        == prior_lines(s) by {
        assert(s.push(o).drop_last() =~= s);
    }
    assert forall|s: Seq<StepOverview>, o: StepOverview|
        o.step.status == StepStatus::Completed implies #[trigger] prior_lines(s.push(o)).len()
        > prior_lines(s).len() by {
        assert(s.push(o).drop_last() =~= s);
    }
    if steps.len() == 0 {
        assert(steps.filter(pred) =~= steps) by {
            reveal(Seq::filter);
        }
    } else {
        let init = steps.drop_last();
        let o = steps.last();
        prior_steps_are_the_completed_ones(init);
        init.lemma_filter_push(o, pred);
        assert(init.push(o) =~= steps);
        let f = init.filter(pred);
        assert(f.push(o).drop_last() =~= f);
        if o.step.status == StepStatus::Completed {
            assert(steps[steps.len() - 1] == o);
        } else {
            if any_completed(steps) {
                let i = choose|i: int| 0 <= i < steps.len() && #[trigger] steps[i].step.status
                    == StepStatus::Completed;
                assert(init[i] == steps[i]);
            }
            if any_completed(init) {
                let i = choose|i: int| 0 <= i < init.len() && #[trigger] init[i].step.status
                    == StepStatus::Completed;
                assert(steps[i] == init[i]);
            }
        }
    }
}

/// The whole report of `next` and its exit code, for the saga as loaded
/// (`None` when none exists), the text of its plan file and of the current
/// step's prompt (when those files exist), the current step and the list of
/// all steps with their summaries. Without the record of the current step,
/// `NoCurrentStep`.
pub open spec fn next_outcome(
    saga: Option<SagaConfig>,
    plan: Option<Seq<char>>,
    step: Option<StepConfig>,
    prompt: Option<Seq<char>>,
    steps: Seq<StepOverview>,
) -> Option<(u8, Seq<char>)> {
    match saga {
        None => Some((2u8, no_saga_text())),
        Some(c) => if c.status == SagaStatus::Completed {
            Some((1u8, finished_text(c)))
        } else if c.current_step == 0 {
            Some((0u8, first_step_text(c, plan)))
        } else {
            match step {
                Some(s) => Some((0u8, step_text(c, s, prompt, steps))),
                None => None,
            }
        },
    }
}

/// The view of an optional reference to a saga record.
pub open spec fn opt_saga(o: Option<&SagaConfig>) -> Option<SagaConfig> {
    match o {
        Some(c) => Some(*c),
        None => None,
    }
}

/// The view of an optional reference to a step record.
pub open spec fn opt_step(o: Option<&StepConfig>) -> Option<StepConfig> {
    match o {
        Some(s) => Some(*s),
        None => None,
    }
}

/// Appends the brief summary of a step.
fn push_brief(out: &mut String, summary: &Option<String>)
    ensures
        final(out)@ == old(out)@ + brief(opt_view(*summary)),
{
    match summary {
        Some(c) => {
            let ls = lines_of(c.as_str());
            let k = if ls.len() < 3 {
                ls.len()
            } else {
                3
            };
            let b = join_prefix(&ls, k, " ");
            proof {
                if ls.len() < 3 {
                    assert(views(ls@).take(k as int) =~= views(ls@));
                }
            }
            push_str(out, b.as_str());
        },
        None => push_str(out, "(no summary)"),
    }
}

/// Whether any step is completed.
fn has_completed(steps: &Vec<StepOverview>) -> (r: bool)
    ensures
        r == any_completed(steps@),
{
    let mut i: usize = 0;
    while i < steps.len()
        invariant
            i <= steps.len(),
            forall|j: int| 0 <= j < i ==> #[trigger] steps@[j].step.status != StepStatus::Completed,
        decreases steps.len() - i,
    {
        if steps[i].step.status == StepStatus::Completed {
            return true;
        }
        i = i + 1;
    }
    false
}

/// Appends the prior-step lines.
fn push_prior_lines(out: &mut String, steps: &Vec<StepOverview>)
    ensures
        final(out)@ == old(out)@ + prior_lines(steps@),
{
    let mut i: usize = 0;
    while i < steps.len()
        invariant
            i <= steps.len(),
            out@ == old(out)@ + prior_lines(steps@.take(i as int)),
        decreases steps.len() - i,
    {
        let ghost before = out@;
        proof {
            assert(steps@.take(i + 1).drop_last() =~= steps@.take(i as int));
        }
        let o = &steps[i];
        if o.step.status == StepStatus::Completed {
            push_str(out, "  ");
            push_pad3(out, o.step.number as u64);
            push_str(out, "-");
            push_str(out, o.step.slug.as_str());
            push_str(out, ": ");
            push_brief(out, &o.summary);
            push_str(out, "\n");
            proof {
                reveal_strlit("-");
            }
        }
        assert(out@ =~= old(out)@ + prior_lines(steps@.take(i + 1)));
        i = i + 1;
    }
    assert(steps@.take(steps.len() as int) =~= steps@);
}

/// The heading lines of the current step.
fn heading_text(s: &StepConfig) -> (res: String)
    ensures
        res@ == step_heading(*s),
{
    let mut out = String::new();
    push_str(&mut out, "=== STEP ");
    push_pad3(&mut out, s.number as u64);
    push_str(&mut out, ": ");
    push_str(&mut out, s.slug.as_str());
    push_str(&mut out, " ===\n");
    push_str(&mut out, "Status: ");
    push_str(&mut out, s.status.as_str());
    push_str(&mut out, "\n");
    push_str(&mut out, "Description: ");
    push_str(&mut out, s.description.as_str());
    push_str(&mut out, "\n");
    assert(out@ =~= step_heading(*s));
    out
}

/// Appends the text shown for the current step.
fn push_step_text(
    out: &mut String,
    c: &SagaConfig,
    s: &StepConfig,
    prompt: Option<&str>,
    steps: &Vec<StepOverview>,
)
    ensures
        final(out)@ == old(out)@ + step_text(*c, *s, opt_text(prompt), steps@),
{
    let h = heading_text(s);
    let mut body = String::new();
    match prompt {
        Some(p) => {
            push_str(&mut body, "\n--- Prompt ---\n");
            push_str(&mut body, p);
            push_str(&mut body, "\n");
        },
        None => {},
    }
    assert(body@ =~= prompt_section(opt_text(prompt)));
    let mut ctx = String::new();
    if s.context_files.len() > 0 {
        push_str(&mut ctx, "\n--- Context Files ---\n");
        push_indented_lines(&mut ctx, &s.context_files);
    }
    assert(ctx@ =~= context_section(views(s.context_files@)));
    let mut prior = String::new();
    if has_completed(steps) {
        push_str(&mut prior, "\n--- Prior Steps ---\n");
        push_prior_lines(&mut prior, steps);
    }
    assert(prior@ =~= prior_section(steps@));
    let mut tail = String::new();
    push_str(&mut tail, "\nPlan: ");
    push_str(&mut tail, c.plan_file.as_str());
    push_str(&mut tail, "\n");
    assert(tail@ =~= "\nPlan: "@ + c.plan_file@ + "\n"@);
    push_str(out, h.as_str());
    push_str(out, body.as_str());
    push_str(out, ctx.as_str());
    push_str(out, prior.as_str());
    push_str(out, tail.as_str());
    assert(out@ =~= old(out)@ + step_text(*c, *s, opt_text(prompt), steps@));
}

/// The report of `next` and its exit code: 2 without a saga, 1 for a
/// completed saga, 0 with the first step's or the current step's brief.
pub fn run(
    saga: Option<&SagaConfig>,
    plan: Option<&str>,
    step: Option<&StepConfig>,
    prompt: Option<&str>,
    steps: &Vec<StepOverview>,
) -> (res: Result<(u8, String), Error>)
    ensures
        match next_outcome(opt_saga(saga), opt_text(plan), opt_step(step), opt_text(prompt), steps@) {
            Some((code, text)) => res matches Ok((c, t)) && c == code && t@ == text,
            None => res matches Err(Error::NoCurrentStep),
        },
{
    let mut out = String::new();
    match saga {
        None => {
            push_str(
                &mut out,
                "No saga found. Initialize one with: avoid-compaction init --name <name> --plan <file>\n",
            );
            assert(out@ =~= no_saga_text());
            Ok((2, out))
        },
        Some(c) => {
            if c.status == SagaStatus::Completed {
                push_str(&mut out, "Saga '");
                push_str(&mut out, c.name.as_str());
                push_str(&mut out, "' is complete. No more steps.\n");
                assert(out@ =~= finished_text(*c));
                Ok((1, out))
            } else if c.current_step == 0 {
                push_str(&mut out, "=== FIRST STEP ===\nSaga: ");
                push_str(&mut out, c.name.as_str());
                push_str(&mut out, "\nNo prior context. This is the first step.\nPlan: ");
                push_str(&mut out, c.plan_file.as_str());
                push_str(&mut out, "\n");
                match plan {
                    Some(p) => {
                        push_str(&mut out, "\n--- Plan ---\n");
                        push_str(&mut out, p);
                        push_str(&mut out, "\n");
                    },
                    None => {},
                }
                push_str(&mut out, "\nAction: Review the plan, do the first unit of work, then run:\n");
                push_str(
                    &mut out,
                    "  avoid-compaction complete --transcript <text> --summary <text> \\\n",
                );
                push_str(
                    &mut out,
                    "    --next-slug <slug> --next-prompt <file> --next-context <files>\n",
                );
                assert(out@ =~= first_step_text(*c, opt_text(plan)));
                Ok((0, out))
            } else {
                match step {
                    Some(s) => {
                        push_step_text(&mut out, c, s, prompt, steps);
                        assert(out@ =~= step_text(*c, *s, opt_text(prompt), steps@));
                        Ok((0, out))
                    },
                    None => Err(Error::NoCurrentStep),
                }
            }
        },
    }
}

/// The exit code depends only on whether a saga exists and whether it is
/// complete: the report of `next` always carries `exit_code`.
pub proof fn next_exit_code_law(
    saga: Option<SagaConfig>,
    plan: Option<Seq<char>>,
    step: Option<StepConfig>,
    prompt: Option<Seq<char>>,
    steps: Seq<StepOverview>,
)
    ensures
        next_outcome(saga, plan, step, prompt, steps) matches Some((code, _)) ==> code
            == exit_code(saga),
{
}

} // verus!
