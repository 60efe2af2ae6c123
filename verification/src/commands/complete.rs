//! `complete`: finish the current step (or the planning session before the
//! first step), define the next step, and keep the list of planned steps.
use vstd::prelude::*;
use crate::error::Error;
use crate::step::{
    completed_count, count_completed, is_refusal, opt_view, step_dir_name_of, transition_step,
    StepOverview,
};
use crate::text::{
    decimal, first_line, is_blank, join, lines, lines_of, owned, pad3, push_decimal, push_pad3,
    push_str, starts_with, trim, views, with_newlines,
};
use crate::{iso_stamp, SagaConfig, SagaStatus, StepConfig, StepStatus};

verus! {

/// The flags of `complete`.
pub struct CompleteArgs<'a> {
    pub transcript: Option<&'a str>,
    pub summary: Option<&'a str>,
    pub next_prompt: Option<&'a str>,
    pub next_slug: Option<&'a str>,
    pub next_context: Vec<String>,
    pub planned: Vec<String>,
    pub done: bool,
}

/// What completing decides: the saga record to save, the finished step's
/// record to save (none for the first completion), the number of the step to
/// create, and the planned steps to write.
#[derive(Debug)]
pub struct Completion {
    pub saga: SagaConfig,
    pub finished: Option<StepConfig>,
    pub next_step: Option<u32>,
    pub planned_steps: Option<Vec<String>>,
}

/// The view of an optional string slice.
pub open spec fn opt_text(o: Option<&str>) -> Option<Seq<char>> {
    match o {
        Some(s) => Some(s@),
        None => None,
    }
}

/// Whether the flags define a next step (both `--next-slug` and `--next-prompt`).
pub open spec fn defines_next(args: CompleteArgs) -> bool {
    args.next_slug is Some && args.next_prompt is Some
}

/// The refusal of a first completion that neither finishes the saga nor
/// defines a step.
pub open spec fn first_completion_message() -> Seq<char> {
    "First completion requires --next-slug and --next-prompt to create the first step."@
}

/// Whether a step in this state can be completed (a pending step is begun first).
pub open spec fn can_finish(s: StepStatus) -> bool {
    s == StepStatus::Pending || s == StepStatus::InProgress
}

/// Whether this completion reopens a finished saga: the saga is complete and
/// the flags define a next step without `--done`.
pub open spec fn reopens(config: SagaConfig, args: CompleteArgs) -> bool {
    config.status == SagaStatus::Completed && !args.done && defines_next(args)
}

/// Whether the current step is left as it is: a reopened saga's last step,
/// already completed.
pub open spec fn keeps_current(config: SagaConfig, current: Option<StepConfig>, args: CompleteArgs) -> bool {
    reopens(config, args) && current is Some && current->0.status == StepStatus::Completed
}

/// Whether completing refuses the current step: it is blocked or completed
/// (unless a reopened saga keeps its completed last step).
pub open spec fn refuses_current(config: SagaConfig, current: Option<StepConfig>, args: CompleteArgs) -> bool {
    current is Some && !can_finish(current->0.status) && !keeps_current(config, current, args)
}

/// The finished record of step `s`: completed, with its completion time
/// recorded, and with the transcript saved during this completion, if any.
pub open spec fn finished_step(s: StepConfig, f: StepConfig, transcript_file: Option<String>) -> bool {
    &&& f.status == StepStatus::Completed
    &&& f.completed_at matches Some(t) && iso_stamp(t@)
    &&& f.transcript_file == if transcript_file is Some {
        transcript_file
    } else {
        s.transcript_file
    }
    &&& f.number == s.number
    &&& f.slug == s.slug
    &&& f.description == s.description
    &&& f.context_files == s.context_files
    &&& f.created_at == s.created_at
}

/// A planned step is kept unless it is the step just defined (`slug: ...`).
pub open spec fn keeps(p: Seq<char>, slug: Option<Seq<char>>) -> bool {
    match slug {
        Some(s) => !s.push(':').is_prefix_of(p),
        None => true,
    }
}

/// The planned steps that are kept, in order.
pub open spec fn kept_planned(ps: Seq<Seq<char>>, slug: Option<Seq<char>>) -> Seq<Seq<char>>
    decreases ps.len(),
{
    if ps.len() == 0 {
        Seq::empty()
    } else {
        let rest = kept_planned(ps.drop_last(), slug);
        if keeps(ps.last(), slug) {
            rest.push(ps.last())
        } else {
            rest
        }
    }
}

/// The planned steps to write to `planned-steps.md`: none when no steps are
/// planned or none is left after dropping the step just defined.
pub open spec fn planned_to_save_of(ps: Seq<Seq<char>>, slug: Option<Seq<char>>) -> Option<
    Seq<Seq<char>>,
> {
    if ps.len() == 0 || kept_planned(ps, slug).len() == 0 {
        None
    } else {
        Some(kept_planned(ps, slug))
    }
}

/// The views of an optional list of strings.
pub open spec fn opt_views(o: Option<Vec<String>>) -> Option<Seq<Seq<char>>> {
    match o {
        Some(v) => Some(views(v@)),
        None => None,
    }
}

/// Everything a successful completion decides.
pub open spec fn completion_ok(
    config: SagaConfig,
    current: Option<StepConfig>,
    args: CompleteArgs,
    transcript_file: Option<String>,
    c: Completion,
) -> bool {
    let advances = !args.done && defines_next(args);
    &&& c.saga.name == config.name
    &&& c.saga.created_at == config.created_at
    &&& c.saga.plan_file == config.plan_file
    &&& c.saga.status == if args.done {
        SagaStatus::Completed
    } else if reopens(config, args) {
        SagaStatus::Active
    } else {
        config.status
    }
    &&& c.saga.current_step == if advances {
        config.current_step + 1
    } else {
        config.current_step as int
    }
    &&& c.next_step == if advances {
        Some((config.current_step + 1) as u32)
    } else {
        None
    }
    &&& opt_views(c.planned_steps) == if args.done {
        None
    } else {
        planned_to_save_of(views(args.planned@), opt_text(args.next_slug))
    }
    &&& if config.current_step == 0 || keeps_current(config, current, args) {
        c.finished is None
    } else {
        c.finished matches Some(f) && finished_step(current->0, f, transcript_file)
    }
}

/// The planned steps to write, without the step just defined.
pub fn planned_to_save(planned: &Vec<String>, next_slug: Option<&str>) -> (res: Option<
    Vec<String>,
>)
    ensures
        opt_views(res) == planned_to_save_of(views(planned@), opt_text(next_slug)),
{
    let ghost slug = opt_text(next_slug);
    let marker: Option<String> = match next_slug {
        Some(s) => {
            let mut m = owned(s);
            crate::text::push_char(&mut m, ':');
            Some(m)
        },
        None => None,
    };
    let mut kept: Vec<String> = Vec::new();
    let mut i: usize = 0;
    while i < planned.len()
        invariant
            i <= planned.len(),
            slug == opt_text(next_slug),
            match marker {
                Some(m) => slug matches Some(s) && m@ == s.push(':'),
                None => slug is None,
            },
            views(kept@) == kept_planned(views(planned@).take(i as int), slug),
        decreases planned.len() - i,
    {
        proof {
            let t = views(planned@).take(i + 1);
            assert(t.drop_last() =~= views(planned@).take(i as int));
            assert(t.last() == planned@[i as int]@);
        }
        let keep = match &marker {
            Some(m) => !starts_with(planned[i].as_str(), m.as_str()),
            None => true,
        };
        if keep {
            let ghost before = views(kept@);
            kept.push(owned(planned[i].as_str()));
            assert(views(kept@) =~= before.push(planned@[i as int]@));
        }
        i = i + 1;
    }
    assert(views(planned@).take(planned.len() as int) =~= views(planned@));
    if planned.len() == 0 || kept.len() == 0 {
        None
    } else {
        Some(kept)
    }
}

/// No planned step that stays starts with the slug of the step just
/// defined, and every one that stays was planned.
pub proof fn defined_step_leaves_plan(ps: Seq<Seq<char>>, slug: Seq<char>)
    ensures
        forall|i: int|
            0 <= i < kept_planned(ps, Some(slug)).len() ==> !slug.push(':').is_prefix_of(
                #[trigger] kept_planned(ps, Some(slug))[i],
            ),
        forall|i: int|
            0 <= i < kept_planned(ps, Some(slug)).len() ==> ps.contains(
                #[trigger] kept_planned(ps, Some(slug))[i],
            ),
    decreases ps.len(),
{
    if ps.len() > 0 {
        defined_step_leaves_plan(ps.drop_last(), slug);
        let rest = kept_planned(ps.drop_last(), Some(slug));
        assert forall|i: int| 0 <= i < rest.len() implies ps.contains(#[trigger] rest[i]) by {
            let j = choose|j: int| 0 <= j < ps.drop_last().len() && ps.drop_last()[j] == rest[i];
            assert(ps[j] == rest[i]);
        }
        assert(ps[ps.len() - 1] == ps.last());
    }
}

/// Whether a planned entry is not the step with slug `slug` (does not start
/// with `slug:`).
pub open spec fn not_entry_of(slug: Seq<char>) -> spec_fn(Seq<char>) -> bool {
    |p: Seq<char>| !slug.push(':').is_prefix_of(p)
}

/// The planned steps kept are exactly the given ones without those starting
/// with `slug:`, in their order: with a defined slug the list is the given
/// list filtered, without one it is the given list. What is saved is that
/// list, unless it is empty.
pub proof fn planned_steps_are_filtered(ps: Seq<Seq<char>>, slug: Seq<char>)
    ensures
        kept_planned(ps, Some(slug)) == ps.filter(not_entry_of(slug)),
        kept_planned(ps, None) == ps,
        planned_to_save_of(ps, Some(slug)) == if ps.filter(not_entry_of(slug)).len() == 0 {
            None
        } else {
            Some(ps.filter(not_entry_of(slug)))
        },
        planned_to_save_of(ps, None) == if ps.len() == 0 {
            None
        } else {
            Some(ps)
        },
    decreases ps.len(),
{
    if ps.len() == 0 {
        assert(ps.filter(not_entry_of(slug)) =~= ps) by {
            reveal(Seq::filter);
        }
    } else {
        let init = ps.drop_last();
        planned_steps_are_filtered(init, slug);
        init.lemma_filter_push(ps.last(), not_entry_of(slug));
        assert(init.push(ps.last()) =~= ps);
        assert(kept_planned(ps, None) =~= ps);
    }
}

/// The description a new step gets: the first line of its prompt, or its slug
/// when the prompt has no lines.
pub open spec fn description_of(prompt: Seq<char>, slug: Seq<char>) -> Seq<char> {
    if lines(prompt).len() > 0 {
        lines(prompt)[0]
    } else {
        slug
    }
}

/// The description of a new step.
pub fn step_description(prompt: &str, slug: &str) -> (res: String)
    ensures
        res@ == description_of(prompt@, slug@),
{
    match first_line(prompt) {
        Some(l) => l,
        None => owned(slug),
    }
}

/// Completes a step: finishes the current step, or the planning session
/// when no step exists yet, and decides what to save. `current` is the
/// record of the current step as loaded, `transcript_file` the name of the
/// transcript saved during this completion, if any.
///
/// - With `--done` the saga is marked complete and nothing else changes.
/// - Otherwise `--next-slug` with `--next-prompt` defines the next step,
///   numbered one after the current one; the first completion must define
///   one, a later one only warns.
/// - A pending step is begun before it is completed; a blocked or completed
///   step cannot be completed.
/// - A completed saga is reopened by defining a next step: it becomes active
///   again, and its last step, already completed, is left as it is.
pub fn run(
    config: SagaConfig,
    current: Option<StepConfig>,
    args: &CompleteArgs,
    transcript_file: Option<String>,
) -> (res: Result<Completion, Error>)
    requires
        config.current_step < u32::MAX || args.done || !defines_next(*args) || current is None
            || refuses_current(config, current, *args),
    ensures
        config.current_step == 0 ==> (res is Err <==> (!args.done && !defines_next(*args))),
        config.current_step == 0 && res is Err ==> (res matches Err(Error::Other(m)) && m@
            == first_completion_message()),
        config.current_step != 0 ==> (res is Err <==> (current is None || refuses_current(
            config,
            current,
            *args,
        ))),
        config.current_step != 0 && current is None ==> res matches Err(Error::NoCurrentStep),
        config.current_step != 0 && refuses_current(config, current, *args) ==> (res matches Err(
            e,
        ) && is_refusal(e, current->0.status, StepStatus::Completed)),
        res matches Ok(c) ==> completion_ok(config, current, *args, transcript_file, c),
{
    let mut saga = config;
    let first = saga.current_step == 0;
    let defines = args.next_slug.is_some() && args.next_prompt.is_some();
    let reopening = saga.status == SagaStatus::Completed && !args.done && defines;
    let mut finished: Option<StepConfig> = None;
    if first {
        if !args.done && !(args.next_slug.is_some() && args.next_prompt.is_some()) {
            return Err(
                Error::Other(
                    owned(
                        "First completion requires --next-slug and --next-prompt to create the first step.",
                    ),
                ),
            );
        }
    } else {
        let mut s = match current {
            Some(s) => s,
            None => {
                return Err(Error::NoCurrentStep);
            },
        };
        let ghost given = s;
        let keep = reopening && s.status == StepStatus::Completed;
        if !keep {
            if s.status == StepStatus::Pending {
                let r = transition_step(&mut s, StepStatus::InProgress);
                assert(r is Ok);
            }
            let ghost begun = s;
            match transcript_file {
                Some(f) => {
                    s.transcript_file = Some(f);
                },
                None => {},
            }
            let r = transition_step(&mut s, StepStatus::Completed);
            match r {
                Err(e) => {
                    assert(begun.status == given.status);
                    return Err(e);
                },
                Ok(()) => {},
            }
            finished = Some(s);
        }
    }
    if reopening {
        saga.status = SagaStatus::Active;
    }
    if args.done {
        saga.status = SagaStatus::Completed;
        return Ok(Completion { saga, finished, next_step: None, planned_steps: None });
    }
    let mut next_step: Option<u32> = None;
    if args.next_slug.is_some() && args.next_prompt.is_some() {
        let next = saga.current_step + 1;
        saga.current_step = next;
        next_step = Some(next);
    }
    let planned_steps = planned_to_save(&args.planned, args.next_slug);
    Ok(Completion { saga, finished, next_step, planned_steps })
}

// ---------------------------------------------------------------------------
// The status shown after a completion
// ---------------------------------------------------------------------------
/// What a listing shows for a completed step: the first line of its summary,
/// `(done)` for an empty summary, `(no summary)` when there is none.
pub open spec fn summary_first_line(summary: Option<Seq<char>>) -> Seq<char> {
    match summary {
        Some(c) => if lines(c).len() > 0 {
            lines(c)[0]
        } else {
            "(done)"@
        },
        None => "(no summary)"@,
    }
}

/// The line of one step in the status list: `[x]` and the summary for a
/// completed step, `[ ]` and the description for any other.
pub open spec fn status_line(o: StepOverview) -> Seq<char> {
    let label = step_dir_name_of(o.step.number as nat, o.step.slug@);
    if o.step.status == StepStatus::Completed {
        "  [x] "@ + label + ": "@ + summary_first_line(opt_view(o.summary)) + "\n"@
    } else {
        "  [ ] "@ + label + ": "@ + o.step.description@ + "\n"@
    }
}

/// The lines of all steps, in order.
pub open spec fn status_lines(steps: Seq<StepOverview>) -> Seq<char>
    decreases steps.len(),
{
    if steps.len() == 0 {
        Seq::empty()
    } else {
        status_lines(steps.drop_last()) + status_line(steps.last())
    }
}

/// The planned steps as the status list shows them: each non-blank line as
/// `( ) line  (planned)`.
pub open spec fn planned_lines(ls: Seq<Seq<char>>) -> Seq<char>
    decreases ls.len(),
{
    if ls.len() == 0 {
        Seq::empty()
    } else {
        planned_lines(ls.drop_last()) + if trim(ls.last()).len() == 0 {
            Seq::empty()
        } else {
            "  ( ) "@ + ls.last() + "  (planned)\n"@
        }
    }
}

/// The planned-steps lines for the text of `planned-steps.md`, if it was read.
pub open spec fn planned_section(planned: Option<Seq<char>>) -> Seq<char> {
    match planned {
        Some(c) => planned_lines(lines(c)),
        None => Seq::empty(),
    }
}

/// The closing lines: the saga is finished, or which step is next.
pub open spec fn restart_footer(config: SagaConfig, done: nat) -> Seq<char> {
    if config.status == SagaStatus::Completed {
        "Saga '"@ + config.name@ + "' is finished. All "@ + decimal(done) + " step(s) complete.\n"@
    } else {
        decimal(done) + " step(s) complete. Next up: step "@ + pad3(config.current_step as nat)
            + ".\n"@ + "You may Ctrl-C and restart. Give the new agent: avoid-compaction next\n"@
    }
}

/// The status shown after a completion.
pub open spec fn restart_text(
    config: SagaConfig,
    steps: Seq<StepOverview>,
    planned: Option<Seq<char>>,
) -> Seq<char> {
    "\n=== Status ===\n"@ + status_lines(steps) + planned_section(planned) + "\n"@
        + restart_footer(config, completed_count(steps))
}

/// Every step has its line in the status list, whatever its status: adding a
/// step keeps the lines before it and adds a line marked `[x]` for a
/// completed step and `[ ]` for any other, followed by the step's directory
/// name.
pub proof fn status_lists_every_step(steps: Seq<StepOverview>, o: StepOverview)
    ensures
        status_lines(steps).is_prefix_of(status_lines(steps.push(o))),
        ((if o.step.status == StepStatus::Completed {
            "  [x] "@
        } else {
            "  [ ] "@
        }) + step_dir_name_of(o.step.number as nat, o.step.slug@) + ": "@).is_prefix_of(
            status_lines(steps.push(o)).skip(status_lines(steps).len() as int),
        ),
{
    assert(steps.push(o).drop_last() =~= steps);
    let a = status_lines(steps);
    let t = status_lines(steps.push(o));
    assert(t == a + status_line(o));
    assert(t.subrange(0, a.len() as int) =~= a);
    let m = (if o.step.status == StepStatus::Completed {
        "  [x] "@
    } else {
        "  [ ] "@
    }) + step_dir_name_of(o.step.number as nat, o.step.slug@) + ": "@;
    assert(t.skip(a.len() as int) =~= status_line(o));
    assert(status_line(o).subrange(0, m.len() as int) =~= m);
}

/// Whether a planned-steps line has text other than whitespace.
pub open spec fn non_blank() -> spec_fn(Seq<char>) -> bool {
    |l: Seq<char>| trim(l).len() > 0
}

/// The planned steps shown are the non-blank lines of the file, each on a
/// line of its own: blank lines show nothing, every other line adds a line.
pub proof fn planned_shows_non_blank_lines(ls: Seq<Seq<char>>)
    ensures
        planned_lines(ls) == planned_lines(ls.filter(non_blank())),
        forall|s: Seq<Seq<char>>, l: Seq<char>|
            trim(l).len() == 0 ==> #[trigger] planned_lines(s.push(l)) == planned_lines(s),
        forall|s: Seq<Seq<char>>, l: Seq<char>|
            trim(l).len() > 0 ==> #[trigger] planned_lines(s.push(l)) == planned_lines(s) + "  ( ) "@
                + l + "  (planned)\n"@,
    decreases ls.len(),
{
    assert forall|s: Seq<Seq<char>>, l: Seq<char>|
        trim(l).len() == 0 implies #[trigger] planned_lines(s.push(l)) == planned_lines(s) by {
        assert(s.push(l).drop_last() =~= s);
        assert(planned_lines(s) + Seq::<char>::empty() =~= planned_lines(s));
    }
    assert forall|s: Seq<Seq<char>>, l: Seq<char>|
        trim(l).len() > 0 implies #[trigger] planned_lines(s.push(l)) == planned_lines(s) + "  ( ) "@
        + l + "  (planned)\n"@ by {
        assert(s.push(l).drop_last() =~= s);
        assert(planned_lines(s.push(l)) =~= planned_lines(s) + "  ( ) "@ + l + "  (planned)\n"@);
    }
    if ls.len() == 0 {
        assert(ls.filter(non_blank()) =~= ls) by {
            reveal(Seq::filter);
        }
    } else {
        let init = ls.drop_last();
        planned_shows_non_blank_lines(init);
        init.lemma_filter_push(ls.last(), non_blank());
        assert(init.push(ls.last()) =~= ls);
    }
}

/// Appends the planned-steps lines of `content`.
pub fn push_planned_lines(out: &mut String, content: &str)
    ensures
        final(out)@ == old(out)@ + planned_lines(lines(content@)),
{
    let ls = lines_of(content);
    let mut i: usize = 0;
    while i < ls.len()
        invariant
            i <= ls.len(),
            views(ls@) == lines(content@),
            out@ == old(out)@ + planned_lines(views(ls@).take(i as int)),
        decreases ls.len() - i,
    {
        let ghost before = out@;
        proof {
            let t = views(ls@).take(i + 1);
            assert(t.drop_last() =~= views(ls@).take(i as int));
            assert(t.last() == ls@[i as int]@);
        }
        if !is_blank(ls[i].as_str()) {
            push_str(out, "  ( ) ");
            push_str(out, ls[i].as_str());
            push_str(out, "  (planned)\n");
        }
        assert(out@ =~= old(out)@ + planned_lines(views(ls@).take(i + 1)));
        i = i + 1;
    }
    assert(views(ls@).take(ls.len() as int) =~= views(ls@));
}

/// Appends the first line of a summary (or its stand-in).
pub fn push_summary_first_line(out: &mut String, summary: &Option<String>)
    ensures
        final(out)@ == old(out)@ + summary_first_line(opt_view(*summary)),
{
    match summary {
        Some(c) => match first_line(c.as_str()) {
            Some(l) => push_str(out, l.as_str()),
            None => push_str(out, "(done)"),
        },
        None => push_str(out, "(no summary)"),
    }
}

/// The status shown after a completion: every step with its mark, the
/// planned steps, and how many steps are complete and which comes next.
/// `planned` is the text of `planned-steps.md`, if it could be read.
pub fn restart_message(config: &SagaConfig, steps: &Vec<StepOverview>, planned: Option<&str>) -> (res:
    String)
    ensures
        res@ == restart_text(*config, steps@, opt_text(planned)),
{
    let mut out = String::new();
    push_str(&mut out, "\n=== Status ===\n");
    let mut i: usize = 0;
    while i < steps.len()
        invariant
            i <= steps.len(),
            out@ == "\n=== Status ===\n"@ + status_lines(steps@.take(i as int)),
        decreases steps.len() - i,
    {
        let ghost before = out@;
        proof {
            assert(steps@.take(i + 1).drop_last() =~= steps@.take(i as int));
        }
        let o = &steps[i];
        if o.step.status == StepStatus::Completed {
            push_str(&mut out, "  [x] ");
            push_pad3(&mut out, o.step.number as u64);
            push_str(&mut out, "-");
            push_str(&mut out, o.step.slug.as_str());
            push_str(&mut out, ": ");
            push_summary_first_line(&mut out, &o.summary);
            push_str(&mut out, "\n");
        } else {
            push_str(&mut out, "  [ ] ");
            push_pad3(&mut out, o.step.number as u64);
            push_str(&mut out, "-");
            push_str(&mut out, o.step.slug.as_str());
            push_str(&mut out, ": ");
            push_str(&mut out, o.step.description.as_str());
            push_str(&mut out, "\n");
        }
        proof {
            reveal_strlit("-");
            assert(out@ =~= before + status_line(*o));
        }
        i = i + 1;
    }
    assert(steps@.take(steps.len() as int) =~= steps@);
    match planned {
        Some(c) => push_planned_lines(&mut out, c),
        None => {},
    }
    push_str(&mut out, "\n");
    let done = count_completed(steps);
    if config.status == SagaStatus::Completed {
        push_str(&mut out, "Saga '");
        push_str(&mut out, config.name.as_str());
        push_str(&mut out, "' is finished. All ");
        push_decimal(&mut out, done as u64);
        push_str(&mut out, " step(s) complete.\n");
    } else {
        push_decimal(&mut out, done as u64);
        push_str(&mut out, " step(s) complete. Next up: step ");
        push_pad3(&mut out, config.current_step as u64);
        push_str(&mut out, ".\n");
        push_str(&mut out, "You may Ctrl-C and restart. Give the new agent: avoid-compaction next\n");
    }
    assert(out@ =~= restart_text(*config, steps@, opt_text(planned)));
    out
}

} // verus!
