//! `history`: every step with the start of its summary.
use vstd::prelude::*;
use crate::step::{opt_view, step_dir_name_of, StepOverview};
use crate::text::{
    lemma_lines_count_with_newlines, lemma_lines_hold_no_newline, lines, lines_of, no_newline, pad3,
    push_pad3, push_str, views, with_newlines,
};
use crate::{saga_status_name, step_status_name, SagaConfig};

verus! {

/// Each line indented by four spaces.
pub open spec fn summary_lines(ls: Seq<Seq<char>>) -> Seq<char>
    decreases ls.len(),
{
    if ls.len() == 0 {
        Seq::empty()
    } else {
        summary_lines(ls.drop_last()) + "    "@ + ls.last() + "\n"@
    }
}

/// The first five lines of a summary, indented; nothing without a summary.
pub open spec fn summary_excerpt(summary: Option<Seq<char>>) -> Seq<char> {
    match summary {
        Some(c) => summary_lines(
            if lines(c).len() < 5 {
                lines(c)
            } else {
                lines(c).take(5)
            },
        ),
        None => Seq::empty(),
    }
}

/// The entry of one step: label and status, description, summary excerpt,
/// and a blank line.
pub open spec fn history_entry(o: StepOverview) -> Seq<char> {
    step_dir_name_of(o.step.number as nat, o.step.slug@) + " ["@ + step_status_name(o.step.status)
        + "]\n"@ + "  "@ + o.step.description@ + "\n"@ + summary_excerpt(opt_view(o.summary))
        + "\n"@
}

/// The entries of all steps, in order.
pub open spec fn history_entries(steps: Seq<StepOverview>) -> Seq<char>
    decreases steps.len(),
{
    if steps.len() == 0 {
        Seq::empty()
    } else {
        history_entries(steps.drop_last()) + history_entry(steps.last())
    }
}

/// Every step has its entry in the history, whatever its status: each step
/// added to the list adds its entry, headed by its directory name and
/// status, after the entries before it; so for a list of steps the history
/// holds one entry per step, in order.
pub proof fn history_lists_every_step(steps: Seq<StepOverview>, o: StepOverview)
    ensures
        history_entries(steps.push(o)) == history_entries(steps) + history_entry(o),
        history_entries(steps.push(o)).len() > history_entries(steps).len(),
        (step_dir_name_of(o.step.number as nat, o.step.slug@) + " ["@ + step_status_name(
            o.step.status,
        ) + "]\n"@).is_prefix_of(history_entry(o)),
        history_entries(seq![o]) == history_entry(o),
        steps.len() > 0 ==> history_entries(steps).len() > 0,
{
    assert(steps.push(o).drop_last() =~= steps);
    assert(seq![o].drop_last() =~= Seq::<StepOverview>::empty());
    assert(history_entries(Seq::<StepOverview>::empty()) =~= Seq::<char>::empty());
    assert(seq![o].last() == o);
    assert(history_entries(seq![o]) =~= history_entry(o));
    let h = step_dir_name_of(o.step.number as nat, o.step.slug@) + " ["@ + step_status_name(
        o.step.status,
    ) + "]\n"@;
    assert(history_entry(o).subrange(0, h.len() as int) =~= h);
    if steps.len() > 0 {
        assert(steps.drop_last().push(steps.last()) =~= steps);
    }
}

/// The text of `history`.
pub open spec fn history_text(config: SagaConfig, steps: Seq<StepOverview>) -> Seq<char> {
    "=== History: "@ + config.name@ + " ===\n"@ + "Status: "@ + saga_status_name(config.status)
        + "\n\n"@ + if steps.len() == 0 {
        "No steps recorded yet.\n"@
    } else {
        history_entries(steps)
    }
}

/// Each of `ls` indented by four spaces.
pub open spec fn indented4(ls: Seq<Seq<char>>) -> Seq<Seq<char>> {
    ls.map_values(|l: Seq<char>| "    "@ + l)
}

proof fn lemma_summary_lines_written(ls: Seq<Seq<char>>)
    ensures
        summary_lines(ls) == with_newlines(indented4(ls)),
    decreases ls.len(),
{
    if ls.len() > 0 {
        lemma_summary_lines_written(ls.drop_last());
        assert(indented4(ls).drop_last() =~= indented4(ls.drop_last()));
        assert(indented4(ls).last() == "    "@ + ls.last());
    } else {
        assert(indented4(ls) =~= Seq::<Seq<char>>::empty());
    }
}

/// A step's summary excerpt is its first five lines (all of them when it
/// has fewer), each indented by four spaces and ended with a newline, so it
/// reads back as exactly that many lines.
pub proof fn excerpt_is_first_five_lines(c: Seq<char>)
    ensures
        summary_excerpt(None) == Seq::<char>::empty(),
        summary_excerpt(Some(c)) == with_newlines(
            indented4(lines(c).take(if lines(c).len() < 5 { lines(c).len() as int } else { 5 })),
        ),
        lines(summary_excerpt(Some(c))).len() == if lines(c).len() < 5 {
            lines(c).len()
        } else {
            5
        },
{
    reveal_strlit("    ");
    let ls = lines(c);
    let k: int = if ls.len() < 5 { ls.len() as int } else { 5 };
    if ls.len() < 5 {
        assert(ls.take(k) =~= ls);
    }
    lemma_summary_lines_written(ls.take(k));
    lemma_lines_hold_no_newline(c);
    let w = indented4(ls.take(k));
    assert forall|i: int| 0 <= i < w.len() implies no_newline(#[trigger] w[i]) by {
        assert(w[i] == "    "@ + ls[i]);
        assert forall|j: int| 0 <= j < w[i].len() implies #[trigger] w[i][j] != '\n' by {
            if j >= 4 {
                assert(w[i][j] == lines(c)[i][j - 4]);
            }
        }
    }
    lemma_lines_count_with_newlines(w);
}

/// The summary excerpt of a step.
fn summary_excerpt_text(summary: &Option<String>) -> (res: String)
    ensures
        res@ == summary_excerpt(opt_view(*summary)),
{
    let mut out = String::new();
    match summary {
        Some(c) => {
            let ls = lines_of(c.as_str());
            let k = if ls.len() < 5 {
                ls.len()
            } else {
                5
            };
            let mut i: usize = 0;
            while i < k
                invariant
                    i <= k <= ls.len(),
                    views(ls@) == lines(c@),
                    out@ == summary_lines(views(ls@).take(i as int)),
                decreases k - i,
            {
                let ghost before = out@;
                proof {
                    let t = views(ls@).take(i + 1);
                    assert(t.drop_last() =~= views(ls@).take(i as int));
                    assert(t.last() == ls@[i as int]@);
                }
                push_str(&mut out, "    ");
                push_str(&mut out, ls[i].as_str());
                push_str(&mut out, "\n");
                assert(out@ =~= before + "    "@ + ls@[i as int]@ + "\n"@);
                i = i + 1;
            }
            proof {
                if ls.len() < 5 {
                    assert(views(ls@).take(k as int) =~= views(ls@));
                }
            }
        },
        None => {},
    }
    out
}

/// The entry of one step.
fn entry_text(o: &StepOverview) -> (res: String)
    ensures
        res@ == history_entry(*o),
{
    let mut out = String::new();
    push_pad3(&mut out, o.step.number as u64);
    push_str(&mut out, "-");
    push_str(&mut out, o.step.slug.as_str());
    push_str(&mut out, " [");
    push_str(&mut out, o.step.status.as_str());
    push_str(&mut out, "]\n");
    push_str(&mut out, "  ");
    push_str(&mut out, o.step.description.as_str());
    push_str(&mut out, "\n");
    let ex = summary_excerpt_text(&o.summary);
    push_str(&mut out, ex.as_str());
    push_str(&mut out, "\n");
    proof {
        reveal_strlit("-");
    }
    assert(out@ =~= history_entry(*o));
    out
}

/// Renders `history` for the saga and all its steps with their summaries.
pub fn run(config: &SagaConfig, steps: &Vec<StepOverview>) -> (res: String)
    ensures
        res@ == history_text(*config, steps@),
{
    let mut out = String::new();
    push_str(&mut out, "=== History: ");
    push_str(&mut out, config.name.as_str());
    push_str(&mut out, " ===\n");
    push_str(&mut out, "Status: ");
    push_str(&mut out, config.status.as_str());
    push_str(&mut out, "\n\n");
    let ghost head = out@;
    if steps.len() == 0 {
        push_str(&mut out, "No steps recorded yet.\n");
    } else {
        let mut i: usize = 0;
        while i < steps.len()
            invariant
                i <= steps.len(),
                out@ == head + history_entries(steps@.take(i as int)),
            decreases steps.len() - i,
        {
            let ghost before = out@;
            proof {
                assert(steps@.take(i + 1).drop_last() =~= steps@.take(i as int));
            }
            let e = entry_text(&steps[i]);
            push_str(&mut out, e.as_str());
            assert(out@ =~= head + history_entries(steps@.take(i + 1)));
            i = i + 1;
        }
        assert(steps@.take(steps.len() as int) =~= steps@);
    }
    assert(out@ =~= history_text(*config, steps@));
    out
}

} // verus!
