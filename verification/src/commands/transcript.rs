//! `transcript`: show the transcript of a step, the latest session snapshot,
//! or the latest transcript saved by hand.
use vstd::prelude::*;
use crate::order::{names_descending, sort_names_descending};
use crate::session::is_legacy_transcript;
use crate::text::{decimal, indented_lines, pad3, push_decimal, push_indented_range, push_pad3, push_str, views};
use crate::StepConfig;

verus! {

broadcast use vstd::seq_lib::group_to_multiset_ensures;

/// What `transcript` shows, as gathered from the saga directory.
pub enum TranscriptView {
    /// The transcript of step `number`, whose record is `step`; `content` is
    /// the text of its transcript file, when it has one and the file exists.
    Step { number: u32, step: StepConfig, content: Option<String> },
    /// The session snapshots, oldest first, and the conversation of the newest.
    Session { ordered: Vec<String>, conversation: String },
    /// The transcripts saved by hand, newest first, and the text of the newest.
    Legacy { saga_name: String, ordered: Vec<String>, latest: String },
}

/// The text of `transcript` for a step.
pub open spec fn step_transcript_text(number: u32, step: StepConfig, content: Option<Seq<char>>) -> Seq<
    char,
> {
    match (step.transcript_file, content) {
        (Some(_), Some(c)) => "=== Transcript for step "@ + pad3(step.number as nat) + "-"@
            + step.slug@ + " ===\n"@ + c + "\n"@,
        _ => "No transcript found for step "@ + pad3(number as nat) + ".\n"@,
    }
}

/// The text of `transcript` for the session snapshots (oldest first): the
/// conversation of the newest, then the names of the others.
pub open spec fn session_text(ordered: Seq<Seq<char>>, conversation: Seq<char>) -> Seq<char> {
    let n = ordered.len();
    if n == 0 {
        Seq::empty()
    } else {
        "=== Session Transcript ("@ + ordered[n - 1] + ") ===\n\n"@ + if conversation.len() == 0 {
            "(no user/assistant messages found)\n"@
        } else {
            conversation + "\n"@
        } + if n > 1 {
            "--- "@ + decimal((n - 1) as nat) + " more session snapshot(s) available ---\n"@
                + indented_lines(ordered.take(n - 1))
        } else {
            Seq::empty()
        }
    }
}

/// The text of `transcript` for the transcripts saved by hand (newest first).
pub open spec fn legacy_text(saga_name: Seq<char>, ordered: Seq<Seq<char>>, latest: Seq<char>) -> Seq<
    char,
> {
    let n = ordered.len();
    if n == 0 {
        "No transcripts found for saga '"@ + saga_name + "'.\n"@
    } else {
        "=== Latest Transcript ("@ + ordered[0] + ") ===\n"@ + latest + "\n"@ + if n > 1 {
            "\n--- "@ + decimal((n - 1) as nat) + " more transcript(s) available ---\n"@
                + indented_lines(ordered.skip(1))
        } else {
            Seq::empty()
        }
    }
}

/// The newest snapshot's conversation is shown right after its header when
/// it has any text; the stand-in line is shown only for an empty
/// conversation.
pub proof fn session_shows_conversation(ordered: Seq<Seq<char>>, conversation: Seq<char>)
    requires
        ordered.len() > 0,
    ensures
        ({
            let header = "=== Session Transcript ("@ + ordered.last() + ") ===\n\n"@;
            &&& conversation.len() > 0 ==> (header + conversation + "\n"@).is_prefix_of(
                session_text(ordered, conversation),
            )
            &&& conversation.len() == 0 ==> (header
                + "(no user/assistant messages found)\n"@).is_prefix_of(
                session_text(ordered, conversation),
            )
        }),
{
    let header = "=== Session Transcript ("@ + ordered.last() + ") ===\n\n"@;
    let t = session_text(ordered, conversation);
    let p = if conversation.len() > 0 {
        header + conversation + "\n"@
    } else {
        header + "(no user/assistant messages found)\n"@
    };
    assert(ordered[ordered.len() - 1] == ordered.last());
    assert(t.subrange(0, p.len() as int) =~= p);
}

/// The other snapshots are all listed, oldest first, at the end of the
/// session transcript: every one but the newest, each on a line of its own.
pub proof fn session_lists_older_snapshots(ordered: Seq<Seq<char>>, conversation: Seq<char>)
    requires
        ordered.len() > 1,
    ensures
        indented_lines(ordered.take(ordered.len() - 1)).is_suffix_of(
            session_text(ordered, conversation),
        ),
{
    let t = session_text(ordered, conversation);
    let x = indented_lines(ordered.take(ordered.len() - 1));
    assert(t.subrange(t.len() - x.len(), t.len() as int) =~= x);
}

/// The newest transcript saved by hand is shown first with its text, and all
/// the others are listed after it, newest first.
pub proof fn legacy_shows_newest_and_lists_others(
    saga_name: Seq<char>,
    ordered: Seq<Seq<char>>,
    latest: Seq<char>,
)
    requires
        ordered.len() > 0,
    ensures
        ("=== Latest Transcript ("@ + ordered[0] + ") ===\n"@ + latest + "\n"@).is_prefix_of(
            legacy_text(saga_name, ordered, latest),
        ),
        ordered.len() > 1 ==> indented_lines(ordered.skip(1)).is_suffix_of(
            legacy_text(saga_name, ordered, latest),
        ),
{
    let t = legacy_text(saga_name, ordered, latest);
    let p = "=== Latest Transcript ("@ + ordered[0] + ") ===\n"@ + latest + "\n"@;
    assert(t.subrange(0, p.len() as int) =~= p);
    if ordered.len() > 1 {
        let x = indented_lines(ordered.skip(1));
        assert(t.subrange(t.len() - x.len(), t.len() as int) =~= x);
    }
}

/// The text `transcript` shows.
pub open spec fn transcript_text(view: TranscriptView) -> Seq<char> {
    match view {
        TranscriptView::Step { number, step, content } => step_transcript_text(
            number,
            step,
            match content {
                Some(c) => Some(c@),
                None => None,
            },
        ),
        TranscriptView::Session { ordered, conversation } => session_text(
            views(ordered@),
            conversation@,
        ),
        TranscriptView::Legacy { saga_name, ordered, latest } => legacy_text(
            saga_name@,
            views(ordered@),
            latest@,
        ),
    }
}

/// Renders what `transcript` shows.
pub fn run(view: &TranscriptView) -> (res: String)
    ensures
        res@ == transcript_text(*view),
{
    let mut out = String::new();
    match view {
        TranscriptView::Step { number, step, content } => {
            match (&step.transcript_file, content) {
                (Some(_), Some(c)) => {
                    push_str(&mut out, "=== Transcript for step ");
                    push_pad3(&mut out, step.number as u64);
                    push_str(&mut out, "-");
                    push_str(&mut out, step.slug.as_str());
                    push_str(&mut out, " ===\n");
                    push_str(&mut out, c.as_str());
                    push_str(&mut out, "\n");
                },
                _ => {
                    push_str(&mut out, "No transcript found for step ");
                    push_pad3(&mut out, *number as u64);
                    push_str(&mut out, ".\n");
                },
            }
        },
        TranscriptView::Session { ordered, conversation } => {
            let n = ordered.len();
            if n > 0 {
                push_str(&mut out, "=== Session Transcript (");
                push_str(&mut out, ordered[n - 1].as_str());
                push_str(&mut out, ") ===\n\n");
                let ghost head = out@;
                if conversation.as_str().is_empty() {
                    push_str(&mut out, "(no user/assistant messages found)\n");
                } else {
                    push_str(&mut out, conversation.as_str());
                    push_str(&mut out, "\n");
                }
                let ghost mid = out@;
                if n > 1 {
                    let mut more = String::new();
                    push_str(&mut more, "--- ");
                    push_decimal(&mut more, (n - 1) as u64);
                    push_str(&mut more, " more session snapshot(s) available ---\n");
                    push_indented_range(&mut more, ordered, 0, n - 1);
                    assert(views(ordered@).subrange(0, n - 1) =~= views(ordered@).take(n - 1));
                    push_str(&mut out, more.as_str());
                }
            }
        },
        TranscriptView::Legacy { saga_name, ordered, latest } => {
            let n = ordered.len();
            if n == 0 {
                push_str(&mut out, "No transcripts found for saga '");
                push_str(&mut out, saga_name.as_str());
                push_str(&mut out, "'.\n");
            } else {
                push_str(&mut out, "=== Latest Transcript (");
                push_str(&mut out, ordered[0].as_str());
                push_str(&mut out, ") ===\n");
                push_str(&mut out, latest.as_str());
                push_str(&mut out, "\n");
                if n > 1 {
                    let mut more = String::new();
                    push_str(&mut more, "\n--- ");
                    push_decimal(&mut more, (n - 1) as u64);
                    push_str(&mut more, " more transcript(s) available ---\n");
                    push_indented_range(&mut more, ordered, 1, n);
                    assert(views(ordered@).subrange(1, n as int) =~= views(ordered@).skip(1));
                    push_str(&mut out, more.as_str());
                }
            }
        },
    }
    proof {
        reveal_strlit("-");
    }
    assert(out@ =~= transcript_text(*view));
    out
}

/// The transcripts saved by hand among the names of the saga directory:
/// only `*-transcript.txt`, newest (last by name) first.
pub fn order_legacy(names: Vec<String>) -> (res: Vec<String>)
    ensures
        res@.to_multiset() == names@.filter(|n: String| "-transcript.txt"@.is_suffix_of(n@)).to_multiset(),
        names_descending(res@),
{
    let mut kept: Vec<String> = Vec::new();
    let mut rest = names;
    let ghost given = rest@;
    let ghost pred = |n: String| "-transcript.txt"@.is_suffix_of(n@);
    let mut i: usize = 0;
    assert(given.len() == rest.len());
    assert(given.take(0).filter(pred) =~= Seq::<String>::empty());
    while rest.len() > 0
        invariant
            given.len() <= usize::MAX,
            i + rest.len() == given.len(),
            rest@ == given.skip(i as int),
            kept@ == given.take(i as int).filter(pred),
            pred == (|n: String| "-transcript.txt"@.is_suffix_of(n@)),
        decreases rest.len(),
    {
        let n = rest.remove(0);
        proof {
            assert(n == given[i as int]);
            assert(rest@ =~= given.skip(i + 1));
            assert(given.take(i + 1).drop_last() =~= given.take(i as int));
            reveal_with_fuel(Seq::filter, 1);
        }
        if is_legacy_transcript(n.as_str()) {
            kept.push(n);
        }
        i = i + 1;
    }
    assert(given.take(i as int) =~= given);
    sort_names_descending(kept)
}

} // verus!
