use avoid_compaction::commands::complete::{self, CompleteArgs};
use avoid_compaction::commands::transcript::{self, TranscriptView};
use avoid_compaction::commands::{abort, begin, history, install_hook, list, next, status};
use avoid_compaction::error::Error;
use avoid_compaction::order::{less_than, sort_by_key, sort_names_descending};
use avoid_compaction::saga;
use avoid_compaction::session::{self, JsonValue};
use avoid_compaction::step::{self, new_step, StepOverview};
use avoid_compaction::text;
use avoid_compaction::{SagaConfig, SagaStatus, StepConfig, StepStatus};

fn saga_named(name: &str) -> SagaConfig {
    saga::init_saga(false, "/work/p", name, "2026-01-01T00:00:00".to_string()).unwrap()
}

fn step_with(number: u32, slug: &str, status: StepStatus) -> StepConfig {
    let mut s = new_step(number, slug, "a description", vec![], "2026-01-01T00:00:00".to_string());
    s.status = status;
    s
}

fn overview(s: StepConfig, summary: Option<&str>) -> StepOverview {
    StepOverview { step: s, summary: summary.map(|t| t.to_string()) }
}

fn define_next<'a>(slug: &'a str, prompt: &'a str) -> CompleteArgs<'a> {
    CompleteArgs {
        transcript: None,
        summary: None,
        next_prompt: Some(prompt),
        next_slug: Some(slug),
        next_context: vec![],
        planned: vec![],
        done: false,
    }
}

// ----- errors -----

#[test]
fn error_messages_read_as_documented() {
    let cases: Vec<(Error, &str)> = vec![
        (Error::SagaNotFound { path: "/p".to_string() }, "No saga found at /p/.avoid-compaction/"),
        (
            Error::SagaAlreadyExists { path: "/p".to_string() },
            "Saga already exists at /p/.avoid-compaction/",
        ),
        (
            Error::InvalidStepTransition { from: "pending".to_string(), to: "completed".to_string() },
            "Invalid step transition: pending -> completed",
        ),
        (Error::NoCurrentStep, "No current step found"),
        (Error::SagaComplete, "Saga is already complete"),
        (Error::NoSteps, "No steps defined yet"),
        (Error::MultipleStdin, "Multiple flags cannot read from stdin"),
        (Error::Other("boom".to_string()), "boom"),
    ];
    for (e, text) in cases {
        assert_eq!(e.message(), text);
    }
}

#[test]
fn init_refusal_names_the_directory() {
    let err = saga::init_saga(true, "/work/p", "x", "now".to_string()).unwrap_err();
    assert_eq!(err.message(), "Saga already exists at /work/p/.avoid-compaction/");
}

// ----- step lifecycle -----

#[test]
fn refused_move_leaves_step_unchanged_and_names_both_states() {
    let mut s = step_with(4, "x", StepStatus::Blocked);
    let before = s.clone();
    let err = step::transition_step(&mut s, StepStatus::Completed).unwrap_err();
    assert_eq!(err.message(), "Invalid step transition: blocked -> completed");
    assert_eq!(s.status, before.status);
    assert_eq!(s.completed_at, before.completed_at);
}

#[test]
fn every_move_out_of_completed_is_refused() {
    for to in [StepStatus::Pending, StepStatus::InProgress, StepStatus::Blocked, StepStatus::Completed] {
        let mut s = step_with(1, "x", StepStatus::Completed);
        assert!(step::transition_step(&mut s, to).is_err());
        assert_eq!(s.status, StepStatus::Completed);
    }
}

#[test]
fn blocked_step_can_resume() {
    let mut s = step_with(1, "x", StepStatus::Pending);
    step::transition_step(&mut s, StepStatus::Blocked).unwrap();
    step::transition_step(&mut s, StepStatus::InProgress).unwrap();
    assert_eq!(s.status, StepStatus::InProgress);
    assert!(s.completed_at.is_none());
}

#[test]
fn status_names() {
    assert_eq!(StepStatus::Pending.as_str(), "pending");
    assert_eq!(StepStatus::InProgress.as_str(), "in-progress");
    assert_eq!(StepStatus::Completed.as_str(), "completed");
    assert_eq!(StepStatus::Blocked.as_str(), "blocked");
    assert_eq!(SagaStatus::Active.as_str(), "active");
    assert_eq!(SagaStatus::Completed.as_str(), "completed");
}

// ----- step directories -----

#[test]
fn step_directory_names_pad_to_three_digits() {
    assert_eq!(step::step_dir_name(7, "go"), "007-go");
    assert_eq!(step::step_dir_name(42, "x"), "042-x");
    assert_eq!(step::step_dir_name(1234, "big"), "1234-big");
    assert_eq!(step::step_dir_prefix(3), "003-");
}

#[test]
fn find_step_dir_does_not_confuse_numbers() {
    let names = vec![
        "plan.md".to_string(),
        step::step_dir_name(10, "ten"),
        step::step_dir_name(1, "one"),
    ];
    assert_eq!(step::find_step_dir(&names, 1).unwrap(), 2);
    assert_eq!(step::find_step_dir(&names, 10).unwrap(), 1);
    assert!(matches!(step::find_step_dir(&names, 100), Err(Error::NoCurrentStep)));
}

#[test]
fn count_completed_counts_only_completed() {
    let steps = vec![
        overview(step_with(1, "a", StepStatus::Completed), None),
        overview(step_with(2, "b", StepStatus::InProgress), None),
        overview(step_with(3, "c", StepStatus::Completed), None),
    ];
    assert_eq!(step::count_completed(&steps), 2);
}

// ----- begin / abort -----

#[test]
fn begin_refuses_without_steps_or_record() {
    let config = saga_named("s");
    assert!(matches!(begin::run(&config, None), Err(Error::NoSteps)));
    let mut config = saga_named("s");
    config.current_step = 1;
    assert!(matches!(begin::run(&config, None), Err(Error::NoCurrentStep)));
    let err = begin::run(&config, Some(step_with(1, "a", StepStatus::Completed))).unwrap_err();
    assert_eq!(err.message(), "Invalid step transition: completed -> in-progress");
}

#[test]
fn abort_blocks_the_current_step() {
    let mut config = saga_named("s");
    config.current_step = 1;
    let s = abort::run(&config, Some(step_with(1, "a", StepStatus::InProgress))).unwrap();
    assert_eq!(s.status, StepStatus::Blocked);
    assert!(matches!(abort::run(&config, None), Err(Error::NoCurrentStep)));
}

// ----- complete -----

#[test]
fn complete_advances_step_number_by_one() {
    let mut config = saga_named("s");
    config.current_step = 5;
    let a = define_next("six", "Do six\nmore");
    let out = complete::run(config, Some(step_with(5, "five", StepStatus::InProgress)), &a, None).unwrap();
    assert_eq!(out.saga.current_step, 6);
    assert_eq!(out.next_step, Some(6));
    let f = out.finished.unwrap();
    assert_eq!(f.status, StepStatus::Completed);
    assert!(f.completed_at.is_some());
    assert_eq!(f.number, 5);
}

#[test]
fn complete_records_transcript_file_on_finished_step() {
    let mut config = saga_named("s");
    config.current_step = 1;
    let a = define_next("two", "p");
    let out = complete::run(
        config,
        Some(step_with(1, "one", StepStatus::Pending)),
        &a,
        Some("20260101T000000-transcript.txt".to_string()),
    )
    .unwrap();
    assert_eq!(
        out.finished.unwrap().transcript_file,
        Some("20260101T000000-transcript.txt".to_string())
    );
}

#[test]
fn complete_without_next_keeps_step_number() {
    let mut config = saga_named("s");
    config.current_step = 2;
    let a = CompleteArgs {
        transcript: None,
        summary: Some("x"),
        next_prompt: None,
        next_slug: Some("only-slug"),
        next_context: vec![],
        planned: vec![],
        done: false,
    };
    let out = complete::run(config, Some(step_with(2, "b", StepStatus::InProgress)), &a, None).unwrap();
    assert_eq!(out.saga.current_step, 2);
    assert_eq!(out.next_step, None);
    assert_eq!(out.saga.status, SagaStatus::Active);
}

#[test]
fn complete_refuses_blocked_step() {
    let mut config = saga_named("s");
    config.current_step = 1;
    let a = define_next("two", "p");
    let err = complete::run(config, Some(step_with(1, "one", StepStatus::Blocked)), &a, None).unwrap_err();
    assert_eq!(err.message(), "Invalid step transition: blocked -> completed");
}

#[test]
fn complete_needs_current_step_record() {
    let mut config = saga_named("s");
    config.current_step = 3;
    let a = define_next("four", "p");
    assert!(matches!(complete::run(config, None, &a, None), Err(Error::NoCurrentStep)));
}

#[test]
fn first_completion_refusal_text() {
    let a = CompleteArgs {
        transcript: None,
        summary: None,
        next_prompt: Some("p"),
        next_slug: None,
        next_context: vec![],
        planned: vec![],
        done: false,
    };
    let err = complete::run(saga_named("s"), None, &a, None).unwrap_err();
    assert_eq!(
        err.message(),
        "First completion requires --next-slug and --next-prompt to create the first step."
    );
}

#[test]
fn completing_a_finished_saga_with_next_step_reopens_it() {
    let mut config = saga_named("s");
    config.current_step = 2;
    config.status = SagaStatus::Completed;
    let last = step_with(2, "b", StepStatus::Completed);
    let a = define_next("c", "more work");
    let out = complete::run(config, Some(last), &a, None).unwrap();
    assert_eq!(out.saga.status, SagaStatus::Active);
    assert_eq!(out.saga.current_step, 3);
    assert_eq!(out.next_step, Some(3));
    assert!(out.finished.is_none());
}

#[test]
fn completing_a_finished_saga_without_next_step_refuses_completed_step() {
    let mut config = saga_named("s");
    config.current_step = 2;
    config.status = SagaStatus::Completed;
    let a = CompleteArgs {
        transcript: None,
        summary: None,
        next_prompt: None,
        next_slug: None,
        next_context: vec![],
        planned: vec![],
        done: false,
    };
    let err = complete::run(config, Some(step_with(2, "b", StepStatus::Completed)), &a, None).unwrap_err();
    assert_eq!(err.message(), "Invalid step transition: completed -> completed");
}

#[test]
fn planned_steps_drop_only_the_defined_slug() {
    let planned = vec![
        "one: first".to_string(),
        "one-more: not the same slug".to_string(),
        "two: second".to_string(),
    ];
    let kept = complete::planned_to_save(&planned, Some("one")).unwrap();
    assert_eq!(kept, vec!["one-more: not the same slug".to_string(), "two: second".to_string()]);
    assert_eq!(complete::planned_to_save(&vec!["one: x".to_string()], Some("one")), None);
    assert_eq!(complete::planned_to_save(&vec![], None), None);
    assert_eq!(
        complete::planned_to_save(&vec!["a: b".to_string()], None),
        Some(vec!["a: b".to_string()])
    );
}

#[test]
fn step_description_is_first_line_or_slug() {
    assert_eq!(complete::step_description("Line one\nLine two", "slug"), "Line one");
    assert_eq!(complete::step_description("", "slug"), "slug");
}

#[test]
fn restart_message_lists_steps_and_next() {
    let mut config = saga_named("demo");
    config.current_step = 2;
    let steps = vec![
        overview(step_with(1, "a", StepStatus::Completed), Some("Did A\nand more")),
        overview(step_with(2, "b", StepStatus::Pending), None),
    ];
    let text = complete::restart_message(&config, &steps, Some("c: later\n\n"));
    assert_eq!(
        text,
        "\n=== Status ===\n  [x] 001-a: Did A\n  [ ] 002-b: a description\n  ( ) c: later  (planned)\n\n1 step(s) complete. Next up: step 002.\nYou may Ctrl-C and restart. Give the new agent: avoid-compaction next\n"
    );
}

#[test]
fn restart_message_for_finished_saga() {
    let mut config = saga_named("demo");
    config.status = SagaStatus::Completed;
    config.current_step = 1;
    let steps = vec![
        overview(step_with(1, "a", StepStatus::Completed), Some("")),
    ];
    let text = complete::restart_message(&config, &steps, None);
    assert_eq!(
        text,
        "\n=== Status ===\n  [x] 001-a: (done)\n\nSaga 'demo' is finished. All 1 step(s) complete.\n"
    );
}

// ----- next -----

#[test]
fn next_no_saga_text() {
    let (code, text) = next::run(None, None, None, None, &vec![]).unwrap();
    assert_eq!(code, 2);
    assert_eq!(
        text,
        "No saga found. Initialize one with: avoid-compaction init --name <name> --plan <file>\n"
    );
}

#[test]
fn next_without_step_record_is_an_error() {
    let mut config = saga_named("s");
    config.current_step = 1;
    assert!(matches!(next::run(Some(&config), None, None, None, &vec![]), Err(Error::NoCurrentStep)));
}

#[test]
fn next_step_brief_exact_text() {
    let mut config = saga_named("s");
    config.current_step = 2;
    let mut current = step_with(2, "b", StepStatus::InProgress);
    current.context_files = vec!["src/a.rs".to_string()];
    let steps = vec![
        overview(step_with(1, "a", StepStatus::Completed), Some("one\ntwo\nthree\nfour")),
        overview(current.clone(), None),
    ];
    let (code, text) = next::run(Some(&config), None, Some(&current), Some("Prompt!"), &steps).unwrap();
    assert_eq!(code, 0);
    assert_eq!(
        text,
        "=== STEP 002: b ===\nStatus: in-progress\nDescription: a description\n\n--- Prompt ---\nPrompt!\n\n--- Context Files ---\n  src/a.rs\n\n--- Prior Steps ---\n  001-a: one two three\n\nPlan: .avoid-compaction/plan.md\n"
    );
}

// ----- status / list / history -----

#[test]
fn status_shows_current_step() {
    let mut config = saga_named("s");
    config.current_step = 1;
    let cur = step_with(1, "a", StepStatus::InProgress);
    let steps = vec![overview(cur.clone(), None)];
    let text = status::run(&config, &steps, Some(&cur));
    assert_eq!(
        text,
        "Saga: s\nStatus: active\nSteps: 1 total, 0 completed\nCurrent step: 1\nPlan: .avoid-compaction/plan.md\n\nCurrent: 001-a [in-progress]\n  a description\n"
    );
}

#[test]
fn list_texts() {
    let config = saga_named("s");
    assert_eq!(list::run(&config, None).unwrap(), "No steps defined yet. No context files.\n");
    let mut config = saga_named("s");
    config.current_step = 1;
    let mut s = step_with(1, "a", StepStatus::Pending);
    assert_eq!(list::run(&config, Some(&s)).unwrap(), "Context files for step 001-a:\n  (none)\n");
    s.context_files = vec!["x".to_string(), "y".to_string()];
    assert_eq!(list::run(&config, Some(&s)).unwrap(), "Context files for step 001-a:\n  x\n  y\n");
    assert!(matches!(list::run(&config, None), Err(Error::NoCurrentStep)));
}

#[test]
fn history_texts() {
    let config = saga_named("h");
    assert_eq!(history::run(&config, &vec![]), "=== History: h ===\nStatus: active\n\nNo steps recorded yet.\n");
    let steps = vec![overview(step_with(1, "a", StepStatus::Completed), Some("1\n2\n3\n4\n5\n6"))];
    assert_eq!(
        history::run(&config, &steps),
        "=== History: h ===\nStatus: active\n\n001-a [completed]\n  a description\n    1\n    2\n    3\n    4\n    5\n\n"
    );
}

// ----- transcript -----

#[test]
fn transcript_for_step_with_and_without_file() {
    let mut s = step_with(3, "c", StepStatus::Completed);
    let none = TranscriptView::Step { number: 3, step: s.clone(), content: Some("x".to_string()) };
    assert_eq!(transcript::run(&none), "No transcript found for step 003.\n");
    s.transcript_file = Some("t.txt".to_string());
    let some = TranscriptView::Step { number: 3, step: s, content: Some("hello".to_string()) };
    assert_eq!(transcript::run(&some), "=== Transcript for step 003-c ===\nhello\n");
}

#[test]
fn transcript_for_sessions_and_legacy() {
    let v = TranscriptView::Session {
        ordered: vec!["old.jsonl".to_string(), "new.jsonl".to_string()],
        conversation: String::new(),
    };
    assert_eq!(
        transcript::run(&v),
        "=== Session Transcript (new.jsonl) ===\n\n(no user/assistant messages found)\n--- 1 more session snapshot(s) available ---\n  old.jsonl\n"
    );
    let l = TranscriptView::Legacy { saga_name: "s".to_string(), ordered: vec![], latest: String::new() };
    assert_eq!(transcript::run(&l), "No transcripts found for saga 's'.\n");
    let ordered = transcript::order_legacy(vec![
        "a-transcript.txt".to_string(),
        "notes.md".to_string(),
        "b-transcript.txt".to_string(),
    ]);
    assert_eq!(ordered, vec!["b-transcript.txt".to_string(), "a-transcript.txt".to_string()]);
}

// ----- install-hook -----

#[test]
fn install_hook_refuses_non_object_settings() {
    let e = install_hook::load_or_empty(Some("[1, 2]")).unwrap_err();
    assert_eq!(e.message(), "settings.json is not an object");
    let e = install_hook::load_or_empty(Some("{not json")).unwrap_err();
    assert!(e.message().starts_with("JSON parse error: "));
    let settings = install_hook::load_or_empty(Some("{\"hooks\": 3}")).unwrap();
    let e = install_hook::run(settings).unwrap_err();
    assert_eq!(e.message(), "hooks is not an object");
}

#[test]
fn install_hook_keeps_other_hooks() {
    let settings = install_hook::load_or_empty(Some("{\"hooks\": {\"Stop\": []}, \"a\": 1}")).unwrap();
    let new = install_hook::run(settings).unwrap().unwrap();
    // serde_json's map keeps its keys sorted, so `a` comes before `hooks`.
    assert_eq!(new.len(), 2);
    assert_eq!(new[0].0, "a");
    assert!(matches!(&new[0].1, JsonValue::Number(n) if n == "1"));
    assert_eq!(new[1].0, "hooks");
    match &new[1].1 {
        JsonValue::Object(h) => {
            assert_eq!(h.len(), 2);
            assert_eq!(h[0].0, "Stop");
            assert_eq!(h[1].0, "SessionStart");
        },
        other => panic!("hooks is {:?}", other),
    }
    assert!(install_hook::run(new).unwrap().is_none());
}

#[test]
fn hook_command_text() {
    assert_eq!(
        install_hook::hook_command(),
        "if [ -f .avoid-compaction/saga.toml ]; then avoid-compaction next 2>/dev/null || cargo run --quiet -- next; fi"
    );
}

// ----- session files and text -----

#[test]
fn projects_dir_name_ignores_trailing_slash() {
    assert_eq!(session::projects_dir_name("/a/b/"), session::projects_dir_name("/a/b"));
    assert_eq!(session::mangle_path("/a/b//"), "-a-b");
    assert!(!session::mangle_path("/x/y/z").contains('/'));
}

#[test]
fn session_log_extension() {
    assert!(session::is_session_log("a.jsonl"));
    assert!(!session::is_session_log(".jsonl"));
    assert!(!session::is_session_log("a.json"));
    assert!(!session::is_session_log("a.jsonl.bak"));
    assert!(session::is_legacy_transcript("x-transcript.txt"));
    assert!(!session::is_legacy_transcript("transcript.txt"));
}

#[test]
fn lines_to_append_copies_missing_tail() {
    let (n, text) = session::lines_to_append("a\nb\nc\n", 1);
    assert_eq!(n, 2);
    assert_eq!(text, "b\nc\n");
    let (n, text) = session::lines_to_append("a\nb\n", 5);
    assert_eq!(n, 0);
    assert_eq!(text, "");
}

#[test]
fn diff_counts_crlf_and_shrinking() {
    let d = session::diff_snapshots("a\r\nb\r\nc", "a\n");
    assert_eq!(d.old_lines, 3);
    assert_eq!(d.new_lines, 1);
    assert_eq!(d.added, 0);
}

#[test]
fn conversation_exact_text() {
    let line = r#"{"type":"user","message":{"role":"user","content":"  hi  "}}"#;
    let text = session::extract_conversation(&format!("not json\n{}\n", line));
    assert!(text.contains("USER:"));
    assert!(text.contains("hi"));
    assert!(!text.contains("not json"));
}

#[test]
fn text_helpers() {
    assert_eq!(text::lines_of("a\r\nb\n\nc"), vec!["a", "b", "", "c"]);
    assert_eq!(text::lines_of(""), Vec::<String>::new());
    assert_eq!(text::lines_of("x\n"), vec!["x"]);
    assert_eq!(text::trimmed("  a b \t\n"), "a b");
    assert!(text::is_blank(" \t\n"));
    assert_eq!(text::first_line("\nsecond"), Some(String::new()));
    assert_eq!(text::join_all(&vec!["a".to_string(), "b".to_string()], ", "), "a, b");
    assert_eq!(text::decimal_string(0), "0");
    assert_eq!(text::decimal_string(1205), "1205");
}

// ----- ordering -----

#[test]
fn sort_by_key_orders_and_keeps_items() {
    let sorted = sort_by_key(vec![(3u128, "c"), (1u128, "a"), (2u128, "b"), (1u128, "a2")]);
    let keys: Vec<u128> = sorted.iter().map(|p| p.0).collect();
    assert_eq!(keys, vec![1, 1, 2, 3]);
    let mut items: Vec<&str> = sorted.iter().map(|p| p.1).collect();
    items.sort();
    assert_eq!(items, vec!["a", "a2", "b", "c"]);
}

#[test]
fn names_sort_newest_first() {
    assert!(less_than("a", "b"));
    assert!(less_than("a", "ab"));
    assert!(!less_than("b", "a"));
    assert!(!less_than("a", "a"));
    let sorted = sort_names_descending(vec!["2026".to_string(), "2027".to_string(), "2025".to_string()]);
    assert_eq!(sorted, vec!["2027", "2026", "2025"]);
}

#[test]
fn snapshot_catches_up_with_source() {
    let source = "a\nb\nc\nd";
    let snapshot = "a\nb\n";
    let existing = text::lines_of(snapshot).len();
    let (n, missing) = session::lines_to_append(source, existing);
    assert_eq!(n, 2);
    let caught_up = format!("{}{}", snapshot, missing);
    assert_eq!(caught_up, "a\nb\nc\nd\n");
    let (again, rest) = session::lines_to_append(source, text::lines_of(&caught_up).len());
    assert_eq!(again, 0);
    assert_eq!(rest, "");
    assert_eq!(session::projects_dir_name_raw("/x/y"), "-x-y");
}

#[test]
fn timestamps_have_their_shape() {
    let t = avoid_compaction::timestamp();
    let b = t.as_bytes();
    assert_eq!(b.len(), 15);
    for (i, c) in b.iter().enumerate() {
        if i == 8 {
            assert_eq!(*c, b'T');
        } else {
            assert!(c.is_ascii_digit());
        }
    }
    let t = avoid_compaction::timestamp_iso();
    let b = t.as_bytes();
    assert_eq!(b.len(), 19);
    for (i, c) in b.iter().enumerate() {
        match i {
            4 | 7 => assert_eq!(*c, b'-'),
            10 => assert_eq!(*c, b'T'),
            13 | 16 => assert_eq!(*c, b':'),
            _ => assert!(c.is_ascii_digit()),
        }
    }
}

#[test]
fn completed_step_records_iso_time() {
    let mut s = step_with(1, "x", StepStatus::InProgress);
    step::transition_step(&mut s, StepStatus::Completed).unwrap();
    let t = s.completed_at.unwrap();
    assert_eq!(t.len(), 19);
    assert_eq!(&t[10..11], "T");
}

#[test]
fn second_append_adds_nothing_even_with_carriage_returns() {
    let source = "a\r\r\nb\nc";
    let snapshot = "a\r\n";
    let (_, missing) = session::lines_to_append(source, text::lines_of(snapshot).len());
    let after = format!("{}{}", snapshot, missing);
    let (n, again) = session::lines_to_append(source, text::lines_of(&after).len());
    assert_eq!(n, 0);
    assert_eq!(again, "");
}

#[test]
fn trailing_slash_on_one_character_path() {
    assert_eq!(session::mangle_path("a/"), session::mangle_path("a"));
    assert_eq!(session::mangle_path("/"), "-");
    assert_eq!(session::mangle_path("//"), "");
    assert_eq!(session::mangle_path("-/"), session::mangle_path("-"));
}

#[test]
fn own_trailing_dash_is_kept() {
    assert_eq!(session::projects_dir_name("/nonexistent-dir/my-proj-"), "-nonexistent-dir-my-proj-");
    assert_eq!(session::projects_dir_name_raw("/p-/"), "-p-");
    assert_eq!(session::mangle_path("-"), "-");
}

#[test]
fn blocked_step_at_last_number_is_refused_without_overflow() {
    let mut config = saga_named("s");
    config.current_step = u32::MAX;
    let a = define_next("next", "p");
    let err = complete::run(config, Some(step_with(u32::MAX, "last", StepStatus::Blocked)), &a, None)
        .unwrap_err();
    assert_eq!(err.message(), "Invalid step transition: blocked -> completed");
}
