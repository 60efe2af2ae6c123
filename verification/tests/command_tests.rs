use avoid_compaction::commands::complete::{self, CompleteArgs};
use avoid_compaction::commands::{begin, install_hook, next, status};
use avoid_compaction::saga;
use avoid_compaction::session::{parse_json, JsonValue};
use avoid_compaction::step::{new_step, StepOverview};
use avoid_compaction::{SagaConfig, SagaStatus, StepConfig, StepStatus};

fn new_saga(name: &str) -> SagaConfig {
    saga::init_saga(false, "/tmp/project", name, "2026-03-14T19:00:00".to_string()).unwrap()
}

fn pending_step(number: u32, slug: &str, description: &str, context: Vec<String>) -> StepConfig {
    new_step(number, slug, description, context, "2026-03-14T19:00:00".to_string())
}

fn args<'a>(
    transcript: Option<&'a str>,
    summary: Option<&'a str>,
    next_prompt: Option<&'a str>,
    next_slug: Option<&'a str>,
    next_context: Vec<String>,
    planned: Vec<String>,
    done: bool,
) -> CompleteArgs<'a> {
    CompleteArgs { transcript, summary, next_prompt, next_slug, next_context, planned, done }
}

#[test]
fn init_command_creates_saga() {
    let config = saga::init_saga(false, "/tmp/project", "my-feature", "now".to_string()).unwrap();
    assert_eq!(config.name, "my-feature");
    assert_eq!(config.plan_file, ".avoid-compaction/plan.md");
}

#[test]
fn next_returns_2_when_no_saga() {
    let (code, _) = next::run(None, None, None, None, &vec![]).unwrap();
    assert_eq!(code, 2);
}

#[test]
fn next_returns_0_for_first_step() {
    let config = new_saga("test");
    let (code, text) = next::run(Some(&config), Some("plan content"), None, None, &vec![]).unwrap();
    assert_eq!(code, 0);
    assert!(text.contains("=== FIRST STEP ==="));
    assert!(text.contains("plan content"));
}

#[test]
fn next_returns_1_when_saga_complete() {
    let mut config = new_saga("test");
    config.status = SagaStatus::Completed;
    let (code, text) = next::run(Some(&config), None, None, None, &vec![]).unwrap();
    assert_eq!(code, 1);
    assert_eq!(text, "Saga 'test' is complete. No more steps.\n");
}

#[test]
fn next_returns_0_for_pending_step() {
    let mut config = new_saga("test");
    let step = pending_step(1, "first", "First step", vec![]);
    config.current_step = 1;
    let steps = vec![StepOverview { step: step.clone(), summary: None }];
    let (code, text) =
        next::run(Some(&config), None, Some(&step), Some("Do the thing"), &steps).unwrap();
    assert_eq!(code, 0);
    assert!(text.starts_with("=== STEP 001: first ===\nStatus: pending\nDescription: First step\n"));
    assert!(text.contains("\n--- Prompt ---\nDo the thing\n"));
}

#[test]
fn complete_first_step_creates_step_001() {
    let config = new_saga("test");
    let a = args(
        Some("User said hello"),
        None,
        Some("Implement feature X"),
        Some("feature-x"),
        vec!["src/lib.rs".to_string()],
        vec![],
        false,
    );
    let outcome = complete::run(config, None, &a, None).unwrap();
    assert_eq!(outcome.saga.current_step, 1);
    assert_eq!(outcome.next_step, Some(1));
    let description = complete::step_description("Implement feature X", "feature-x");
    let step = new_step(1, "feature-x", &description, a.next_context.clone(), "now".to_string());
    assert_eq!(step.slug, "feature-x");
    assert_eq!(step.status, StepStatus::Pending);
    assert_eq!(step.context_files, vec!["src/lib.rs"]);
}

#[test]
fn complete_first_step_fails_without_next_info() {
    let config = new_saga("test");
    let a = args(Some("stuff happened"), None, None, None, vec![], vec![], false);
    let result = complete::run(config, None, &a, None);
    assert!(result.is_err());
}

#[test]
fn complete_first_step_with_done_marks_saga_complete() {
    let config = new_saga("test");
    let a = args(Some("nothing to do"), None, None, None, vec![], vec![], true);
    let outcome = complete::run(config, None, &a, None).unwrap();
    assert_eq!(outcome.saga.status, SagaStatus::Completed);
}

#[test]
fn begin_transitions_step_to_in_progress() {
    let mut config = new_saga("test");
    config.current_step = 1;
    let step = pending_step(1, "first", "desc", vec![]);
    let begun = begin::run(&config, Some(step)).unwrap();
    assert_eq!(begun.status, StepStatus::InProgress);
}

#[test]
fn full_workflow_init_through_done() {
    let config = new_saga("workflow-test");
    let a = args(
        Some("Created plan"),
        None,
        Some("Build the skeleton"),
        Some("skeleton"),
        vec!["Cargo.toml".to_string()],
        vec![],
        false,
    );
    let outcome = complete::run(config, None, &a, None).unwrap();
    assert_eq!(outcome.saga.current_step, 1);
    let step1 = pending_step(1, "skeleton", "Build the skeleton", a.next_context.clone());
    let step1 = begin::run(&outcome.saga, Some(step1)).unwrap();

    let a = args(
        Some("Built skeleton"),
        Some("Project skeleton created"),
        Some("Add core logic"),
        Some("core-logic"),
        vec!["src/lib.rs".to_string()],
        vec![],
        false,
    );
    let outcome = complete::run(outcome.saga, Some(step1), &a, Some("t1-transcript.txt".to_string()))
        .unwrap();
    assert_eq!(outcome.saga.current_step, 2);
    assert_eq!(outcome.saga.status, SagaStatus::Active);
    let finished1 = outcome.finished.unwrap();
    assert_eq!(finished1.status, StepStatus::Completed);

    let step2 = pending_step(2, "core-logic", "Add core logic", a.next_context.clone());
    let step2 = begin::run(&outcome.saga, Some(step2)).unwrap();
    let a = args(Some("Added logic"), Some("Core logic implemented"), None, None, vec![], vec![], true);
    let outcome = complete::run(outcome.saga, Some(step2), &a, None).unwrap();
    assert_eq!(outcome.saga.status, SagaStatus::Completed);
    assert_eq!(outcome.finished.unwrap().status, StepStatus::Completed);
}

#[test]
fn complete_auto_transitions_pending_to_completed() {
    let mut config = new_saga("test");
    config.current_step = 1;
    let step = pending_step(1, "step-1", "Do step 1", vec![]);
    let a = args(Some("did it"), Some("done"), None, None, vec![], vec![], true);
    let outcome = complete::run(config, Some(step), &a, None).unwrap();
    assert_eq!(outcome.finished.unwrap().status, StepStatus::Completed);
}

#[test]
fn status_runs_without_error() {
    let config = new_saga("test");
    let text = status::run(&config, &vec![], None);
    assert_eq!(
        text,
        "Saga: test\nStatus: active\nSteps: 0 total, 0 completed\nCurrent step: 0\nPlan: .avoid-compaction/plan.md\n"
    );
}

#[test]
fn next_shows_step0_summary_for_first_real_step() {
    let config = new_saga("test");
    let a = args(
        None,
        Some("Built the initial prototype"),
        Some("Add error handling"),
        Some("error-handling"),
        vec!["src/lib.rs".to_string()],
        vec![],
        false,
    );
    let outcome = complete::run(config, None, &a, None).unwrap();
    let step = pending_step(1, "error-handling", "Add error handling", a.next_context.clone());
    let (code, text) =
        next::run(Some(&outcome.saga), None, Some(&step), Some("Add error handling"), &vec![]).unwrap();
    assert_eq!(code, 0);
    assert!(text.contains("\n--- Context Files ---\n  src/lib.rs\n"));
}

#[test]
fn complete_saves_planned_steps() {
    let config = new_saga("test");
    let a = args(
        None,
        Some("Did initial work"),
        Some("Do step 1"),
        Some("step-1"),
        vec![],
        vec!["step-2: Add error handling".to_string(), "step-3: Write tests".to_string()],
        false,
    );
    let outcome = complete::run(config, None, &a, None).unwrap();
    let kept = outcome.planned_steps.unwrap();
    let content = avoid_compaction::text::lines_with_newlines(&kept);
    assert!(content.contains("step-2: Add error handling"));
    assert!(content.contains("step-3: Write tests"));
}

#[test]
fn complete_removes_next_slug_from_planned() {
    let config = new_saga("test");
    let a = args(
        None,
        None,
        Some("Do step 1"),
        Some("step-1"),
        vec![],
        vec!["step-1: Build the thing".to_string(), "step-2: Test the thing".to_string()],
        false,
    );
    let outcome = complete::run(config, None, &a, None).unwrap();
    let content = avoid_compaction::text::lines_with_newlines(&outcome.planned_steps.unwrap());
    assert!(!content.contains("step-1:"));
    assert!(content.contains("step-2: Test the thing"));
}

#[test]
fn init_fails_gracefully_when_saga_exists() {
    let result = saga::init_saga(true, "/tmp/project", "second", "now".to_string());
    assert!(result.is_err());
    let err = result.unwrap_err().message();
    assert!(err.contains("already exists"));
}

fn lookup<'a>(entries: &'a [(String, JsonValue)], key: &str) -> Option<&'a JsonValue> {
    entries.iter().find(|(k, _)| k == key).map(|(_, v)| v)
}

#[test]
fn install_hook_creates_settings_file() {
    let settings = install_hook::load_or_empty(None).unwrap();
    let new = install_hook::run(settings).unwrap().unwrap();
    let hooks = match lookup(&new, "hooks") {
        Some(JsonValue::Object(h)) => h,
        other => panic!("hooks is {:?}", other),
    };
    let session_start = match lookup(hooks, "SessionStart") {
        Some(JsonValue::Array(a)) => a,
        other => panic!("SessionStart is {:?}", other),
    };
    let matcher = match &session_start[0] {
        JsonValue::Object(m) => m,
        other => panic!("matcher is {:?}", other),
    };
    let inner = match lookup(matcher, "hooks") {
        Some(JsonValue::Array(a)) => a,
        other => panic!("inner hooks is {:?}", other),
    };
    let command = match &inner[0] {
        JsonValue::Object(h) => match lookup(h, "command") {
            Some(JsonValue::Str(c)) => c.clone(),
            other => panic!("command is {:?}", other),
        },
        other => panic!("hook is {:?}", other),
    };
    assert!(command.contains("avoid-compaction next"));
}

#[test]
fn install_hook_preserves_existing_settings() {
    let settings = install_hook::load_or_empty(Some("{\n  \"someKey\": \"someValue\"\n}")).unwrap();
    let new = install_hook::run(settings).unwrap().unwrap();
    assert!(matches!(lookup(&new, "someKey"), Some(JsonValue::Str(v)) if v == "someValue"));
    assert!(matches!(lookup(&new, "hooks"), Some(JsonValue::Object(_))));
}

#[test]
fn install_hook_skips_if_already_configured() {
    let settings = install_hook::load_or_empty(None).unwrap();
    let new = install_hook::run(settings).unwrap().unwrap();
    assert!(install_hook::run(new).unwrap().is_none());
    assert!(parse_json("{}").is_ok());
}

#[test]
fn next_warns_about_missing_context_files() {
    let mut config = new_saga("test");
    config.current_step = 1;
    let step = pending_step(
        1,
        "check-files",
        "Check files",
        vec!["src/real.rs".to_string(), "src/missing.rs".to_string()],
    );
    let steps = vec![StepOverview { step: step.clone(), summary: None }];
    let (code, _) = next::run(Some(&config), Some("plan"), Some(&step), Some("Do work"), &steps).unwrap();
    assert_eq!(code, 0);
}
