use avoid_compaction::error::Error;
use avoid_compaction::order::sort_by_key;
use avoid_compaction::step::{self, new_step};
use avoid_compaction::{StepConfig, StepStatus};

fn make_step(number: u32, slug: &str, description: &str, context: Vec<String>) -> StepConfig {
    new_step(number, slug, description, context, "2026-03-14T19:00:00".to_string())
}

#[test]
fn create_step_creates_directory_and_files() {
    let config = make_step(
        1,
        "setup",
        "Set up the project",
        vec!["Cargo.toml".to_string(), "src/main.rs".to_string()],
    );
    assert_eq!(step::step_dir_name(config.number, &config.slug), "001-setup");
    assert_eq!(config.context_files, vec!["Cargo.toml", "src/main.rs"]);
    assert_eq!(step::transcript_file_name("20260101T000000"), "20260101T000000-transcript.txt");
}

#[test]
fn create_step_sets_correct_defaults() {
    let config = make_step(1, "init", "desc", vec![]);
    assert_eq!(config.number, 1);
    assert_eq!(config.slug, "init");
    assert_eq!(config.status, StepStatus::Pending);
    assert_eq!(config.description, "desc");
    assert!(config.context_files.is_empty());
    assert!(config.completed_at.is_none());
    assert!(config.transcript_file.is_none());
}

#[test]
fn find_step_dir_locates_by_number() {
    let names = vec![step::step_dir_name(1, "first"), step::step_dir_name(2, "second")];
    let found = step::find_step_dir(&names, 2).unwrap();
    assert!(names[found].ends_with("002-second"));
}

#[test]
fn find_step_dir_fails_for_missing_number() {
    let names = vec![step::step_dir_name(1, "only")];
    let result = step::find_step_dir(&names, 99);
    assert!(result.is_err());
    assert!(matches!(result.unwrap_err(), Error::NoCurrentStep));
}

#[test]
fn transition_pending_to_in_progress() {
    let mut config = make_step(1, "t", "d", vec![]);
    assert_eq!(config.status, StepStatus::Pending);
    step::transition_step(&mut config, StepStatus::InProgress).unwrap();
    assert_eq!(config.status, StepStatus::InProgress);
    assert!(config.completed_at.is_none());
}

#[test]
fn transition_in_progress_to_completed_sets_timestamp() {
    let mut config = make_step(1, "t", "d", vec![]);
    step::transition_step(&mut config, StepStatus::InProgress).unwrap();
    step::transition_step(&mut config, StepStatus::Completed).unwrap();
    assert_eq!(config.status, StepStatus::Completed);
    assert!(config.completed_at.is_some());
}

#[test]
fn transition_in_progress_to_blocked() {
    let mut config = make_step(1, "t", "d", vec![]);
    step::transition_step(&mut config, StepStatus::InProgress).unwrap();
    step::transition_step(&mut config, StepStatus::Blocked).unwrap();
    assert_eq!(config.status, StepStatus::Blocked);
}

#[test]
fn transition_pending_to_completed_fails() {
    let mut config = make_step(1, "t", "d", vec![]);
    let result = step::transition_step(&mut config, StepStatus::Completed);
    assert!(result.is_err());
    assert!(matches!(result.unwrap_err(), Error::InvalidStepTransition { .. }));
}

#[test]
fn transition_completed_to_anything_fails() {
    let mut config = make_step(1, "t", "d", vec![]);
    step::transition_step(&mut config, StepStatus::InProgress).unwrap();
    step::transition_step(&mut config, StepStatus::Completed).unwrap();
    let result = step::transition_step(&mut config, StepStatus::InProgress);
    assert!(result.is_err());
}

#[test]
fn list_steps_returns_sorted() {
    let third = make_step(3, "third", "d", vec![]);
    let first = make_step(1, "first", "d", vec![]);
    let second = make_step(2, "second", "d", vec![]);
    let keyed: Vec<(u128, StepConfig)> = vec![third, first, second]
        .into_iter()
        .map(|s| (s.number as u128, s))
        .collect();
    let steps = sort_by_key(keyed);
    assert_eq!(steps.len(), 3);
    assert_eq!(steps[0].1.number, 1);
    assert_eq!(steps[1].1.number, 2);
    assert_eq!(steps[2].1.number, 3);
}

#[test]
fn list_steps_empty_saga() {
    let steps = sort_by_key(Vec::<(u128, StepConfig)>::new());
    assert!(steps.is_empty());
}
