use avoid_compaction::error::Error;
use avoid_compaction::saga;
use avoid_compaction::SagaStatus;

#[test]
fn init_sets_correct_defaults() {
    let config = saga::init_saga(false, "/tmp/p", "my-saga", "2026-03-14T19:00:00".to_string())
        .unwrap();
    assert_eq!(config.name, "my-saga");
    assert_eq!(config.status, SagaStatus::Active);
    assert_eq!(config.current_step, 0);
    assert!(config.plan_file.ends_with("plan.md"));
}

#[test]
fn init_fails_if_saga_already_exists() {
    let result = saga::init_saga(true, "/tmp/p", "second", "2026-03-14T19:00:00".to_string());
    assert!(result.is_err());
    assert!(matches!(result.unwrap_err(), Error::SagaAlreadyExists { .. }));
}
