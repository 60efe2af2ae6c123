use avoid_compaction::session;

#[test]
fn projects_dir_name_replaces_slashes() {
    let name = session::projects_dir_name("/Users/mike/github/proj");
    assert_eq!(name, "-Users-mike-github-proj");
}

#[test]
fn projects_dir_name_handles_root() {
    let name = session::projects_dir_name("/");
    assert_eq!(name, "-");
}

#[test]
fn find_session_files_empty_dir() {
    let files = session::order_session_files(vec![]);
    assert!(files.is_empty());
}

#[test]
fn find_session_files_finds_jsonl() {
    let entries = vec![(10u128, "abc123.jsonl".to_string()), (20u128, "not-a-session.txt".to_string())];
    let files = session::order_session_files(entries);
    assert_eq!(files.len(), 1);
    assert!(files[0].1.contains("abc123.jsonl"));
}

#[test]
fn find_session_files_sorted_by_mtime() {
    let entries = vec![(2_000u128, "newer.jsonl".to_string()), (1_000u128, "older.jsonl".to_string())];
    let files = session::order_session_files(entries);
    assert_eq!(files.len(), 2);
    assert!(files[1].1.contains("newer"));
}

#[test]
fn extract_conversation_user_and_assistant() {
    let user_line = r#"{"type":"user","timestamp":"2026-03-14T19:00:00Z","message":{"role":"user","content":"Hello agent"}}"#;
    let assistant_line = r#"{"type":"assistant","timestamp":"2026-03-14T19:00:01Z","message":{"role":"assistant","content":[{"type":"text","text":"Hello! How can I help?"},{"type":"tool_use","name":"Read","input":{}}]}}"#;
    let content = format!("{}\n{}\n", user_line, assistant_line);
    let conversation = session::extract_conversation(&content);
    assert!(conversation.contains("USER:"));
    assert!(conversation.contains("Hello agent"));
    assert!(conversation.contains("ASSISTANT:"));
    assert!(conversation.contains("Hello! How can I help?"));
    assert!(conversation.contains("[tool: Read]"));
}

#[test]
fn extract_conversation_array_content() {
    let user_line = r#"{"type":"user","timestamp":"2026-03-14T19:00:00Z","message":{"role":"user","content":[{"type":"text","text":"Part one"},{"type":"text","text":"Part two"}]}}"#;
    let conversation = session::extract_conversation(&format!("{}\n", user_line));
    assert!(conversation.contains("Part one"));
    assert!(conversation.contains("Part two"));
}

#[test]
fn extract_conversation_skips_empty_messages() {
    let progress_line = r#"{"type":"progress","timestamp":"2026-03-14T19:00:00Z","data":{"type":"hook_progress"}}"#;
    let empty_user = r#"{"type":"user","timestamp":"2026-03-14T19:00:01Z","message":{"role":"user","content":"  "}}"#;
    let conversation = session::extract_conversation(&format!("{}\n{}\n", progress_line, empty_user));
    assert!(!conversation.contains("USER:"));
}

#[test]
fn diff_snapshots_detects_added_lines() {
    let diff = session::diff_snapshots("line1\nline2\n", "line1\nline2\nline3\nline4\n");
    assert_eq!(diff.old_lines, 2);
    assert_eq!(diff.new_lines, 4);
    assert_eq!(diff.added, 2);
}

#[test]
fn diff_snapshots_no_change() {
    let diff = session::diff_snapshots("line1\nline2\n", "line1\nline2\n");
    assert_eq!(diff.added, 0);
}
