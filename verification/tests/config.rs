//! The configuration of the mirror.

use beads::remote::config::{RemoteConfig, DEFAULT_PAGE_SIZE};
use beads::remote::error::RemoteError;
use indexmap::IndexMap;

fn text_of(value: &serde_yml::Value) -> String {
    match value.as_str() {
        Some(text) => text.to_string(),
        None => value.as_u64().expect("a text or a number").to_string(),
    }
}

fn entries_of(value: &serde_yml::Value) -> IndexMap<String, String> {
    value
        .as_mapping()
        .expect("a mapping")
        .iter()
        .map(|(key, value)| (key.to_string(), text_of(value)))
        .collect()
}

/// Reads a configuration and checks it.
fn parse(text: &str) -> Result<RemoteConfig, RemoteError> {
    let all: serde_yml::Value = serde_yml::from_str(text).expect("valid YAML");
    let cfg = RemoteConfig {
        backend: text_of(&all["backend"]),
        url: text_of(&all["url"]),
        project: text_of(&all["project"]),
        status_map: entries_of(&all["status_map"]),
        type_map: entries_of(&all["type_map"]),
        priority_map: entries_of(&all["priority_map"]),
        deleted_state: text_of(&all["deleted_state"]),
        page_size: match all.get("page_size").and_then(|size| size.as_u64()) {
            Some(size) => size as u32,
            None => DEFAULT_PAGE_SIZE,
        },
    };
    cfg.validate()?;
    Ok(cfg)
}

const GOOD: &str = r#"
backend: youtrack
url: https://example.youtrack.cloud
project: EM
status_map:
  open: Open
  in_progress: In Progress
  blocked: Blocked
  deferred: Deferred
  draft: Draft
  pinned: Pinned
  closed: Fixed
type_map:
  task: Task
  bug: Bug
  feature: Feature
  epic: Epic
  chore: Chore
  docs: Docs
  question: Question
priority_map: { 0: Show-stopper, 1: Critical, 2: Major, 3: Normal, 4: Minor }
deleted_state: "Won't fix"
page_size: 100
"#;

#[test]
fn a_complete_config_parses_and_reverses() {
    let cfg = parse(GOOD).expect("parse");
    assert_eq!(cfg.project, "EM");
    assert_eq!(cfg.issue_prefix(), "EM-");
    assert_eq!(cfg.reverse_type("Question"), Some("question"));
    assert_eq!(cfg.reverse_status("In Progress"), Some("in_progress"));
    assert_eq!(cfg.reverse_priority("Major"), Some(2));
    assert_eq!(cfg.reverse_type("User Story"), None);
}

#[test]
fn an_omitted_builtin_type_is_rejected() {
    let yaml = GOOD.replace("  docs: Docs\n", "");
    let err = parse(&yaml).expect_err("must reject");
    let msg = err.to_string();
    assert!(
        msg.contains("docs"),
        "message must name the missing key: {msg}"
    );
    assert!(msg.contains("type_map"), "message must name the map: {msg}");
}

#[test]
fn an_omitted_mirrored_status_is_rejected() {
    let yaml = GOOD.replace("  blocked: Blocked\n", "");
    let err = parse(&yaml).expect_err("must reject");
    assert!(err.to_string().contains("blocked"), "{err:?}");
}

#[test]
fn an_omitted_builtin_priority_is_rejected() {
    let yaml = GOOD.replace(
        "priority_map: { 0: Show-stopper, 1: Critical, 2: Major, 3: Normal, 4: Minor }",
        "priority_map: { 0: Show-stopper, 1: Critical, 2: Major, 3: Normal }",
    );
    let err = parse(&yaml).expect_err("must reject");
    let msg = err.to_string();
    assert!(
        msg.contains('4'),
        "message must name the missing key: {msg}"
    );
    assert!(
        msg.contains("priority_map"),
        "message must name the map: {msg}"
    );
}

#[test]
fn a_collapsed_map_is_rejected_naming_both_keys() {
    let yaml = GOOD.replace("  question: Question\n", "  question: Task\n");
    let err = parse(&yaml).expect_err("must reject");
    let msg = err.to_string();
    assert!(msg.contains("task"), "must name the first key: {msg}");
    assert!(msg.contains("question"), "must name the second key: {msg}");
    assert!(msg.contains("Task"), "must name the shared value: {msg}");
}

#[test]
fn tombstone_in_status_map_is_rejected() {
    let yaml = GOOD.replace(
        "  closed: Fixed\n",
        "  closed: Fixed\n  tombstone: Obsolete\n",
    );
    let err = parse(&yaml).expect_err("must reject");
    assert!(err.to_string().contains("tombstone"), "{err:?}");
}

#[test]
fn a_page_size_of_zero_is_rejected() {
    let yaml = GOOD.replace("page_size: 100\n", "page_size: 0\n");
    let err = parse(&yaml).expect_err("must reject");
    let msg = err.to_string();
    assert!(msg.contains("page_size"), "must name the field: {msg}");
    assert!(msg.contains('0'), "must name the offending value: {msg}");
}

#[test]
fn a_page_size_above_the_ceiling_is_rejected() {
    let yaml = GOOD.replace("page_size: 100\n", "page_size: 1001\n");
    let err = parse(&yaml).expect_err("must reject");
    let msg = err.to_string();
    assert!(msg.contains("page_size"), "must name the field: {msg}");
    assert!(msg.contains("1001"), "must name the offending value: {msg}");
}

#[test]
fn the_page_size_ceiling_itself_is_accepted() {
    let yaml = GOOD.replace("page_size: 100\n", "page_size: 1000\n");
    assert!(
        parse(&yaml).is_ok(),
        "1000 is the documented ceiling"
    );
}

#[test]
fn declaration_order_survives_parse() {
    let cfg = parse(GOOD).expect("parse");
    let keys: Vec<&str> = cfg.type_map.keys().map(String::as_str).collect();
    assert_eq!(
        keys,
        [
            "task", "bug", "feature", "epic", "chore", "docs", "question"
        ]
    );
}
