//! Issues, statuses, types and dependencies.

use beads::error::BeadsError;
use beads::model::{
    optional_metadata, Comment, Dependency, DependencyType, Issue, IssueType, Priority, Status,
};
use beads::time::Timestamp;

fn at(secs: i64) -> Timestamp {
    Timestamp { secs, nanos: 0 }
}

fn days_ago(days: i64) -> Timestamp {
    let then = chrono::Utc::now() - chrono::Duration::days(days);
    Timestamp {
        secs: then.timestamp(),
        nanos: then.timestamp_subsec_nanos(),
    }
}

/// The `metadata` of a dependency as a line of the log gives it.
fn metadata_of(line: &str) -> Option<String> {
    let value: serde_json::Value = serde_json::from_str(line).expect("valid JSON");
    let text = value
        .get("metadata")
        .and_then(|m| m.as_str())
        .map(|m| m.to_string());
    optional_metadata(text)
}

fn create_test_issue() -> Issue {
    Issue {
        id: "bd-test".to_string(),
        content_hash: None,
        title: "Test Title".to_string(),
        description: Some("Test Description".to_string()),
        design: None,
        acceptance_criteria: None,
        notes: None,
        status: Status::Open,
        priority: Priority::medium(),
        issue_type: IssueType::Task,
        owner: None,
        created_at: at(1_700_000_000),
        created_by: None,
        updated_at: at(1_700_000_000),
        closed_at: None,
        close_reason: None,
        defer_until: None,
        external_ref: None,
        source_repo: None,
        deleted_at: None,
        deleted_by: None,
        delete_reason: None,
        original_type: None,
        former_ids: vec![],
        labels: vec![],
        dependencies: vec![],
        comments: vec![],
    }
}

#[test]
fn test_status_from_str_open() {
    assert_eq!(Status::from_str("open").unwrap(), Status::Open);
    assert_eq!(Status::from_str("OPEN").unwrap(), Status::Open);
    assert_eq!(Status::from_str("Open").unwrap(), Status::Open);
}

#[test]
fn test_status_from_str_in_progress() {
    assert_eq!(Status::from_str("in_progress").unwrap(), Status::InProgress);
    assert_eq!(Status::from_str("IN_PROGRESS").unwrap(), Status::InProgress);
    assert_eq!(Status::from_str("inprogress").unwrap(), Status::InProgress);
}

#[test]
fn test_status_from_str_blocked() {
    assert_eq!(Status::from_str("blocked").unwrap(), Status::Blocked);
    assert_eq!(Status::from_str("BLOCKED").unwrap(), Status::Blocked);
}

#[test]
fn test_status_from_str_deferred() {
    assert_eq!(Status::from_str("deferred").unwrap(), Status::Deferred);
    assert_eq!(Status::from_str("DEFERRED").unwrap(), Status::Deferred);
}

#[test]
fn test_status_from_str_closed() {
    assert_eq!(Status::from_str("closed").unwrap(), Status::Closed);
    assert_eq!(Status::from_str("CLOSED").unwrap(), Status::Closed);
}

#[test]
fn test_status_from_str_tombstone() {
    assert_eq!(Status::from_str("tombstone").unwrap(), Status::Tombstone);
    assert_eq!(Status::from_str("TOMBSTONE").unwrap(), Status::Tombstone);
}

#[test]
fn test_status_from_str_pinned() {
    assert_eq!(Status::from_str("pinned").unwrap(), Status::Pinned);
    assert_eq!(Status::from_str("PINNED").unwrap(), Status::Pinned);
}

#[test]
fn test_status_from_str_unknown_becomes_custom() {
    let result = Status::from_str("invalid_status").unwrap();
    assert_eq!(result, Status::Custom("invalid_status".to_string()));

    let mixed_case = Status::from_str("QaReview").unwrap();
    assert_eq!(mixed_case, Status::Custom("qareview".to_string()));
}

#[test]
fn test_status_display() {
    assert_eq!(Status::Open.to_string(), "open");
    assert_eq!(Status::InProgress.to_string(), "in_progress");
    assert_eq!(Status::Blocked.to_string(), "blocked");
    assert_eq!(Status::Deferred.to_string(), "deferred");
    assert_eq!(Status::Closed.to_string(), "closed");
    assert_eq!(Status::Tombstone.to_string(), "tombstone");
    assert_eq!(Status::Pinned.to_string(), "pinned");
    assert_eq!(Status::Custom("custom".to_string()).to_string(), "custom");
}

#[test]
fn test_status_is_terminal() {
    assert!(Status::Closed.is_terminal());
    assert!(Status::Tombstone.is_terminal());
    assert!(!Status::Open.is_terminal());
    assert!(!Status::InProgress.is_terminal());
    assert!(!Status::Blocked.is_terminal());
    assert!(!Status::Deferred.is_terminal());
    assert!(!Status::Pinned.is_terminal());
    assert!(!Status::Custom("custom".to_string()).is_terminal());
}

#[test]
fn test_status_is_active() {
    assert!(Status::Open.is_active());
    assert!(Status::InProgress.is_active());
    assert!(!Status::Blocked.is_active());
    assert!(!Status::Deferred.is_active());
    assert!(!Status::Closed.is_active());
    assert!(!Status::Tombstone.is_active());
    assert!(!Status::Pinned.is_active());
    assert!(!Status::Custom("custom".to_string()).is_active());
}

#[test]
fn test_status_as_str() {
    assert_eq!(Status::Open.as_str(), "open");
    assert_eq!(Status::InProgress.as_str(), "in_progress");
    assert_eq!(Status::Blocked.as_str(), "blocked");
    assert_eq!(Status::Deferred.as_str(), "deferred");
    assert_eq!(Status::Closed.as_str(), "closed");
    assert_eq!(Status::Tombstone.as_str(), "tombstone");
    assert_eq!(Status::Pinned.as_str(), "pinned");
    assert_eq!(
        Status::Custom("my_status".to_string()).as_str(),
        "my_status"
    );
}

#[test]
fn test_priority_from_str_with_p_prefix() {
    assert_eq!(Priority::from_str("P0").unwrap(), Priority::critical());
    assert_eq!(Priority::from_str("P1").unwrap(), Priority::high());
    assert_eq!(Priority::from_str("P2").unwrap(), Priority::medium());
    assert_eq!(Priority::from_str("P3").unwrap(), Priority::low());
    assert_eq!(Priority::from_str("P4").unwrap(), Priority::backlog());
}

#[test]
fn test_priority_from_str_lowercase_p_prefix() {
    assert_eq!(Priority::from_str("p0").unwrap(), Priority::critical());
    assert_eq!(Priority::from_str("p1").unwrap(), Priority::high());
    assert_eq!(Priority::from_str("p2").unwrap(), Priority::medium());
    assert_eq!(Priority::from_str("p3").unwrap(), Priority::low());
    assert_eq!(Priority::from_str("p4").unwrap(), Priority::backlog());
}

#[test]
fn test_priority_from_str_without_prefix() {
    assert_eq!(Priority::from_str("0").unwrap(), Priority::critical());
    assert_eq!(Priority::from_str("1").unwrap(), Priority::high());
    assert_eq!(Priority::from_str("2").unwrap(), Priority::medium());
    assert_eq!(Priority::from_str("3").unwrap(), Priority::low());
    assert_eq!(Priority::from_str("4").unwrap(), Priority::backlog());
}

#[test]
fn test_priority_from_str_invalid_too_high() {
    let result = Priority::from_str("5");
    assert!(result.is_err());
    let result = Priority::from_str("P5");
    assert!(result.is_err());
}

#[test]
fn test_priority_from_str_invalid_negative() {
    let result = Priority::from_str("-1");
    assert!(result.is_err());
}

#[test]
fn test_priority_from_str_invalid_text() {
    let result = Priority::from_str("high");
    assert!(result.is_err());
    let result = Priority::from_str("critical");
    assert!(result.is_err());
}

#[test]
fn test_priority_display() {
    assert_eq!(Priority::critical().to_string(), "P0");
    assert_eq!(Priority::high().to_string(), "P1");
    assert_eq!(Priority::medium().to_string(), "P2");
    assert_eq!(Priority::low().to_string(), "P3");
    assert_eq!(Priority::backlog().to_string(), "P4");
}

#[test]
fn test_priority_ordering() {
    assert!(Priority::critical() < Priority::high());
    assert!(Priority::high() < Priority::medium());
    assert!(Priority::medium() < Priority::low());
    assert!(Priority::low() < Priority::backlog());
}

#[test]
fn test_priority_default() {
    let p = Priority::default();
    assert_eq!(p, Priority(2));
}

#[test]
fn test_issue_type_from_str_all_variants() {
    // Only these 5 types are valid via FromStr for bd conformance
    assert_eq!(IssueType::from_str("task").unwrap(), IssueType::Task);
    assert_eq!(IssueType::from_str("bug").unwrap(), IssueType::Bug);
    assert_eq!(IssueType::from_str("feature").unwrap(), IssueType::Feature);
    assert_eq!(IssueType::from_str("epic").unwrap(), IssueType::Epic);
    assert_eq!(IssueType::from_str("chore").unwrap(), IssueType::Chore);
    // docs and question are now accepted
    assert_eq!(IssueType::from_str("docs").unwrap(), IssueType::Docs);
    assert_eq!(
        IssueType::from_str("question").unwrap(),
        IssueType::Question
    );
}

#[test]
fn test_issue_type_from_str_case_insensitive() {
    assert_eq!(IssueType::from_str("TASK").unwrap(), IssueType::Task);
    assert_eq!(IssueType::from_str("BUG").unwrap(), IssueType::Bug);
    assert_eq!(IssueType::from_str("Feature").unwrap(), IssueType::Feature);
}

#[test]
fn test_issue_type_from_str_custom_accepted() {
    // Custom/unknown types are accepted as IssueType::Custom
    let result = IssueType::from_str("custom_type");
    assert!(result.is_ok());
    assert_eq!(
        result.unwrap(),
        IssueType::Custom("custom_type".to_string())
    );

    let mixed_case = IssueType::from_str("Odd_Type").unwrap();
    assert_eq!(mixed_case, IssueType::Custom("odd_type".to_string()));
}

#[test]
fn test_issue_type_display() {
    assert_eq!(IssueType::Task.to_string(), "task");
    assert_eq!(IssueType::Bug.to_string(), "bug");
    assert_eq!(IssueType::Feature.to_string(), "feature");
    assert_eq!(IssueType::Epic.to_string(), "epic");
    assert_eq!(IssueType::Chore.to_string(), "chore");
    assert_eq!(IssueType::Docs.to_string(), "docs");
    assert_eq!(IssueType::Question.to_string(), "question");
    assert_eq!(
        IssueType::Custom("my_type".to_string()).to_string(),
        "my_type"
    );
}

#[test]
fn test_issue_type_as_str() {
    assert_eq!(IssueType::Task.as_str(), "task");
    assert_eq!(IssueType::Bug.as_str(), "bug");
    assert_eq!(IssueType::Feature.as_str(), "feature");
    assert_eq!(IssueType::Epic.as_str(), "epic");
    assert_eq!(IssueType::Chore.as_str(), "chore");
    assert_eq!(IssueType::Docs.as_str(), "docs");
    assert_eq!(IssueType::Question.as_str(), "question");
    assert_eq!(IssueType::Custom("custom".to_string()).as_str(), "custom");
}

#[test]
fn test_issue_type_default() {
    assert_eq!(IssueType::default(), IssueType::Task);
}

#[test]
fn test_dependency_type_from_str_all_variants() {
    assert_eq!(
        DependencyType::from_str("blocks").unwrap(),
        DependencyType::Blocks
    );
    assert_eq!(
        DependencyType::from_str("parent-child").unwrap(),
        DependencyType::ParentChild
    );
    assert_eq!(
        DependencyType::from_str("conditional-blocks").unwrap(),
        DependencyType::ConditionalBlocks
    );
    assert_eq!(
        DependencyType::from_str("waits-for").unwrap(),
        DependencyType::WaitsFor
    );
    assert_eq!(
        DependencyType::from_str("related").unwrap(),
        DependencyType::Related
    );
    assert_eq!(
        DependencyType::from_str("discovered-from").unwrap(),
        DependencyType::DiscoveredFrom
    );
    assert_eq!(
        DependencyType::from_str("replies-to").unwrap(),
        DependencyType::RepliesTo
    );
    assert_eq!(
        DependencyType::from_str("relates-to").unwrap(),
        DependencyType::RelatesTo
    );
    assert_eq!(
        DependencyType::from_str("duplicates").unwrap(),
        DependencyType::Duplicates
    );
    assert_eq!(
        DependencyType::from_str("supersedes").unwrap(),
        DependencyType::Supersedes
    );
    assert_eq!(
        DependencyType::from_str("caused-by").unwrap(),
        DependencyType::CausedBy
    );
}

#[test]
fn test_dependency_type_from_str_custom() {
    let result = DependencyType::from_str("my-custom-dep").unwrap();
    assert_eq!(result, DependencyType::Custom("my-custom-dep".to_string()));

    let mixed_case = DependencyType::from_str("My-Custom-Dep").unwrap();
    assert_eq!(
        mixed_case,
        DependencyType::Custom("my-custom-dep".to_string())
    );
}

#[test]
fn test_dependency_type_is_blocking() {
    assert!(DependencyType::Blocks.is_blocking());
    assert!(DependencyType::ParentChild.is_blocking());
    assert!(DependencyType::ConditionalBlocks.is_blocking());
    assert!(DependencyType::WaitsFor.is_blocking());
    assert!(!DependencyType::Related.is_blocking());
    assert!(!DependencyType::DiscoveredFrom.is_blocking());
    assert!(!DependencyType::RepliesTo.is_blocking());
    assert!(!DependencyType::RelatesTo.is_blocking());
    assert!(!DependencyType::Duplicates.is_blocking());
    assert!(!DependencyType::Supersedes.is_blocking());
    assert!(!DependencyType::CausedBy.is_blocking());
    assert!(!DependencyType::Custom("custom".to_string()).is_blocking());
}

#[test]
fn test_dependency_type_display() {
    assert_eq!(DependencyType::Blocks.to_string(), "blocks");
    assert_eq!(DependencyType::ParentChild.to_string(), "parent-child");
    assert_eq!(
        DependencyType::ConditionalBlocks.to_string(),
        "conditional-blocks"
    );
    assert_eq!(DependencyType::WaitsFor.to_string(), "waits-for");
    assert_eq!(DependencyType::Related.to_string(), "related");
    assert_eq!(
        DependencyType::DiscoveredFrom.to_string(),
        "discovered-from"
    );
    assert_eq!(DependencyType::RepliesTo.to_string(), "replies-to");
    assert_eq!(DependencyType::RelatesTo.to_string(), "relates-to");
    assert_eq!(DependencyType::Duplicates.to_string(), "duplicates");
    assert_eq!(DependencyType::Supersedes.to_string(), "supersedes");
    assert_eq!(DependencyType::CausedBy.to_string(), "caused-by");
    assert_eq!(
        DependencyType::Custom("custom".to_string()).to_string(),
        "custom"
    );
}

#[test]
fn test_issue_sync_equals_ignores_audit_timestamps_and_relation_order() {
    let mut issue1 = create_test_issue();
    issue1.labels = vec!["backend".to_string(), "bug".to_string()];
    issue1.dependencies = vec![
        Dependency {
            issue_id: issue1.id.clone(),
            depends_on_id: "bd-parent".to_string(),
            dep_type: DependencyType::Blocks,
            created_at: at(1_700_000_100),
            created_by: Some("alice".to_string()),
            metadata: Some("{\"source\":\"cli\"}".to_string()),
            thread_id: Some("br-1".to_string()),
        },
        Dependency {
            issue_id: issue1.id.clone(),
            depends_on_id: "bd-epic".to_string(),
            dep_type: DependencyType::ParentChild,
            created_at: at(1_700_000_200),
            created_by: Some("alice".to_string()),
            metadata: None,
            thread_id: None,
        },
    ];
    issue1.comments = vec![
        Comment {
            id: 2,
            issue_id: issue1.id.clone(),
            author: "alice".to_string(),
            body: "second".to_string(),
            created_at: at(1_700_000_200),
        },
        Comment {
            id: 1,
            issue_id: issue1.id.clone(),
            author: "alice".to_string(),
            body: "first".to_string(),
            created_at: at(1_700_000_100),
        },
    ];

    let mut issue2 = issue1.clone();
    issue2.created_at = at(1_800_000_000);
    issue2.updated_at = at(1_800_000_500);
    issue2.labels.reverse();
    issue2.dependencies.reverse();
    issue2.comments.reverse();
    issue2.content_hash = Some("stale-hash".to_string());

    assert!(issue1.sync_equals(&issue2));
    assert!(issue2.sync_equals(&issue1));
}

#[test]
fn test_issue_sync_equals_detects_semantic_changes() {
    let issue1 = create_test_issue();
    let mut issue2 = create_test_issue();
    issue2.defer_until = Some(at(1_800_000_000));

    assert!(!issue1.sync_equals(&issue2));
}

#[test]
fn test_issue_sync_equals_detects_source_repo_changes() {
    let mut issue1 = create_test_issue();
    issue1.source_repo = Some("widget_engine".to_string());

    let mut issue2 = issue1.clone();
    issue2.source_repo = Some("alternate_widget_engine".to_string());

    assert!(!issue1.sync_equals(&issue2));
    assert!(!issue2.sync_equals(&issue1));
}

#[test]
fn test_issue_sync_equals_detects_former_ids_only_change() {
    let issue1 = create_test_issue();
    let mut issue2 = issue1.clone();
    issue2.former_ids = vec!["bd-old".to_string()];

    assert!(
        !issue1.sync_equals(&issue2),
        "a new former_ids entry must be a semantic change, or a rename \
         carried by JSONL cannot outrun an equal-but-stale comparison"
    );
    assert!(!issue2.sync_equals(&issue1));

    // Order matters: it is an append-only, oldest-first history, not a set.
    let mut issue3 = issue1.clone();
    issue3.former_ids = vec!["bd-a".to_string(), "bd-b".to_string()];
    let mut issue4 = issue1.clone();
    issue4.former_ids = vec!["bd-b".to_string(), "bd-a".to_string()];
    assert!(!issue3.sync_equals(&issue4));
}

#[test]
fn test_issue_sync_equals_treats_duplicate_labels_as_equivalent() {
    let mut issue1 = create_test_issue();
    issue1.labels = vec![
        "backend".to_string(),
        "backend".to_string(),
        "urgent".to_string(),
    ];

    let mut issue2 = create_test_issue();
    issue2.labels = vec!["urgent".to_string(), "backend".to_string()];

    assert!(issue1.sync_equals(&issue2));
    assert!(issue2.sync_equals(&issue1));
}

#[test]
fn test_is_expired_tombstone_not_tombstone() {
    let issue = create_test_issue();
    assert!(!issue.is_expired_tombstone(Some(30)));
}

#[test]
fn test_is_expired_tombstone_no_retention() {
    let mut issue = create_test_issue();
    issue.status = Status::Tombstone;
    issue.deleted_at = Some(days_ago(100));
    assert!(!issue.is_expired_tombstone(None));
}

#[test]
fn test_is_expired_tombstone_zero_retention() {
    let mut issue = create_test_issue();
    issue.status = Status::Tombstone;
    issue.deleted_at = Some(days_ago(100));
    assert!(!issue.is_expired_tombstone(Some(0)));
}

#[test]
fn test_is_expired_tombstone_no_deleted_at() {
    let mut issue = create_test_issue();
    issue.status = Status::Tombstone;
    assert!(!issue.is_expired_tombstone(Some(30)));
}

#[test]
fn test_is_expired_tombstone_not_expired() {
    let mut issue = create_test_issue();
    issue.status = Status::Tombstone;
    issue.deleted_at = Some(days_ago(10));
    assert!(!issue.is_expired_tombstone(Some(30)));
}

#[test]
fn test_is_expired_tombstone_expired() {
    let mut issue = create_test_issue();
    issue.status = Status::Tombstone;
    issue.deleted_at = Some(days_ago(40));
    assert!(issue.is_expired_tombstone(Some(30)));
}

#[test]
fn status_sort_rank_follows_declaration_order() {
    assert_eq!(Status::Open.sort_rank(), 0);
    assert_eq!(Status::InProgress.sort_rank(), 1);
    assert_eq!(Status::Blocked.sort_rank(), 2);
    assert_eq!(Status::Deferred.sort_rank(), 3);
    assert_eq!(Status::Draft.sort_rank(), 4);
    assert_eq!(Status::Closed.sort_rank(), 5);
    assert_eq!(Status::Tombstone.sort_rank(), 6);
    assert_eq!(Status::Pinned.sort_rank(), 7);
}

#[test]
fn status_custom_sorts_last() {
    assert_eq!(Status::Custom("triage".to_string()).sort_rank(), 99);
    assert!(Status::Custom("aaa".to_string()).sort_rank() > Status::Pinned.sort_rank());
}

#[test]
fn status_sort_rank_matches_the_sql_rank_table() {
    for (name, rank) in Status::SORT_RANKS {
        let parsed = Status::known_value(name).expect("table names must be known statuses");
        assert_eq!(parsed.sort_rank(), rank, "rank mismatch for {name}");
    }
    assert_eq!(
        Status::SORT_RANKS.len(),
        8,
        "every known status must be in the table"
    );
}

#[test]
fn issue_type_sort_rank_follows_declaration_order() {
    assert_eq!(IssueType::Task.sort_rank(), 0);
    assert_eq!(IssueType::Bug.sort_rank(), 1);
    assert_eq!(IssueType::Feature.sort_rank(), 2);
    assert_eq!(IssueType::Epic.sort_rank(), 3);
    assert_eq!(IssueType::Chore.sort_rank(), 4);
    assert_eq!(IssueType::Docs.sort_rank(), 5);
    assert_eq!(IssueType::Question.sort_rank(), 6);
    assert_eq!(IssueType::Custom("spike".to_string()).sort_rank(), 99);
}

#[test]
fn issue_type_sort_rank_matches_the_sql_rank_table() {
    for (name, rank) in IssueType::SORT_RANKS {
        let parsed = IssueType::known_value(name).expect("table names must be known types");
        assert_eq!(parsed.sort_rank(), rank, "rank mismatch for {name}");
    }
    assert_eq!(
        IssueType::SORT_RANKS.len(),
        7,
        "every known type must be in the table"
    );
}

#[test]
fn dependency_empty_string_metadata_coerced_to_none() {
    let json = r#"{
            "issue_id": "example-1",
            "depends_on_id": "example-0",
            "type": "blocks",
            "created_at": "2026-01-01T00:00:00Z",
            "created_by": "user",
            "metadata": "",
            "thread_id": ""
        }"#;
    assert_eq!(
        metadata_of(json),
        None,
        "empty-string metadata should become None"
    );
}

#[test]
fn dependency_whitespace_metadata_coerced_to_none() {
    let json = r#"{"issue_id":"a","depends_on_id":"b","type":"blocks","created_at":"2026-01-01T00:00:00Z","metadata":"   "}"#;
    assert_eq!(metadata_of(json), None);
}

#[test]
fn dependency_real_metadata_preserved() {
    let json = r#"{"issue_id":"a","depends_on_id":"b","type":"blocks","created_at":"2026-01-01T00:00:00Z","metadata":"{\"k\":\"v\"}"}"#;
    assert_eq!(metadata_of(json).as_deref(), Some(r#"{"k":"v"}"#));
}

#[test]
fn a_refused_priority_says_what_was_read() {
    let refused = |text: &str| match Priority::from_str(text) {
        Err(BeadsError::InvalidPriority { priority }) => priority,
        other => panic!("not refused: {other:?}"),
    };
    assert_eq!(refused("P5"), "5");
    assert_eq!(refused(" +7 "), "7");
    assert_eq!(refused("-1"), "-1");
    assert_eq!(refused("phigh"), "HIGH");
    assert_eq!(refused("99999999999"), "99999999999");
    assert_eq!(refused(""), "");
    assert_eq!(Priority::from_str("\u{a0}p+3\n"), Ok(Priority::low()));
    assert_eq!(Priority::from_str("P04"), Ok(Priority::backlog()));
}

#[test]
fn names_read_back() {
    for name in ["open", "in_progress", "deferred", "qa", "ÄNDERN"] {
        let status = Status::from_str(name).expect("never refused");
        assert_eq!(Status::from_str(status.as_str()), Ok(status));
    }
    assert_eq!(
        Status::from_str("ÄNDERN"),
        Ok(Status::Custom("ändern".to_string()))
    );
    for name in ["waits-for", "Caused-By", "own"] {
        let kind = DependencyType::from_str(name).expect("never refused");
        assert_eq!(DependencyType::from_str(kind.as_str()), Ok(kind));
    }
    for n in 0..5 {
        let text = Priority(n).to_string();
        assert_eq!(Priority::from_str(&text), Ok(Priority(n)));
    }
}

#[test]
fn a_tombstone_expires_to_the_nanosecond() {
    let mut issue = create_test_issue();
    issue.status = Status::Tombstone;
    issue.deleted_at = Some(at(1_000));
    let end = 1_000 + 2 * 86_400;
    assert!(!issue.is_expired_tombstone_at(Some(2), at(end)));
    assert!(issue.is_expired_tombstone_at(
        Some(2),
        Timestamp {
            secs: end,
            nanos: 1
        }
    ));
    let longest = 1_000 + 365_000 * 86_400;
    assert!(!issue.is_expired_tombstone_at(Some(u64::MAX), at(longest)));
    assert!(issue.is_expired_tombstone_at(Some(u64::MAX), at(longest + 1)));
}

#[test]
fn dependencies_that_tie_are_compared_in_their_own_order() {
    let row = |dep_type: DependencyType| Dependency {
        issue_id: "bd-test".to_string(),
        depends_on_id: "bd-other".to_string(),
        dep_type,
        created_at: at(1),
        created_by: None,
        metadata: None,
        thread_id: None,
    };
    let custom = || row(DependencyType::Custom("blocks".to_string()));
    let mut one = create_test_issue();
    one.dependencies = vec![row(DependencyType::Blocks), custom()];
    let mut other = create_test_issue();
    other.dependencies = vec![custom(), row(DependencyType::Blocks)];
    assert!(one.sync_equals(&one.clone()));
    assert!(!one.sync_equals(&other));
}

/// The text that a line of the log gives.
fn text_of(line: &str) -> String {
    serde_json::from_str(line).expect("a JSON text")
}

#[test]
fn status_custom_roundtrip() {
    let status: Status = text_of("\"custom_status\"").parse().unwrap();
    assert_eq!(status, Status::Custom("custom_status".to_string()));
    let serialized = serde_json::to_string(status.as_str()).unwrap();
    assert_eq!(serialized, "\"custom_status\"");

    let mixed_case: Status = text_of("\"QaReview\"").parse().unwrap();
    assert_eq!(mixed_case, Status::Custom("qareview".to_string()));
}

#[test]
fn issue_type_custom_deserialize_normalizes_spelling() {
    let issue_type: IssueType = text_of("\"Odd_Type\"").parse().unwrap();
    assert_eq!(issue_type, IssueType::Custom("odd_type".to_string()));
}

#[test]
fn dependency_type_custom_deserialize_normalizes_spelling() {
    let dep_type: DependencyType = text_of("\"Odd-Dep\"").parse().unwrap();
    assert_eq!(dep_type, DependencyType::Custom("odd-dep".to_string()));
}

#[test]
fn test_dependency_type_serialization() {
    let d = DependencyType::Blocks;
    let json = serde_json::to_string(d.as_str()).unwrap();
    assert_eq!(json, "\"blocks\"");

    let d = DependencyType::ParentChild;
    let json = serde_json::to_string(d.as_str()).unwrap();
    assert_eq!(json, "\"parent-child\"");
}

#[test]
fn a_priority_reads_the_same_in_every_spelling() {
    for n in 0..=4 {
        for text in [
            format!("{n}"),
            format!("p{n}"),
            format!("P{n}"),
            format!(" \t{n}\n"),
            format!("\u{a0}p{n} "),
            format!("  P{n}  "),
        ] {
            assert_eq!(text.parse::<Priority>(), Ok(Priority(n)), "{text:?}");
        }
    }
    for text in ["5", "P5", "-1", "high", "critical", "", "P", "p 1"] {
        assert!(
            matches!(
                text.parse::<Priority>(),
                Err(BeadsError::InvalidPriority { .. })
            ),
            "{text:?}"
        );
    }
}
