//! Which fields of a pair differ, and which side wins.

use beads::model::{Issue, IssueType, Priority, Status};
use beads::remote::config::RemoteConfig;
use beads::remote::diff::{diff_pair, Direction, Field};
use beads::remote::model::RemoteIssue;
use beads::time::Timestamp;

fn entries(pairs: &[(&str, &str)]) -> indexmap::IndexMap<String, String> {
    pairs
        .iter()
        .map(|(key, value)| (key.to_string(), value.to_string()))
        .collect()
}

fn config() -> RemoteConfig {
    RemoteConfig {
        backend: "youtrack".to_string(),
        url: "https://example.youtrack.cloud".to_string(),
        project: "EM".to_string(),
        status_map: entries(&[
            ("open", "Open"),
            ("in_progress", "In Progress"),
            ("blocked", "Blocked"),
            ("deferred", "Deferred"),
            ("draft", "Draft"),
            ("pinned", "Pinned"),
            ("closed", "Fixed"),
        ]),
        type_map: entries(&[
            ("task", "Task"),
            ("bug", "Bug"),
            ("feature", "Feature"),
            ("epic", "Epic"),
            ("chore", "Chore"),
            ("docs", "Docs"),
            ("question", "Question"),
        ]),
        priority_map: entries(&[
            ("0", "Show-stopper"),
            ("1", "Critical"),
            ("2", "Major"),
            ("3", "Normal"),
            ("4", "Minor"),
        ]),
        deleted_state: "Won't fix".to_string(),
        page_size: 100,
    }
}

fn at(millis: i64) -> Timestamp {
    Timestamp {
        secs: millis.div_euclid(1000),
        nanos: (millis.rem_euclid(1000) * 1_000_000) as u32,
    }
}

fn agreeing() -> (Issue, RemoteIssue) {
    let bead = Issue {
        id: "bds-1".into(),
        title: "same title".into(),
        description: Some("same body".into()),
        status: Status::Open,
        priority: Priority::medium(),
        updated_at: at(1_000),
        ..Issue::default()
    };

    let mut remote = RemoteIssue::for_test("EM-1");
    remote.summary = "same title".into();
    remote.description = Some("same body".into());
    remote.fields.status = Status::Open;
    remote.fields.priority = Priority::medium();
    remote.updated = at(9_999_999);

    (bead, remote)
}

#[test]
fn agreement_produces_no_work_however_the_clocks_read() {
    let (bead, remote) = agreeing();
    let changes = diff_pair(&config(), &bead, &remote);
    assert!(
        changes.is_empty(),
        "the mirror is nine thousand seconds newer and it still must not matter: {changes:?}"
    );
}

#[test]
fn a_differing_title_always_pushes() {
    let (mut bead, mut remote) = agreeing();
    bead.title = "local title".into();
    remote.summary = "remote title".into();
    remote.updated = at(9_999_999);
    bead.updated_at = at(1);

    let changes = diff_pair(&config(), &bead, &remote);
    let change = changes
        .iter()
        .find(|c| c.field == Field::Title)
        .expect("title differs");
    assert_eq!(
        change.direction,
        Direction::Push,
        "title is not returnable: local wins even though the remote is far newer"
    );
}

#[test]
fn a_newer_remote_state_is_pulled_and_recorded() {
    let (mut bead, mut remote) = agreeing();
    bead.status = Status::Open;
    bead.updated_at = at(1_000);
    remote.fields.status = Status::Closed;
    remote.updated = at(2_000);

    let changes = diff_pair(&config(), &bead, &remote);
    let change = changes
        .iter()
        .find(|c| c.field == Field::State)
        .expect("state differs");
    assert_eq!(change.direction, Direction::Pull);
    assert_eq!(change.local, "open");
    assert_eq!(change.remote, "closed");
}

#[test]
fn an_older_remote_state_is_pushed() {
    let (mut bead, mut remote) = agreeing();
    bead.status = Status::Closed;
    bead.updated_at = at(5_000);
    remote.fields.status = Status::Open;
    remote.updated = at(2_000);

    let changes = diff_pair(&config(), &bead, &remote);
    let change = changes
        .iter()
        .find(|c| c.field == Field::State)
        .expect("state differs");
    assert_eq!(change.direction, Direction::Push);
}

#[test]
fn a_non_returnable_field_pushes_even_when_the_remote_is_newer() {
    let (mut bead, mut remote) = agreeing();
    bead.design = Some("local design".into());
    bead.updated_at = at(1);
    remote.fields.design = Some("remote design".into());
    remote.updated = at(9_999_999);

    let changes = diff_pair(&config(), &bead, &remote);
    let change = changes
        .iter()
        .find(|c| c.field == Field::Design)
        .expect("design differs");
    assert_eq!(
        change.direction,
        Direction::Push,
        "design has no YouTrack equivalent a human edits deliberately; local wins"
    );
}

#[test]
fn the_comparison_uses_milliseconds_on_both_sides() {
    let (mut bead, mut remote) = agreeing();
    bead.status = Status::Open;
    bead.updated_at = at(1_700_000_000_001);
    remote.fields.status = Status::Closed;
    remote.updated = at(1_700_000_000_002);

    let changes = diff_pair(&config(), &bead, &remote);
    let change = changes
        .iter()
        .find(|c| c.field == Field::State)
        .expect("state differs");
    assert_eq!(
        change.direction,
        Direction::Pull,
        "a one-millisecond lead must be visible"
    );
}

#[test]
fn a_newer_remote_priority_is_pulled_but_a_newer_remote_type_is_not() {
    let (mut bead, mut remote) = agreeing();
    bead.updated_at = at(1);
    remote.updated = at(2);
    remote.fields.priority = Priority::critical();
    remote.fields.issue_type = IssueType::Bug;

    let changes = diff_pair(&config(), &bead, &remote);
    let priority = changes
        .iter()
        .find(|c| c.field == Field::Priority)
        .expect("priority differs");
    let issue_type = changes
        .iter()
        .find(|c| c.field == Field::Type)
        .expect("type differs");
    assert_eq!(priority.direction, Direction::Pull);
    assert_eq!(
        issue_type.direction,
        Direction::Push,
        "only State and Priority are returnable"
    );
}

#[test]
fn labels_compare_as_a_set_not_a_sequence() {
    let (mut bead, mut remote) = agreeing();
    bead.labels = vec!["b".into(), "a".into()];
    remote.labels = vec!["a".into(), "b".into()];
    assert!(
        diff_pair(&config(), &bead, &remote).is_empty(),
        "label order is not a difference"
    );

    remote.labels = vec!["a".into()];
    let changes = diff_pair(&config(), &bead, &remote);
    assert_eq!(changes.len(), 1);
    assert_eq!(changes[0].field, Field::Labels);
    assert_eq!(changes[0].direction, Direction::Push);
}

#[test]
fn a_title_differing_only_in_surrounding_whitespace_is_not_a_difference() {
    let (mut bead, mut remote) = agreeing();
    bead.title = "  same title ".into();
    remote.summary = "same title".into();
    assert!(
        diff_pair(&config(), &bead, &remote).is_empty(),
        "an untrimmed comparison would push forever"
    );
}

#[test]
fn an_absent_prose_field_equals_an_empty_one() {
    let (mut bead, mut remote) = agreeing();
    bead.notes = None;
    remote.fields.notes = Some(String::new());
    assert!(
        diff_pair(&config(), &bead, &remote).is_empty(),
        "None and \"\" are the same absence"
    );
}
