//! Which beads and issues belong together.

use beads::model::{Issue, Status};
use beads::remote::config::RemoteConfig;
use beads::remote::model::RemoteIssue;
use beads::remote::reconcile::{is_in_scope, pair_workspace, Pairing};

fn entries(pairs: &[(&str, &str)]) -> indexmap::IndexMap<String, String> {
    pairs
        .iter()
        .map(|(key, value)| (key.to_string(), value.to_string()))
        .collect()
}

fn config() -> RemoteConfig {
    RemoteConfig {
        backend: "youtrack".to_string(),
        url: "https://example.youtrack.cloud".to_string(),
        project: "EM".to_string(),
        status_map: entries(&[
            ("open", "Open"),
            ("in_progress", "In Progress"),
            ("blocked", "Blocked"),
            ("deferred", "Deferred"),
            ("draft", "Draft"),
            ("pinned", "Pinned"),
            ("closed", "Fixed"),
        ]),
        type_map: entries(&[
            ("task", "Task"),
            ("bug", "Bug"),
            ("feature", "Feature"),
            ("epic", "Epic"),
            ("chore", "Chore"),
            ("docs", "Docs"),
            ("question", "Question"),
        ]),
        priority_map: entries(&[
            ("0", "Show-stopper"),
            ("1", "Critical"),
            ("2", "Major"),
            ("3", "Normal"),
            ("4", "Minor"),
        ]),
        deleted_state: "Won't fix".to_string(),
        page_size: 100,
    }
}

fn bead(id: &str, external_ref: Option<&str>, status: Status) -> Issue {
    Issue {
        id: id.to_string(),
        title: "t".to_string(),
        external_ref: external_ref.map(str::to_string),
        status,
        ..Issue::default()
    }
}

fn remote(id_readable: &str) -> RemoteIssue {
    RemoteIssue::for_test(id_readable)
}

#[test]
fn a_ref_from_another_importer_is_out_of_scope_and_untouched() {
    let cfg = config();
    let beads = vec![bead("bds-1", Some("JIRA-123"), Status::Open)];
    let pairing = pair_workspace(&cfg, &beads, vec![]);

    assert!(pairing.paired.is_empty());
    assert!(
        pairing.dangling_local.is_empty(),
        "an out-of-scope ref is not dangling"
    );
    assert!(
        pairing.unpaired_local.is_empty(),
        "nor is it a create candidate"
    );
    assert_eq!(pairing.out_of_scope, ["bds-1"]);
}

#[test]
fn a_ref_naming_a_missing_issue_is_dangling_never_recreated() {
    let beads = vec![bead("bds-1", Some("EM-9"), Status::Open)];
    let pairing = pair_workspace(&config(), &beads, vec![]);

    assert_eq!(pairing.dangling_local, ["bds-1"]);
    assert!(
        pairing.unpaired_local.is_empty(),
        "a dangling bead must not fall through into the create set"
    );
}

#[test]
fn an_unclaimed_issue_is_an_adoption_candidate() {
    let pairing = pair_workspace(&config(), &vec![], vec![remote("EM-4")]);
    assert_eq!(pairing.unpaired_remote.len(), 1);
    assert_eq!(pairing.unpaired_remote[0].id_readable, "EM-4");
}

#[test]
fn a_live_bead_without_a_ref_is_a_create_candidate() {
    let beads = vec![bead("bds-1", None, Status::Open)];
    let pairing = pair_workspace(&config(), &beads, vec![]);
    assert_eq!(pairing.unpaired_local, ["bds-1"]);
}

#[test]
fn a_tombstone_is_not_a_create_candidate() {
    let beads = vec![bead("bds-1", None, Status::Tombstone)];
    let pairing = pair_workspace(&config(), &beads, vec![]);
    assert!(
        pairing.unpaired_local.is_empty(),
        "the tombstone rule owns tombstones; creating one would mirror a deletion as an issue"
    );
}

#[test]
fn a_matching_pair_is_paired() {
    let beads = vec![bead("bds-1", Some("EM-4"), Status::Open)];
    let pairing = pair_workspace(&config(), &beads, vec![remote("EM-4")]);
    assert_eq!(pairing.paired.len(), 1);
    assert_eq!(pairing.paired[0].bead_id, "bds-1");
    assert!(pairing.unpaired_remote.is_empty());
}

#[test]
fn scoping_requires_the_exact_prefix_and_a_numeric_suffix() {
    let cfg = config();
    assert!(is_in_scope(&cfg, "EM-1"));
    assert!(is_in_scope(&cfg, "EM-1234"));
    assert!(
        !is_in_scope(&cfg, "EMX-1"),
        "a longer short name must not match"
    );
    assert!(!is_in_scope(&cfg, "EM-1a"), "the suffix must be all digits");
    assert!(
        !is_in_scope(&cfg, "em-1"),
        "YouTrack short names are case-sensitive"
    );
    assert!(!is_in_scope(&cfg, "EM-"));
}

#[test]
fn unpaired_remote_keeps_the_fetch_order() {
    let beads = vec![bead("bds-1", Some("EM-2"), Status::Open)];
    let mirror = vec![remote("EM-1"), remote("EM-2"), remote("EM-3")];
    let pairing = pair_workspace(&config(), &beads, mirror);
    let left: Vec<&str> = pairing
        .unpaired_remote
        .iter()
        .map(|i| i.id_readable.as_str())
        .collect();
    assert_eq!(left, ["EM-1", "EM-3"]);
}

#[test]
fn a_pairing_starts_without_anybody() {
    let pairing = Pairing::default();
    assert!(pairing.paired.is_empty() && pairing.dangling_local.is_empty());
    assert!(pairing.unpaired_remote.is_empty() && pairing.unpaired_local.is_empty());
    assert!(pairing.out_of_scope.is_empty());
}
