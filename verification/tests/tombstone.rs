//! What becomes of the issue of a deleted bead.

use beads::model::{Issue, Status};
use beads::remote::tombstone::{
    classify_tombstone, deleted_comment_text, plan_tombstones, TombstoneAction,
};

fn live(id: &str, former: &[&str]) -> Issue {
    Issue {
        id: id.to_string(),
        title: "live".to_string(),
        former_ids: former.iter().map(|s| (*s).to_string()).collect(),
        ..Issue::default()
    }
}

fn tombstone(id: &str) -> Issue {
    Issue {
        id: id.to_string(),
        title: "gone".to_string(),
        status: Status::Tombstone,
        ..Issue::default()
    }
}

#[test]
fn the_two_real_tombstones_are_forwarding_pointers() {
    let live_issues = vec![
        live("bds-is1", &["bds-b4f.7"]),
        live("bds-j1m", &["bds-b4f.8"]),
    ];

    assert_eq!(
        classify_tombstone("bds-b4f.7", &live_issues),
        TombstoneAction::Forward {
            destination_bead_id: "bds-is1".into()
        }
    );
    assert_eq!(
        classify_tombstone("bds-b4f.8", &live_issues),
        TombstoneAction::Forward {
            destination_bead_id: "bds-j1m".into()
        }
    );
}

#[test]
fn a_tombstone_in_no_former_ids_is_a_genuine_deletion() {
    let live_issues = vec![live("bds-is1", &["bds-b4f.7"])];
    assert!(matches!(
        classify_tombstone("bds-gone", &live_issues),
        TombstoneAction::Delete { .. }
    ));
}

#[test]
fn the_delete_comment_names_the_reason_and_carries_the_marker() {
    let text = deleted_comment_text(Some("superseded by the new engine"));
    assert!(
        text.starts_with("[br]"),
        "must be recognised as our own echo: {text}"
    );
    assert!(text.contains("deleted in beads"), "{text}");
    assert!(text.contains("superseded by the new engine"), "{text}");
}

#[test]
fn the_delete_comment_omits_a_missing_reason_rather_than_saying_none() {
    let text = deleted_comment_text(None);
    assert!(text.starts_with("[br]"), "{text}");
    assert!(text.contains("deleted in beads"), "{text}");
    assert!(
        !text.contains(':'),
        "no reason means no trailing colon: {text}"
    );
}

#[test]
fn classification_ignores_delete_reason_prose() {
    let mut tomb = tombstone("bds-old");
    tomb.delete_reason = Some("moved under the new epic".into());
    let live_issues = vec![live("bds-new", &["bds-old"])];
    assert_eq!(
        classify_tombstone(&tomb.id, &live_issues),
        TombstoneAction::Forward {
            destination_bead_id: "bds-new".into()
        },
        "membership in former_ids decides, not the wording of delete_reason"
    );
}

#[test]
fn plan_tombstones_classifies_every_tombstone_and_carries_the_delete_reason() {
    let mut renamed_away = tombstone("bds-old");
    renamed_away.delete_reason = Some("renamed to bds-new".into());
    let mut genuinely_gone = tombstone("bds-gone");
    genuinely_gone.delete_reason = Some("no longer needed".into());
    let destination = live("bds-new", &["bds-old"]);
    let untouched = Issue {
        id: "bds-live".into(),
        title: "still here".into(),
        ..Issue::default()
    };

    let beads = vec![renamed_away, genuinely_gone, destination, untouched];
    let plan = plan_tombstones(&beads);

    assert_eq!(plan.len(), 2, "{plan:?}");
    let by_id: std::collections::HashMap<_, _> = plan.into_iter().collect();
    assert_eq!(
        by_id["bds-old"],
        TombstoneAction::Forward {
            destination_bead_id: "bds-new".into()
        }
    );
    assert_eq!(
        by_id["bds-gone"],
        TombstoneAction::Delete {
            reason: Some("no longer needed".into())
        }
    );
}

#[test]
fn plan_tombstones_is_empty_over_a_workspace_with_no_tombstones() {
    let beads = vec![Issue {
        id: "bds-1".into(),
        title: "live".into(),
        ..Issue::default()
    }];
    assert!(plan_tombstones(&beads).is_empty());
}
