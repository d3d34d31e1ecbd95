//! Which links of a pair differ.

use beads::remote::link_diff::{
    diff_links, direction_tag, kind_name, mirrored_direction, BeadLinks, LinkChange,
};
use beads::remote::model::RemoteIssue;
use beads::remote::youtrack::links::{LinkKind, LinkTypes, LinkedIssue, RemoteLink};

fn remote_with_parent(parent_internal: &str, parent_readable: &str) -> RemoteIssue {
    let mut issue = RemoteIssue::for_test("EM-2");
    issue.links = vec![RemoteLink {
        link_id: "173-3t".into(),
        kind: LinkKind::Subtask,
        direction: "INWARD".into(),
        issues: vec![LinkedIssue {
            id: parent_internal.into(),
            id_readable: parent_readable.into(),
        }],
    }];
    issue
}

fn types() -> LinkTypes {
    LinkTypes {
        subtask: "173-3".into(),
        depend: "173-1".into(),
        relates: "173-0".into(),
    }
}

fn table(pairs: Vec<(&str, &str)>) -> Vec<(String, String)> {
    pairs
        .into_iter()
        .map(|(bead, issue)| (bead.to_string(), issue.to_string()))
        .collect()
}

#[test]
fn a_local_only_parent_emits_one_addition() {
    let links = BeadLinks {
        parent: Some("bds-1".into()),
        blocks: vec![],
        related: vec![],
    };
    let remote = RemoteIssue::for_test("EM-2");
    let changes = diff_links(
        &links,
        &remote,
        &types(),
        &table(vec![("bds-1", "EM-1")]),
    );
    assert_eq!(changes.len(), 1);
    assert!(
        matches!(
            &changes[0],
            LinkChange::Add { kind: LinkKind::Subtask, target_readable } if target_readable == "EM-1"
        ),
        "got {:?}",
        changes[0]
    );
}

#[test]
fn a_remote_only_parent_emits_a_removal_carrying_the_internal_id() {
    let links = BeadLinks::default();
    let remote = remote_with_parent("3-20", "EM-1");
    let changes = diff_links(&links, &remote, &types(), &table(vec![]));
    match &changes[0] {
        LinkChange::Remove {
            target_internal_id,
            target_readable,
            ..
        } => {
            assert_eq!(target_internal_id, "3-20", "a removal by idReadable 404s");
            assert_eq!(
                target_readable, "EM-1",
                "the readable id is for the printed plan"
            );
        }
        other @ LinkChange::Add { .. } => panic!("expected Remove, got {other:?}"),
    }
}

#[test]
fn an_agreeing_parent_emits_nothing() {
    let links = BeadLinks {
        parent: Some("bds-1".into()),
        blocks: vec![],
        related: vec![],
    };
    let remote = remote_with_parent("3-20", "EM-1");
    let changes = diff_links(
        &links,
        &remote,
        &types(),
        &table(vec![("bds-1", "EM-1")]),
    );
    assert!(changes.is_empty(), "got {changes:?}");
}

#[test]
fn a_reparent_emits_one_removal_and_one_addition_and_no_create() {
    let links = BeadLinks {
        parent: Some("bds-9".into()),
        blocks: vec![],
        related: vec![],
    };
    let remote = remote_with_parent("3-20", "EM-1");
    let changes = diff_links(
        &links,
        &remote,
        &types(),
        &table(vec![("bds-9", "EM-7")]),
    );

    assert_eq!(changes.len(), 2);
    assert!(
        changes
            .iter()
            .any(|c| matches!(c, LinkChange::Remove { .. }))
    );
    assert!(changes.iter().any(|c| matches!(c, LinkChange::Add { .. })));
}

#[test]
fn an_unpaired_link_target_is_skipped_not_guessed() {
    let links = BeadLinks {
        parent: Some("bds-new".into()),
        blocks: vec![],
        related: vec![],
    };
    let remote = RemoteIssue::for_test("EM-2");
    let changes = diff_links(&links, &remote, &types(), &table(vec![]));
    assert!(changes.is_empty(), "got {changes:?}");
}

#[test]
fn the_other_direction_of_the_same_type_is_ignored_not_removed() {
    let mut remote = RemoteIssue::for_test("EM-1");
    remote.links = vec![RemoteLink {
        link_id: "173-3s".into(),
        kind: LinkKind::Subtask,
        direction: "OUTWARD".into(),
        issues: vec![LinkedIssue {
            id: "3-21".into(),
            id_readable: "EM-2".into(),
        }],
    }];
    let changes = diff_links(&BeadLinks::default(), &remote, &types(), &table(vec![]));
    assert!(changes.is_empty(), "got {changes:?}");
}

#[test]
fn each_kind_is_diffed_in_its_own_direction() {
    let mut remote = RemoteIssue::for_test("EM-2");
    remote.links = vec![
        RemoteLink {
            link_id: "173-1s".into(),
            kind: LinkKind::Depend,
            direction: "OUTWARD".into(),
            issues: vec![LinkedIssue {
                id: "3-30".into(),
                id_readable: "EM-3".into(),
            }],
        },
        RemoteLink {
            link_id: "173-0".into(),
            kind: LinkKind::Relates,
            direction: "BOTH".into(),
            issues: vec![LinkedIssue {
                id: "3-40".into(),
                id_readable: "EM-4".into(),
            }],
        },
    ];
    let links = BeadLinks {
        parent: None,
        blocks: vec!["bds-3".into()],
        related: vec!["bds-4".into()],
    };
    let changes = diff_links(
        &links,
        &remote,
        &types(),
        &table(vec![("bds-3", "EM-3"), ("bds-4", "EM-4")]),
    );
    assert!(changes.is_empty(), "got {changes:?}");
}

#[test]
fn link_id_and_direction_tag_describe_the_same_link() {
    let types = types();
    for (kind, expected_id, expected_tag) in [
        (LinkKind::Subtask, "173-3t", "INWARD"),
        (LinkKind::Depend, "173-1s", "OUTWARD"),
        (LinkKind::Relates, "173-0", "BOTH"),
    ] {
        let direction = mirrored_direction(kind);
        assert_eq!(
            types.link_id(kind, direction),
            expected_id,
            "{} writes through {expected_id}",
            kind_name(kind)
        );
        assert_eq!(
            direction_tag(direction),
            expected_tag,
            "{} reads back as {expected_tag}",
            kind_name(kind)
        );
    }
}

#[test]
fn selection_follows_the_id_not_the_direction_word() {
    let mut remote = RemoteIssue::for_test("EM-2");
    remote.links = vec![RemoteLink {
        link_id: "173-3t".into(),
        kind: LinkKind::Subtask,
        direction: "SOMETHING-ELSE".into(),
        issues: vec![LinkedIssue {
            id: "3-20".into(),
            id_readable: "EM-1".into(),
        }],
    }];
    let links = BeadLinks {
        parent: Some("bds-1".into()),
        blocks: vec![],
        related: vec![],
    };
    let changes = diff_links(
        &links,
        &remote,
        &types(),
        &table(vec![("bds-1", "EM-1")]),
    );
    assert!(
        changes.is_empty(),
        "the link is the one we would write; its direction word is not consulted: {changes:?}"
    );
}
