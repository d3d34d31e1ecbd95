//! What a run would do, and how that is printed.

use beads::model::{Dependency, DependencyType, Issue, IssueType, Status};
use beads::remote::comments::RemoteComment;
use beads::remote::config::RemoteConfig;
use beads::remote::diff::{Direction, Field, FieldChange};
use beads::remote::model::{RemoteIssue, RemoteSnapshot, UnmappableIssue};
use beads::remote::plan::{
    build_plan, Adoption, CommentWork, DanglingRef, IssueFieldPlan, PlanScope, ReconcilePlan,
    RefusedAdoption, TombstonedPair, UnmappedLocal, UnmirroredLink,
};
use beads::remote::youtrack::links::LinkTypes;
use beads::time::Timestamp;

fn entries(pairs: &[(&str, &str)]) -> indexmap::IndexMap<String, String> {
    pairs
        .iter()
        .map(|(key, value)| (key.to_string(), value.to_string()))
        .collect()
}

fn config() -> RemoteConfig {
    RemoteConfig {
        backend: "youtrack".to_string(),
        url: "https://example.youtrack.cloud".to_string(),
        project: "EM".to_string(),
        status_map: entries(&[
            ("open", "Open"),
            ("in_progress", "In Progress"),
            ("blocked", "Blocked"),
            ("deferred", "Deferred"),
            ("draft", "Draft"),
            ("pinned", "Pinned"),
            ("closed", "Fixed"),
        ]),
        type_map: entries(&[
            ("task", "Task"),
            ("bug", "Bug"),
            ("feature", "Feature"),
            ("epic", "Epic"),
            ("chore", "Chore"),
            ("docs", "Docs"),
            ("question", "Question"),
        ]),
        priority_map: entries(&[
            ("0", "Show-stopper"),
            ("1", "Critical"),
            ("2", "Major"),
            ("3", "Normal"),
            ("4", "Minor"),
        ]),
        deleted_state: "Won't fix".to_string(),
        page_size: 100,
    }
}

fn at(millis: i64) -> Timestamp {
    Timestamp {
        secs: millis.div_euclid(1000),
        nanos: (millis.rem_euclid(1000) * 1_000_000) as u32,
    }
}

fn bead(id: &str, external_ref: Option<&str>) -> Issue {
    Issue {
        id: id.to_string(),
        title: "t".to_string(),
        external_ref: external_ref.map(str::to_string),
        updated_at: at(1_000),
        ..Issue::default()
    }
}

fn dependency(issue_id: &str, depends_on: &str, dep_type: DependencyType) -> Dependency {
    Dependency {
        issue_id: issue_id.to_string(),
        depends_on_id: depends_on.to_string(),
        dep_type,
        created_at: at(0),
        created_by: None,
        metadata: None,
        thread_id: None,
    }
}

fn mirror(id_readable: &str, summary: &str) -> RemoteIssue {
    let mut issue = RemoteIssue::for_test(id_readable);
    issue.summary = summary.to_string();
    issue.fields.title = summary.to_string();
    issue
}

fn snapshot(issues: Vec<RemoteIssue>) -> RemoteSnapshot {
    RemoteSnapshot {
        issues,
        unmappable: Vec::new(),
    }
}

fn types() -> LinkTypes {
    LinkTypes {
        subtask: "173-3".into(),
        depend: "173-1".into(),
        relates: "173-0".into(),
    }
}

#[test]
fn a_reconciled_workspace_plans_nothing_and_says_so() {
    let beads = vec![bead("bds-1", Some("EM-1"))];
    let plan = build_plan(
        &config(),
        &beads,
        snapshot(vec![mirror("EM-1", "t")]),
        &types(),
        &vec![],
    );
    assert!(plan.is_empty(), "{plan:?}");
    assert!(plan.render().contains("nothing to do"), "{}", plan.render());
}

#[test]
fn the_render_names_every_section_it_has_work_for() {
    let mut plan = ReconcilePlan {
        creates: vec!["bds-9".into()],
        adoptions: vec![Adoption {
            remote_id: "EM-7".into(),
            summary: "unclaimed".into(),
            beads_id: None,
        }],
        refused_adoptions: vec![RefusedAdoption {
            remote_id: "EM-8".into(),
            reason: "EM-8: issue Type 'User Story' has no beads mapping; \
                     add an entry to type_map in remote.yaml"
                .into(),
        }],
        dangling: vec![DanglingRef {
            bead_id: "bds-3".into(),
            external_ref: "EM-99".into(),
        }],
        out_of_scope: vec!["bds-4".into()],
        tombstoned: vec![TombstonedPair {
            bead_id: "bds-6".into(),
            remote_id: "EM-6".into(),
        }],
        unmirrored_links: vec![UnmirroredLink {
            bead_id: "bds-7".into(),
            dep_type: "waits-for".into(),
            target_id: "bds-8".into(),
        }],
        ..ReconcilePlan::default()
    };
    plan.unmapped_local.push(UnmappedLocal {
        bead_id: "bds-5".into(),
        field: "issue_type".into(),
        value: "spike".into(),
        map_key: "type_map".into(),
    });

    let text = plan.render();
    for expected in [
        "create 1 issue(s)",
        "bds-9",
        "adoption candidates",
        "EM-7",
        "refused adoptions",
        "Type 'User Story'",
        "dangling local refs",
        "EM-99",
        "out of scope",
        "bds-4",
        "unmapped local values",
        "spike",
        "deleted beads still mirrored",
        "EM-6",
        "unmirrored relations",
        "waits-for",
    ] {
        assert!(text.contains(expected), "missing {expected:?} in:\n{text}");
    }
    assert!(!text.contains("nothing to do"));
}

#[test]
fn a_youtrack_wins_field_is_marked_explicitly() {
    let mut bead = bead("bds-1", Some("EM-1"));
    bead.updated_at = at(1_000);
    let mut remote = mirror("EM-1", "t");
    remote.updated = at(2_000);
    remote.fields.status = Status::Closed;

    let plan = build_plan(&config(), &vec![bead], snapshot(vec![remote]), &types(), &vec![]);
    let text = plan.render();
    assert!(
        text.contains("YouTrack wins"),
        "a pull must never be silent:\n{text}"
    );
}

#[test]
fn a_parent_row_becomes_a_subtask_addition_on_the_child() {
    let mut child = bead("bds-2", Some("EM-2"));
    child
        .dependencies
        .push(dependency("bds-2", "bds-1", DependencyType::ParentChild));
    let parent = bead("bds-1", Some("EM-1"));

    let plan = build_plan(
        &config(),
        &vec![parent, child],
        snapshot(vec![mirror("EM-1", "t"), mirror("EM-2", "t")]),
        &types(),
        &vec![],
    );

    assert_eq!(plan.link_changes.len(), 1, "{:?}", plan.link_changes);
    assert_eq!(plan.link_changes[0].bead_id, "bds-2");
    assert!(plan.render().contains("+ parent EM-1"), "{}", plan.render());
}

#[test]
fn a_related_row_is_mirrored_from_both_ends() {
    let mut left = bead("bds-1", Some("EM-1"));
    left.dependencies
        .push(dependency("bds-1", "bds-2", DependencyType::Related));
    let right = bead("bds-2", Some("EM-2"));

    let plan = build_plan(
        &config(),
        &vec![left, right],
        snapshot(vec![mirror("EM-1", "t"), mirror("EM-2", "t")]),
        &types(),
        &vec![],
    );

    assert_eq!(
        plan.link_changes.len(),
        2,
        "an undirected link is present on both ends, so both must want it: {:?}",
        plan.link_changes
    );
}

#[test]
fn an_unmapped_local_type_is_reported_rather_than_discovered_mid_push() {
    let mut spiky = bead("bds-1", Some("EM-1"));
    spiky.issue_type = IssueType::Custom("spike".into());
    let plan = build_plan(
        &config(),
        &vec![spiky],
        snapshot(vec![mirror("EM-1", "t")]),
        &types(),
        &vec![],
    );
    assert_eq!(plan.unmapped_local.len(), 1);
    assert_eq!(plan.unmapped_local[0].value, "spike");
}

#[test]
fn an_out_of_scope_bead_is_not_reported_as_an_unmapped_local_value() {
    let mut spiky = bead("bds-1", Some("JIRA-9"));
    spiky.issue_type = IssueType::Custom("spike".into());
    let plan = build_plan(&config(), &vec![spiky], snapshot(vec![]), &types(), &vec![]);
    assert_eq!(plan.out_of_scope, ["bds-1"]);
    assert!(plan.unmapped_local.is_empty(), "{:?}", plan.unmapped_local);
}

#[test]
fn an_unreadable_remote_issue_is_refused_and_printed_not_fatal() {
    let beads = vec![bead("bds-1", Some("EM-1"))];
    let snapshot = RemoteSnapshot {
        issues: vec![],
        unmappable: vec![UnmappableIssue {
            id_readable: "EM-1".into(),
            reason: "EM-1: issue State 'In Review' has no beads mapping; \
                     add an entry to status_map in remote.yaml"
                .into(),
        }],
    };
    let plan = build_plan(&config(), &beads, snapshot, &types(), &vec![]);

    assert_eq!(plan.refused_adoptions.len(), 1);
    assert!(
        plan.dangling.is_empty(),
        "the issue is unreadable, not gone; saying 'gone' would be false: {:?}",
        plan.dangling
    );
    let text = plan.render();
    assert!(text.contains("refused adoptions"), "{text}");
    assert!(text.contains("In Review"), "{text}");
}

#[test]
fn a_tombstoned_pair_is_named_and_never_diffed() {
    let mut deleted = bead("bds-1", Some("EM-1"));
    deleted.status = Status::Tombstone;
    deleted.title = "renamed since".into();

    let plan = build_plan(
        &config(),
        &vec![deleted],
        snapshot(vec![mirror("EM-1", "original")]),
        &types(),
        &vec![],
    );

    assert!(
        plan.field_changes.is_empty(),
        "a tombstone has no status_map entry; planning a push would plan a failure: {:?}",
        plan.field_changes
    );
    assert_eq!(plan.tombstoned.len(), 1);
    assert_eq!(plan.tombstoned[0].remote_id, "EM-1");
    assert!(!plan.is_empty(), "it is still outstanding work");
    assert!(
        plan.render().contains("deleted beads still mirrored"),
        "{}",
        plan.render()
    );
}

#[test]
fn a_dependency_type_with_no_link_type_is_named_rather_than_dropped() {
    let mut waiting = bead("bds-1", Some("EM-1"));
    waiting
        .dependencies
        .push(dependency("bds-1", "bds-2", DependencyType::WaitsFor));

    let plan = build_plan(
        &config(),
        &vec![waiting, bead("bds-2", Some("EM-2"))],
        snapshot(vec![mirror("EM-1", "t"), mirror("EM-2", "t")]),
        &types(),
        &vec![],
    );

    assert_eq!(plan.unmirrored_links.len(), 1);
    assert_eq!(plan.unmirrored_links[0].dep_type, "waits-for");
    assert_eq!(plan.unmirrored_links[0].target_id, "bds-2");
    assert!(
        plan.is_empty(),
        "a permanently unmirrored relation is not pending work"
    );
    let text = plan.render();
    assert!(text.contains("unmirrored relations"), "{text}");
    assert!(
        text.contains("nothing to do"),
        "it must still read as reconciled: {text}"
    );
}

#[test]
fn a_plan_with_comment_work_never_claims_comments_are_unreconciled() {
    let comments = vec![CommentWork {
        bead_id: "bds-1".into(),
        remote_id: "EM-1".into(),
        to_push: vec!["[br]\nfrom beads".into()],
        to_pull: vec![RemoteComment::for_test(
            "7-2",
            "typed in the web UI",
            "kate",
        )],
    }];
    let beads = vec![bead("bds-1", Some("EM-1"))];
    let plan = build_plan(
        &config(),
        &beads,
        snapshot(vec![mirror("EM-1", "t")]),
        &types(),
        &comments,
    );

    assert!(!plan.is_empty(), "comment work is outstanding work");
    assert_eq!(plan.comment_changes.len(), 2, "{:?}", plan.comment_changes);
    let text = plan.render();
    assert!(
        !text.contains("not reconciled"),
        "the retired caveat must not survive alongside real comment work: {text}"
    );
    assert!(text.contains("1 comment(s) [push]"), "{text}");
    assert!(text.contains("1 comment(s) [YouTrack wins]"), "{text}");
}

#[test]
fn a_plan_with_no_comment_work_still_names_the_count_gate() {
    let plan = build_plan(&config(), &vec![], snapshot(vec![]), &types(), &vec![]);
    assert!(plan.is_empty());
    let text = plan.render();
    assert!(
        text.contains("comment counts"),
        "the caveat that survives must reach the rendering: {text}"
    );
    assert!(text.contains("everything br reconciles today"), "{text}");
}

#[test]
fn an_issue_with_nothing_to_move_produces_no_comment_section() {
    let comments = vec![CommentWork {
        bead_id: "bds-1".into(),
        remote_id: "EM-1".into(),
        to_push: Vec::new(),
        to_pull: Vec::new(),
    }];
    let beads = vec![bead("bds-1", Some("EM-1"))];
    let plan = build_plan(
        &config(),
        &beads,
        snapshot(vec![mirror("EM-1", "t")]),
        &types(),
        &comments,
    );
    assert!(plan.comment_changes.is_empty());
    assert!(plan.is_empty());
}

fn two_directional_plan() -> ReconcilePlan {
    ReconcilePlan {
        creates: vec!["bds-new".into()],
        adoptions: vec![Adoption {
            remote_id: "EM-9".into(),
            summary: "Unclaimed".into(),
            beads_id: None,
        }],
        field_changes: vec![IssueFieldPlan {
            bead_id: "bds-1".into(),
            remote_id: "EM-1".into(),
            changes: vec![
                FieldChange {
                    field: Field::Title,
                    direction: Direction::Push,
                    local: "local title".into(),
                    remote: "remote title".into(),
                },
                FieldChange {
                    field: Field::State,
                    direction: Direction::Pull,
                    local: "open".into(),
                    remote: "in_progress".into(),
                },
            ],
        }],
        ..ReconcilePlan::default()
    }
}

#[test]
fn a_push_rendering_omits_the_work_only_a_pull_performs() {
    let text = two_directional_plan().render_scoped(PlanScope::Push);
    assert!(text.contains("create 1 issue(s)"), "{text}");
    assert!(
        text.contains("title: local title → remote title [push]"),
        "{text}"
    );
    assert!(
        !text.contains("adoption candidates"),
        "a push adopts nothing: {text}"
    );
    assert!(
        !text.contains("YouTrack wins"),
        "a push never resolves a field the remote's way: {text}"
    );
}

#[test]
fn a_pull_rendering_omits_the_work_only_a_push_performs() {
    let text = two_directional_plan().render_scoped(PlanScope::Pull);
    assert!(text.contains("adoption candidates"), "{text}");
    assert!(
        text.contains("state: open → in_progress [YouTrack wins]"),
        "{text}"
    );
    assert!(
        !text.contains("create 1 issue(s)"),
        "a pull creates no remote issue: {text}"
    );
    assert!(
        !text.contains("[push]"),
        "a pull writes nothing to the remote: {text}"
    );
}

#[test]
fn a_scoped_rendering_counts_only_the_issues_it_goes_on_to_list() {
    let mut plan = two_directional_plan();
    plan.field_changes.push(IssueFieldPlan {
        bead_id: "bds-2".into(),
        remote_id: "EM-2".into(),
        changes: vec![FieldChange {
            field: Field::State,
            direction: Direction::Pull,
            local: "open".into(),
            remote: "closed".into(),
        }],
    });
    let text = plan.render_scoped(PlanScope::Push);
    assert!(text.contains("update 1 issue(s)"), "{text}");
    assert!(!text.contains("bds-2"), "{text}");
    assert!(
        plan.render_scoped(PlanScope::Pull)
            .contains("update 2 issue(s)"),
        "both pull-direction issues belong to the pull half"
    );
}

#[test]
fn a_direction_with_no_work_still_closes_with_nothing_to_do() {
    let plan = ReconcilePlan {
        creates: vec!["bds-new".into()],
        ..ReconcilePlan::default()
    };
    assert!(!plan.is_empty(), "the plan as a whole has work");
    assert!(plan.is_empty_for(PlanScope::Pull));
    assert!(!plan.is_empty_for(PlanScope::Push));
    assert!(
        plan.render_scoped(PlanScope::Pull)
            .contains("nothing to do"),
        "{}",
        plan.render_scoped(PlanScope::Pull)
    );
}

#[test]
fn the_unscoped_rendering_is_unchanged_and_still_shows_both_halves() {
    let plan = two_directional_plan();
    assert_eq!(plan.render(), plan.render_scoped(PlanScope::Both));
    let text = plan.render();
    assert!(text.contains("create 1 issue(s)"), "{text}");
    assert!(text.contains("adoption candidates"), "{text}");
    assert!(
        text.contains("[push]") && text.contains("YouTrack wins"),
        "{text}"
    );
}

#[test]
fn nothing_to_do_is_said_exactly_where_nothing_is_pending() {
    let gone = ReconcilePlan {
        dangling: vec![DanglingRef {
            bead_id: "bds-1".into(),
            external_ref: "EM-1".into(),
        }],
        ..ReconcilePlan::default()
    };
    for plan in [ReconcilePlan::default(), two_directional_plan(), gone] {
        for scope in [PlanScope::Both, PlanScope::Push, PlanScope::Pull] {
            assert_eq!(
                plan.render_scoped(scope).contains("nothing to do"),
                plan.is_empty_for(scope)
            );
        }
        assert_eq!(plan.render(), plan.render_scoped(PlanScope::Both));
    }
}

#[test]
fn standing_sections_read_the_same_in_every_scope() {
    let mut plan = two_directional_plan();
    plan.dangling = vec![DanglingRef {
        bead_id: "bds-2".into(),
        external_ref: "EM-2".into(),
    }];
    plan.out_of_scope = vec!["bds-3".into()];
    plan.unmirrored_links = vec![UnmirroredLink {
        bead_id: "bds-4".into(),
        dep_type: "waits-for".into(),
        target_id: "bds-5".into(),
    }];
    plan.notes = vec!["a note".into()];
    for scope in [PlanScope::Both, PlanScope::Push, PlanScope::Pull] {
        let text = plan.render_scoped(scope);
        for part in [
            "dangling local refs (the issue named is gone; nothing was re-created):\n  bds-2 → EM-2\n",
            "out of scope (1 bead(s) whose external_ref names another tracker; untouched):\n  bds-3\n\
             unmirrored relations (1 row(s) whose dependency type has no YouTrack link type; \
             never mirrored):\n  bds-4 waits-for bds-5\n",
            "a note\n",
        ] {
            assert!(text.contains(part), "{part} is not in: {text}");
        }
    }
}

#[test]
fn strings_can_say_what_a_section_says() {
    let mut plan = ReconcilePlan::default();
    plan.unmirrored_links = vec![UnmirroredLink {
        bead_id: "adoption".into(),
        dep_type: "candidates".into(),
        target_id: "bds-1".into(),
    }];
    let text = plan.render_scoped(PlanScope::Push);
    assert!(text.contains("adoption candidates"), "{text}");
}

#[test]
fn comment_work_starts_with_nothing_to_do() {
    let work = CommentWork::default();
    assert_eq!((work.bead_id.as_str(), work.remote_id.as_str()), ("", ""));
    assert!(work.to_push.is_empty() && work.to_pull.is_empty());
}
