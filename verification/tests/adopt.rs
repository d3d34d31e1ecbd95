//! Taking over issues that no bead names.

use beads::json::{read_json, Json};
use beads::model::{Dependency, DependencyType, IssueType, Priority, Status};
use beads::remote::adopt::{
    adopted_title, classify_adoption, creation_parent, import_comments, import_links,
    stamp_adoption, topological_order, AdoptionCandidate, AdoptionOrder, AdoptionOutcome,
    DeferralReason, DeferredAdoption, ImportedComment, ImportedLink,
};
use beads::remote::comments::RemoteComment;
use beads::remote::config::RemoteConfig;
use beads::remote::error::RemoteError;
use beads::remote::link_diff::{diff_links, direction_tag, mirrored_direction};
use beads::remote::model::RemoteIssue;
use beads::remote::plan::bead_links;
use beads::remote::youtrack::links::{LinkKind, LinkTypes, LinkedIssue, RemoteLink};
use beads::remote::youtrack::mapping::reverse_fields;

fn read(text: &str) -> Json {
    read_json(text).expect("valid JSON")
}

fn entries(pairs: &[(&str, &str)]) -> indexmap::IndexMap<String, String> {
    pairs
        .iter()
        .map(|(key, value)| (key.to_string(), value.to_string()))
        .collect()
}

fn config() -> RemoteConfig {
    RemoteConfig {
        backend: "youtrack".to_string(),
        url: "https://example.youtrack.cloud".to_string(),
        project: "EM".to_string(),
        status_map: entries(&[
            ("open", "Open"),
            ("in_progress", "In Progress"),
            ("blocked", "Blocked"),
            ("deferred", "Deferred"),
            ("draft", "Draft"),
            ("pinned", "Pinned"),
            ("closed", "Fixed"),
        ]),
        type_map: entries(&[
            ("task", "Task"),
            ("bug", "Bug"),
            ("feature", "Feature"),
            ("epic", "Epic"),
            ("chore", "Chore"),
            ("docs", "Docs"),
            ("question", "Question"),
        ]),
        priority_map: entries(&[
            ("0", "Show-stopper"),
            ("1", "Critical"),
            ("2", "Major"),
            ("3", "Normal"),
            ("4", "Minor"),
        ]),
        deleted_state: "Won't fix".to_string(),
        page_size: 100,
    }
}

fn issue_with_type(id: &str, type_value: Option<&str>) -> RemoteIssue {
    let mut issue = RemoteIssue::for_test(id);
    let kind = match type_value {
        Some(name) => format!(r#"{{"name":"{name}"}}"#),
        None => "null".to_string(),
    };
    issue.raw_custom_fields = read(&format!(
        r#"[{{"name":"Type","value":{kind}}},
            {{"name":"State","value":{{"name":"Open"}}}},
            {{"name":"Priority","value":{{"name":"Major"}}}}]"#
    ));
    issue
}

#[test]
fn an_unmapped_type_is_refused_and_fully_named() {
    let refusal = classify_adoption(&config(), &issue_with_type("EM-7", Some("User Story")))
        .expect_err("must refuse");

    assert_eq!(refusal.id_readable, "EM-7");
    assert_eq!(refusal.field, "Type");
    assert_eq!(refusal.value, "User Story");
    assert_eq!(refusal.config_key, "type_map");

    let rendered = refusal.render();
    assert!(rendered.contains("EM-7"), "{rendered}");
    assert!(rendered.contains("User Story"), "{rendered}");
    assert!(
        rendered.contains("type_map"),
        "must say how to fix it: {rendered}"
    );
}

#[test]
fn a_mapped_issue_is_accepted() {
    let candidate = classify_adoption(&config(), &issue_with_type("EM-8", Some("Task")))
        .expect("must accept");
    assert_eq!(candidate.fields.issue_type, IssueType::Task);
}

#[test]
fn an_unset_field_takes_the_beads_default() {
    let candidate =
        classify_adoption(&config(), &issue_with_type("EM-9", None)).expect("must accept");
    assert_eq!(candidate.fields.issue_type, IssueType::Task);
    assert_eq!(candidate.fields.status, Status::Open);
    assert_eq!(candidate.fields.priority, Priority::medium());
    assert_eq!(candidate.fields.priority.to_string(), "P2");
}

#[test]
fn one_refusal_does_not_stop_the_others() {
    let issues = vec![
        issue_with_type("EM-1", Some("Task")),
        issue_with_type("EM-2", Some("User Story")),
        issue_with_type("EM-3", Some("Bug")),
    ];
    let (accepted, refused): (Vec<_>, Vec<_>) = issues
        .iter()
        .map(|i| classify_adoption(&config(), i))
        .partition(std::result::Result::is_ok);

    assert_eq!(
        accepted.len(),
        2,
        "a refusal removes one issue, not the run"
    );
    assert_eq!(refused.len(), 1);
}

#[test]
fn a_refusal_renders_into_the_plan_shape_too() {
    let refusal = classify_adoption(&config(), &issue_with_type("EM-7", Some("User Story")))
        .expect_err("must refuse");
    let planned = refusal.into_planned();
    assert_eq!(planned.remote_id, "EM-7");
    assert!(planned.reason.contains("type_map"), "{}", planned.reason);
}

#[test]
fn adoption_resolves_the_same_fields_as_the_whole_body() {
    let body = read(r##"{
    "id": "3-11",
    "idReadable": "EM-11",
    "summary": "Typed in the web UI",
    "description": "body **markdown**",
    "updated": 1786881829147,
    "commentsCount": 2,
    "tags": [{"id":"6-1","name":"mirror"}],
    "links": [],
    "customFields": [
        {"name":"Type","value":{"name":"Bug"}},
        {"name":"State","value":{"name":"In Progress"}},
        {"name":"Priority","value":{"name":"Critical"}},
        {"name":"Design","value":{"text":"d"}},
        {"name":"Acceptance Criteria","value":{"text":"ac"}},
        {"name":"Notes","value":{"text":"n"}},
        {"name":"Close Reason","value":{"text":"cr"}},
        {"name":"Beads ID","value":"em-1"},
        {"name":"Assignee","value":null}
    ]
}"##);
    let whole =
        reverse_fields(&config(), &body).expect("whole body");

    let mut issue = RemoteIssue::for_test("EM-11");
    issue.summary = "Typed in the web UI".into();
    issue.description = Some("body **markdown**".into());
    issue.raw_custom_fields = body.get("customFields").expect("custom fields").clone();
    let candidate = classify_adoption(&config(), &issue).expect("mapped");

    assert_eq!(
        candidate.fields, whole,
        "adoption's reconstruction must resolve to exactly what the fetched body does"
    );
}

fn candidate_with_parent(id: &str, parent: Option<&str>) -> AdoptionCandidate {
    let mut remote = issue_with_type(id, Some("Task"));
    remote.summary = format!("web-ui {id}");
    if let Some(parent) = parent {
        remote.links = vec![RemoteLink {
            link_id: "173-3t".into(),
            kind: LinkKind::Subtask,
            direction: "INWARD".into(),
            issues: vec![LinkedIssue {
                id: format!("3-{}", parent.rsplit('-').next().unwrap_or("0")),
                id_readable: parent.to_string(),
            }],
        }];
    }
    classify_adoption(&config(), &remote).expect("mapped")
}

fn ids(order: &AdoptionOrder) -> Vec<&str> {
    order
        .ordered
        .iter()
        .map(|c| c.remote.id_readable.as_str())
        .collect()
}

#[test]
fn a_child_is_ordered_after_its_parent() {
    let parent = candidate_with_parent("EM-10", None);
    let child = candidate_with_parent("EM-11", Some("EM-10"));
    let order = topological_order(vec![child, parent], &vec![]);
    assert_eq!(ids(&order), ["EM-10", "EM-11"]);
    assert!(order.deferred.is_empty());
}

#[test]
fn a_three_deep_chain_is_ordered_root_first() {
    let a = candidate_with_parent("EM-1", None);
    let b = candidate_with_parent("EM-2", Some("EM-1"));
    let c = candidate_with_parent("EM-3", Some("EM-2"));
    let order = topological_order(vec![c, b, a], &vec![]);
    assert_eq!(ids(&order), ["EM-1", "EM-2", "EM-3"]);
    assert!(order.deferred.is_empty());
}

#[test]
fn an_adoptee_under_an_already_paired_parent_is_ordered_first() {
    let child = candidate_with_parent("EM-11", Some("EM-10"));
    let paired = vec![("EM-10".to_string(), "bds-4r2".to_string())];
    let order = topological_order(vec![child], &paired);
    assert_eq!(order.ordered.len(), 1, "a paired parent is not a blocker");
    assert!(order.deferred.is_empty());
}

#[test]
fn an_adoptee_whose_parent_is_unadoptable_is_deferred_not_flattened() {
    let child = candidate_with_parent("EM-11", Some("EM-99"));
    let order = topological_order(vec![child], &vec![]);
    assert!(
        order.ordered.is_empty(),
        "deferring costs one run; flattening costs a tombstone and former_ids churn forever"
    );

    assert_eq!(
        order.deferred,
        vec![DeferredAdoption {
            id_readable: "EM-11".into(),
            parent_id: "EM-99".into(),
            reason: DeferralReason::ParentNotAdoptable,
        }]
    );
    let rendered = order.deferred[0].render();
    assert!(rendered.contains("EM-11"), "{rendered}");
    assert!(
        rendered.contains("EM-99"),
        "must name the blocker: {rendered}"
    );
}

#[test]
fn a_deferred_parent_defers_its_whole_subtree() {
    let child = candidate_with_parent("EM-11", Some("EM-99"));
    let grandchild = candidate_with_parent("EM-12", Some("EM-11"));
    let order = topological_order(vec![child, grandchild], &vec![]);
    assert!(order.ordered.is_empty(), "got {:?}", ids(&order));

    let named: Vec<(&str, &str, DeferralReason)> = order
        .deferred
        .iter()
        .map(|d| (d.id_readable.as_str(), d.parent_id.as_str(), d.reason))
        .collect();
    assert_eq!(
        named,
        [
            ("EM-11", "EM-99", DeferralReason::ParentNotAdoptable),
            ("EM-12", "EM-11", DeferralReason::ParentDeferred),
        ]
    );
}

#[test]
fn a_parent_cycle_is_deferred_rather_than_spun_on() {
    let a = candidate_with_parent("EM-1", Some("EM-2"));
    let b = candidate_with_parent("EM-2", Some("EM-1"));
    let order = topological_order(vec![a, b], &vec![]);
    assert!(
        order.ordered.is_empty(),
        "neither member can ever become ready"
    );
    assert_eq!(order.deferred.len(), 2, "and both are reported by name");
    assert!(
        order
            .deferred
            .iter()
            .all(|d| d.reason == DeferralReason::ParentDeferred),
        "a cycle is not a special case: each member's parent is deferred: {:?}",
        order.deferred
    );
}

#[test]
fn independent_candidates_keep_their_input_order() {
    let a = candidate_with_parent("EM-1", None);
    let b = candidate_with_parent("EM-2", None);
    let c = candidate_with_parent("EM-3", None);
    let order = topological_order(vec![c, a, b], &vec![]);
    assert_eq!(
        ids(&order),
        ["EM-3", "EM-1", "EM-2"],
        "a stable order keeps a printed plan stable run to run"
    );
}

#[test]
fn a_failed_stamp_is_recorded_and_never_retried() {
    let mut outcome = AdoptionOutcome {
        bead_id: "em-1.1".into(),
        stamp_failed: false,
    };
    let note = stamp_adoption(
        &mut outcome,
        "EM-11",
        Err(RemoteError::Config("boom".into())),
    );
    assert!(outcome.stamp_failed);
    assert!(
        note.is_some_and(|line| line.contains("boom")),
        "the stamp is a courtesy: its failure is said, not repeated"
    );
    assert_eq!(outcome.bead_id, "em-1.1", "the bead is never rolled back");
}

fn types() -> LinkTypes {
    LinkTypes {
        subtask: "173-3".into(),
        depend: "173-1".into(),
        relates: "173-0".into(),
    }
}

fn link(kind: LinkKind, direction: &str, ends: &[&str]) -> RemoteLink {
    RemoteLink {
        link_id: types().link_id(kind, mirrored_direction(kind)),
        kind,
        direction: direction.to_string(),
        issues: ends
            .iter()
            .map(|end| LinkedIssue {
                id: format!("3-{end}"),
                id_readable: end.to_string(),
            })
            .collect(),
    }
}

fn row(issue_id: &str, depends_on_id: &str, dep_type: DependencyType) -> ImportedLink {
    ImportedLink {
        issue_id: issue_id.to_string(),
        depends_on_id: depends_on_id.to_string(),
        dep_type,
        actor: "youtrack",
    }
}

fn id_map() -> Vec<(String, String)> {
    [("EM-1", "bds-1"), ("EM-2", "bds-2"), ("EM-3", "bds-3")]
        .iter()
        .map(|(issue, bead)| (issue.to_string(), bead.to_string()))
        .collect()
}

#[test]
fn a_link_becomes_a_dependency_whichever_end_reports_it() {
    let mut candidate = candidate_with_parent("EM-2", None);
    candidate.remote.links = vec![
        link(LinkKind::Subtask, "INWARD", &["EM-1"]),
        link(LinkKind::Subtask, "OUTWARD", &["EM-3"]),
        link(LinkKind::Depend, "OUTWARD", &["EM-3", "EM-9", "EM-2"]),
        link(LinkKind::Depend, "INWARD", &["EM-1"]),
        link(LinkKind::Relates, "BOTH", &["EM-3"]),
        link(LinkKind::Relates, "INWARD", &["EM-1"]),
    ];
    assert_eq!(direction_tag(mirrored_direction(LinkKind::Depend)), "OUTWARD");
    assert_eq!(
        import_links(&candidate, &id_map()),
        vec![
            row("bds-2", "bds-1", DependencyType::ParentChild),
            row("bds-3", "bds-2", DependencyType::ParentChild),
            row("bds-3", "bds-2", DependencyType::Blocks),
            row("bds-2", "bds-1", DependencyType::Blocks),
            row("bds-2", "bds-3", DependencyType::Related),
        ],
        "an end that is no bead, and the bead itself, is passed over"
    );
    candidate.remote.id_readable = "EM-9".to_string();
    assert_eq!(import_links(&candidate, &id_map()), vec![]);
}

#[test]
fn an_imported_link_is_not_taken_off_the_mirror() {
    let mut candidate = candidate_with_parent("EM-2", None);
    candidate.remote.links = vec![
        link(LinkKind::Subtask, "INWARD", &["EM-1"]),
        link(LinkKind::Depend, "OUTWARD", &["EM-3"]),
        link(LinkKind::Relates, "BOTH", &["EM-3"]),
    ];
    let rows: Vec<Dependency> = import_links(&candidate, &id_map())
        .into_iter()
        .map(|row| Dependency {
            issue_id: row.issue_id,
            depends_on_id: row.depends_on_id,
            dep_type: row.dep_type,
            created_at: beads::time::Timestamp { secs: 0, nanos: 0 },
            created_by: None,
            metadata: None,
            thread_id: None,
        })
        .collect();
    assert_eq!(rows.len(), 3);
    let table = id_map()
        .into_iter()
        .map(|(issue, bead)| (bead, issue))
        .collect();
    let held = bead_links(&rows.iter().collect(), "bds-2");
    assert_eq!(diff_links(&held, &candidate.remote, &types(), &table), vec![]);
    let forgotten = bead_links(&vec![], "bds-2");
    assert_eq!(
        diff_links(&forgotten, &candidate.remote, &types(), &table).len(),
        3,
        "without the rows every link would be taken off"
    );
}

#[test]
fn echoes_and_blank_comments_are_not_imported() {
    let comments: Vec<RemoteComment> = ["[br]\nhello", " \n", "from the web"]
        .iter()
        .map(|text| RemoteComment {
            id: "7-1".to_string(),
            text: text.to_string(),
            author_login: "someone".to_string(),
            created: beads::time::Timestamp { secs: 0, nanos: 0 },
        })
        .collect();
    assert_eq!(
        import_comments("bds-9", &comments),
        [ImportedComment {
            bead_id: "bds-9".to_string(),
            author: "youtrack",
            text: "from the web".to_string(),
        }]
    );
}

#[test]
fn an_issue_without_a_title_gets_one() {
    let mut candidate = candidate_with_parent("EM-4", Some("EM-1"));
    candidate.fields.title = "  from the fields ".to_string();
    assert_eq!(adopted_title(&candidate), "from the fields");
    candidate.fields.title = " ".to_string();
    assert_eq!(adopted_title(&candidate), "web-ui EM-4");
    candidate.remote.summary = String::new();
    assert_eq!(adopted_title(&candidate), "(untitled EM-4)");
    assert_eq!(
        creation_parent(&candidate, &id_map()),
        Some("bds-1".to_string())
    );
    assert_eq!(creation_parent(&candidate, &vec![]), None);
}
