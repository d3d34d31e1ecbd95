//! How a bead and an issue say the same thing.

use beads::json::{read_json, Json};
use beads::model::{Issue, IssueType, Priority, Status};
use beads::remote::config::RemoteConfig;
use beads::remote::youtrack::mapping::{
    issue_create_body, issue_update_body, reverse_fields, FieldSet,
};

fn json(text: &str) -> serde_json::Value {
    serde_json::from_str(text).expect("valid JSON")
}

fn value(j: &Json) -> serde_json::Value {
    match j {
        Json::Null => serde_json::Value::Null,
        Json::Bool(b) => serde_json::Value::Bool(*b),
        Json::Int(n) => serde_json::Value::from(*n as i64),
        Json::Decimal(text) => serde_json::from_str(text).expect("a number"),
        Json::Text(text) => serde_json::Value::String(text.clone()),
        Json::Array(items) => serde_json::Value::Array(items.iter().map(value).collect()),
        Json::Object(items) => {
            let mut map = serde_json::Map::new();
            for (key, item) in items {
                map.insert(key.clone(), value(item));
            }
            serde_json::Value::Object(map)
        }
    }
}

fn entries(pairs: &[(&str, &str)]) -> indexmap::IndexMap<String, String> {
    pairs
        .iter()
        .map(|(key, value)| (key.to_string(), value.to_string()))
        .collect()
}

fn config() -> RemoteConfig {
    RemoteConfig {
        backend: "youtrack".to_string(),
        url: "https://example.youtrack.cloud".to_string(),
        project: "EM".to_string(),
        status_map: entries(&[
            ("open", "Open"),
            ("in_progress", "In Progress"),
            ("blocked", "Blocked"),
            ("deferred", "Deferred"),
            ("draft", "Draft"),
            ("pinned", "Pinned"),
            ("closed", "Fixed"),
        ]),
        type_map: entries(&[
            ("task", "Task"),
            ("bug", "Bug"),
            ("feature", "Feature"),
            ("epic", "Epic"),
            ("chore", "Chore"),
            ("docs", "Docs"),
            ("question", "Question"),
        ]),
        priority_map: entries(&[
            ("0", "Show-stopper"),
            ("1", "Critical"),
            ("2", "Major"),
            ("3", "Normal"),
            ("4", "Minor"),
        ]),
        deleted_state: "Won't fix".to_string(),
        page_size: 100,
    }
}

fn new_issue(id: &str, title: &str) -> Issue {
    Issue {
        id: id.to_string(),
        title: title.to_string(),
        ..Issue::default()
    }
}

#[test]
fn one_create_body_carries_every_field() {
    let mut issue = new_issue("bds-4r2", "br remote: a YouTrack mirror");
    issue.description = Some("body **markdown**".into());
    issue.design = Some("line1\n\nline2".into());
    issue.issue_type = IssueType::Epic;
    issue.status = Status::InProgress;
    issue.priority = Priority::high();

    let body = value(&issue_create_body(&config(), "0-1", &issue).expect("create body"));

    assert_eq!(body["project"]["id"], "0-1");
    assert_eq!(body["summary"], "br remote: a YouTrack mirror");
    assert_eq!(body["description"], "body **markdown**");

    let fields = body["customFields"].as_array().expect("customFields");
    let by_name = |name: &str| {
        fields
            .iter()
            .find(|f| f["name"] == name)
            .unwrap_or_else(|| panic!("missing {name}"))
    };

    assert_eq!(by_name("Type")["value"]["name"], "Epic");
    assert_eq!(by_name("Type")["$type"], "SingleEnumIssueCustomField");
    assert_eq!(by_name("State")["value"]["name"], "In Progress");
    assert_eq!(by_name("State")["$type"], "StateIssueCustomField");
    assert_eq!(by_name("Priority")["value"]["name"], "Critical");
    assert_eq!(by_name("Design")["value"]["text"], "line1\n\nline2");
    assert_eq!(by_name("Design")["$type"], "TextIssueCustomField");
    assert_eq!(by_name("Beads ID")["value"], "bds-4r2");
    assert_eq!(by_name("Beads ID")["$type"], "SimpleIssueCustomField");
}

#[test]
fn no_issue_level_bundle_value_is_referenced_by_id() {
    let issue = new_issue("bds-1", "t");
    let body = value(&issue_create_body(&config(), "0-1", &issue).expect("create body"));
    let text = body.to_string();
    let scoped = body["customFields"].to_string();
    assert!(
        !regex_lite_contains_element_id(&scoped),
        "issue bodies must reference bundle values by name: {text}"
    );
}

fn regex_lite_contains_element_id(text: &str) -> bool {
    text.split("\"id\":\"").skip(1).any(|rest| {
        let candidate = rest.split('"').next().unwrap_or_default();
        let mut parts = candidate.split('-');
        matches!(
            (parts.next(), parts.next(), parts.next()),
            (Some(a), Some(b), None)
                if !a.is_empty() && a.chars().all(|c| c.is_ascii_digit())
                && !b.is_empty() && b.chars().all(|c| c.is_ascii_digit())
        )
    })
}

fn remote_issue(type_value: Option<&str>) -> Json {
    let kind = match type_value {
        Some(name) => format!(r#"{{"name":"{name}"}}"#),
        None => "null".to_string(),
    };
    read_json(&format!(
        r#"{{"idReadable":"EM-1","summary":"captured","customFields":[
            {{"name":"State","value":{{"name":"Open"}}}},
            {{"name":"Priority","value":{{"name":"Major"}}}},
            {{"name":"Assignee","value":null}},
            {{"name":"Fix versions","value":[]}},
            {{"name":"Type","value":{kind}}}]}}"#
    ))
    .expect("valid JSON")
}

#[test]
fn an_unmapped_type_is_a_hard_error_naming_the_value() {
    let err =
        reverse_fields(&config(), &remote_issue(Some("User Story"))).expect_err("must refuse");
    let msg = err.to_string();
    assert!(
        msg.contains("User Story"),
        "must name the offending value: {msg}"
    );
    assert!(msg.contains("Type"), "must name the field: {msg}");
}

#[test]
fn an_absent_type_resolves_to_the_beads_default() {
    let fields = reverse_fields(&config(), &remote_issue(None)).expect("reverse");
    assert_eq!(fields.issue_type, IssueType::Task);
    assert_eq!(fields.status, Status::Open);
    assert_eq!(fields.priority, Priority::medium());
}

#[test]
fn unrelated_project_fields_are_ignored_not_mistaken_for_ours() {
    let fields = reverse_fields(&config(), &remote_issue(Some("Task"))).expect("reverse");
    assert_eq!(fields.issue_type, IssueType::Task);
    assert!(
        fields.design.is_none(),
        "an absent prose field must stay absent"
    );
}

#[test]
fn prose_fields_round_trip_through_the_text_shape() {
    let raw = read_json(r##"{
    "idReadable": "EM-1",
    "summary": "captured",
    "customFields": [
        {"name": "State", "value": {"name": "Open"}},
        {"name": "Priority", "value": {"name": "Major"}},
        {"name": "Type", "value": {"name": "Task"}},
        {"name": "Design", "value": {"text": "line1\n\nline2\n\nline3, with a blank line above."}},
        {"name": "Notes", "value": {"text": "note para 1\n\nnote para 2"}}
    ]
}"##).expect("valid JSON");

    let fields = reverse_fields(&config(), &raw).expect("reverse");

    assert_eq!(
        fields.design.as_deref(),
        Some("line1\n\nline2\n\nline3, with a blank line above.")
    );
    assert_eq!(fields.notes.as_deref(), Some("note para 1\n\nnote para 2"));
}

#[test]
fn an_empty_field_set_produces_an_empty_update_body() {
    let issue = new_issue("bds-1", "t");
    let body = value(&issue_update_body(&config(), &issue, FieldSet::default()).expect("update body"));
    assert!(body.get("summary").is_none());
    assert!(body.get("description").is_none());
    assert!(body.get("customFields").is_none());
}

#[test]
fn field_set_title_only_updates_only_summary() {
    let mut issue = new_issue("bds-1", "orig");
    issue.title = "new title".into();
    let body = value(&issue_update_body(
        &config(),
        &issue,
        FieldSet {
            title: true,
            ..FieldSet::default()
        },
    ).expect("update body"));
    assert_eq!(body["summary"], "new title");
    assert!(body.get("customFields").is_none());
    assert!(body.get("description").is_none());
}

#[test]
fn field_set_description_only_updates_only_description() {
    let mut issue = new_issue("bds-1", "t");
    issue.description = Some("d".into());
    let body = value(&issue_update_body(
        &config(),
        &issue,
        FieldSet {
            description: true,
            ..FieldSet::default()
        },
    ).expect("update body"));
    assert_eq!(body["description"], "d");
    assert!(body.get("summary").is_none());
    assert!(body.get("customFields").is_none());
}

#[test]
fn each_gated_bundle_or_prose_or_id_field_produces_exactly_itself() {
    let mut issue = new_issue("bds-1", "t");
    issue.issue_type = IssueType::Bug;
    issue.status = Status::Blocked;
    issue.priority = Priority::critical();
    issue.design = Some("d".into());
    issue.acceptance_criteria = Some("ac".into());
    issue.notes = Some("n".into());
    issue.close_reason = Some("cr".into());

    let cases: Vec<(FieldSet, &str, serde_json::Value)> = vec![
        (
            FieldSet {
                issue_type: true,
                ..FieldSet::default()
            },
            "Type",
            json(r##"{"name": "Bug"}"##),
        ),
        (
            FieldSet {
                status: true,
                ..FieldSet::default()
            },
            "State",
            json(r##"{"name": "Blocked"}"##),
        ),
        (
            FieldSet {
                priority: true,
                ..FieldSet::default()
            },
            "Priority",
            json(r##"{"name": "Show-stopper"}"##),
        ),
        (
            FieldSet {
                design: true,
                ..FieldSet::default()
            },
            "Design",
            json(r##"{"text": "d"}"##),
        ),
        (
            FieldSet {
                acceptance_criteria: true,
                ..FieldSet::default()
            },
            "Acceptance Criteria",
            json(r##"{"text": "ac"}"##),
        ),
        (
            FieldSet {
                notes: true,
                ..FieldSet::default()
            },
            "Notes",
            json(r##"{"text": "n"}"##),
        ),
        (
            FieldSet {
                close_reason: true,
                ..FieldSet::default()
            },
            "Close Reason",
            json(r##"{"text": "cr"}"##),
        ),
        (
            FieldSet {
                beads_id: true,
                ..FieldSet::default()
            },
            "Beads ID",
            json(r##""bds-1""##),
        ),
    ];

    for (fields, name, expected_value) in cases {
        let body = value(&issue_update_body(&config(), &issue, fields).expect("update body"));
        let custom_fields = body["customFields"].as_array().expect("customFields");
        assert_eq!(
            custom_fields.len(),
            1,
            "gating {name} must produce exactly one field"
        );
        assert_eq!(custom_fields[0]["name"], name);
        assert_eq!(custom_fields[0]["value"], expected_value);
        assert!(body.get("summary").is_none());
        assert!(body.get("description").is_none());
    }
}

#[test]
fn issue_update_body_sets_a_prose_field_when_present() {
    let mut issue = new_issue("bds-1", "t");
    issue.design = Some("new design".into());
    let body = value(&issue_update_body(
        &config(),
        &issue,
        FieldSet {
            design: true,
            ..FieldSet::default()
        },
    ).expect("update body"));
    let custom_fields = body["customFields"].as_array().expect("customFields");
    assert_eq!(custom_fields.len(), 1);
    assert_eq!(custom_fields[0]["name"], "Design");
    assert_eq!(custom_fields[0]["value"]["text"], "new design");
}

#[test]
fn issue_update_body_clears_a_prose_field_gated_but_absent() {
    let issue = new_issue("bds-1", "t"); // design stays None
    let body = value(&issue_update_body(
        &config(),
        &issue,
        FieldSet {
            design: true,
            ..FieldSet::default()
        },
    ).expect("update body"));
    let custom_fields = body["customFields"].as_array().expect("customFields");
    assert_eq!(custom_fields.len(), 1, "the field must still appear");
    assert_eq!(custom_fields[0]["name"], "Design");
    assert!(
        custom_fields[0]["value"].is_null(),
        "clearing must send an explicit null, not omit the field: {custom_fields:?}"
    );
}

#[test]
fn create_omits_an_absent_prose_field_rather_than_clearing_it() {
    let issue = new_issue("bds-1", "t"); // design stays None
    let body = value(&issue_create_body(&config(), "0-1", &issue).expect("create body"));
    let custom_fields = body["customFields"].as_array().expect("customFields");
    assert!(
        !custom_fields.iter().any(|f| f["name"] == "Design"),
        "a brand-new issue has nothing to clear, so the field must be absent entirely: {custom_fields:?}"
    );
}

#[test]
fn pushing_an_unmapped_custom_issue_type_refuses_naming_the_value() {
    let mut issue = new_issue("bds-1", "t");
    issue.issue_type = IssueType::Custom("spike".into());
    let err = issue_create_body(&config(), "0-1", &issue).expect_err("must refuse");
    let msg = err.to_string();
    assert!(
        msg.contains("spike"),
        "must name the offending value: {msg}"
    );
    assert!(
        msg.contains("type_map"),
        "must name the map to extend: {msg}"
    );
}

#[test]
fn pushing_an_unmapped_custom_status_refuses_on_update_too() {
    let mut issue = new_issue("bds-1", "t");
    issue.status = Status::Custom("triaging".into());
    let err = issue_update_body(
        &config(),
        &issue,
        FieldSet {
            status: true,
            ..FieldSet::default()
        },
    )
    .expect_err("must refuse");
    let msg = err.to_string();
    assert!(
        msg.contains("triaging"),
        "must name the offending value: {msg}"
    );
    assert!(
        msg.contains("status_map"),
        "must name the map to extend: {msg}"
    );
}
