//! Setting up a project: its fields, its bundles, and who else uses them.

use beads::json::{read_json, Json};
use beads::remote::config::RemoteConfig;
use beads::remote::error::RemoteError;
use beads::remote::http::{
    classify, Attempt, HttpClient, Method, Request, RetryPolicy, Token,
};
use beads::remote::talk::{Stop, Talk};
use beads::remote::youtrack::admin::{
    AdminClient, FieldRef, ProjectRef, ALL_FIELDS, BEADS_ID_FIELD, PROSE_FIELDS,
};
use beads::remote::youtrack::bundles::{
    plan_missing, BundleKind, BundleRef, BundleValue, PendingValue, ProjectFieldBundle,
};
use beads::remote::youtrack::clone::{Emptiness, COUNT_POLL_ATTEMPTS};
use beads::remote::youtrack::sharedness::{BundleUsage, BundleUser, BundleUsers, Sharedness};
use std::cell::RefCell;

const MUST_BE_UNIQUE: &str = r#"{"error":"must-be-unique","error_field":"name","error_description":"An entity with this name already exists."}"#;

const COUNT_PENDING: &str = r#"{"count":-1,"$type":"IssueCountResponse"}"#;

const COUNT_SETTLED: &str = r#"{"count":0,"$type":"IssueCountResponse"}"#;

fn json(text: &str) -> serde_json::Value {
    serde_json::from_str(text).expect("valid JSON")
}

fn value(j: &Json) -> serde_json::Value {
    match j {
        Json::Null => serde_json::Value::Null,
        Json::Bool(b) => serde_json::Value::Bool(*b),
        Json::Int(n) => serde_json::Value::from(*n as i64),
        Json::Decimal(text) => serde_json::from_str(text).expect("a number"),
        Json::Text(text) => serde_json::Value::String(text.clone()),
        Json::Array(items) => serde_json::Value::Array(items.iter().map(value).collect()),
        Json::Object(items) => {
            let mut map = serde_json::Map::new();
            for (key, item) in items {
                map.insert(key.clone(), value(item));
            }
            serde_json::Value::Object(map)
        }
    }
}

fn entries(pairs: &[(&str, &str)]) -> indexmap::IndexMap<String, String> {
    pairs
        .iter()
        .map(|(key, value)| (key.to_string(), value.to_string()))
        .collect()
}

fn config() -> RemoteConfig {
    RemoteConfig {
        backend: "youtrack".to_string(),
        url: "https://example.youtrack.cloud".to_string(),
        project: "EM".to_string(),
        status_map: entries(&[
            ("open", "Open"),
            ("in_progress", "In Progress"),
            ("blocked", "Blocked"),
            ("deferred", "Deferred"),
            ("draft", "Draft"),
            ("pinned", "Pinned"),
            ("closed", "Fixed"),
        ]),
        type_map: entries(&[
            ("task", "Task"),
            ("bug", "Bug"),
            ("feature", "Feature"),
            ("epic", "Epic"),
            ("chore", "Chore"),
            ("docs", "Docs"),
            ("question", "Question"),
        ]),
        priority_map: entries(&[
            ("0", "Show-stopper"),
            ("1", "Critical"),
            ("2", "Major"),
            ("3", "Normal"),
            ("4", "Minor"),
        ]),
        deleted_state: "Won't fix".to_string(),
        page_size: 100,
    }
}

fn client() -> AdminClient {
    AdminClient::new(HttpClient::new(
        "https://example.invalid",
        Token::new("t"),
        RetryPolicy::none(),
    ))
    .with_count_poll_delay(0)
}

/// What was asked of a mirror.
#[derive(Debug, Clone)]
#[allow(dead_code)]
struct Asked {
    method: Method,
    path: String,
    body: String,
    pause: u128,
}

struct Route {
    method: String,
    path: String,
    answers: Vec<(u16, String)>,
    served: usize,
    drop_after: Option<usize>,
}

/// A mirror that answers by method and path.
struct MockServer {
    routes: RefCell<Vec<Route>>,
    asked: RefCell<Vec<Asked>>,
}

#[allow(dead_code)]
impl MockServer {
    fn start() -> MockServer {
        MockServer {
            routes: RefCell::new(Vec::new()),
            asked: RefCell::new(Vec::new()),
        }
    }

    fn on(&self, method: &str, path: &str, status: u16, body: &str) {
        self.on_sequence(method, path, vec![(status, body.to_string())]);
    }

    fn on_sequence(&self, method: &str, path: &str, answers: Vec<(u16, String)>) {
        let mut routes = self.routes.borrow_mut();
        routes.retain(|r| r.method != method || r.path != path);
        routes.push(Route {
            method: method.to_string(),
            path: path.to_string(),
            answers,
            served: 0,
            drop_after: None,
        });
    }

    /// The connection breaks before an answer comes.
    fn on_drop(&self, method: &str, path: &str) {
        self.on_sequence(method, path, vec![(200, String::new())]);
        self.on_drop_after(method, path, 0);
    }

    fn on_drop_after(&self, method: &str, path: &str, count: usize) {
        for route in self.routes.borrow_mut().iter_mut() {
            if route.method == method && route.path == path {
                route.drop_after = Some(count);
            }
        }
    }

    fn requests(&self) -> Vec<Asked> {
        self.asked.borrow().clone()
    }

    fn write_requests(&self) -> Vec<Asked> {
        self.requests()
            .into_iter()
            .filter(|r| r.method != Method::Get)
            .collect()
    }

    fn attempt(&self, request: &Request, pause: u128) -> Attempt {
        let method = match request.method {
            Method::Get => "GET",
            Method::Post => "POST",
            Method::Delete => "DELETE",
        };
        self.asked.borrow_mut().push(Asked {
            method: request.method,
            path: request.path.clone(),
            body: match &request.body {
                Some(body) => value(body).to_string(),
                None => String::new(),
            },
            pause,
        });
        for route in self.routes.borrow_mut().iter_mut() {
            if route.method == method && route.path == request.path {
                let place = route.served.min(route.answers.len() - 1);
                route.served += 1;
                if route.drop_after.is_some_and(|n| route.served > n) {
                    return Attempt::Broken("connection reset by peer".to_string());
                }
                let (status, body) = route.answers[place].clone();
                return Attempt::Answered { status, body };
            }
        }
        Attempt::Answered {
            status: 404,
            body: format!("no route for {method} {}", request.path),
        }
    }

    fn answer(&self, request: &Request, pause: u128) -> Result<Json, RemoteError> {
        classify(&self.attempt(request, pause), &request.entity)
    }
}

/// Works a run out against a mirror, to its end.
fn talk<T>(
    server: &MockServer,
    mut step: impl FnMut(&mut Talk) -> Result<T, Stop>,
) -> Result<T, RemoteError> {
    let mut replies: Vec<Result<Json, RemoteError>> = Vec::new();
    loop {
        let stop = match step(&mut Talk::open(&replies)) {
            Ok(result) => return Ok(result),
            Err(stop) => stop,
        };
        match stop {
            Stop::Fail(err) => return Err(err),
            Stop::Ask { request, pause } => replies.push(server.answer(&request, pause)),
        }
    }
}

const FIELDS_PATH: &str =
    "/api/admin/customFieldSettings/customFields?fields=id,name,fieldType(id)&$skip=0&$top=500";

fn fields_page_path(skip: u32) -> String {
    format!(
        "/api/admin/customFieldSettings/customFields?fields=id,name,fieldType(id)&$skip={skip}&$top=500"
    )
}

#[test]
fn a_bare_instance_gets_five_prototypes_and_five_attaches() {
    let server = MockServer::start();
    server.on("GET", FIELDS_PATH, 200, "[]");
    server.on(
        "POST",
        "/api/admin/customFieldSettings/customFields?fields=id,name,fieldType(id)",
        200,
        r#"{"id":"161-11","name":"x","fieldType":{"id":"text"}}"#,
    );
    server.on(
        "POST",
        "/api/admin/projects/0-1/customFields?fields=id,field(id,name)",
        200,
        r#"{"id":"233-0"}"#,
    );

    let admin = client();
    let project = ProjectRef {
        id: "0-1".into(),
        short_name: "EM".into(),
        name: "EasyMoney".into(),
    };
    let fields = talk(&server, |t| admin.ensure_field_prototypes(t)).expect("prototypes");
    let attachable = if fields.is_empty() {
        ALL_FIELDS
            .iter()
            .enumerate()
            .map(|(i, (name, field_type))| FieldRef {
                id: format!("161-{i}"),
                name: (*name).to_string(),
                field_type: (*field_type).to_string(),
            })
            .collect()
    } else {
        fields
    };
    talk(&server, |t| {
        admin.attach_fields_to_project(t, &project, &attachable)
    })
        .expect("attach");

    let posts = server.write_requests();
    let prototypes: Vec<_> = posts
        .iter()
        .filter(|r| {
            r.path
                .starts_with("/api/admin/customFieldSettings/customFields")
        })
        .collect();
    assert_eq!(prototypes.len(), 5, "one POST per missing prototype");
    for request in &prototypes {
        assert!(
            !request.body.contains("$type"),
            "the prototype POST must omit $type; a subtype is rejected outright: {}",
            request.body
        );
    }

    let attaches: Vec<_> = posts
        .iter()
        .filter(|r| r.path.contains("/projects/0-1/customFields"))
        .collect();
    assert_eq!(attaches.len(), 5);
    assert_eq!(
        attaches
            .iter()
            .filter(|r| r.body.contains("TextProjectCustomField"))
            .count(),
        4,
        "the four prose fields attach as text"
    );
    assert_eq!(
        attaches
            .iter()
            .filter(|r| r.body.contains("SimpleProjectCustomField"))
            .count(),
        1,
        "Beads ID attaches as a simple string field"
    );
    for request in &attaches {
        assert!(
            request.body.contains(r#""canBeEmpty":true"#),
            "{}",
            request.body
        );
    }
}

#[test]
fn an_instance_that_already_has_every_prototype_writes_nothing() {
    let server = MockServer::start();
    let existing = json(r##"[
    {"id":"161-11","name":"Beads ID","fieldType":{"id":"string"}},
    {"id":"161-12","name":"Design","fieldType":{"id":"text"}},
    {"id":"161-13","name":"Acceptance Criteria","fieldType":{"id":"text"}},
    {"id":"161-14","name":"Notes","fieldType":{"id":"text"}},
    {"id":"161-15","name":"Close Reason","fieldType":{"id":"text"}}
]"##);
    server.on("GET", FIELDS_PATH, 200, &existing.to_string());

    let admin = client();
    let fields = talk(&server, |t| admin.ensure_field_prototypes(t)).expect("prototypes");

    assert_eq!(fields.len(), 5);
    assert!(
        server.write_requests().is_empty(),
        "nothing missing means zero writes, got {:?}",
        server.write_requests()
    );
}

#[test]
fn the_prose_fields_are_provisioned_as_text_not_string() {
    for name in PROSE_FIELDS {
        let entry = ALL_FIELDS
            .iter()
            .find(|(field, _)| *field == name)
            .expect("every prose field is provisioned");
        assert_eq!(entry.1, "text", "{name} must be a text field");
    }
    assert_eq!(
        ALL_FIELDS
            .iter()
            .find(|(field, _)| *field == BEADS_ID_FIELD)
            .expect("Beads ID is provisioned")
            .1,
        "string"
    );
}

#[test]
fn must_be_unique_is_absorbed_as_already_present() {
    let server = MockServer::start();
    server.on_sequence(
        "POST",
        "/api/admin/customFieldSettings/customFields?fields=id,name,fieldType(id)",
        vec![
            (409, MUST_BE_UNIQUE.to_string()),
            (
                200,
                r#"{"id":"161-12","name":"Design","fieldType":{"id":"text"}}"#.into(),
            ),
        ],
    );
    server.on_sequence(
        "GET",
        FIELDS_PATH,
        vec![
            (200, "[]".into()),
            (
                200,
                r#"[{"id":"161-11","name":"Beads ID","fieldType":{"id":"string"}}]"#.into(),
            ),
        ],
    );

    let admin = client();
    let result = talk(&server, |t| admin.ensure_field_prototypes(t));
    assert!(
        result.is_ok(),
        "a racing admin must not fail the run: {result:?}"
    );
}

#[test]
fn field_prototype_listing_pages_past_the_first_five_hundred() {
    let server = MockServer::start();
    let first_page: Vec<_> = (0..500)
        .map(|n| {
            json(&format!(
                r#"{{"id":"161-{n}","name":"Field {n}","fieldType":{{"id":"string"}}}}"#
            ))
        })
        .collect();
    server.on(
        "GET",
        &fields_page_path(0),
        200,
        &serde_json::Value::Array(first_page).to_string(),
    );
    server.on(
        "GET",
        &fields_page_path(500),
        200,
        r#"[{"id":"161-11","name":"Beads ID","fieldType":{"id":"string"}},
            {"id":"161-12","name":"Design","fieldType":{"id":"text"}},
            {"id":"161-13","name":"Acceptance Criteria","fieldType":{"id":"text"}},
            {"id":"161-14","name":"Notes","fieldType":{"id":"text"}},
            {"id":"161-15","name":"Close Reason","fieldType":{"id":"text"}}]"#,
    );

    let admin = client();
    let fields = talk(&server, |t| admin.ensure_field_prototypes(t)).expect("prototypes");

    assert_eq!(
        fields.len(),
        5,
        "every provisioned prototype must be visible, even on the second page"
    );
    assert!(
        server.write_requests().is_empty(),
        "a prototype the paginated listing actually found must not be re-created: {:?}",
        server.write_requests()
    );
}

#[test]
fn a_project_is_resolved_by_short_name_and_a_missing_one_is_named() {
    let server = MockServer::start();
    server.on(
        "GET",
        "/api/admin/projects?fields=id,name,shortName&$skip=0&$top=500",
        200,
        r#"[{"id":"0-0","name":"Sandbox","shortName":"SB"},
            {"id":"0-1","name":"EasyMoney","shortName":"EM"}]"#,
    );

    let admin = client();
    let project = talk(&server, |t| admin.resolve_project(t, "EM")).expect("resolve");
    assert_eq!(
        project,
        ProjectRef {
            id: "0-1".into(),
            short_name: "EM".into(),
            name: "EasyMoney".into(),
        }
    );

    let err = talk(&server, |t| admin.resolve_project(t, "NOPE")).expect_err("must fail");
    assert!(err.to_string().contains("NOPE"), "{err:?}");
}

#[test]
fn resolve_project_pages_past_the_first_five_hundred() {
    let server = MockServer::start();
    let first_page: Vec<_> = (0..500)
        .map(|n| {
            json(&format!(
                r#"{{"id":"0-{n}","name":"Project {n}","shortName":"P{n}"}}"#
            ))
        })
        .collect();
    server.on(
        "GET",
        "/api/admin/projects?fields=id,name,shortName&$skip=0&$top=500",
        200,
        &serde_json::Value::Array(first_page).to_string(),
    );
    server.on(
        "GET",
        "/api/admin/projects?fields=id,name,shortName&$skip=500&$top=500",
        200,
        r#"[{"id":"0-999","name":"Arrived Late","shortName":"LATE"}]"#,
    );

    let admin = client();
    let project = talk(&server, |t| admin.resolve_project(t, "LATE"))
        .expect("a project beyond the first page must still resolve");
    assert_eq!(project.id, "0-999");
}

fn bundle(kind: BundleKind, names: &[&str]) -> BundleRef {
    BundleRef {
        id: "163-1".into(),
        name: "Types".into(),
        kind,
        values: names
            .iter()
            .enumerate()
            .map(|(i, n)| BundleValue {
                id: format!("164-{i}"),
                name: (*n).to_string(),
                ordinal: i64::try_from(i).expect("test index fits"),
                color: Json::Null,
                is_resolved: None,
            })
            .collect(),
    }
}

#[test]
fn a_complete_bundle_needs_nothing() {
    let b = bundle(
        BundleKind::Enum,
        &[
            "Task", "Bug", "Feature", "Epic", "Chore", "Docs", "Question",
        ],
    );
    let missing = plan_missing(&config(), "Type", &b).expect("plan");
    assert!(
        missing.is_empty(),
        "an existing value must never be re-added: {missing:?}"
    );
}

#[test]
fn the_reference_types_bundle_needs_exactly_three() {
    let b = bundle(
        BundleKind::Enum,
        &[
            "Bug",
            "Cosmetics",
            "Exception",
            "Feature",
            "Task",
            "Usability Problem",
            "Performance Problem",
            "Epic",
        ],
    );
    let missing = plan_missing(&config(), "Type", &b).expect("plan");
    let names: Vec<&str> = missing.iter().map(|v| v.name.as_str()).collect();
    assert_eq!(names, ["Chore", "Docs", "Question"]);
}

#[test]
fn the_reference_states_bundle_needs_exactly_four_with_correct_resolution() {
    let b = bundle(
        BundleKind::State,
        &[
            "Submitted",
            "Open",
            "In Progress",
            "To be discussed",
            "Reopened",
            "Can't Reproduce",
            "Duplicate",
            "Fixed",
            "Won't fix",
            "Incomplete",
            "Obsolete",
            "Verified",
        ],
    );
    let missing = plan_missing(&config(), "State", &b).expect("plan");
    let names: Vec<&str> = missing.iter().map(|v| v.name.as_str()).collect();
    assert_eq!(names, ["Blocked", "Deferred", "Draft", "Pinned"]);
    for value in &missing {
        assert_eq!(
            value.is_resolved,
            Some(false),
            "{} is not a resolved state on the beads side",
            value.name
        );
    }
}

#[test]
fn a_new_closed_state_is_resolved() {
    let b = bundle(BundleKind::State, &["Open"]);
    let missing = plan_missing(&config(), "State", &b).expect("plan");
    let fixed = missing
        .iter()
        .find(|v| v.name == "Fixed")
        .expect("Fixed is missing");
    assert_eq!(
        fixed.is_resolved,
        Some(true),
        "closed must map to a resolved state"
    );
    let deleted = missing
        .iter()
        .find(|v| v.name == "Won't fix")
        .expect("deleted_state is missing");
    assert_eq!(
        deleted.is_resolved,
        Some(true),
        "deleted_state must also be resolved"
    );
}

#[test]
fn an_enum_bundle_never_carries_is_resolved() {
    let b = bundle(BundleKind::Enum, &["Task"]);
    let missing = plan_missing(&config(), "Type", &b).expect("plan");
    for value in &missing {
        assert_eq!(
            value.is_resolved, None,
            "isResolved is a state-bundle concept only: {value:?}"
        );
    }
}

#[test]
fn a_case_only_difference_fails_naming_both_spellings() {
    let b = bundle(
        BundleKind::Enum,
        &[
            "Task", "Bug", "Feature", "epic", "Chore", "Docs", "Question",
        ],
    );
    let err = plan_missing(&config(), "Type", &b).expect_err("must refuse");
    let msg = err.to_string();
    assert!(
        msg.contains("Epic"),
        "must name the configured spelling: {msg}"
    );
    assert!(
        msg.contains("epic"),
        "must name the bundle's spelling: {msg}"
    );
}

#[test]
fn a_field_with_no_configured_map_is_refused() {
    let b = bundle(BundleKind::Enum, &["Whatever"]);
    let err = plan_missing(&config(), "Subsystem", &b).expect_err("must refuse");
    assert!(err.to_string().contains("Subsystem"), "{err:?}");
}

#[test]
fn only_enum_and_state_bundles_are_read_back() {
    let server = MockServer::start();
    let path = "/api/admin/projects/0-1/customFields?fields=id,$type,canBeEmpty,field(id,name),bundle(id,name,$type,values(id,name,ordinal,color(id,background,foreground),isResolved))&$skip=0&$top=100";
    server.on(
        "GET",
        path,
        200,
        &json(r##"[
        {"id":"189-8","field":{"id":"161-1","name":"Type"},
         "bundle":{"id":"163-1","name":"Types","$type":"EnumBundle","values":[
             {"id":"164-0","name":"Bug","ordinal":0,
              "color":{"id":"18","background":"#e6f5cf","foreground":"#4da400"}}]}},
        {"id":"189-9","field":{"id":"161-2","name":"State"},
         "bundle":{"id":"165-0","name":"States","$type":"StateBundle","values":[
             {"id":"166-7","name":"Fixed","ordinal":7,"isResolved":true}]}},
        {"id":"189-11","field":{"id":"161-5","name":"Fix versions"},
         "bundle":{"id":"168-2","name":"EasyMoney: Versions","$type":"VersionBundle","values":[]}},
        {"id":"189-30","field":{"id":"161-30","name":"Beads ID"}}
    ]"##)
        .to_string(),
    );

    let admin = client();
    let project = ProjectRef {
        id: "0-1".into(),
        short_name: "EM".into(),
        name: "EasyMoney".into(),
    };
    let fields = talk(&server, |t| admin.read_project_bundle_fields(t, &project))
        .expect("read fields");

    let names: Vec<&str> = fields.iter().map(|f| f.field_name.as_str()).collect();
    assert_eq!(
        names,
        ["Type", "State"],
        "a VersionBundle and a bundle-less field are both skipped"
    );
    assert_eq!(fields[0].bundle.kind, BundleKind::Enum);
    assert_eq!(fields[1].bundle.kind, BundleKind::State);
    assert_eq!(fields[1].bundle.values[0].is_resolved, Some(true));
    assert!(matches!(fields[0].bundle.values[0].color, Json::Object(_)));
    assert_eq!(fields[0].instance_id, "189-8");
}

#[test]
fn read_project_bundle_fields_pages_past_the_first_hundred() {
    let server = MockServer::start();
    let path_fields = "id,$type,canBeEmpty,field(id,name),\
bundle(id,name,$type,values(id,name,ordinal,color(id,background,foreground),isResolved))";
    let first_page: Vec<_> = (0..100)
        .map(|n| {
            json(&format!(
                r#"{{"id":"189-{n}","field":{{"id":"161-{n}","name":"Custom {n}"}}}}"#
            ))
        })
        .collect();
    server.on(
        "GET",
        &format!("/api/admin/projects/0-1/customFields?fields={path_fields}&$skip=0&$top=100"),
        200,
        &serde_json::Value::Array(first_page).to_string(),
    );
    server.on(
        "GET",
        &format!(
            "/api/admin/projects/0-1/customFields?fields={path_fields}&$skip=100&$top=100"
        ),
        200,
        &json(r##"[
        {"id":"189-999","field":{"id":"161-2","name":"State"},
         "bundle":{"id":"165-0","name":"States","$type":"StateBundle","values":[
             {"id":"166-7","name":"Fixed","ordinal":7,"isResolved":true}]}}
    ]"##)
        .to_string(),
    );

    let admin = client();
    let project = ProjectRef {
        id: "0-1".into(),
        short_name: "EM".into(),
        name: "EasyMoney".into(),
    };
    let fields = talk(&server, |t| admin.read_project_bundle_fields(t, &project))
        .expect("read must page past the boundary");

    assert!(
        fields.iter().any(|f| f.instance_id == "189-999"),
        "a field instance beyond the first page must be visible: {fields:?}"
    );
}

#[test]
fn each_missing_value_is_one_post_carrying_the_element_type() {
    let server = MockServer::start();
    server.on(
        "POST",
        "/api/admin/customFieldSettings/bundles/state/165-0/values?fields=id,name",
        200,
        r#"{"id":"166-20","name":"Blocked"}"#,
    );

    let admin = client();
    let target = BundleRef {
        id: "165-0".into(),
        name: "States".into(),
        kind: BundleKind::State,
        values: Vec::new(),
    };
    let values = vec![
        PendingValue {
            name: "Blocked".into(),
            is_resolved: Some(false),
        },
        PendingValue {
            name: "Fixed".into(),
            is_resolved: Some(true),
        },
    ];
    talk(&server, |t| admin.add_bundle_values(t, &target, &values)).expect("add values");

    let posts = server.write_requests();
    assert_eq!(posts.len(), 2, "one request per value");
    assert!(
        posts[0].body.contains("StateBundleElement"),
        "{}",
        posts[0].body
    );
    assert!(
        posts[0].body.contains(r#""isResolved":false"#),
        "{}",
        posts[0].body
    );
    assert!(
        posts[1].body.contains(r#""isResolved":true"#),
        "{}",
        posts[1].body
    );
}

#[test]
fn a_bundle_needing_nothing_issues_no_write_at_all() {
    let server = MockServer::start();
    let admin = client();
    let target = BundleRef {
        id: "163-1".into(),
        name: "Types".into(),
        kind: BundleKind::Enum,
        values: Vec::new(),
    };
    talk(&server, |t| admin.add_bundle_values(t, &target, &vec![])).expect("no-op");
    assert!(server.requests().is_empty(), "{:?}", server.requests());
}

fn project() -> ProjectRef {
    ProjectRef {
        id: "0-1".into(),
        short_name: "EM".into(),
        name: "EasyMoney".into(),
    }
}

fn state_bundle() -> BundleRef {
    BundleRef {
        id: "165-0".into(),
        name: "States".into(),
        kind: BundleKind::State,
        values: vec![
            BundleValue {
                id: "166-0".into(),
                name: "Submitted".into(),
                ordinal: 0,
                color: read_json(r##"{"id":"0","background":"#fff","foreground":"#444"}"##).expect("valid JSON"),
                is_resolved: Some(false),
            },
            BundleValue {
                id: "166-1".into(),
                name: "Open".into(),
                ordinal: 1,
                color: read_json(r##"{"id":"0","background":"#fff","foreground":"#444"}"##).expect("valid JSON"),
                is_resolved: Some(false),
            },
        ],
    }
}

#[test]
fn list_bundles_pages_past_the_first_five_hundred() {
    let server = MockServer::start();
    let first_page: Vec<_> = (0..500)
        .map(|n| json(&format!(r#"{{"id":"165-{n}","name":"Bundle {n}"}}"#)))
        .collect();
    server.on(
        "GET",
        "/api/admin/customFieldSettings/bundles/state?fields=id,name,values(id,name)&$skip=0&$top=500",
        200,
        &serde_json::Value::Array(first_page).to_string(),
    );
    server.on(
        "GET",
        "/api/admin/customFieldSettings/bundles/state?fields=id,name,values(id,name)&$skip=500&$top=500",
        200,
        r#"[{"id":"165-999","name":"EasyMoney: States","values":[]}]"#,
    );

    let bundles = talk(&server, |t| client().list_bundles(t, BundleKind::State))
        .expect("list must page past the boundary");
    assert!(
        bundles.iter().any(|b| b.id == "165-999"),
        "a bundle beyond the first page must be visible: {bundles:?}"
    );
}

#[test]
fn the_clone_carries_every_value_inline_in_one_request() {
    let server = MockServer::start();
    server.on(
        "POST",
        "/api/admin/customFieldSettings/bundles/state?fields=id,name",
        200,
        r#"{"id":"165-9","name":"EasyMoney: States"}"#,
    );

    let clone = talk(&server, |t| {
        client().clone_bundle(t, &state_bundle(), "EasyMoney: States")
    })
        .expect("clone");
    assert_eq!(clone.id, "165-9");

    let posts = server.write_requests();
    assert_eq!(posts.len(), 1, "one request, not one per value");
    let body: serde_json::Value = serde_json::from_str(&posts[0].body).expect("json body");
    let values = body["values"].as_array().expect("values array");
    assert_eq!(values.len(), 2);
    assert_eq!(values[0]["name"], "Submitted");
    assert_eq!(values[0]["ordinal"], 0);
    assert_eq!(
        values[0]["isResolved"], false,
        "states must carry isResolved verbatim"
    );
    assert!(
        values[0]["color"].is_object(),
        "colour must be carried verbatim"
    );
}

#[test]
fn the_repoint_sets_the_bundle_on_the_project_field_instance() {
    let server = MockServer::start();
    server.on(
        "POST",
        "/api/admin/projects/0-1/customFields/189-9?fields=id,bundle(id,name)",
        200,
        r#"{"id":"189-9","bundle":{"id":"165-9","name":"EasyMoney: States"}}"#,
    );

    let field = ProjectFieldBundle {
        instance_id: "189-9".into(),
        field_id: "161-2".into(),
        field_name: "State".into(),
        bundle: state_bundle(),
    };
    let clone = BundleRef {
        id: "165-9".into(),
        name: "EasyMoney: States".into(),
        kind: BundleKind::State,
        values: Vec::new(),
    };
    talk(&server, |t| {
        client().repoint_field_bundle(t, &field, &project(), &clone)
    })
        .expect("repoint");

    let posts = server.write_requests();
    assert_eq!(posts.len(), 1);
    let body: serde_json::Value = serde_json::from_str(&posts[0].body).expect("json body");
    assert_eq!(body["bundle"]["id"], "165-9");
    assert_eq!(body["$type"], "StateProjectCustomField");
    assert_eq!(body["bundle"]["$type"], "StateBundle");
}

#[test]
fn an_enum_repoint_names_the_enum_bundle_type_inside_the_nested_object() {
    let server = MockServer::start();
    server.on(
        "POST",
        "/api/admin/projects/0-1/customFields/189-15?fields=id,bundle(id,name)",
        200,
        r#"{"id":"189-15","bundle":{"id":"163-2","name":"Beads: Types"}}"#,
    );

    let field = ProjectFieldBundle {
        instance_id: "189-15".into(),
        field_id: "161-1".into(),
        field_name: "Type".into(),
        bundle: BundleRef {
            id: "163-1".into(),
            name: "Types".into(),
            kind: BundleKind::Enum,
            values: Vec::new(),
        },
    };
    let clone = BundleRef {
        id: "163-2".into(),
        name: "Beads: Types".into(),
        kind: BundleKind::Enum,
        values: Vec::new(),
    };
    talk(&server, |t| {
        client().repoint_field_bundle(t, &field, &project(), &clone)
    })
        .expect("repoint");

    let posts = server.write_requests();
    assert_eq!(posts.len(), 1);
    let body: serde_json::Value = serde_json::from_str(&posts[0].body).expect("json body");
    assert_eq!(body["$type"], "EnumProjectCustomField");
    assert_eq!(body["bundle"]["$type"], "EnumBundle");
}

#[test]
fn default_values_are_emitted_by_id_never_by_name() {
    let server = MockServer::start();
    server.on(
        "POST",
        "/api/admin/projects/0-1/customFields/189-9?fields=field(name),defaultValues(id,name)",
        200,
        r#"{"defaultValues":[{"id":"166-1","name":"Open"}]}"#,
    );

    talk(&server, |t| {
        client().set_default_values(
            t,
            &project(),
            "189-9",
            "StateProjectCustomField",
            &state_bundle(),
            &vec!["Open".to_string()],
        )
    })
        .expect("set defaults");

    let posts = server.write_requests();
    assert_eq!(posts.len(), 1);
    let body: serde_json::Value = serde_json::from_str(&posts[0].body).expect("json body");
    let defaults = body["defaultValues"]
        .as_array()
        .expect("defaultValues array");
    assert_eq!(
        defaults[0]["id"], "166-1",
        "must resolve Open to its element id"
    );
    assert!(
        defaults[0].get("name").is_none(),
        "a bare name is rejected by the API: {}",
        posts[0].body
    );
}

#[test]
fn an_unknown_default_name_fails_before_the_request() {
    let server = MockServer::start();
    let err = talk(&server, |t| {
        client().set_default_values(
            t,
            &project(),
            "189-9",
            "StateProjectCustomField",
            &state_bundle(),
            &vec!["Nope".to_string()],
        )
    })
        .expect_err("must fail");
    assert!(err.to_string().contains("Nope"), "{err:?}");
    assert!(
        server.write_requests().is_empty(),
        "must not issue a request it knows will fail"
    );
}

#[test]
fn a_cloned_bundle_is_re_read_for_its_own_element_ids() {
    let server = MockServer::start();
    server.on(
        "GET",
        "/api/admin/customFieldSettings/bundles/state/165-9?fields=id,name,values(id,name,ordinal,color(id,background,foreground),isResolved)",
        200,
        r#"{"id":"165-9","name":"EasyMoney: States","values":[
            {"id":"166-40","name":"Submitted","ordinal":0,"isResolved":false},
            {"id":"166-41","name":"Open","ordinal":1,"isResolved":false}]}"#,
    );

    let stub = BundleRef {
        id: "165-9".into(),
        name: "EasyMoney: States".into(),
        kind: BundleKind::State,
        values: Vec::new(),
    };
    let full = talk(&server, |t| client().read_bundle(t, &stub)).expect("read back");
    let ids: Vec<&str> = full.values.iter().map(|v| v.id.as_str()).collect();
    assert_eq!(
        ids,
        ["166-40", "166-41"],
        "the clone's element ids are its own, not the source's"
    );
}

#[test]
fn the_count_endpoint_is_polled_past_its_pending_value() {
    let server = MockServer::start();
    server.on_sequence(
        "POST",
        "/api/issuesGetter/count?fields=count",
        vec![
            (200, COUNT_PENDING.into()),
            (200, COUNT_PENDING.into()),
            (200, COUNT_SETTLED.into()),
        ],
    );

    let result = talk(&server, |t| client().project_is_empty(t, &project())).expect("count");
    assert_eq!(result, Emptiness::Empty);
    assert_eq!(
        server.write_requests().len(),
        3,
        "must poll until it settles"
    );
}

#[test]
fn a_positive_count_reports_how_many_issues_block_the_clone() {
    let server = MockServer::start();
    server.on(
        "POST",
        "/api/issuesGetter/count?fields=count",
        200,
        r#"{"count":42,"$type":"IssueCountResponse"}"#,
    );

    let result = talk(&server, |t| client().project_is_empty(t, &project())).expect("count");
    assert_eq!(result, Emptiness::HasIssues(42));
}

#[test]
fn a_count_that_never_settles_is_unknown_not_empty() {
    let server = MockServer::start();
    server.on(
        "POST",
        "/api/issuesGetter/count?fields=count",
        200,
        COUNT_PENDING,
    );

    let result = talk(&server, |t| client().project_is_empty(t, &project())).expect("count");
    assert_eq!(
        result,
        Emptiness::Unknown,
        "exhausting the budget must never be reported as Empty — that would clone"
    );
    assert_eq!(
        server.write_requests().len(),
        COUNT_POLL_ATTEMPTS as usize,
        "the whole budget must be spent before giving up"
    );
}

#[test]
fn the_default_poll_delay_is_the_documented_one() {
    let client = AdminClient::new(HttpClient::new(
        "https://example.invalid",
        Token::new("t"),
        RetryPolicy::none(),
    ));
    assert_eq!(client.count_poll_base_delay(), 200_000_000);
}

#[test]
fn a_count_that_does_not_settle_is_looked_at_after_growing_pauses() {
    let server = MockServer::start();
    server.on(
        "POST",
        "/api/issuesGetter/count?fields=count",
        200,
        r#"{"count":-1}"#,
    );
    let client = AdminClient::new(HttpClient::new(
        "https://example.invalid",
        Token::new("t"),
        RetryPolicy::none(),
    ))
    .with_count_poll_delay(1_500);
    let emptiness = talk(&server, |t| client.project_is_empty(t, &project())).expect("counted");
    assert_eq!(emptiness, Emptiness::Unknown);
    let pauses: Vec<u128> = server.requests().iter().map(|r| r.pause).collect();
    assert_eq!(&pauses[..4], [0, 1_500, 3_000, 6_000]);
}

const SCAN_PATH: &str = "/api/admin/customFieldSettings/customFields?fields=id,name,instances(id,project(shortName),bundle(id,name))&$skip=0&$top=500";

fn reference_scan() -> String {
    json(r##"[
    {"id":"161-1","name":"Type","instances":[
        {"id":"189-8","project":{"shortName":"EM"},"bundle":{"id":"163-1","name":"Types"}}]},
    {"id":"161-2","name":"State","instances":[
        {"id":"189-9","project":{"shortName":"EM"},"bundle":{"id":"165-0","name":"States"}}]},
    {"id":"161-5","name":"Fix versions","instances":[
        {"id":"189-11","project":{"shortName":"EM"},"bundle":{"id":"168-2","name":"EasyMoney: Versions"}}]},
    {"id":"161-6","name":"Affected versions","instances":[
        {"id":"189-12","project":{"shortName":"EM"},"bundle":{"id":"168-2","name":"EasyMoney: Versions"}}]}
]"##)
    .to_string()
}

#[test]
fn a_stock_named_bundle_with_one_user_is_private() {
    let server = MockServer::start();
    server.on("GET", SCAN_PATH, 200, &reference_scan());

    let usage = talk(&server, |t| client().scan_bundle_usage(t)).expect("scan");
    assert_eq!(
        usage.verdict("163-1", "Type", "EM"),
        Sharedness::Private,
        "a stock NAME does not make a bundle shared; only a second user does"
    );
}

#[test]
fn a_bundle_used_by_a_second_project_is_shared() {
    let server = MockServer::start();
    let scan = json(r##"[
    {"id":"161-1","name":"Type","instances":[
        {"id":"189-8","project":{"shortName":"EM"},"bundle":{"id":"163-1","name":"Types"}},
        {"id":"189-20","project":{"shortName":"OTHER"},"bundle":{"id":"163-1","name":"Types"}}]}
]"##);
    server.on("GET", SCAN_PATH, 200, &scan.to_string());

    let usage = talk(&server, |t| client().scan_bundle_usage(t)).expect("scan");
    match usage.verdict("163-1", "Type", "EM") {
        Sharedness::Shared { others } => assert!(
            others.iter().any(|o| o.contains("OTHER")),
            "must name the other user: {others:?}"
        ),
        other => panic!("expected Shared, got {other:?}"),
    }
}

#[test]
fn a_bundle_used_by_two_fields_of_one_project_is_shared() {
    let server = MockServer::start();
    server.on("GET", SCAN_PATH, 200, &reference_scan());

    let usage = talk(&server, |t| client().scan_bundle_usage(t)).expect("scan");
    match usage.verdict("168-2", "Fix versions", "EM") {
        Sharedness::Shared { others } => assert!(
            others.iter().any(|o| o.contains("Affected versions")),
            "a second FIELD of the same project shares the bundle too: {others:?}"
        ),
        other => panic!("expected Shared, got {other:?}"),
    }
}

#[test]
fn a_forbidden_scan_is_unavailable_not_private() {
    let server = MockServer::start();
    server.on("GET", SCAN_PATH, 403, r#"{"error":"Forbidden"}"#);

    let result = talk(&server, |t| client().scan_bundle_usage(t));
    let usage = result.unwrap_or_else(BundleUsage::unavailable_from);
    assert!(
        matches!(
            usage.verdict("163-1", "Type", "EM"),
            Sharedness::Unavailable { .. }
        ),
        "a scan the token cannot complete must refuse, never fall through to Private"
    );
}

#[test]
fn a_bundle_absent_from_the_scan_is_unavailable_not_private() {
    let server = MockServer::start();
    server.on("GET", SCAN_PATH, 200, &reference_scan());

    let usage = talk(&server, |t| client().scan_bundle_usage(t)).expect("scan");
    assert!(
        matches!(
            usage.verdict("999-9", "Type", "EM"),
            Sharedness::Unavailable { .. }
        ),
        "a bundle the scan never mentioned is unknown, not proven private"
    );
    assert!(
        !usage.scan_failed(),
        "the scan completed; only this one bundle was missing from it"
    );
}

#[test]
fn a_failed_scan_and_a_missing_bundle_are_distinguishable() {
    let server = MockServer::start();
    server.on("GET", SCAN_PATH, 403, r#"{"error":"Forbidden"}"#);
    let forbidden = talk(&server, |t| client().scan_bundle_usage(t))
        .unwrap_or_else(BundleUsage::unavailable_from);
    assert!(forbidden.scan_failed());

    let ok = MockServer::start();
    ok.on("GET", SCAN_PATH, 200, &reference_scan());
    assert!(!talk(&ok, |t| client().scan_bundle_usage(t)).expect("scan").scan_failed());
}

#[test]
fn the_projects_seen_are_reported() {
    let server = MockServer::start();
    server.on("GET", SCAN_PATH, 200, &reference_scan());

    let usage = talk(&server, |t| client().scan_bundle_usage(t)).expect("scan");
    assert!(usage.projects_seen.iter().any(|p| p == "EM"));
}

#[test]
fn a_bundle_used_only_by_a_field_past_the_first_page_is_still_seen() {
    let server = MockServer::start();
    let first_page: Vec<_> = (0..500)
        .map(|n| {
            json(&format!(
                r#"{{"id":"161-{n}","name":"Field {n}","instances":[]}}"#
            ))
        })
        .collect();
    server.on(
        "GET",
        SCAN_PATH,
        200,
        &serde_json::Value::Array(first_page).to_string(),
    );
    server.on(
        "GET",
        "/api/admin/customFieldSettings/customFields?fields=id,name,instances(id,project(shortName),bundle(id,name))&$skip=500&$top=500",
        200,
        &json(r##"[
        {"id":"161-999","name":"Type","instances":[
            {"id":"189-8","project":{"shortName":"EM"},"bundle":{"id":"163-1","name":"Types"}},
            {"id":"189-80","project":{"shortName":"OTHER"},"bundle":{"id":"163-1","name":"Types"}}]}
    ]"##)
        .to_string(),
    );

    let usage = talk(&server, |t| client().scan_bundle_usage(t))
        .expect("scan must page past the boundary");
    match usage.verdict("163-1", "Type", "EM") {
        Sharedness::Shared { others } => assert!(
            others.iter().any(|o| o.contains("OTHER")),
            "the second-page user must be counted: {others:?}"
        ),
        other => panic!("expected Shared from a user on the second page, got {other:?}"),
    }
}

#[test]
fn a_bundles_sole_user_on_the_second_page_makes_it_private_not_unavailable() {
    let server = MockServer::start();
    let first_page: Vec<_> = (0..500)
        .map(|n| {
            json(&format!(
                r#"{{"id":"161-{n}","name":"Field {n}","instances":[]}}"#
            ))
        })
        .collect();
    server.on(
        "GET",
        SCAN_PATH,
        200,
        &serde_json::Value::Array(first_page).to_string(),
    );
    server.on(
        "GET",
        "/api/admin/customFieldSettings/customFields?fields=id,name,instances(id,project(shortName),bundle(id,name))&$skip=500&$top=500",
        200,
        &json(r##"[
        {"id":"161-999","name":"Type","instances":[
            {"id":"189-8","project":{"shortName":"EM"},"bundle":{"id":"163-1","name":"Types"}}]}
    ]"##)
        .to_string(),
    );

    let usage = talk(&server, |t| client().scan_bundle_usage(t))
        .expect("scan must page past the boundary");
    assert_eq!(
        usage.verdict("163-1", "Type", "EM"),
        Sharedness::Private,
        "a sole user found only on the second page is still exactly one user, \
         so the bundle is private"
    );
}

#[test]
fn a_bundle_that_is_listed_with_nobody_is_private() {
    let mut usage = BundleUsage::default();
    assert!(!usage.lists("163-1"));
    assert_eq!(
        usage.verdict("163-1", "Type", "EM"),
        Sharedness::Unavailable {
            reason: "bundle 163-1 did not appear in the scan".to_string()
        }
    );
    usage.users.push(BundleUsers {
        bundle_id: "163-1".to_string(),
        users: vec![],
    });
    assert!(usage.lists("163-1"));
    assert_eq!(usage.verdict("163-1", "Type", "EM"), Sharedness::Private);

    let user = |field: &str, project: &str| BundleUser {
        field_name: field.to_string(),
        project_short_name: project.to_string(),
        instance_id: "1-1".to_string(),
    };
    usage.users[0].users = vec![user("Type", "EM"), user("Type", "OTHER"), user("Kind", "EM")];
    assert_eq!(
        usage.verdict("163-1", "Type", "EM"),
        Sharedness::Shared {
            others: vec!["Type@OTHER".to_string(), "Kind@EM".to_string()]
        }
    );
}

#[test]
fn a_scan_lists_each_bundle_once_with_its_users_in_order() {
    let server = MockServer::start();
    server.on(
        "GET",
        SCAN_PATH,
        200,
        r#"[{"id":"1","name":"Type","instances":[
                {"id":"i-1","project":{"shortName":"OPS"},"bundle":{"id":"b-2"}},
                {"id":"i-2","project":{"shortName":"EM"},"bundle":{"id":"b-1"}},
                {"id":"i-3","project":{"shortName":"EM"}}]},
            {"id":"2","name":"Kind","instances":[
                {"id":"i-4","project":{"shortName":"EM"},"bundle":{"id":"b-2"}}]}]"#,
    );
    let usage = talk(&server, |t| client().scan_bundle_usage(t)).expect("scan");
    let user = |field: &str, project: &str, instance: &str| BundleUser {
        field_name: field.to_string(),
        project_short_name: project.to_string(),
        instance_id: instance.to_string(),
    };
    assert_eq!(
        usage.users,
        [
            BundleUsers {
                bundle_id: "b-1".to_string(),
                users: vec![user("Type", "EM", "i-2")],
            },
            BundleUsers {
                bundle_id: "b-2".to_string(),
                users: vec![user("Type", "OPS", "i-1"), user("Kind", "EM", "i-4")],
            },
        ]
    );
    assert_eq!(usage.projects_seen, ["EM", "OPS"]);
    assert!(usage.lists("b-1") && !usage.lists("b-3"));
}
