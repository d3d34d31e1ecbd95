//! Setting up a project from its start to its end.

use beads::json::Json;
use beads::remote::config::RemoteConfig;
use beads::remote::error::RemoteError;
use beads::remote::http::{
    classify, Attempt, HttpClient, Method, Request, RetryPolicy, Token,
};
use beads::remote::talk::{Stop, Talk};
use beads::remote::youtrack::admin::{AdminClient, ProjectRef};
use beads::remote::youtrack::bundles::{BundleKind, BundleRef, PendingValue, ProjectFieldBundle};
use beads::remote::youtrack::init::{
    align_defaults, preflight_vocabulary, reconcile_shared, run, BundleClone, DefaultChange,
    InitFacts, InitOptions, InitReport, ProjectFieldSummary, SettledBundle, ValuesAdded,
    WorkspaceVocabulary,
};
use beads::remote::youtrack::sharedness::BundleUsage;
use std::cell::RefCell;

const COUNT_SETTLED: &str = r#"{"count":0,"$type":"IssueCountResponse"}"#;

fn json(text: &str) -> serde_json::Value {
    serde_json::from_str(text).expect("valid JSON")
}

fn value(j: &Json) -> serde_json::Value {
    match j {
        Json::Null => serde_json::Value::Null,
        Json::Bool(b) => serde_json::Value::Bool(*b),
        Json::Int(n) => serde_json::Value::from(*n as i64),
        Json::Decimal(text) => serde_json::from_str(text).expect("a number"),
        Json::Text(text) => serde_json::Value::String(text.clone()),
        Json::Array(items) => serde_json::Value::Array(items.iter().map(value).collect()),
        Json::Object(items) => {
            let mut map = serde_json::Map::new();
            for (key, item) in items {
                map.insert(key.clone(), value(item));
            }
            serde_json::Value::Object(map)
        }
    }
}

fn entries(pairs: &[(&str, &str)]) -> indexmap::IndexMap<String, String> {
    pairs
        .iter()
        .map(|(key, value)| (key.to_string(), value.to_string()))
        .collect()
}

fn config() -> RemoteConfig {
    RemoteConfig {
        backend: "youtrack".to_string(),
        url: "https://example.youtrack.cloud".to_string(),
        project: "EM".to_string(),
        status_map: entries(&[
            ("open", "Open"),
            ("in_progress", "In Progress"),
            ("blocked", "Blocked"),
            ("deferred", "Deferred"),
            ("draft", "Draft"),
            ("pinned", "Pinned"),
            ("closed", "Fixed"),
        ]),
        type_map: entries(&[
            ("task", "Task"),
            ("bug", "Bug"),
            ("feature", "Feature"),
            ("epic", "Epic"),
            ("chore", "Chore"),
            ("docs", "Docs"),
            ("question", "Question"),
        ]),
        priority_map: entries(&[
            ("0", "Show-stopper"),
            ("1", "Critical"),
            ("2", "Major"),
            ("3", "Normal"),
            ("4", "Minor"),
        ]),
        deleted_state: "Won't fix".to_string(),
        page_size: 100,
    }
}

/// What was asked of a mirror.
#[derive(Debug, Clone)]
#[allow(dead_code)]
struct Asked {
    method: Method,
    path: String,
    body: String,
    pause: u128,
}

struct Route {
    method: String,
    path: String,
    answers: Vec<(u16, String)>,
    served: usize,
    drop_after: Option<usize>,
}

/// A mirror that answers by method and path.
struct MockServer {
    routes: RefCell<Vec<Route>>,
    asked: RefCell<Vec<Asked>>,
}

#[allow(dead_code)]
impl MockServer {
    fn start() -> MockServer {
        MockServer {
            routes: RefCell::new(Vec::new()),
            asked: RefCell::new(Vec::new()),
        }
    }

    fn on(&self, method: &str, path: &str, status: u16, body: &str) {
        self.on_sequence(method, path, vec![(status, body.to_string())]);
    }

    fn on_sequence(&self, method: &str, path: &str, answers: Vec<(u16, String)>) {
        let mut routes = self.routes.borrow_mut();
        routes.retain(|r| r.method != method || r.path != path);
        routes.push(Route {
            method: method.to_string(),
            path: path.to_string(),
            answers,
            served: 0,
            drop_after: None,
        });
    }

    /// The connection breaks before an answer comes.
    fn on_drop(&self, method: &str, path: &str) {
        self.on_sequence(method, path, vec![(200, String::new())]);
        self.on_drop_after(method, path, 0);
    }

    fn on_drop_after(&self, method: &str, path: &str, count: usize) {
        for route in self.routes.borrow_mut().iter_mut() {
            if route.method == method && route.path == path {
                route.drop_after = Some(count);
            }
        }
    }

    fn requests(&self) -> Vec<Asked> {
        self.asked.borrow().clone()
    }

    fn write_requests(&self) -> Vec<Asked> {
        self.requests()
            .into_iter()
            .filter(|r| r.method != Method::Get)
            .collect()
    }

    fn attempt(&self, request: &Request, pause: u128) -> Attempt {
        let method = match request.method {
            Method::Get => "GET",
            Method::Post => "POST",
            Method::Delete => "DELETE",
        };
        self.asked.borrow_mut().push(Asked {
            method: request.method,
            path: request.path.clone(),
            body: match &request.body {
                Some(body) => value(body).to_string(),
                None => String::new(),
            },
            pause,
        });
        for route in self.routes.borrow_mut().iter_mut() {
            if route.method == method && route.path == request.path {
                let place = route.served.min(route.answers.len() - 1);
                route.served += 1;
                if route.drop_after.is_some_and(|n| route.served > n) {
                    return Attempt::Broken("connection reset by peer".to_string());
                }
                let (status, body) = route.answers[place].clone();
                return Attempt::Answered { status, body };
            }
        }
        Attempt::Answered {
            status: 404,
            body: format!("no route for {method} {}", request.path),
        }
    }

    fn answer(&self, request: &Request, pause: u128) -> Result<Json, RemoteError> {
        classify(&self.attempt(request, pause), &request.entity)
    }
}

fn admin() -> AdminClient {
    AdminClient::new(HttpClient::new(
        "https://example.invalid",
        Token::new("t"),
        RetryPolicy::none(),
    ))
}

/// Sets a project up against a mirror, to the end.
fn init(
    server: &MockServer,
    vocab: &WorkspaceVocabulary,
    opts: InitOptions,
) -> Result<InitReport, RemoteError> {
    let mut replies: Vec<Result<Json, RemoteError>> = Vec::new();
    loop {
        match run(&config(), &admin(), vocab, opts, &replies).outcome {
            Ok(report) => return Ok(report),
            Err(Stop::Fail(err)) => return Err(err),
            Err(Stop::Ask { request, pause }) => replies.push(server.answer(&request, pause)),
        }
    }
}

fn vocab(types: &[&str], statuses: &[&str]) -> WorkspaceVocabulary {
    let owned = |names: &[&str]| names.iter().map(|s| s.to_string()).collect::<Vec<_>>();
    WorkspaceVocabulary::of(&owned(types), &owned(statuses))
}

#[test]
fn a_workspace_using_only_mapped_values_passes_preflight() {
    let result = preflight_vocabulary(
        &config(),
        &vocab(&["task", "bug", "epic"], &["open", "closed"]),
    );
    assert!(result.is_ok(), "{result:?}");
}

#[test]
fn an_unmapped_type_fails_preflight_naming_the_config_key() {
    let err = preflight_vocabulary(&config(), &vocab(&["task", "spike"], &["open"]))
        .expect_err("must fail");
    let msg = err.to_string();
    assert!(msg.contains("spike"), "must name the value: {msg}");
    assert!(
        msg.contains("type_map"),
        "must name the config key to add: {msg}"
    );
}

#[test]
fn an_unmapped_status_fails_preflight() {
    let err = preflight_vocabulary(&config(), &vocab(&["task"], &["open", "on_hold"]))
        .expect_err("must fail");
    assert!(err.to_string().contains("on_hold"), "{err:?}");
}

#[test]
fn tombstone_is_not_treated_as_an_unmapped_status() {
    let result = preflight_vocabulary(&config(), &vocab(&["task"], &["open", "tombstone"]));
    assert!(
        result.is_ok(),
        "tombstone must not trip the pre-flight: {result:?}"
    );
}

/// The fields of the mirror.
fn prototypes_route(server: &MockServer, body: &str) {
    let path = "/api/admin/customFieldSettings/customFields?fields=id,name,fieldType(id)";
    server.on("GET", &format!("{path}&$skip=0&$top=500"), 200, body);
}

fn provisioned_server() -> MockServer {
    let server = MockServer::start();
    server.on(
        "GET",
        "/api/admin/projects?fields=id,name,shortName&$skip=0&$top=500",
        200,
        r#"[{"id":"0-1","name":"EasyMoney","shortName":"EM"}]"#,
    );
    prototypes_route(
        &server,
        &json(r##"[
        {"id":"161-11","name":"Beads ID","fieldType":{"id":"string"}},
        {"id":"161-12","name":"Design","fieldType":{"id":"text"}},
        {"id":"161-13","name":"Acceptance Criteria","fieldType":{"id":"text"}},
        {"id":"161-14","name":"Notes","fieldType":{"id":"text"}},
        {"id":"161-15","name":"Close Reason","fieldType":{"id":"text"}}
    ]"##)
        .to_string(),
    );
    server.on(
        "GET",
        "/api/admin/projects/0-1/customFields?fields=id,field(name),defaultValues(name)&$top=200",
        200,
        &json(r##"[
        {"id":"189-8","field":{"name":"Type"},"defaultValues":[{"name":"Task"}]},
        {"id":"189-9","field":{"name":"State"},"defaultValues":[{"name":"Open"}]},
        {"id":"189-10","field":{"name":"Priority"},"defaultValues":[{"name":"Major"}]},
        {"id":"189-30","field":{"name":"Beads ID"},"defaultValues":[]},
        {"id":"189-31","field":{"name":"Design"},"defaultValues":[]},
        {"id":"189-32","field":{"name":"Acceptance Criteria"},"defaultValues":[]},
        {"id":"189-33","field":{"name":"Notes"},"defaultValues":[]},
        {"id":"189-34","field":{"name":"Close Reason"},"defaultValues":[]}
    ]"##)
        .to_string(),
    );
    server.on(
        "GET",
        "/api/admin/customFieldSettings/customFields?fields=id,name,instances(id,project(shortName),bundle(id,name))&$skip=0&$top=500",
        200,
        &json(r##"[
        {"id":"161-1","name":"Type","instances":[
            {"id":"189-8","project":{"shortName":"EM"},"bundle":{"id":"163-1","name":"Types"}}]},
        {"id":"161-2","name":"State","instances":[
            {"id":"189-9","project":{"shortName":"EM"},"bundle":{"id":"165-0","name":"States"}}]},
        {"id":"161-3","name":"Priority","instances":[
            {"id":"189-10","project":{"shortName":"EM"},"bundle":{"id":"167-0","name":"Priorities"}}]}
    ]"##)
        .to_string(),
    );
    server
}

fn bundle_fields_route(server: &MockServer, body: &str) {
    server.on(
        "GET",
        "/api/admin/projects/0-1/customFields?fields=id,$type,canBeEmpty,field(id,name),bundle(id,name,$type,values(id,name,ordinal,color(id,background,foreground),isResolved))&$skip=0&$top=100",
        200,
        body,
    );
}

fn complete_bundles() -> String {
    let enum_values = |names: &[&str]| {
        let values: Vec<String> = names
            .iter()
            .enumerate()
            .map(|(i, name)| format!(r#"{{"id":"164-{i}","name":"{name}","ordinal":{i}}}"#))
            .collect();
        values.join(",")
    };
    let state_values = |names: &[(&str, bool)]| {
        let values: Vec<String> = names
            .iter()
            .enumerate()
            .map(|(i, (name, resolved))| {
                format!(
                    r#"{{"id":"166-{i}","name":"{name}","ordinal":{i},"isResolved":{resolved}}}"#
                )
            })
            .collect();
        values.join(",")
    };
    let types = enum_values(&[
        "Task", "Bug", "Feature", "Epic", "Chore", "Docs", "Question",
    ]);
    let states = state_values(&[
        ("Open", false),
        ("In Progress", false),
        ("Blocked", false),
        ("Deferred", false),
        ("Draft", false),
        ("Pinned", false),
        ("Fixed", true),
        ("Won't fix", true),
    ]);
    let priorities = enum_values(&["Show-stopper", "Critical", "Major", "Normal", "Minor"]);
    format!(
        r#"[{{"id":"189-8","field":{{"id":"161-1","name":"Type"}},
             "bundle":{{"id":"163-1","name":"Types","$type":"EnumBundle","values":[{types}]}}}},
            {{"id":"189-9","field":{{"id":"161-2","name":"State"}},
             "bundle":{{"id":"165-0","name":"States","$type":"StateBundle","values":[{states}]}}}},
            {{"id":"189-10","field":{{"id":"161-3","name":"Priority"}},
             "bundle":{{"id":"167-0","name":"Priorities","$type":"EnumBundle","values":[{priorities}]}}}}]"#
    )
}

#[test]
fn a_fully_provisioned_project_issues_no_write_at_all() {
    let server = provisioned_server();
    bundle_fields_route(&server, &complete_bundles());

    let report = init(&server, &vocab(&["task"], &["open"]), InitOptions::default())
    .expect("init");

    assert!(
        server.write_requests().is_empty(),
        "a reconciled project must issue zero writes, got {:?}",
        server.write_requests()
    );
    assert!(report.prototypes_created.is_empty());
    assert!(report.fields_attached.is_empty());
    assert!(report.values_added.is_empty());
    assert!(report.defaults_changed.is_empty());
    assert_eq!(report.projects_seen, ["EM"]);
}

#[test]
fn the_reference_project_needs_exactly_seven_value_posts() {
    let server = provisioned_server();
    bundle_fields_route(
        &server,
        &json(r##"[
        {"id":"189-8","field":{"id":"161-1","name":"Type"},
         "bundle":{"id":"163-1","name":"Types","$type":"EnumBundle","values":[
            {"id":"164-0","name":"Bug","ordinal":0},
            {"id":"164-1","name":"Cosmetics","ordinal":1},
            {"id":"164-2","name":"Exception","ordinal":2},
            {"id":"164-3","name":"Feature","ordinal":3},
            {"id":"164-4","name":"Task","ordinal":4},
            {"id":"164-5","name":"Usability Problem","ordinal":5},
            {"id":"164-6","name":"Performance Problem","ordinal":6},
            {"id":"164-7","name":"Epic","ordinal":7}]}},
        {"id":"189-9","field":{"id":"161-2","name":"State"},
         "bundle":{"id":"165-0","name":"States","$type":"StateBundle","values":[
            {"id":"166-0","name":"Submitted","ordinal":0,"isResolved":false},
            {"id":"166-1","name":"Open","ordinal":1,"isResolved":false},
            {"id":"166-2","name":"In Progress","ordinal":2,"isResolved":false},
            {"id":"166-3","name":"Fixed","ordinal":3,"isResolved":true},
            {"id":"166-4","name":"Won't fix","ordinal":4,"isResolved":true}]}},
        {"id":"189-10","field":{"id":"161-3","name":"Priority"},
         "bundle":{"id":"167-0","name":"Priorities","$type":"EnumBundle","values":[
            {"id":"168-0","name":"Show-stopper","ordinal":0},
            {"id":"168-1","name":"Critical","ordinal":1},
            {"id":"168-2","name":"Major","ordinal":2},
            {"id":"168-3","name":"Normal","ordinal":3},
            {"id":"168-4","name":"Minor","ordinal":4}]}}
    ]"##)
        .to_string(),
    );
    server.on(
        "POST",
        "/api/admin/customFieldSettings/bundles/enum/163-1/values?fields=id,name",
        200,
        r#"{"id":"164-20","name":"Chore"}"#,
    );
    server.on(
        "POST",
        "/api/admin/customFieldSettings/bundles/state/165-0/values?fields=id,name",
        200,
        r#"{"id":"166-20","name":"Blocked"}"#,
    );

    let report = init(&server, &vocab(&["task"], &["open"]), InitOptions::default())
    .expect("init");

    let posts = server.write_requests();
    assert_eq!(
        posts.len(),
        7,
        "three types and four states, nothing else: {posts:?}"
    );
    let added: Vec<&str> = report
        .values_added
        .iter()
        .flat_map(|added| added.values.iter().map(String::as_str))
        .collect();
    assert_eq!(
        added,
        [
            "Chore", "Docs", "Question", "Blocked", "Deferred", "Draft", "Pinned"
        ]
    );
    assert!(
        report.defaults_changed.is_empty(),
        "the defaults already match: {:?}",
        report.defaults_changed
    );
}

#[test]
fn a_shared_bundle_on_a_populated_project_refuses_with_both_ways_forward() {
    let server = provisioned_server();
    server.on(
        "GET",
        "/api/admin/customFieldSettings/customFields?fields=id,name,instances(id,project(shortName),bundle(id,name))&$skip=0&$top=500",
        200,
        &json(r##"[
        {"id":"161-1","name":"Type","instances":[
            {"id":"189-8","project":{"shortName":"EM"},"bundle":{"id":"163-1","name":"Types"}},
            {"id":"189-80","project":{"shortName":"OTHER"},"bundle":{"id":"163-1","name":"Types"}}]}
    ]"##)
        .to_string(),
    );
    bundle_fields_route(
        &server,
        &json(r##"[
        {"id":"189-8","field":{"id":"161-1","name":"Type"},
         "bundle":{"id":"163-1","name":"Types","$type":"EnumBundle","values":[
            {"id":"164-0","name":"Task","ordinal":0}]}}
    ]"##)
        .to_string(),
    );
    server.on(
        "POST",
        "/api/issuesGetter/count?fields=count",
        200,
        r#"{"count":17,"$type":"IssueCountResponse"}"#,
    );

    let err = init(&server, &vocab(&["task"], &["open"]), InitOptions::default())
    .expect_err("must refuse");
    let msg = err.to_string();
    assert!(msg.contains("OTHER"), "must name the other user: {msg}");
    assert!(
        msg.contains("17"),
        "must say how many issues block it: {msg}"
    );
    assert!(
        msg.contains("--allow-shared-bundle"),
        "must name the flag that overrides it: {msg}"
    );
    assert!(
        server
            .write_requests()
            .iter()
            .all(|r| r.path.starts_with("/api/issuesGetter/count")),
        "the only write-method request may be the count probe: {:?}",
        server.write_requests()
    );
}

const BUNDLE_LIST_PATH: &str =
    "/api/admin/customFieldSettings/bundles/enum?fields=id,name,values(id,name)&$skip=0&$top=500";

fn shared_but_empty_server() -> MockServer {
    let server = provisioned_server();
    server.on(
        "GET",
        "/api/admin/customFieldSettings/customFields?fields=id,name,instances(id,project(shortName),bundle(id,name))&$skip=0&$top=500",
        200,
        &json(r##"[
        {"id":"161-1","name":"Type","instances":[
            {"id":"189-8","project":{"shortName":"EM"},"bundle":{"id":"163-1","name":"Types"}},
            {"id":"189-80","project":{"shortName":"OTHER"},"bundle":{"id":"163-1","name":"Types"}}]}
    ]"##)
        .to_string(),
    );
    bundle_fields_route(
        &server,
        &json(r##"[
        {"id":"189-8","field":{"id":"161-1","name":"Type"},
         "bundle":{"id":"163-1","name":"Types","$type":"EnumBundle","values":[
            {"id":"164-0","name":"Task","ordinal":0},
            {"id":"164-1","name":"Bug","ordinal":1},
            {"id":"164-2","name":"Feature","ordinal":2},
            {"id":"164-3","name":"Epic","ordinal":3},
            {"id":"164-4","name":"Chore","ordinal":4},
            {"id":"164-5","name":"Docs","ordinal":5}]}}
    ]"##)
        .to_string(),
    );
    server.on(
        "POST",
        "/api/issuesGetter/count?fields=count",
        200,
        COUNT_SETTLED,
    );
    server.on("GET", BUNDLE_LIST_PATH, 200, "[]");
    server.on(
        "POST",
        "/api/admin/customFieldSettings/bundles/enum?fields=id,name",
        200,
        r#"{"id":"163-9","name":"EasyMoney: Types"}"#,
    );
    server.on(
        "POST",
        "/api/admin/projects/0-1/customFields/189-8?fields=id,bundle(id,name)",
        200,
        r#"{"id":"189-8"}"#,
    );
    server.on(
        "GET",
        "/api/admin/customFieldSettings/bundles/enum/163-9?fields=id,name,values(id,name,ordinal,color(id,background,foreground),isResolved)",
        200,
        &json(r##"{"id":"163-9","name":"EasyMoney: Types","values":[
        {"id":"170-0","name":"Task","ordinal":0},
        {"id":"170-1","name":"Bug","ordinal":1},
        {"id":"170-2","name":"Feature","ordinal":2},
        {"id":"170-3","name":"Epic","ordinal":3},
        {"id":"170-4","name":"Chore","ordinal":4},
        {"id":"170-5","name":"Docs","ordinal":5},
        {"id":"170-6","name":"Question","ordinal":6}]}"##)
        .to_string(),
    );
    server.on(
        "POST",
        "/api/admin/customFieldSettings/bundles/enum/163-9/values?fields=id,name",
        200,
        r#"{"id":"170-6","name":"Question"}"#,
    );
    server.on(
        "POST",
        "/api/admin/projects/0-1/customFields/189-8?fields=field(name),defaultValues(id,name)",
        200,
        r#"{"defaultValues":[]}"#,
    );
    server
}

#[test]
fn a_shared_bundle_on_an_empty_project_is_cloned_re_pointed_and_filled() {
    let server = shared_but_empty_server();

    let report = init(&server, &vocab(&["task"], &["open"]), InitOptions::default())
    .expect("init");

    assert_eq!(
        report.clones,
        [BundleClone {
            field_name: "Type".into(),
            source: "Types".into(),
            clone: "EasyMoney: Types".into(),
        }],
        "a shared bundle is copied, never mutated"
    );
    let writes = server.write_requests();
    let paths: Vec<&str> = writes
        .iter()
        .map(|r| {
            let p = r.path.as_str();
            p.split_once('?').map_or(p, |(head, _)| head)
        })
        .collect();
    assert_eq!(
        paths,
        [
            "/api/issuesGetter/count",
            "/api/admin/customFieldSettings/bundles/enum",
            "/api/admin/projects/0-1/customFields/189-8",
            "/api/admin/customFieldSettings/bundles/enum/163-9/values",
            "/api/admin/projects/0-1/customFields/189-8",
        ],
        "count, clone, re-point, fill, restore the defaults — in that order"
    );
}

fn orphan_clone(extra: &[&str]) -> String {
    let mut values: Vec<String> = ["Task", "Bug", "Feature", "Epic", "Chore", "Docs"]
        .iter()
        .enumerate()
        .map(|(i, name)| format!(r#"{{"id":"170-{i}","name":"{name}"}}"#))
        .collect();
    for (i, name) in extra.iter().enumerate() {
        values.push(format!(r#"{{"id":"170-{}","name":"{name}"}}"#, 10 + i));
    }
    format!(
        r#"[{{"id":"163-9","name":"EasyMoney: Types","values":[{}]}}]"#,
        values.join(",")
    )
}

#[test]
fn a_rerun_after_an_interrupted_clone_adopts_it_instead_of_leaking_a_second() {
    let server = shared_but_empty_server();
    server.on("GET", BUNDLE_LIST_PATH, 200, &orphan_clone(&[]));

    let report = init(&server, &vocab(&["task"], &["open"]), InitOptions::default())
    .expect("init");

    let writes = server.write_requests();
    assert!(
        !writes
            .iter()
            .any(|r| r.path == "/api/admin/customFieldSettings/bundles/enum?fields=id,name"),
        "the orphan must be adopted, not duplicated: {writes:?}"
    );
    assert_eq!(
        report.clones,
        [BundleClone {
            field_name: "Type".into(),
            source: "Types".into(),
            clone: "EasyMoney: Types".into(),
        }]
    );
    assert!(
        report.notes.iter().any(|n| n.contains("adopted")),
        "the operator must be told which bundle was reused: {:?}",
        report.notes
    );
    assert_eq!(
        report.values_added,
        [ValuesAdded {
            field_name: "Type".into(),
            values: vec!["Question".into()],
        }]
    );
}

#[test]
fn a_rerun_after_an_interruption_partway_through_the_fill_adds_only_the_remainder() {
    let server = shared_but_empty_server();
    server.on("GET", BUNDLE_LIST_PATH, 200, &orphan_clone(&["Question"]));

    let report = init(&server, &vocab(&["task"], &["open"]), InitOptions::default())
    .expect("init");

    let writes = server.write_requests();
    assert!(
        !writes
            .iter()
            .any(|r| r.path.contains("/bundles/enum/163-9/values")),
        "a value already present must never be re-added: {writes:?}"
    );
    assert_eq!(
        report.values_added,
        [ValuesAdded {
            field_name: "Type".into(),
            values: Vec::new(),
        }]
    );
}

#[test]
fn a_same_named_bundle_that_is_already_in_use_refuses_rather_than_duplicating() {
    let server = shared_but_empty_server();
    server.on("GET", BUNDLE_LIST_PATH, 200, &orphan_clone(&[]));
    server.on(
        "GET",
        "/api/admin/customFieldSettings/customFields?fields=id,name,instances(id,project(shortName),bundle(id,name))&$skip=0&$top=500",
        200,
        &json(r##"[
        {"id":"161-1","name":"Type","instances":[
            {"id":"189-8","project":{"shortName":"EM"},"bundle":{"id":"163-1","name":"Types"}},
            {"id":"189-80","project":{"shortName":"OTHER"},"bundle":{"id":"163-1","name":"Types"}},
            {"id":"189-81","project":{"shortName":"OTHER"},"bundle":{"id":"163-9","name":"EasyMoney: Types"}}]}
    ]"##)
        .to_string(),
    );

    let err = init(&server, &vocab(&["task"], &["open"]), InitOptions::default())
    .expect_err("must refuse");
    let msg = err.to_string();
    assert!(
        msg.contains("EasyMoney: Types"),
        "must name the bundle: {msg}"
    );
    assert!(
        msg.contains("already uses it"),
        "must say why it was not adopted: {msg}"
    );
    assert!(
        !server
            .write_requests()
            .iter()
            .any(|r| r.path == "/api/admin/customFieldSettings/bundles/enum?fields=id,name"),
        "and must not create a second one anyway"
    );
}

#[test]
fn a_same_named_bundle_holding_foreign_values_refuses() {
    let server = shared_but_empty_server();
    server.on("GET", BUNDLE_LIST_PATH, 200, &orphan_clone(&["Spike"]));

    let err = init(&server, &vocab(&["task"], &["open"]), InitOptions::default())
    .expect_err("must refuse");
    let msg = err.to_string();
    assert!(
        msg.contains("values neither the source nor this run"),
        "a bundle someone else built is not ours to take over: {msg}"
    );
}

#[test]
fn two_bundles_with_the_clone_name_refuse_rather_than_guessing() {
    let server = shared_but_empty_server();
    server.on(
        "GET",
        BUNDLE_LIST_PATH,
        200,
        &json(r##"[
        {"id":"163-9","name":"EasyMoney: Types","values":[]},
        {"id":"163-10","name":"EasyMoney: Types","values":[]}
    ]"##)
        .to_string(),
    );

    let err = init(&server, &vocab(&["task"], &["open"]), InitOptions::default())
    .expect_err("must refuse");
    assert!(err.to_string().contains("2 bundles"), "{err:?}");
}

#[test]
fn an_unavailable_scan_refuses_rather_than_writing() {
    let server = provisioned_server();
    server.on(
        "GET",
        "/api/admin/customFieldSettings/customFields?fields=id,name,instances(id,project(shortName),bundle(id,name))&$skip=0&$top=500",
        403,
        r#"{"error":"Forbidden"}"#,
    );
    bundle_fields_route(
        &server,
        &json(r##"[
        {"id":"189-8","field":{"id":"161-1","name":"Type"},
         "bundle":{"id":"163-1","name":"Types","$type":"EnumBundle","values":[
            {"id":"164-0","name":"Task","ordinal":0}]}}
    ]"##)
        .to_string(),
    );

    let err = init(&server, &vocab(&["task"], &["open"]), InitOptions::default())
    .expect_err("must refuse");
    let msg = err.to_string();
    assert!(msg.contains("--allow-shared-bundle"), "{msg}");
    assert!(
        msg.contains("Grant the token read access"),
        "a scan the token could not complete IS fixed by widening it: {msg}"
    );
    assert!(
        server.write_requests().is_empty(),
        "{:?}",
        server.write_requests()
    );
}

#[test]
fn a_bundle_absent_from_a_successful_scan_refuses_with_a_different_remedy() {
    let server = provisioned_server();
    server.on(
        "GET",
        "/api/admin/customFieldSettings/customFields?fields=id,name,instances(id,project(shortName),bundle(id,name))&$skip=0&$top=500",
        200,
        &json(r##"[
        {"id":"161-2","name":"State","instances":[
            {"id":"189-9","project":{"shortName":"EM"},"bundle":{"id":"165-0","name":"States"}}]}
    ]"##)
        .to_string(),
    );
    bundle_fields_route(
        &server,
        &json(r##"[
        {"id":"189-8","field":{"id":"161-1","name":"Type"},
         "bundle":{"id":"163-1","name":"Types","$type":"EnumBundle","values":[
            {"id":"164-0","name":"Task","ordinal":0}]}}
    ]"##)
        .to_string(),
    );

    let err = init(&server, &vocab(&["task"], &["open"]), InitOptions::default())
    .expect_err("must refuse");
    let msg = err.to_string();
    assert!(
        msg.contains("The scan completed"),
        "must say the scan succeeded: {msg}"
    );
    assert!(
        !msg.contains("Grant the token read access"),
        "must not advise a remedy that cannot apply here: {msg}"
    );
    assert!(
        msg.contains("Widening the token's access will not change this"),
        "must say plainly why the other remedy is not it: {msg}"
    );
    assert!(msg.contains("--allow-shared-bundle"), "{msg}");
    assert!(
        server.write_requests().is_empty(),
        "{:?}",
        server.write_requests()
    );
}

#[test]
fn allowing_a_shared_bundle_announces_before_it_writes() {
    let server = shared_but_empty_server();
    server.on(
        "POST",
        "/api/admin/customFieldSettings/bundles/enum/163-1/values?fields=id,name",
        200,
        r#"{"id":"164-20","name":"Question"}"#,
    );

    let report = init(&server, &vocab(&["task"], &["open"]), InitOptions {
            allow_shared_bundle: true,
            ..InitOptions::default()
        })
    .expect("init");

    let note = report
        .notes
        .iter()
        .find(|n| n.contains("--allow-shared-bundle"))
        .expect("the override must be disclosed");
    assert!(note.contains("OTHER"), "must name who else sees it: {note}");
    assert!(
        note.contains("'Question'"),
        "must name what they will see: {note}"
    );
    assert!(report.clones.is_empty(), "{:?}", report.clones);
    assert!(
        server
            .write_requests()
            .iter()
            .any(|r| r.path.contains("/bundles/enum/163-1/values")),
        "{:?}",
        server.write_requests()
    );
}

#[test]
fn the_defaults_are_realigned_from_the_stock_ones() {
    let server = provisioned_server();
    server.on(
        "GET",
        "/api/admin/projects/0-1/customFields?fields=id,field(name),defaultValues(name)&$top=200",
        200,
        &json(r##"[
        {"id":"189-8","field":{"name":"Type"},"defaultValues":[{"name":"Bug"}]},
        {"id":"189-9","field":{"name":"State"},"defaultValues":[{"name":"Submitted"}]},
        {"id":"189-10","field":{"name":"Priority"},"defaultValues":[{"name":"Normal"}]},
        {"id":"189-30","field":{"name":"Beads ID"},"defaultValues":[]},
        {"id":"189-31","field":{"name":"Design"},"defaultValues":[]},
        {"id":"189-32","field":{"name":"Acceptance Criteria"},"defaultValues":[]},
        {"id":"189-33","field":{"name":"Notes"},"defaultValues":[]},
        {"id":"189-34","field":{"name":"Close Reason"},"defaultValues":[]}
    ]"##)
        .to_string(),
    );
    bundle_fields_route(&server, &complete_bundles());
    for instance in ["189-8", "189-9", "189-10"] {
        server.on(
            "POST",
            &format!(
                "/api/admin/projects/0-1/customFields/{instance}?fields=field(name),defaultValues(id,name)"
            ),
            200,
            r#"{"defaultValues":[]}"#,
        );
    }

    let report = init(&server, &vocab(&["task"], &["open"]), InitOptions::default())
    .expect("init");

    let changes: Vec<(&str, &str, &str)> = report
        .defaults_changed
        .iter()
        .map(|c| (c.field_name.as_str(), c.old[0].as_str(), c.new.as_str()))
        .collect();
    assert_eq!(
        changes,
        [
            ("Type", "Bug", "Task"),
            ("State", "Submitted", "Open"),
            ("Priority", "Normal", "Major"),
        ],
        "stock YouTrack adopts a deferred bug at P3; beads adopts an open task at P2"
    );
    assert_eq!(server.write_requests().len(), 3, "one POST per field");
    for request in server.write_requests() {
        let body: serde_json::Value = serde_json::from_str(&request.body).expect("json body");
        let defaults = body["defaultValues"].as_array().expect("array");
        assert!(
            defaults[0].get("name").is_none() && defaults[0].get("id").is_some(),
            "defaults must go out by element id, never by name: {}",
            request.body
        );
    }
}

#[test]
fn keep_project_defaults_skips_the_alignment_entirely() {
    let server = provisioned_server();
    server.on(
        "GET",
        "/api/admin/projects/0-1/customFields?fields=id,field(name),defaultValues(name)&$top=200",
        200,
        &json(r##"[
        {"id":"189-8","field":{"name":"Type"},"defaultValues":[{"name":"Bug"}]},
        {"id":"189-9","field":{"name":"State"},"defaultValues":[{"name":"Submitted"}]},
        {"id":"189-10","field":{"name":"Priority"},"defaultValues":[{"name":"Normal"}]},
        {"id":"189-30","field":{"name":"Beads ID"},"defaultValues":[]},
        {"id":"189-31","field":{"name":"Design"},"defaultValues":[]},
        {"id":"189-32","field":{"name":"Acceptance Criteria"},"defaultValues":[]},
        {"id":"189-33","field":{"name":"Notes"},"defaultValues":[]},
        {"id":"189-34","field":{"name":"Close Reason"},"defaultValues":[]}
    ]"##)
        .to_string(),
    );
    bundle_fields_route(&server, &complete_bundles());

    let report = init(&server, &vocab(&["task"], &["open"]), InitOptions {
            keep_project_defaults: true,
            ..InitOptions::default()
        })
    .expect("init");

    assert!(report.defaults_changed.is_empty());
    assert!(
        server.write_requests().is_empty(),
        "{:?}",
        server.write_requests()
    );
}

#[test]
fn a_dry_run_writes_nothing_but_still_reports_the_plan() {
    let server = provisioned_server();
    prototypes_route(&server, "[]");
    server.on(
        "GET",
        "/api/admin/projects/0-1/customFields?fields=id,field(name),defaultValues(name)&$top=200",
        200,
        &json(r##"[
        {"id":"189-8","field":{"name":"Type"},"defaultValues":[{"name":"Bug"}]},
        {"id":"189-9","field":{"name":"State"},"defaultValues":[{"name":"Open"}]},
        {"id":"189-10","field":{"name":"Priority"},"defaultValues":[{"name":"Major"}]}
    ]"##)
        .to_string(),
    );
    bundle_fields_route(&server, &complete_bundles());

    let report = init(&server, &vocab(&["task"], &["open"]), InitOptions {
            dry_run: true,
            ..InitOptions::default()
        })
    .expect("init");

    assert!(
        server.write_requests().is_empty(),
        "{:?}",
        server.write_requests()
    );
    assert_eq!(report.prototypes_created.len(), 5);
    assert_eq!(report.fields_attached.len(), 5);
    assert_eq!(
        report.defaults_changed.len(),
        1,
        "only Type differs from the beads default"
    );
}

fn priorities() -> BundleRef {
    BundleRef {
        id: "b-1".to_string(),
        name: "Priorities".to_string(),
        kind: BundleKind::Enum,
        values: vec![],
    }
}

fn noted() -> InitReport {
    let mut report = InitReport::default();
    report.notes.push("said before".to_string());
    report
}

#[test]
fn a_refused_copy_leaves_the_report_as_it_was() {
    let admin = AdminClient::new(HttpClient::new(
        "https://example.invalid",
        Token::new("t"),
        RetryPolicy::none(),
    ));
    let project = ProjectRef {
        id: "0-1".to_string(),
        short_name: "EM".to_string(),
        name: "Mirror".to_string(),
    };
    let usage = BundleUsage::unavailable_from(RemoteError::Transport("no scan".to_string()));
    let (summaries, fields) = (vec![], vec![]);
    let facts = InitFacts {
        admin: &admin,
        project: &project,
        usage: &usage,
        summaries: &summaries,
        fields: &fields,
        opts: InitOptions {
            allow_shared_bundle: false,
            keep_project_defaults: false,
            dry_run: false,
        },
    };
    let field = ProjectFieldBundle {
        instance_id: "92-1".to_string(),
        field_id: "58-1".to_string(),
        field_name: "Priority".to_string(),
        bundle: priorities(),
    };
    let missing = vec![PendingValue {
        name: "Minor".to_string(),
        is_resolved: None,
    }];
    let others = vec!["Priority@OTHER".to_string(), "Urgency@THIRD".to_string()];

    let count = |n: i128| Ok(Json::Object(vec![("count".to_string(), Json::Int(n))]));
    for (replies, words) in [
        (
            vec![count(7)],
            vec!["--allow-shared-bundle", "7", "Priority@OTHER", "Urgency@THIRD"],
        ),
        (vec![count(-1); 6], vec!["--allow-shared-bundle", "never settled"]),
    ] {
        let mut report = noted();
        let mut talk = Talk::open(&replies);
        let outcome = reconcile_shared(&facts, &mut talk, &field, &missing, &others, &mut report);
        match outcome {
            Err(Stop::Fail(RemoteError::Config(message))) => {
                for word in words {
                    assert!(message.contains(word), "must name {word}: {message}");
                }
            }
            other => panic!("must be refused: {other:?}"),
        }
        assert_eq!(report, noted());
    }

    let replies = vec![count(0)];
    let mut report = noted();
    let mut talk = Talk::open(&replies);
    let outcome = reconcile_shared(&facts, &mut talk, &field, &missing, &others, &mut report);
    assert!(matches!(outcome, Err(Stop::Ask { .. })), "goes on to the copy");
    assert_eq!(report.clones.len(), 1);
}

#[test]
fn a_default_that_cannot_be_set_is_in_the_report() {
    let admin = AdminClient::new(HttpClient::new(
        "https://example.invalid",
        Token::new("t"),
        RetryPolicy::none(),
    ));
    let project = ProjectRef {
        id: "0-1".to_string(),
        short_name: "EM".to_string(),
        name: "Mirror".to_string(),
    };
    let usage = BundleUsage::unavailable_from(RemoteError::Transport("no scan".to_string()));
    let summaries = vec![ProjectFieldSummary {
        instance_id: "92-1".to_string(),
        field_name: "Priority".to_string(),
        default_values: vec!["Normal".to_string()],
    }];
    let fields = vec![];
    let facts = InitFacts {
        admin: &admin,
        project: &project,
        usage: &usage,
        summaries: &summaries,
        fields: &fields,
        opts: InitOptions {
            allow_shared_bundle: false,
            keep_project_defaults: false,
            dry_run: false,
        },
    };
    let settled = vec![SettledBundle {
        field_name: "Priority".to_string(),
        bundle: priorities(),
    }];
    let refused = RemoteError::Http {
        status: 403,
        body: "no".to_string(),
    };
    let replies = vec![Err(refused.clone())];
    let mut report = noted();
    let mut talk = Talk::open(&replies);
    let outcome = align_defaults(&config(), &facts, &settled, &mut talk, &mut report);
    assert_eq!(outcome, Err(Stop::Fail(refused)));
    let mut expected = noted();
    expected.defaults_changed.push(DefaultChange {
        field_name: "Priority".to_string(),
        old: vec!["Normal".to_string()],
        new: "Major".to_string(),
    });
    assert_eq!(report, expected);
}

#[test]
fn a_prototype_on_the_second_page_is_not_missing() {
    let admin = AdminClient::new(HttpClient::new(
        "https://example.invalid",
        Token::new("t"),
        RetryPolicy::none(),
    ));
    let named = |name: &str| {
        Json::Object(vec![(
            "name".to_string(),
            Json::Text(name.to_string()),
        )])
    };
    let full: Vec<Json> = (0..500).map(|n| named(&format!("Field {n}"))).collect();
    let replies = vec![
        Ok(Json::Array(full)),
        Ok(Json::Array(vec![named("Design"), named("Beads ID")])),
    ];
    let mut talk = Talk::open(&replies);
    assert_eq!(
        admin.missing_field_prototypes(&mut talk),
        Ok(vec![
            "Acceptance Criteria".to_string(),
            "Notes".to_string(),
            "Close Reason".to_string(),
        ])
    );
}

#[test]
fn an_empty_workspace_has_no_vocabulary() {
    assert_eq!(WorkspaceVocabulary::default(), vocab(&[], &[]));
    assert!(preflight_vocabulary(&config(), &WorkspaceVocabulary::default()).is_ok());
}
