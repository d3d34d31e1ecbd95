//! Reading issues, links and tags of the mirror, and writing them.

use beads::json::{read_json, Json};
use beads::model::IssueType;
use beads::remote::config::RemoteConfig;
use beads::remote::error::RemoteError;
use beads::remote::http::{classify, Attempt, Method, Request};
use beads::remote::model::{RemoteIssue, RemoteSnapshot};
use beads::remote::talk::{Stop, Talk};
use beads::remote::youtrack::fetch::{
    fetch_all_issues, fetch_snapshot, ISSUE_FIELDS, SORT_CLAUSE,
};
use beads::remote::youtrack::links::{
    link_add, link_remove, parse_links, Direction, LinkKind, LinkTypes,
};
use beads::remote::youtrack::tags::{labels_from_tags, tags_body, TagCache};
use std::cell::RefCell;

const MUST_BE_UNIQUE: &str = r#"{"error":"must-be-unique","error_field":"name","error_description":"An entity with this name already exists."}"#;

const LINK_DELETE_NOT_FOUND: &str =
    r#"{"error":"Not Found","error_description":"Entity with id EM-5 not found"}"#;

fn json(text: &str) -> serde_json::Value {
    serde_json::from_str(text).expect("valid JSON")
}

fn value(j: &Json) -> serde_json::Value {
    match j {
        Json::Null => serde_json::Value::Null,
        Json::Bool(b) => serde_json::Value::Bool(*b),
        Json::Int(n) => serde_json::Value::from(*n as i64),
        Json::Decimal(text) => serde_json::from_str(text).expect("a number"),
        Json::Text(text) => serde_json::Value::String(text.clone()),
        Json::Array(items) => serde_json::Value::Array(items.iter().map(value).collect()),
        Json::Object(items) => {
            let mut map = serde_json::Map::new();
            for (key, item) in items {
                map.insert(key.clone(), value(item));
            }
            serde_json::Value::Object(map)
        }
    }
}

fn entries(pairs: &[(&str, &str)]) -> indexmap::IndexMap<String, String> {
    pairs
        .iter()
        .map(|(key, value)| (key.to_string(), value.to_string()))
        .collect()
}

fn config() -> RemoteConfig {
    RemoteConfig {
        backend: "youtrack".to_string(),
        url: "https://example.youtrack.cloud".to_string(),
        project: "EM".to_string(),
        status_map: entries(&[
            ("open", "Open"),
            ("in_progress", "In Progress"),
            ("blocked", "Blocked"),
            ("deferred", "Deferred"),
            ("draft", "Draft"),
            ("pinned", "Pinned"),
            ("closed", "Fixed"),
        ]),
        type_map: entries(&[
            ("task", "Task"),
            ("bug", "Bug"),
            ("feature", "Feature"),
            ("epic", "Epic"),
            ("chore", "Chore"),
            ("docs", "Docs"),
            ("question", "Question"),
        ]),
        priority_map: entries(&[
            ("0", "Show-stopper"),
            ("1", "Critical"),
            ("2", "Major"),
            ("3", "Normal"),
            ("4", "Minor"),
        ]),
        deleted_state: "Won't fix".to_string(),
        page_size: 100,
    }
}

/// What was asked of a mirror.
#[derive(Debug, Clone)]
#[allow(dead_code)]
struct Asked {
    method: Method,
    path: String,
    body: String,
    pause: u128,
}

struct Route {
    method: String,
    path: String,
    answers: Vec<(u16, String)>,
    served: usize,
    drop_after: Option<usize>,
}

/// A mirror that answers by method and path.
struct MockServer {
    routes: RefCell<Vec<Route>>,
    asked: RefCell<Vec<Asked>>,
}

#[allow(dead_code)]
impl MockServer {
    fn start() -> MockServer {
        MockServer {
            routes: RefCell::new(Vec::new()),
            asked: RefCell::new(Vec::new()),
        }
    }

    fn on(&self, method: &str, path: &str, status: u16, body: &str) {
        self.on_sequence(method, path, vec![(status, body.to_string())]);
    }

    fn on_sequence(&self, method: &str, path: &str, answers: Vec<(u16, String)>) {
        let mut routes = self.routes.borrow_mut();
        routes.retain(|r| r.method != method || r.path != path);
        routes.push(Route {
            method: method.to_string(),
            path: path.to_string(),
            answers,
            served: 0,
            drop_after: None,
        });
    }

    /// The connection breaks before an answer comes.
    fn on_drop(&self, method: &str, path: &str) {
        self.on_sequence(method, path, vec![(200, String::new())]);
        self.on_drop_after(method, path, 0);
    }

    fn on_drop_after(&self, method: &str, path: &str, count: usize) {
        for route in self.routes.borrow_mut().iter_mut() {
            if route.method == method && route.path == path {
                route.drop_after = Some(count);
            }
        }
    }

    fn requests(&self) -> Vec<Asked> {
        self.asked.borrow().clone()
    }

    fn write_requests(&self) -> Vec<Asked> {
        self.requests()
            .into_iter()
            .filter(|r| r.method != Method::Get)
            .collect()
    }

    fn attempt(&self, request: &Request, pause: u128) -> Attempt {
        let method = match request.method {
            Method::Get => "GET",
            Method::Post => "POST",
            Method::Delete => "DELETE",
        };
        self.asked.borrow_mut().push(Asked {
            method: request.method,
            path: request.path.clone(),
            body: match &request.body {
                Some(body) => value(body).to_string(),
                None => String::new(),
            },
            pause,
        });
        for route in self.routes.borrow_mut().iter_mut() {
            if route.method == method && route.path == request.path {
                let place = route.served.min(route.answers.len() - 1);
                route.served += 1;
                if route.drop_after.is_some_and(|n| route.served > n) {
                    return Attempt::Broken("connection reset by peer".to_string());
                }
                let (status, body) = route.answers[place].clone();
                return Attempt::Answered { status, body };
            }
        }
        Attempt::Answered {
            status: 404,
            body: format!("no route for {method} {}", request.path),
        }
    }

    fn answer(&self, request: &Request, pause: u128) -> Result<Json, RemoteError> {
        classify(&self.attempt(request, pause), &request.entity)
    }
}

/// Works a run out against a mirror, to its end.
fn talk<T>(
    server: &MockServer,
    mut step: impl FnMut(&mut Talk) -> Result<T, Stop>,
) -> Result<T, RemoteError> {
    let mut replies: Vec<Result<Json, RemoteError>> = Vec::new();
    loop {
        let stop = match step(&mut Talk::open(&replies)) {
            Ok(result) => return Ok(result),
            Err(stop) => stop,
        };
        match stop {
            Stop::Fail(err) => return Err(err),
            Stop::Ask { request, pause } => replies.push(server.answer(&request, pause)),
        }
    }
}

fn link_types() -> LinkTypes {
    LinkTypes {
        subtask: "173-3".into(),
        depend: "173-1".into(),
        relates: "173-0".into(),
    }
}

fn page_path(skip: u32, top: u32) -> String {
    format!(
        "/api/issues?query=project:%20EM{SORT_CLAUSE}&fields={ISSUE_FIELDS}&$skip={skip}&$top={top}"
    )
}

fn issue(n: u32) -> serde_json::Value {
    json(&format!(
        r#"{{"id":"3-{n}","idReadable":"EM-{n}","summary":"issue {n}",
            "updated":1786881829147,"commentsCount":0,"tags":[],"links":[],
            "customFields":[
                {{"name":"Type","value":{{"name":"Task"}}}},
                {{"name":"State","value":{{"name":"Open"}}}},
                {{"name":"Priority","value":{{"name":"Major"}}}},
                {{"name":"Assignee","value":null}},
                {{"name":"Fix versions","value":[]}}]}}"#
    ))
}

fn snapshot(server: &MockServer) -> Result<RemoteSnapshot, RemoteError> {
    talk(server, |t| fetch_snapshot(t, &config(), &link_types()))
}

fn all_issues(server: &MockServer) -> Result<Vec<RemoteIssue>, RemoteError> {
    fetch_all_issues(snapshot(server)?)
}

fn page(from: u32, count: u32) -> String {
    let items: Vec<_> = (from..from + count).map(issue).collect();
    serde_json::Value::Array(items).to_string()
}

#[test]
fn paging_advances_skip_and_stops_on_a_short_page() {
    let server = MockServer::start();
    server.on("GET", &page_path(0, 100), 200, &page(0, 100));
    server.on("GET", &page_path(100, 100), 200, &page(100, 100));
    server.on("GET", &page_path(200, 100), 200, &page(200, 50));

    let issues = all_issues(&server).expect("fetch");

    assert_eq!(issues.len(), 250);
    assert_eq!(
        server.requests().len(),
        3,
        "a short page ends the loop; a fourth request would be wasted"
    );
}

#[test]
fn updated_parses_from_epoch_millis() {
    let server = MockServer::start();
    server.on("GET", &page_path(0, 100), 200, &page(0, 1));
    let issues = all_issues(&server).expect("fetch");

    assert_eq!(
        issues[0].updated.timestamp_millis(),
        1_786_881_829_147,
        "updated is epoch MILLIS, not RFC 3339 and not seconds"
    );
}

#[test]
fn unprovisioned_project_fields_are_ignored() {
    let server = MockServer::start();
    server.on("GET", &page_path(0, 100), 200, &page(0, 1));
    let issues = all_issues(&server).expect("fetch");

    assert_eq!(issues[0].fields.issue_type, IssueType::Task);
    assert!(issues[0].fields.design.is_none());
}

#[test]
fn the_field_selector_requests_both_link_identifiers() {
    assert!(
        ISSUE_FIELDS.contains("links(id,direction,linkType(id,name),issues(id,idReadable))")
    );
    assert!(ISSUE_FIELDS.contains("commentsCount"));
    assert!(ISSUE_FIELDS.contains("tags(id,name)"));
    assert!(ISSUE_FIELDS.contains("updated"));
}

#[test]
fn both_link_identifiers_survive_the_parse() {
    let server = MockServer::start();
    let mut element = issue(4);
    element["links"] = json(r##"[
    {"id":"173-3t","direction":"INWARD","linkType":{"id":"173-3","name":"Subtask"},
     "issues":[{"id":"3-20","idReadable":"EM-1"}]}
]"##);
    element["tags"] = json(r##"[{"id":"6-1","name":"mirror"}]"##);
    element["commentsCount"] = json(r##"3"##);
    let body = serde_json::Value::Array(vec![element]).to_string();
    server.on("GET", &page_path(0, 100), 200, &body);

    let issues = all_issues(&server).expect("fetch");

    assert_eq!(issues[0].links.len(), 1);
    assert_eq!(issues[0].links[0].issues[0].id, "3-20");
    assert_eq!(issues[0].links[0].issues[0].id_readable, "EM-1");
    assert_eq!(issues[0].labels, ["mirror"]);
    assert_eq!(issues[0].comments_count, 3);
    assert_eq!(issues[0].id, "3-4");
}

#[test]
fn every_page_asks_for_a_stable_order() {
    let server = MockServer::start();
    server.on("GET", &page_path(0, 100), 200, &page(0, 1));
    all_issues(&server).expect("fetch");

    let path = &server.requests()[0].path;
    assert!(
        path.contains("sort%20by:%20created%20asc"),
        "the page query must pin an immutable sort key: {path}"
    );
}

#[test]
fn an_unmappable_issue_is_collected_by_the_snapshot_and_names_its_id() {
    let server = MockServer::start();
    let mut bad = issue(9);
    bad["customFields"][1] = json(r##"{"name":"State","value":{"name":"In Review"}}"##);
    let body = serde_json::Value::Array(vec![issue(1), bad]).to_string();
    server.on("GET", &page_path(0, 100), 200, &body);

    let snapshot = snapshot(&server).expect("fetch");

    assert_eq!(snapshot.issues.len(), 1, "the readable issue still lands");
    assert_eq!(snapshot.unmappable.len(), 1);
    assert_eq!(snapshot.unmappable[0].id_readable, "EM-9");
    let reason = &snapshot.unmappable[0].reason;
    assert!(reason.contains("EM-9"), "must name the issue: {reason}");
    assert!(
        reason.contains("In Review"),
        "must name the offending value: {reason}"
    );
    assert!(
        reason.contains("status_map"),
        "must name the map to extend: {reason}"
    );
}

#[test]
fn the_strict_fetch_still_refuses_an_unmappable_issue_by_name() {
    let server = MockServer::start();
    let mut bad = issue(9);
    bad["customFields"][1] = json(r##"{"name":"State","value":{"name":"In Review"}}"##);
    let body = serde_json::Value::Array(vec![bad]).to_string();
    server.on("GET", &page_path(0, 100), 200, &body);

    let err =
        all_issues(&server).expect_err("must refuse");
    let message = err.to_string();
    assert!(message.contains("EM-9"), "must name the issue: {message}");
    assert!(
        message.contains("br remote status"),
        "must point at the command that lists them all: {message}"
    );
}

#[test]
fn a_non_array_body_is_an_error_not_an_empty_project() {
    let server = MockServer::start();
    server.on("GET", &page_path(0, 100), 200, r#"{"error":"Not Found"}"#);

    let err =
        snapshot(&server).expect_err("must refuse");
    let message = err.to_string();
    assert!(
        message.contains("object"),
        "must name the shape it got: {message}"
    );
}

const TYPES_PATH: &str =
    "/api/issueLinkTypes?fields=id,name,sourceToTarget,targetToSource,directed&$top=100";

const REFERENCE_TYPES: &str = r#"[
    {"id":"173-0","name":"Relates","sourceToTarget":"relates to","directed":false},
    {"id":"173-1","name":"Depend","sourceToTarget":"is required for","targetToSource":"depends on","directed":true},
    {"id":"173-2","name":"Duplicate","sourceToTarget":"is duplicated by","targetToSource":"duplicates","directed":true},
    {"id":"173-3","name":"Subtask","sourceToTarget":"parent for","targetToSource":"subtask of","directed":true}
]"#;

fn resolved(server: &MockServer) -> Result<LinkTypes, RemoteError> {
    LinkTypes::resolve(&server.answer(&LinkTypes::resolve_request(), 0)?)
}

#[test]
fn link_types_resolve_by_name_not_by_id() {
    let server = MockServer::start();
    server.on("GET", TYPES_PATH, 200, REFERENCE_TYPES);

    let types = resolved(&server).expect("resolve");
    assert_eq!(types.subtask, "173-3");
    assert_eq!(
        types.depend, "173-1",
        "the type is named Depend, not 'Depends on'"
    );
    assert_eq!(types.relates, "173-0");
}

#[test]
fn an_instance_with_different_ids_still_works() {
    let server = MockServer::start();
    server.on(
        "GET",
        TYPES_PATH,
        200,
        r#"[{"id":"900-7","name":"Subtask","directed":true},
            {"id":"900-8","name":"Depend","directed":true},
            {"id":"900-9","name":"Relates","directed":false}]"#,
    );
    let types = resolved(&server).expect("resolve");
    assert_eq!(
        types.subtask, "900-7",
        "ids are instance-local and must not be assumed"
    );
}

#[test]
fn a_missing_link_type_fails_at_resolve_time() {
    let server = MockServer::start();
    server.on(
        "GET",
        TYPES_PATH,
        200,
        r#"[{"id":"173-0","name":"Relates","directed":false}]"#,
    );
    let err = resolved(&server).expect_err("must fail");
    let msg = err.to_string();
    assert!(msg.contains("Subtask"), "must name what is missing: {msg}");
}

#[test]
fn directed_link_ids_take_the_s_and_t_suffixes() {
    let types = LinkTypes {
        subtask: "173-3".into(),
        depend: "173-1".into(),
        relates: "173-0".into(),
    };
    assert_eq!(
        types.link_id(LinkKind::Subtask, Direction::SourceToTarget),
        "173-3s"
    );
    assert_eq!(
        types.link_id(LinkKind::Subtask, Direction::TargetToSource),
        "173-3t"
    );
    assert_eq!(
        types.link_id(LinkKind::Depend, Direction::SourceToTarget),
        "173-1s"
    );
    assert_eq!(
        types.link_id(LinkKind::Relates, Direction::Undirected),
        "173-0",
        "an undirected type takes the bare id"
    );
}

#[test]
fn a_removal_uses_the_internal_id_never_the_readable_one() {
    let server = MockServer::start();
    server.on(
        "DELETE",
        "/api/issues/EM-4/links/173-3s/issues/3-24",
        200,
        "",
    );
    server.on(
        "DELETE",
        "/api/issues/EM-4/links/173-3s/issues/EM-5",
        404,
        LINK_DELETE_NOT_FOUND,
    );

    server
        .answer(&link_remove("EM-4", "173-3s", "3-24"), 0)
        .expect("remove");

    let deletes = server.write_requests();
    assert_eq!(deletes.len(), 1);
    assert!(
        deletes[0].path.ends_with("/3-24"),
        "removal must address the internal id: {}",
        deletes[0].path
    );
    assert!(
        !deletes[0].path.ends_with("/EM-5"),
        "idReadable 404s on delete even though it works on create"
    );
}

#[test]
fn an_addition_uses_the_readable_id_in_the_body() {
    let server = MockServer::start();
    server.on(
        "POST",
        "/api/issues/EM-4/links/173-3s/issues?fields=idReadable",
        200,
        r#"{"idReadable":"EM-5"}"#,
    );

    server
        .answer(&link_add("EM-4", "173-3s", "EM-5"), 0)
        .expect("add");

    let posts = server.write_requests();
    assert_eq!(posts.len(), 1);
    assert!(posts[0].body.contains("EM-5"), "{}", posts[0].body);
}

#[test]
fn parse_links_carries_both_identifiers() {
    let types = LinkTypes {
        subtask: "173-3".into(),
        depend: "173-1".into(),
        relates: "173-0".into(),
    };
    let raw = read_json(r##"{"links":[
    {"id":"173-3t","direction":"INWARD","linkType":{"id":"173-3","name":"Subtask"},
     "issues":[{"id":"3-20","idReadable":"EM-1"}]},
    {"id":"173-0","direction":"BOTH","linkType":{"id":"173-0","name":"Relates"},
     "issues":[]}
]}"##).expect("valid JSON");
    let links = parse_links(&raw, &types);
    assert_eq!(links.len(), 1, "empty link buckets are dropped");
    assert_eq!(links[0].issues[0].id, "3-20");
    assert_eq!(links[0].issues[0].id_readable, "EM-1");
}

const TAGS_PATH: &str = "/api/tags?fields=id,name&$top=500";

fn loaded(server: &MockServer) -> Result<TagCache, RemoteError> {
    Ok(TagCache::load(&server.answer(&TagCache::load_request(), 0)?))
}

/// A tag as a run gets it: the cache that the run ends with is kept.
fn resolved_tag(
    server: &MockServer,
    cache: &mut TagCache,
    name: &str,
) -> Result<Option<String>, RemoteError> {
    let known = cache.clone();
    let (id, now) = talk(server, |t| {
        let mut own = known.clone();
        let id = own.resolve_or_create(t, name)?;
        Ok((id, own))
    })?;
    *cache = now;
    Ok(id)
}

#[test]
fn an_existing_tag_is_reused_and_never_recreated() {
    let server = MockServer::start();
    server.on(
        "GET",
        TAGS_PATH,
        200,
        r#"[{"id":"6-1","name":"sp-active"}]"#,
    );

    let mut cache = loaded(&server).expect("load");
    let id = resolved_tag(&server, &mut cache, "sp-active")
        .expect("resolve");

    assert_eq!(id.as_deref(), Some("6-1"));
    assert!(
        server.write_requests().is_empty(),
        "an existing tag must not be re-created"
    );
}

#[test]
fn a_new_tag_is_created_once_and_cached() {
    let server = MockServer::start();
    server.on("GET", TAGS_PATH, 200, "[]");
    server.on(
        "POST",
        "/api/tags?fields=id,name",
        200,
        r#"{"id":"6-9","name":"mirror"}"#,
    );

    let mut cache = loaded(&server).expect("load");
    let first = resolved_tag(&server, &mut cache, "mirror").expect("first");
    let second = resolved_tag(&server, &mut cache, "mirror").expect("second");

    assert_eq!(first, second);
    assert_eq!(
        server.write_requests().len(),
        1,
        "the cache must prevent a second POST"
    );
}

#[test]
fn a_permission_denied_tag_is_skipped_and_reported_not_fatal() {
    let server = MockServer::start();
    server.on("GET", TAGS_PATH, 200, "[]");
    server.on(
        "POST",
        "/api/tags?fields=id,name",
        403,
        r#"{"error":"Forbidden"}"#,
    );

    let mut cache = loaded(&server).expect("load");
    let result = resolved_tag(&server, &mut cache, "restricted")
        .expect("must not be fatal");

    assert_eq!(result, None, "a gated tag yields None rather than an error");
    assert_eq!(
        cache.skipped(),
        ["restricted"],
        "and is reported at the end of the run"
    );
}

#[test]
fn an_already_exists_race_is_recovered_by_re_resolving_the_name() {
    let server = MockServer::start();
    server.on_sequence(
        "GET",
        TAGS_PATH,
        vec![
            (200, "[]".to_string()),
            (200, r#"[{"id":"6-5","name":"mirror"}]"#.to_string()),
        ],
    );
    server.on("POST", "/api/tags?fields=id,name", 409, MUST_BE_UNIQUE);

    let mut cache = loaded(&server).expect("load");
    let id = resolved_tag(&server, &mut cache, "mirror")
        .expect("must not be fatal");

    assert_eq!(
        id.as_deref(),
        Some("6-5"),
        "a concurrent create must be recovered by re-resolving the name"
    );
    assert!(
        cache.skipped().is_empty(),
        "a recovered tag must not also be reported as skipped"
    );
}

#[test]
fn an_already_exists_race_that_cannot_be_recovered_is_skipped_not_fatal() {
    let server = MockServer::start();
    server.on("GET", TAGS_PATH, 200, "[]");
    server.on("POST", "/api/tags?fields=id,name", 409, MUST_BE_UNIQUE);

    let mut cache = loaded(&server).expect("load");
    let result = resolved_tag(&server, &mut cache, "mirror")
        .expect("must not be fatal");

    assert_eq!(
        result, None,
        "an unrecoverable AlreadyExists must degrade, not fail the run"
    );
    assert_eq!(cache.skipped(), ["mirror"]);
}

#[test]
fn labels_round_trip_through_tags() {
    let raw = read_json(r##"{"tags":[{"id":"6-1","name":"sp-active"},{"id":"6-2","name":"mirror"}]}"##).expect("valid JSON");
    assert_eq!(labels_from_tags(&raw), ["sp-active", "mirror"]);
    let body = value(&tags_body(&vec!["6-1".into(), "6-2".into()]));
    assert_eq!(body[0]["id"], "6-1");
}

#[test]
fn an_empty_tag_cache_has_skipped_nothing() {
    let cache = TagCache::default();
    assert!(cache.skipped().is_empty());
}
