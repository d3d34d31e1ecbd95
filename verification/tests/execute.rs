//! Runs that push to the mirror and pull from it.

use beads::json::Json;
use beads::model::{Issue, Status};
use beads::remote::config::RemoteConfig;
use beads::remote::error::RemoteError;
use beads::remote::execute::{
    first_run_gate, orphaned_creates, push_comments, push_links, AmbiguousStamp, PushReport,
    LOST_ANSWER,
};
use beads::remote::http::{classify, Attempt, Method, Request};
use beads::remote::link_diff::LinkChange;
use beads::remote::plan::{Adoption, CommentWork, IssueLinkPlan, ReconcilePlan};
use beads::remote::talk::{Stop, Talk};
use beads::remote::youtrack::links::{LinkKind, LinkTypes};
use std::cell::RefCell;

fn value(j: &Json) -> serde_json::Value {
    match j {
        Json::Null => serde_json::Value::Null,
        Json::Bool(b) => serde_json::Value::Bool(*b),
        Json::Int(n) => serde_json::Value::from(*n as i64),
        Json::Decimal(text) => serde_json::from_str(text).expect("a number"),
        Json::Text(text) => serde_json::Value::String(text.clone()),
        Json::Array(items) => serde_json::Value::Array(items.iter().map(value).collect()),
        Json::Object(items) => {
            let mut map = serde_json::Map::new();
            for (key, item) in items {
                map.insert(key.clone(), value(item));
            }
            serde_json::Value::Object(map)
        }
    }
}

fn entries(pairs: &[(&str, &str)]) -> indexmap::IndexMap<String, String> {
    pairs
        .iter()
        .map(|(key, value)| (key.to_string(), value.to_string()))
        .collect()
}

fn config() -> RemoteConfig {
    RemoteConfig {
        backend: "youtrack".to_string(),
        url: "https://example.youtrack.cloud".to_string(),
        project: "EM".to_string(),
        status_map: entries(&[
            ("open", "Open"),
            ("in_progress", "In Progress"),
            ("blocked", "Blocked"),
            ("deferred", "Deferred"),
            ("draft", "Draft"),
            ("pinned", "Pinned"),
            ("closed", "Fixed"),
        ]),
        type_map: entries(&[
            ("task", "Task"),
            ("bug", "Bug"),
            ("feature", "Feature"),
            ("epic", "Epic"),
            ("chore", "Chore"),
            ("docs", "Docs"),
            ("question", "Question"),
        ]),
        priority_map: entries(&[
            ("0", "Show-stopper"),
            ("1", "Critical"),
            ("2", "Major"),
            ("3", "Normal"),
            ("4", "Minor"),
        ]),
        deleted_state: "Won't fix".to_string(),
        page_size: 100,
    }
}

/// What was asked of a mirror.
#[derive(Debug, Clone)]
#[allow(dead_code)]
struct Asked {
    method: Method,
    path: String,
    body: String,
    pause: u128,
}

struct Route {
    method: String,
    path: String,
    answers: Vec<(u16, String)>,
    served: usize,
    drop_after: Option<usize>,
}

/// A mirror that answers by method and path.
struct MockServer {
    routes: RefCell<Vec<Route>>,
    asked: RefCell<Vec<Asked>>,
}

#[allow(dead_code)]
impl MockServer {
    fn start() -> MockServer {
        MockServer {
            routes: RefCell::new(Vec::new()),
            asked: RefCell::new(Vec::new()),
        }
    }

    fn on(&self, method: &str, path: &str, status: u16, body: &str) {
        self.on_sequence(method, path, vec![(status, body.to_string())]);
    }

    fn on_sequence(&self, method: &str, path: &str, answers: Vec<(u16, String)>) {
        let mut routes = self.routes.borrow_mut();
        routes.retain(|r| r.method != method || r.path != path);
        routes.push(Route {
            method: method.to_string(),
            path: path.to_string(),
            answers,
            served: 0,
            drop_after: None,
        });
    }

    /// The connection breaks before an answer comes.
    fn on_drop(&self, method: &str, path: &str) {
        self.on_sequence(method, path, vec![(200, String::new())]);
        self.on_drop_after(method, path, 0);
    }

    fn on_drop_after(&self, method: &str, path: &str, count: usize) {
        for route in self.routes.borrow_mut().iter_mut() {
            if route.method == method && route.path == path {
                route.drop_after = Some(count);
            }
        }
    }

    fn requests(&self) -> Vec<Asked> {
        self.asked.borrow().clone()
    }

    fn write_requests(&self) -> Vec<Asked> {
        self.requests()
            .into_iter()
            .filter(|r| r.method != Method::Get)
            .collect()
    }

    fn attempt(&self, request: &Request, pause: u128) -> Attempt {
        let method = match request.method {
            Method::Get => "GET",
            Method::Post => "POST",
            Method::Delete => "DELETE",
        };
        self.asked.borrow_mut().push(Asked {
            method: request.method,
            path: request.path.clone(),
            body: match &request.body {
                Some(body) => value(body).to_string(),
                None => String::new(),
            },
            pause,
        });
        for route in self.routes.borrow_mut().iter_mut() {
            if route.method == method && route.path == request.path {
                let place = route.served.min(route.answers.len() - 1);
                route.served += 1;
                if route.drop_after.is_some_and(|n| route.served > n) {
                    return Attempt::Broken("connection reset by peer".to_string());
                }
                let (status, body) = route.answers[place].clone();
                return Attempt::Answered { status, body };
            }
        }
        Attempt::Answered {
            status: 404,
            body: format!("no route for {method} {}", request.path),
        }
    }

    fn answer(&self, request: &Request, pause: u128) -> Result<Json, RemoteError> {
        classify(&self.attempt(request, pause), &request.entity)
    }
}

/// Works a run out against a mirror, to its end.
fn talk<T>(
    server: &MockServer,
    mut step: impl FnMut(&mut Talk) -> Result<T, Stop>,
) -> Result<T, RemoteError> {
    let mut replies: Vec<Result<Json, RemoteError>> = Vec::new();
    loop {
        let stop = match step(&mut Talk::open(&replies)) {
            Ok(result) => return Ok(result),
            Err(stop) => stop,
        };
        match stop {
            Stop::Fail(err) => return Err(err),
            Stop::Ask { request, pause } => replies.push(server.answer(&request, pause)),
        }
    }
}

fn comments_pushed(server: &MockServer, work: &Vec<CommentWork>) -> PushReport {
    talk(server, |t| {
        let mut report = PushReport::default();
        match push_comments(t, work, &mut report) {
            Some(stop) => Err(stop),
            None => Ok(report),
        }
    })
    .expect("a failed write ends nothing")
}

fn links_pushed(server: &MockServer, plan: &ReconcilePlan) -> PushReport {
    talk(server, |t| {
        let mut report = PushReport::default();
        match push_links(t, &types(), plan, &mut report) {
            Some(stop) => Err(stop),
            None => Ok(report),
        }
    })
    .expect("a failed write ends nothing")
}

fn unpaired(id: &str) -> Issue {
    Issue {
        id: id.to_string(),
        title: "t".to_string(),
        ..Issue::default()
    }
}

fn paired(id: &str, external_ref: &str) -> Issue {
    Issue {
        external_ref: Some(external_ref.to_string()),
        ..unpaired(id)
    }
}

#[test]
fn a_workspace_with_no_pairings_is_gated() {
    let beads = vec![unpaired("bds-1"), unpaired("bds-2")];
    let refusal = first_run_gate(&beads, &config(), false).expect_err("must gate");
    assert_eq!(refusal.would_create, 2);
    let rendered = refusal.render();
    assert!(
        rendered.contains("--confirm-initial"),
        "must name the flag: {rendered}"
    );
    assert!(rendered.contains('2'), "must say how many: {rendered}");
}

#[test]
fn confirming_lifts_the_gate() {
    let beads = vec![unpaired("bds-1")];
    assert!(first_run_gate(&beads, &config(), true).is_ok());
}

#[test]
fn one_existing_pairing_lifts_the_gate() {
    let beads = vec![unpaired("bds-1"), paired("bds-2", "EM-1")];
    assert!(first_run_gate(&beads, &config(), false).is_ok());
}

#[test]
fn an_out_of_scope_ref_does_not_lift_the_gate() {
    let beads = vec![paired("bds-1", "JIRA-123")];
    assert!(
        first_run_gate(&beads, &config(), false).is_err(),
        "only an in-scope pairing counts"
    );
}

#[test]
fn a_tombstone_is_not_counted_as_an_issue_the_run_would_create() {
    let mut gone = unpaired("bds-2");
    gone.status = Status::Tombstone;
    let beads = vec![unpaired("bds-1"), gone];
    let refusal = first_run_gate(&beads, &config(), false).expect_err("must gate");
    assert_eq!(
        refusal.would_create, 1,
        "the tombstone rule owns tombstones; none of them is ever created"
    );
}

fn adoption(remote_id: &str, beads_id: Option<&str>) -> Adoption {
    Adoption {
        remote_id: remote_id.to_string(),
        summary: "s".to_string(),
        beads_id: beads_id.map(str::to_string),
    }
}

#[test]
fn an_issue_stamped_with_a_pending_bead_id_is_a_lost_create_not_an_adoption() {
    let plan = ReconcilePlan {
        creates: vec!["bds-1".into(), "bds-2".into()],
        adoptions: vec![adoption("EM-9", Some("bds-2"))],
        ..ReconcilePlan::default()
    };
    let orphans = orphaned_creates(&plan);
    assert_eq!(
        orphans.recoverable,
        [("bds-2".to_string(), "EM-9".to_string())]
    );
    assert_eq!(orphans.recoverable.len(), 1, "{orphans:?}");
    assert!(orphans.ambiguous.is_empty());
}

#[test]
fn a_web_ui_issue_is_never_mistaken_for_a_lost_create() {
    let plan = ReconcilePlan {
        creates: vec!["bds-1".into()],
        adoptions: vec![adoption("EM-7", None), adoption("EM-8", Some("bds-other"))],
        ..ReconcilePlan::default()
    };
    let orphans = orphaned_creates(&plan);
    assert!(orphans.recoverable.is_empty());
    assert!(orphans.ambiguous.is_empty());
}

#[test]
fn two_issues_claiming_one_bead_are_reported_rather_than_silently_collapsed() {
    let plan = ReconcilePlan {
        creates: vec!["bds-1".into()],
        adoptions: vec![
            adoption("EM-8", Some("bds-1")),
            adoption("EM-9", Some("bds-1")),
        ],
        ..ReconcilePlan::default()
    };
    let orphans = orphaned_creates(&plan);

    assert!(
        orphans.recoverable.is_empty(),
        "br cannot choose between them, so it chooses neither: {orphans:?}"
    );
    assert_eq!(
        orphans.ambiguous,
        vec![AmbiguousStamp {
            bead_id: "bds-1".into(),
            remote_ids: vec!["EM-8".into(), "EM-9".into()],
        }]
    );
    assert!(orphans.is_ambiguous("bds-1"), "the create is skipped");
    assert!(orphans.claims("EM-8"), "and neither issue is adopted");
    assert!(orphans.claims("EM-9"));

    let rendered = orphans.ambiguous[0].render();
    assert!(rendered.contains("bds-1"), "{rendered}");
    assert!(
        rendered.contains("EM-8") && rendered.contains("EM-9"),
        "{rendered}"
    );
    assert!(
        rendered.contains("Beads ID"),
        "must say how to fix it: {rendered}"
    );
}

const COMMENT_PATH: &str = "/api/issues/EM-27/comments?fields=id";
const COMMENTS_READ_PATH: &str =
    "/api/issues/EM-27/comments?fields=id,text,author(login),created&$skip=0&$top=500";

fn work(texts: &[&str]) -> Vec<CommentWork> {
    vec![CommentWork {
        bead_id: "bds-1".into(),
        remote_id: "EM-27".into(),
        to_push: texts.iter().map(|t| (*t).to_string()).collect(),
        to_pull: Vec::new(),
    }]
}

fn echo(id: &str, body: &str) -> String {
    format!(
        r#"{{"id":"{id}","text":"[br]\n{body}","author":{{"login":"anton"}},"created":1786881856457}}"#
    )
}

#[test]
fn a_landed_comment_is_reported_as_done_not_failed() {
    let server = MockServer::start();
    server.on_drop("POST", COMMENT_PATH);
    server.on(
        "GET",
        COMMENTS_READ_PATH,
        200,
        &format!("[{}]", echo("7-1", "hello")),
    );

    let report = comments_pushed(&server, &work(&["[br]\nhello"]));

    assert!(report.failures.is_empty(), "{report:?}");
    assert_eq!(report.comments_pushed, 1, "{report:?}");
    assert_eq!(report.comments_recovered, 1, "{report:?}");
}

#[test]
fn a_comment_that_never_landed_is_still_a_failure() {
    let server = MockServer::start();
    server.on_drop("POST", COMMENT_PATH);
    server.on("GET", COMMENTS_READ_PATH, 200, "[]");

    let report = comments_pushed(&server, &work(&["[br]\nhello"]));

    assert_eq!(report.comments_pushed, 0, "{report:?}");
    assert_eq!(report.comments_recovered, 0, "{report:?}");
    assert_eq!(report.failures.len(), 1, "{report:?}");
    assert!(
        report.failures[0].contains("EM-27"),
        "{:?}",
        report.failures
    );
}

#[test]
fn the_first_copy_does_not_recover_the_second() {
    let server = MockServer::start();
    server.on_sequence("POST", COMMENT_PATH, vec![(200, r#"{"id":"7-1"}"#.into())]);
    server.on_drop_after("POST", COMMENT_PATH, 1);
    server.on(
        "GET",
        COMMENTS_READ_PATH,
        200,
        &format!("[{}]", echo("7-1", "hello")),
    );

    let report = comments_pushed(&server, &work(&["[br]\nhello", "[br]\nhello"]));

    assert_eq!(
        report.comments_pushed, 1,
        "only the first landed: {report:?}"
    );
    assert_eq!(report.comments_recovered, 0, "{report:?}");
    assert_eq!(report.failures.len(), 1, "{report:?}");
}

#[test]
fn both_copies_present_recovers_the_second() {
    let server = MockServer::start();
    server.on_sequence("POST", COMMENT_PATH, vec![(200, r#"{"id":"7-1"}"#.into())]);
    server.on_drop_after("POST", COMMENT_PATH, 1);
    server.on(
        "GET",
        COMMENTS_READ_PATH,
        200,
        &format!("[{},{}]", echo("7-1", "hello"), echo("7-2", "hello")),
    );

    let report = comments_pushed(&server, &work(&["[br]\nhello", "[br]\nhello"]));

    assert!(report.failures.is_empty(), "{report:?}");
    assert_eq!(report.comments_pushed, 2, "{report:?}");
    assert_eq!(report.comments_recovered, 1, "{report:?}");
}

const ADD_PATH: &str = "/api/issues/EM-27/links/173-1s/issues?fields=idReadable";
const LINKS_READ_PATH: &str =
    "/api/issues/EM-27?fields=links(id,direction,linkType(id,name),issues(id,idReadable))";

fn types() -> LinkTypes {
    LinkTypes {
        subtask: "173-3".into(),
        depend: "173-1".into(),
        relates: "173-0".into(),
    }
}

fn plan_adding_em_29() -> ReconcilePlan {
    ReconcilePlan {
        link_changes: vec![IssueLinkPlan {
            bead_id: "bds-1".into(),
            remote_id: "EM-27".into(),
            changes: vec![LinkChange::Add {
                kind: LinkKind::Depend,
                target_readable: "EM-29".into(),
            }],
        }],
        ..ReconcilePlan::default()
    }
}

#[test]
fn a_landed_add_is_reported_as_done_not_failed() {
    let server = MockServer::start();
    server.on_drop("POST", ADD_PATH);
    server.on(
        "GET",
        LINKS_READ_PATH,
        200,
        r#"{"links":[{"id":"173-1s","direction":"OUTWARD","linkType":{"id":"173-1","name":"Depend"},"issues":[{"id":"3-221","idReadable":"EM-29"}]}]}"#,
    );

    let report = links_pushed(&server, &plan_adding_em_29());

    assert!(
        report.failures.is_empty(),
        "the link is on the mirror; nothing failed: {:?}",
        report.failures
    );
    assert_eq!(report.links_added.len(), 1, "{report:?}");
    assert!(
        report.links_added[0].contains("EM-27 + blocks EM-29"),
        "{:?}",
        report.links_added
    );
}

#[test]
fn a_landed_removal_is_reported_as_done_not_failed() {
    let server = MockServer::start();
    server.on_drop("DELETE", "/api/issues/EM-27/links/173-1s/issues/3-221");
    server.on("GET", LINKS_READ_PATH, 200, r#"{"links":[]}"#);

    let plan = ReconcilePlan {
        link_changes: vec![IssueLinkPlan {
            bead_id: "bds-1".into(),
            remote_id: "EM-27".into(),
            changes: vec![LinkChange::Remove {
                kind: LinkKind::Depend,
                target_internal_id: "3-221".into(),
                target_readable: "EM-29".into(),
            }],
        }],
        ..ReconcilePlan::default()
    };
    let report = links_pushed(&server, &plan);

    assert!(report.failures.is_empty(), "{report:?}");
    assert_eq!(report.links_removed.len(), 1, "{report:?}");
    assert!(
        report.links_removed[0].contains("EM-27 - blocks EM-29"),
        "{:?}",
        report.links_removed
    );
}

#[test]
fn a_recovered_write_says_the_answer_was_lost() {
    let server = MockServer::start();
    server.on_drop("POST", ADD_PATH);
    server.on(
        "GET",
        LINKS_READ_PATH,
        200,
        r#"{"links":[{"id":"173-1s","direction":"OUTWARD","linkType":{"id":"173-1","name":"Depend"},"issues":[{"id":"3-221","idReadable":"EM-29"}]}]}"#,
    );

    let report = links_pushed(&server, &plan_adding_em_29());

    assert!(
        report.links_added[0].contains(LOST_ANSWER),
        "{:?}",
        report.links_added
    );
}

#[test]
fn an_add_that_never_landed_is_still_a_failure() {
    let server = MockServer::start();
    server.on_drop("POST", ADD_PATH);
    server.on("GET", LINKS_READ_PATH, 200, r#"{"links":[]}"#);

    let report = links_pushed(&server, &plan_adding_em_29());

    assert!(report.links_added.is_empty(), "{report:?}");
    assert_eq!(report.failures.len(), 1, "{report:?}");
    assert!(
        report.failures[0].contains("EM-27 + blocks EM-29"),
        "{:?}",
        report.failures
    );
}

#[test]
fn an_issue_is_disputed_only_where_another_names_the_same_pending_bead() {
    let plan = ReconcilePlan {
        creates: vec!["bds-1".into(), "bds-2".into()],
        adoptions: vec![
            adoption("EM-1", Some("bds-1")),
            adoption("EM-2", Some("bds-2")),
            adoption("EM-3", Some("bds-1")),
            adoption("EM-4", Some("bds-other")),
            adoption("EM-5", Some("bds-other")),
            adoption("EM-6", None),
        ],
        ..ReconcilePlan::default()
    };
    let orphans = orphaned_creates(&plan);
    let disputed: Vec<&str> = plan
        .adoptions
        .iter()
        .map(|a| a.remote_id.as_str())
        .filter(|id| orphans.claims(id))
        .collect();
    assert_eq!(disputed, ["EM-1", "EM-3"]);
    assert_eq!(
        orphans.recoverable,
        [("bds-2".to_string(), "EM-2".to_string())]
    );
}
