//! Whole runs against a mirror.

use beads::error::BeadsError;
use beads::json::{read_json, Json};
use beads::model::{Issue, IssueType, Priority, Status};
use beads::remote::adopt::{ChildIdSearch, ChildIdStep, ImportedComment};
use beads::remote::comments::YOUTRACK_AUTHOR;
use beads::remote::config::RemoteConfig;
use beads::remote::error::RemoteError;
use beads::remote::execute::{
    execute_pull, execute_push, hydrated_issues, pair, read_create_answer, reconcile, AdoptStop,
    BatchProgress, CreateOutcome, IssueRows, PullStep, PushStep, PushStop, Reconciliation,
    PullReport, CREATE_PATH, REMOTE_ACTOR,
};
use beads::remote::http::{classify, Attempt, Method, Request};
use beads::remote::talk::Stop;
use beads::remote::youtrack::fetch::{ISSUE_FIELDS, SORT_CLAUSE};
use beads::remote::youtrack::links::LinkTypes;
use beads::remote::youtrack::mapping::{issue_create_body, reverse_fields};
use beads::time::Timestamp;
use std::cell::RefCell;

fn value(j: &Json) -> serde_json::Value {
    match j {
        Json::Null => serde_json::Value::Null,
        Json::Bool(b) => serde_json::Value::Bool(*b),
        Json::Int(n) => serde_json::Value::from(*n as i64),
        Json::Decimal(text) => serde_json::from_str(text).expect("a number"),
        Json::Text(text) => serde_json::Value::String(text.clone()),
        Json::Array(items) => serde_json::Value::Array(items.iter().map(value).collect()),
        Json::Object(items) => {
            let mut map = serde_json::Map::new();
            for (key, item) in items {
                map.insert(key.clone(), value(item));
            }
            serde_json::Value::Object(map)
        }
    }
}

fn entries(pairs: &[(&str, &str)]) -> indexmap::IndexMap<String, String> {
    pairs
        .iter()
        .map(|(key, value)| (key.to_string(), value.to_string()))
        .collect()
}

fn config() -> RemoteConfig {
    RemoteConfig {
        backend: "youtrack".to_string(),
        url: "https://example.youtrack.cloud".to_string(),
        project: "EM".to_string(),
        status_map: entries(&[
            ("open", "Open"),
            ("in_progress", "In Progress"),
            ("blocked", "Blocked"),
            ("deferred", "Deferred"),
            ("draft", "Draft"),
            ("pinned", "Pinned"),
            ("closed", "Fixed"),
        ]),
        type_map: entries(&[
            ("task", "Task"),
            ("bug", "Bug"),
            ("feature", "Feature"),
            ("epic", "Epic"),
            ("chore", "Chore"),
            ("docs", "Docs"),
            ("question", "Question"),
        ]),
        priority_map: entries(&[
            ("0", "Show-stopper"),
            ("1", "Critical"),
            ("2", "Major"),
            ("3", "Normal"),
            ("4", "Minor"),
        ]),
        deleted_state: "Won't fix".to_string(),
        page_size: 100,
    }
}

/// What was asked of a mirror.
#[derive(Debug, Clone)]
#[allow(dead_code)]
struct Asked {
    method: Method,
    path: String,
    body: String,
    pause: u128,
}

struct Route {
    method: String,
    path: String,
    answers: Vec<(u16, String)>,
    served: usize,
    drop_after: Option<usize>,
}

/// A mirror that answers by method and path.
struct MockServer {
    routes: RefCell<Vec<Route>>,
    asked: RefCell<Vec<Asked>>,
}

#[allow(dead_code)]
impl MockServer {
    fn start() -> MockServer {
        MockServer {
            routes: RefCell::new(Vec::new()),
            asked: RefCell::new(Vec::new()),
        }
    }

    fn on(&self, method: &str, path: &str, status: u16, body: &str) {
        self.on_sequence(method, path, vec![(status, body.to_string())]);
    }

    fn on_sequence(&self, method: &str, path: &str, answers: Vec<(u16, String)>) {
        let mut routes = self.routes.borrow_mut();
        routes.retain(|r| r.method != method || r.path != path);
        routes.push(Route {
            method: method.to_string(),
            path: path.to_string(),
            answers,
            served: 0,
            drop_after: None,
        });
    }

    /// The connection breaks before an answer comes.
    fn on_drop(&self, method: &str, path: &str) {
        self.on_sequence(method, path, vec![(200, String::new())]);
        self.on_drop_after(method, path, 0);
    }

    fn on_drop_after(&self, method: &str, path: &str, count: usize) {
        for route in self.routes.borrow_mut().iter_mut() {
            if route.method == method && route.path == path {
                route.drop_after = Some(count);
            }
        }
    }

    fn requests(&self) -> Vec<Asked> {
        self.asked.borrow().clone()
    }

    fn write_requests(&self) -> Vec<Asked> {
        self.requests()
            .into_iter()
            .filter(|r| r.method != Method::Get)
            .collect()
    }

    fn attempt(&self, request: &Request, pause: u128) -> Attempt {
        let method = match request.method {
            Method::Get => "GET",
            Method::Post => "POST",
            Method::Delete => "DELETE",
        };
        self.asked.borrow_mut().push(Asked {
            method: request.method,
            path: request.path.clone(),
            body: match &request.body {
                Some(body) => value(body).to_string(),
                None => String::new(),
            },
            pause,
        });
        for route in self.routes.borrow_mut().iter_mut() {
            if route.method == method && route.path == request.path {
                let place = route.served.min(route.answers.len() - 1);
                route.served += 1;
                if route.drop_after.is_some_and(|n| route.served > n) {
                    return Attempt::Broken("connection reset by peer".to_string());
                }
                let (status, body) = route.answers[place].clone();
                return Attempt::Answered { status, body };
            }
        }
        Attempt::Answered {
            status: 404,
            body: format!("no route for {method} {}", request.path),
        }
    }

    fn answer(&self, request: &Request, pause: u128) -> Result<Json, RemoteError> {
        classify(&self.attempt(request, pause), &request.entity)
    }
}

fn types() -> LinkTypes {
    LinkTypes {
        subtask: "173-3".into(),
        depend: "173-1".into(),
        relates: "173-0".into(),
    }
}

fn bead(id: &str, external_ref: Option<&str>) -> Issue {
    Issue {
        id: id.to_string(),
        title: format!("title of {id}"),
        external_ref: external_ref.map(str::to_string),
        ..Issue::default()
    }
}

/// An issue as a page of the mirror lists it.
fn listed(number: u32, summary: &str, beads_id: Option<&str>, comments: u32) -> String {
    let stamp = match beads_id {
        Some(id) => format!(r#",{{"name":"Beads ID","value":"{id}"}}"#),
        None => String::new(),
    };
    format!(
        r#"{{"id":"3-{number}","idReadable":"EM-{number}","summary":"{summary}",
            "updated":1000,"commentsCount":{comments},"tags":[],"links":[],
            "customFields":[
                {{"name":"Type","value":{{"name":"Task"}}}},
                {{"name":"State","value":{{"name":"Open"}}}},
                {{"name":"Priority","value":{{"name":"Major"}}}}{stamp}]}}"#
    )
}

fn page_path() -> String {
    format!("/api/issues?query=project:%20EM{SORT_CLAUSE}&fields={ISSUE_FIELDS}&$skip=0&$top=100")
}

fn comments_path(id: &str) -> String {
    format!("/api/issues/{id}/comments?fields=id,text,author(login),created&$skip=0&$top=500")
}

const PROJECTS_PATH: &str = "/api/admin/projects?fields=id,name,shortName&$skip=0&$top=500";

fn server_with(issues: &[String]) -> MockServer {
    let server = MockServer::start();
    server.on("GET", &page_path(), 200, &format!("[{}]", issues.join(",")));
    server.on(
        "GET",
        PROJECTS_PATH,
        200,
        r#"[{"id":"0-1","name":"EasyMoney","shortName":"EM"}]"#,
    );
    server
}

fn planned(server: &MockServer, beads: &[Issue]) -> Result<Reconciliation, RemoteError> {
    let mut replies: Vec<Result<Json, RemoteError>> = Vec::new();
    loop {
        match reconcile(&config(), &types(), beads.to_vec(), &replies) {
            Ok(both) => return Ok(both),
            Err(Stop::Fail(err)) => return Err(err),
            Err(Stop::Ask { request, pause }) => replies.push(server.answer(&request, pause)),
        }
    }
}

/// A push to its end. Pairs are written onto the beads as they are reported.
fn pushed(server: &MockServer, beads: &mut Vec<Issue>) -> PushStep {
    let both = planned(server, beads).expect("plan");
    let mut replies: Vec<Result<Json, RemoteError>> = Vec::new();
    let mut again: Option<Reconciliation> = None;
    loop {
        let fresh = again.as_ref().map(Reconciliation::inputs);
        let step = execute_push(
            &config(),
            &types(),
            &both.inputs(),
            fresh.as_ref(),
            &replies,
        );
        let creates = &step.report.creates;
        for (id, issue) in creates.created.iter().chain(&creates.recovered) {
            let update = pair(id, issue);
            assert_eq!(update.actor, REMOTE_ACTOR);
            for one in beads.iter_mut().filter(|b| b.id == update.bead_id) {
                one.external_ref = Some(update.external_ref.clone());
            }
        }
        match step.stop {
            None => return step,
            Some(PushStop::Refresh) => again = Some(planned(server, beads).expect("plan again")),
            Some(PushStop::Talk(Stop::Ask { request, pause })) => {
                replies.push(server.answer(&request, pause));
            }
            Some(PushStop::Talk(Stop::Fail(_))) => return step,
        }
    }
}

fn pulled(server: &MockServer, beads: &[Issue]) -> (PullStep, Vec<Option<String>>) {
    let both = planned(server, beads).expect("plan");
    let mut replies: Vec<Result<Json, RemoteError>> = Vec::new();
    let mut minted: Vec<String> = Vec::new();
    let mut parents: Vec<Option<String>> = Vec::new();
    loop {
        let step = execute_pull(&config(), &both.inputs(), &minted, &replies);
        match &step.stop {
            None => return (step, parents),
            Some(AdoptStop::Create { index, parent, actor }) => {
                assert_eq!(*index, minted.len());
                assert_eq!(*actor, YOUTRACK_AUTHOR);
                parents.push(parent.clone());
                minted.push(format!("bds-new{}", minted.len()));
            }
            Some(AdoptStop::Talk(Stop::Ask { request, pause })) => {
                let reply = server.answer(request, *pause);
                replies.push(reply);
            }
            Some(AdoptStop::Talk(Stop::Fail(err))) => panic!("{err:?}"),
        }
    }
}

#[test]
fn a_created_issue_is_paired_and_the_rest_is_planned_anew() {
    let server = server_with(&[]);
    server.on(
        "POST",
        CREATE_PATH,
        200,
        r#"{"id":"3-1","idReadable":"EM-1"}"#,
    );
    server.on_sequence(
        "GET",
        &page_path(),
        vec![
            (200, "[]".to_string()),
            (
                200,
                format!("[{}]", listed(1, "title of bds-1", Some("bds-1"), 0)),
            ),
        ],
    );
    let mut beads = vec![bead("bds-1", None)];
    beads[0].labels = vec!["mirror".to_string()];
    server.on("GET", "/api/tags?fields=id,name&$top=500", 200, "[]");
    server.on(
        "POST",
        "/api/tags?fields=id,name",
        200,
        r#"{"id":"6-9","name":"mirror"}"#,
    );
    server.on("POST", "/api/issues/EM-1?fields=idReadable", 200, "{}");

    let step = pushed(&server, &mut beads);

    assert_eq!(
        step.report.creates.created,
        [("bds-1".to_string(), "EM-1".to_string())]
    );
    assert_eq!(step.report.replanned_after, 1);
    assert_eq!(step.report.fields_updated, ["bds-1 → EM-1"]);
    assert!(step.report.is_clean(), "{:?}", step.report);
    assert_eq!(step.progress, [BatchProgress { done: 1, total: 1 }]);
    let writes = server.write_requests();
    let creates = writes.iter().filter(|r| r.path == CREATE_PATH).count();
    assert_eq!(creates, 1, "{writes:?}");
    let update = writes.last().expect("an update");
    assert_eq!(update.body, r#"{"tags":[{"id":"6-9"}]}"#);
    let body: serde_json::Value = serde_json::from_str(&writes[0].body).expect("json");
    assert_eq!(body["project"]["id"], "0-1");
    assert_eq!(body["summary"], "title of bds-1");
}

#[test]
fn a_lost_create_is_recovered_without_a_request() {
    let server = server_with(&[listed(7, "title of bds-1", Some("bds-1"), 0)]);
    let mut beads = vec![bead("bds-1", None)];

    let step = pushed(&server, &mut beads);

    assert_eq!(
        step.report.creates.recovered,
        [("bds-1".to_string(), "EM-7".to_string())]
    );
    assert!(step.report.creates.created.is_empty());
    assert!(
        server.write_requests().is_empty(),
        "{:?}",
        server.write_requests()
    );
    assert!(
        server.requests().iter().all(|r| r.path != PROJECTS_PATH),
        "the project is not needed"
    );
    assert_eq!(beads[0].external_ref.as_deref(), Some("EM-7"));
}

#[test]
fn a_disputed_bead_is_neither_created_nor_are_its_issues_adopted() {
    let server = server_with(&[
        listed(7, "one", Some("bds-1"), 0),
        listed(8, "two", Some("bds-1"), 0),
    ]);
    let mut beads = vec![bead("bds-1", None)];

    let step = pushed(&server, &mut beads);
    assert!(server.write_requests().is_empty());
    assert_eq!(step.report.creates.ambiguous.len(), 1);
    assert_eq!(step.report.creates.ambiguous[0].remote_ids, ["EM-7", "EM-8"]);

    let (step, parents) = pulled(&server, &beads);
    assert!(parents.is_empty(), "nothing is created");
    assert!(step.report.adopted.is_empty());
    assert_eq!(step.report.ambiguous.len(), 1);
    assert!(server.write_requests().is_empty());
}

#[test]
fn the_first_failed_create_ends_the_push() {
    let server = server_with(&[]);
    server.on("POST", CREATE_PATH, 503, "down");
    let mut beads = vec![bead("bds-1", None), bead("bds-2", None)];

    let step = pushed(&server, &mut beads);

    assert_eq!(
        step.report.creates.failed,
        [(
            "bds-1".to_string(),
            "remote returned HTTP 503: down".to_string()
        )]
    );
    assert!(!step.report.is_clean());
    assert!(step.progress.is_empty());
    assert_eq!(server.write_requests().len(), 1);
}

#[test]
fn a_project_that_cannot_be_had_fails_the_first_create() {
    let server = server_with(&[]);
    server.on("GET", PROJECTS_PATH, 403, "no");
    let mut beads = vec![bead("bds-1", None), bead("bds-2", None)];

    let step = pushed(&server, &mut beads);

    assert_eq!(
        step.report.creates.failed,
        [(
            "bds-1".to_string(),
            "remote returned HTTP 403: no".to_string()
        )]
    );
    assert!(!step.report.is_clean());
    assert!(server.write_requests().is_empty());
}

#[test]
fn a_create_answer_without_an_identifier_is_a_failure() {
    let reply = Ok(read_json(r#"{"id":"3-1","idReadable":""}"#).expect("valid JSON"));
    assert!(matches!(
        read_create_answer(&reply),
        CreateOutcome::Failed(why) if why.contains("the next run will recover it")
    ));
    let reply = Ok(read_json(r#"{"idReadable":"EM-3"}"#).expect("valid JSON"));
    assert_eq!(
        read_create_answer(&reply),
        CreateOutcome::Created("EM-3".to_string())
    );
}

#[test]
fn progress_is_reported_for_each_full_batch_and_at_the_end() {
    let server = server_with(&[]);
    server.on("POST", CREATE_PATH, 200, r#"{"idReadable":"EM-1"}"#);
    let beads: Vec<Issue> = (0..27).map(|n| bead(&format!("bds-{n}"), None)).collect();
    let both = planned(&server, &beads).expect("plan");
    let mut replies: Vec<Result<Json, RemoteError>> = Vec::new();
    loop {
        let step = execute_push(&config(), &types(), &both.inputs(), None, &replies);
        match step.stop {
            Some(PushStop::Talk(Stop::Ask { request, pause })) => {
                replies.push(server.answer(&request, pause));
            }
            other => {
                assert_eq!(other, Some(PushStop::Refresh));
                assert_eq!(
                    step.progress,
                    [
                        BatchProgress {
                            done: 25,
                            total: 27
                        },
                        BatchProgress {
                            done: 27,
                            total: 27
                        }
                    ]
                );
                assert_eq!(step.report.replanned_after, 27);
                return;
            }
        }
    }
}

#[test]
fn a_deleted_bead_marks_its_issue_and_deletes_nothing() {
    let server = server_with(&[listed(1, "gone", Some("bds-1"), 0)]);
    let mut gone = bead("bds-1", Some("EM-1"));
    gone.status = Status::Tombstone;
    gone.delete_reason = Some("no longer needed".to_string());
    server.on("POST", "/api/issues/EM-1?fields=idReadable", 200, "{}");
    server.on("POST", "/api/issues/EM-1/comments?fields=id", 200, "{}");

    let step = pushed(&server, &mut vec![gone]);

    assert_eq!(step.report.tombstones_marked, ["bds-1"]);
    let writes = server.write_requests();
    assert!(writes.iter().all(|r| r.method == Method::Post));
    assert!(writes[0].body.contains("Won't fix"), "{}", writes[0].body);
    assert!(
        writes[1].body.contains("deleted in beads"),
        "{}",
        writes[1].body
    );
}

#[test]
fn an_issue_in_the_deleted_state_is_not_paired_again() {
    let marked = listed(1, "gone", Some("bds-1"), 0).replace("\"Open\"", "\"Won't fix\"");
    let server = server_with(&[marked]);
    let mut gone = bead("bds-1", Some("EM-1"));
    gone.status = Status::Tombstone;

    let step = pushed(&server, &mut vec![gone]);

    assert!(step.report.tombstones_marked.is_empty());
    assert!(server.write_requests().is_empty());
}

#[test]
fn planning_writes_nothing_and_reads_comments_only_where_the_counts_differ() {
    let server = server_with(&[
        listed(1, "title of bds-1", Some("bds-1"), 0),
        listed(2, "title of bds-2", Some("bds-2"), 1),
    ]);
    server.on(
        "GET",
        &comments_path("EM-2"),
        200,
        r#"[{"id":"7-1","text":"from the web","author":{"login":"kate"},"created":5}]"#,
    );
    let beads = vec![bead("bds-1", Some("EM-1")), bead("bds-2", Some("EM-2"))];

    let both = planned(&server, &beads).expect("plan");

    assert!(server.write_requests().is_empty());
    assert_eq!(server.requests().len(), 2);
    assert_eq!(both.comments.len(), 1);
    assert_eq!(both.comments[0].to_pull[0].text, "from the web");
    assert!(both.comments[0].to_push.is_empty());
}

#[test]
fn an_issue_is_adopted_with_its_comments_and_stamped() {
    let server = server_with(&[listed(4, "typed in the web UI", None, 2)]);
    server.on(
        "GET",
        &comments_path("EM-4"),
        200,
        r#"[{"id":"7-1","text":"hello","author":{"login":"kate"},"created":5},
            {"id":"7-2","text":"[br]\nours","author":{"login":"kate"},"created":6}]"#,
    );
    server.on("POST", "/api/issues/EM-4?fields=idReadable", 200, "{}");

    let (step, parents) = pulled(&server, &[]);

    assert_eq!(parents, [None]);
    assert_eq!(
        step.report.adopted,
        [("EM-4".to_string(), "bds-new0".to_string())]
    );
    assert_eq!(
        step.comments,
        [ImportedComment {
            bead_id: "bds-new0".to_string(),
            author: YOUTRACK_AUTHOR,
            text: "hello".to_string(),
        }]
    );
    assert_eq!(step.report.comments_imported, 2, "as many as were read");
    let writes = server.write_requests();
    assert_eq!(writes.len(), 1, "{writes:?}");
    let body: serde_json::Value = serde_json::from_str(&writes[0].body).expect("json");
    assert_eq!(body["customFields"][0]["value"], "bds-new0");
}

#[test]
fn a_failed_stamp_is_noted_and_the_pull_is_clean() {
    let server = server_with(&[listed(4, "typed in the web UI", None, 0)]);
    server.on("POST", "/api/issues/EM-4?fields=idReadable", 403, "no");

    let (step, _) = pulled(&server, &[]);

    assert!(step.report.is_clean());
    assert_eq!(step.report.adopted.len(), 1);
    assert_eq!(step.notes.len(), 1);
    assert!(step.notes[0].contains("bds-new0"), "{}", step.notes[0]);
}

#[test]
fn a_field_that_the_mirror_wins_is_pulled() {
    let later = listed(1, "title of bds-1", Some("bds-1"), 0)
        .replace("\"Open\"", "\"Fixed\"")
        .replace("\"updated\":1000", "\"updated\":2000");
    let server = server_with(&[later]);
    let mut own = bead("bds-1", Some("EM-1"));
    own.updated_at = Timestamp {
        secs: 1,
        nanos: 999_000_000,
    };

    let (step, _) = pulled(&server, &[own]);

    assert_eq!(step.report.fields_applied, ["bds-1: state open → closed"]);
    assert_eq!(step.updates.len(), 1);
    assert_eq!(step.updates[0].status, Some(Status::Closed));
    assert_eq!(step.updates[0].priority, None);
    assert_eq!(step.updates[0].actor, REMOTE_ACTOR);
}

#[test]
fn what_is_created_reads_back_as_the_bead_it_was_made_from() {
    let mut own = bead("bds-1", None);
    own.description = Some("body".to_string());
    own.status = Status::InProgress;
    own.issue_type = IssueType::Epic;
    own.priority = Priority::critical();
    own.design = Some(String::new());
    own.close_reason = Some("because".to_string());

    let body = issue_create_body(&config(), "0-1", &own).expect("create body");
    let fields = reverse_fields(&config(), &body).expect("mapped");

    assert_eq!(fields.title, own.title);
    assert_eq!(fields.description, own.description);
    assert_eq!(fields.status, own.status);
    assert_eq!(fields.issue_type, own.issue_type);
    assert_eq!(fields.priority, own.priority);
    assert_eq!(fields.design, own.design);
    assert_eq!(fields.notes, None);
    assert_eq!(fields.close_reason, own.close_reason);
    assert_eq!(fields.beads_id.as_deref(), Some("bds-1"));
}

#[test]
fn a_child_takes_the_first_free_number_under_its_parent() {
    let search = ChildIdSearch::start("bds-1", true, 3).expect("the parent exists");
    assert_eq!(search.candidate(), "bds-1.3");
    let next = match search.step(true).expect("not the last") {
        ChildIdStep::Next(next) => next,
        ChildIdStep::Found(id) => panic!("{id} is taken"),
    };
    assert_eq!(
        next.step(false),
        Ok(ChildIdStep::Found("bds-1.4".to_string()))
    );
    assert_eq!(
        ChildIdSearch::start("bds-1", false, 3),
        Err(BeadsError::IssueNotFound {
            id: "bds-1".to_string()
        })
    );
    let mut search = ChildIdSearch::start("bds-1", true, 1).expect("the parent exists");
    let mut tried = 1;
    let refusal = loop {
        match search.step(true) {
            Ok(ChildIdStep::Next(next)) => search = next,
            Ok(ChildIdStep::Found(id)) => panic!("{id} is taken"),
            Err(refusal) => break refusal,
        }
        tried += 1;
    };
    assert_eq!(tried, 101);
    assert_eq!(
        refusal,
        BeadsError::IdCollision {
            id: "bds-1.101".to_string()
        }
    );
}

#[test]
fn relations_labels_and_comments_are_attached_to_their_issues() {
    let issues = vec![bead("bds-1", None), bead("bds-2", None)];
    let rows = vec![
        IssueRows {
            dependencies: None,
            labels: Some(vec!["mirror".to_string()]),
            comments: None,
        },
        IssueRows {
            dependencies: None,
            labels: None,
            comments: None,
        },
    ];
    let beads = hydrated_issues(issues, rows);
    assert_eq!(beads[0].id, "bds-1");
    assert_eq!(beads[0].labels, ["mirror"]);
    assert!(beads[1].labels.is_empty());
}

#[test]
fn a_failure_of_the_mirror_is_one_of_the_tracker() {
    let err = RemoteError::Config("no map".to_string());
    assert_eq!(
        err.into_beads_error(),
        BeadsError::ExternalCommand {
            command: "br remote".to_string(),
            reason: "remote configuration error: no map".to_string(),
        }
    );
    assert_eq!(
        RemoteError::AlreadyExists {
            entity: "tag".to_string()
        }
        .to_string(),
        "tag already exists"
    );
    assert_eq!(
        RemoteError::Transport("reset".to_string()).to_string(),
        "transport error: reset"
    );
}

#[test]
fn a_comment_of_a_pair_comes_in_under_the_name_of_the_mirror() {
    let server = server_with(&[listed(1, "title of bds-1", Some("bds-1"), 1)]);
    server.on(
        "GET",
        &comments_path("EM-1"),
        200,
        r#"[{"id":"7-1","text":"from the web","author":{"login":"kate"},"created":5}]"#,
    );

    let (step, _) = pulled(&server, &[bead("bds-1", Some("EM-1"))]);

    assert_eq!(
        step.comments,
        [ImportedComment {
            bead_id: "bds-1".to_string(),
            author: YOUTRACK_AUTHOR,
            text: "from the web".to_string(),
        }]
    );
    assert_eq!(step.report.comments_imported, 1);
}

#[test]
fn a_report_of_nothing_is_clean() {
    let report = PullReport::default();
    assert!(report.is_clean());
    assert!(report.adopted.is_empty() && report.recovered.is_empty());
    assert_eq!(report.comments_imported, 0);
}
