//! Comments that move between a bead and its issue.

use beads::json::Json;
use beads::remote::comments::{
    comment_counts_agree, fetch_comments, is_br_echo, is_youtrack_echo, plan_comment_sync,
    push_comment, LocalComment, RemoteComment, BR_MARKER, YOUTRACK_AUTHOR,
};
use beads::remote::error::RemoteError;
use beads::remote::http::{classify, Attempt, Method, Request};
use beads::remote::model::RemoteIssue;
use beads::remote::talk::{Stop, Talk};
use std::cell::RefCell;

fn json(text: &str) -> serde_json::Value {
    serde_json::from_str(text).expect("valid JSON")
}

fn value(j: &Json) -> serde_json::Value {
    match j {
        Json::Null => serde_json::Value::Null,
        Json::Bool(b) => serde_json::Value::Bool(*b),
        Json::Int(n) => serde_json::Value::from(*n as i64),
        Json::Decimal(text) => serde_json::from_str(text).expect("a number"),
        Json::Text(text) => serde_json::Value::String(text.clone()),
        Json::Array(items) => serde_json::Value::Array(items.iter().map(value).collect()),
        Json::Object(items) => {
            let mut map = serde_json::Map::new();
            for (key, item) in items {
                map.insert(key.clone(), value(item));
            }
            serde_json::Value::Object(map)
        }
    }
}

/// What was asked of a mirror.
#[derive(Debug, Clone)]
#[allow(dead_code)]
struct Asked {
    method: Method,
    path: String,
    body: String,
    pause: u128,
}

struct Route {
    method: String,
    path: String,
    answers: Vec<(u16, String)>,
    served: usize,
    drop_after: Option<usize>,
}

/// A mirror that answers by method and path.
struct MockServer {
    routes: RefCell<Vec<Route>>,
    asked: RefCell<Vec<Asked>>,
}

#[allow(dead_code)]
impl MockServer {
    fn start() -> MockServer {
        MockServer {
            routes: RefCell::new(Vec::new()),
            asked: RefCell::new(Vec::new()),
        }
    }

    fn on(&self, method: &str, path: &str, status: u16, body: &str) {
        self.on_sequence(method, path, vec![(status, body.to_string())]);
    }

    fn on_sequence(&self, method: &str, path: &str, answers: Vec<(u16, String)>) {
        let mut routes = self.routes.borrow_mut();
        routes.retain(|r| r.method != method || r.path != path);
        routes.push(Route {
            method: method.to_string(),
            path: path.to_string(),
            answers,
            served: 0,
            drop_after: None,
        });
    }

    /// The connection breaks before an answer comes.
    fn on_drop(&self, method: &str, path: &str) {
        self.on_sequence(method, path, vec![(200, String::new())]);
        self.on_drop_after(method, path, 0);
    }

    fn on_drop_after(&self, method: &str, path: &str, count: usize) {
        for route in self.routes.borrow_mut().iter_mut() {
            if route.method == method && route.path == path {
                route.drop_after = Some(count);
            }
        }
    }

    fn requests(&self) -> Vec<Asked> {
        self.asked.borrow().clone()
    }

    fn write_requests(&self) -> Vec<Asked> {
        self.requests()
            .into_iter()
            .filter(|r| r.method != Method::Get)
            .collect()
    }

    fn attempt(&self, request: &Request, pause: u128) -> Attempt {
        let method = match request.method {
            Method::Get => "GET",
            Method::Post => "POST",
            Method::Delete => "DELETE",
        };
        self.asked.borrow_mut().push(Asked {
            method: request.method,
            path: request.path.clone(),
            body: match &request.body {
                Some(body) => value(body).to_string(),
                None => String::new(),
            },
            pause,
        });
        for route in self.routes.borrow_mut().iter_mut() {
            if route.method == method && route.path == request.path {
                let place = route.served.min(route.answers.len() - 1);
                route.served += 1;
                if route.drop_after.is_some_and(|n| route.served > n) {
                    return Attempt::Broken("connection reset by peer".to_string());
                }
                let (status, body) = route.answers[place].clone();
                return Attempt::Answered { status, body };
            }
        }
        Attempt::Answered {
            status: 404,
            body: format!("no route for {method} {}", request.path),
        }
    }

    fn answer(&self, request: &Request, pause: u128) -> Result<Json, RemoteError> {
        classify(&self.attempt(request, pause), &request.entity)
    }
}

/// Works a run out against a mirror, to its end.
fn talk<T>(
    server: &MockServer,
    mut step: impl FnMut(&mut Talk) -> Result<T, Stop>,
) -> Result<T, RemoteError> {
    let mut replies: Vec<Result<Json, RemoteError>> = Vec::new();
    loop {
        let stop = match step(&mut Talk::open(&replies)) {
            Ok(result) => return Ok(result),
            Err(stop) => stop,
        };
        match stop {
            Stop::Fail(err) => return Err(err),
            Stop::Ask { request, pause } => replies.push(server.answer(&request, pause)),
        }
    }
}

const COMMENTS_PATH: &str =
    "/api/issues/EM-1/comments?fields=id,text,author(login),created&$skip=0&$top=500";

fn comments_page_path(skip: u32) -> String {
    format!(
        "/api/issues/EM-1/comments?fields=id,text,author(login),created&$skip={skip}&$top=500"
    )
}

#[test]
fn comment_counts_agree_is_an_equality_check() {
    let mut remote = RemoteIssue::for_test("EM-1");
    remote.comments_count = 3;
    assert!(comment_counts_agree(&remote, 3));
    assert!(!comment_counts_agree(&remote, 2));
}

#[test]
fn a_fetch_requests_the_fields_the_echo_rule_needs() {
    let server = MockServer::start();
    server.on(
        "GET",
        COMMENTS_PATH,
        200,
        r#"[{"id":"7-1","text":"[br]\nhello","author":{"login":"anton"},"created":1786881856457}]"#,
    );
    
    let comments = talk(&server, |t| fetch_comments(t, "EM-1")).expect("fetch");

    assert_eq!(comments.len(), 1);
    assert_eq!(comments[0].text, "[br]\nhello");
    assert_eq!(comments[0].author_login, "anton");
    assert_eq!(comments[0].created.timestamp_millis(), 1_786_881_856_457);
}

#[test]
fn a_push_posts_the_text_verbatim() {
    let server = MockServer::start();
    server.on(
        "POST",
        "/api/issues/EM-1/comments?fields=id",
        200,
        r#"{"id":"7-2"}"#,
    );
    
    server
        .answer(&push_comment("EM-1", "[br]\nfrom beads"), 0)
        .expect("push");

    let posts = server.write_requests();
    assert_eq!(posts.len(), 1);
    let body: serde_json::Value = serde_json::from_str(&posts[0].body).expect("json");
    assert_eq!(body["text"], "[br]\nfrom beads");
}

#[test]
fn only_a_leading_marker_line_counts_as_an_echo() {
    assert!(is_br_echo("[br]\nhello from beads"));
    assert!(is_br_echo("[br]"));
    assert!(
        !is_br_echo("the marker is [br] and it goes first"),
        "a mid-text mention is an ordinary comment and must still be pushed"
    );
    assert!(!is_br_echo("hello\n[br]"), "the marker must lead");
}

#[test]
fn each_side_ignores_its_own_echo() {
    let local = vec![
        LocalComment {
            author: "anton".into(),
            text: "local one".into(),
        },
        LocalComment {
            author: YOUTRACK_AUTHOR.into(),
            text: "pulled earlier".into(),
        },
    ];
    let remote = vec![
        RemoteComment::for_test("7-1", "[br]\nlocal one", "anton"),
        RemoteComment::for_test("7-2", "typed in the web UI", "anton"),
    ];

    let plan = plan_comment_sync(&local, &remote);

    assert!(
        plan.to_push.is_empty(),
        "nothing new locally: {:?}",
        plan.to_push
    );
    assert_eq!(plan.to_pull.len(), 1, "only the web-UI comment comes back");
    assert_eq!(plan.to_pull[0].id, "7-2");
}

#[test]
fn a_new_local_comment_is_pushed_with_the_marker() {
    let local = vec![LocalComment {
        author: "anton".into(),
        text: "fresh".into(),
    }];
    let plan = plan_comment_sync(&local, &vec![]);
    assert_eq!(plan.to_push.len(), 1);
    assert!(
        plan.to_push[0].starts_with(BR_MARKER),
        "{}",
        plan.to_push[0]
    );
    assert!(plan.to_push[0].contains("fresh"));
}

#[test]
fn a_pulled_comment_is_never_pushed_back() {
    let local = vec![LocalComment {
        author: YOUTRACK_AUTHOR.into(),
        text: "from the web".into(),
    }];
    let plan = plan_comment_sync(
        &local,
        &vec![RemoteComment::for_test("7-2", "from the web", "anton")],
    );
    assert!(
        plan.to_push.is_empty(),
        "an author=youtrack comment is our own echo"
    );
}

#[test]
fn three_consecutive_syncs_add_nothing_after_the_first() {
    let mut local = vec![LocalComment {
        author: "anton".into(),
        text: "one".into(),
    }];
    let mut remote: Vec<RemoteComment> = vec![RemoteComment::for_test("7-9", "two", "anton")];

    for round in 0..3 {
        let plan = plan_comment_sync(&local, &remote);
        if round > 0 {
            assert!(
                plan.to_push.is_empty(),
                "round {round} pushed a duplicate: {:?}",
                plan.to_push
            );
            assert!(
                plan.to_pull.is_empty(),
                "round {round} pulled a duplicate: {:?}",
                plan.to_pull
            );
        }
        for text in plan.to_push {
            remote.push(RemoteComment::for_test("7-x", &text, "anton"));
        }
        for comment in plan.to_pull {
            local.push(LocalComment {
                author: YOUTRACK_AUTHOR.into(),
                text: comment.text.clone(),
            });
        }
        assert_invariant(&local, &remote);
    }
}

fn assert_invariant(local: &[LocalComment], remote: &[RemoteComment]) {
    let local_own = local
        .iter()
        .filter(|c| !is_youtrack_echo(&c.author))
        .count();
    let remote_ours = remote.iter().filter(|c| is_br_echo(&c.text)).count();
    assert_eq!(local_own, remote_ours, "local-origin counts disagree");

    let local_pulled = local.iter().filter(|c| is_youtrack_echo(&c.author)).count();
    let remote_theirs = remote.iter().filter(|c| !is_br_echo(&c.text)).count();
    assert_eq!(local_pulled, remote_theirs, "remote-origin counts disagree");
}

#[test]
fn an_edit_to_an_already_pushed_comment_pushes_it_again() {
    let local = vec![LocalComment {
        author: "anton".into(),
        text: "original text".into(),
    }];
    let remote = vec![RemoteComment::for_test(
        "7-1",
        "[br]\nedited in the web UI",
        "anton",
    )];

    let plan = plan_comment_sync(&local, &remote);

    assert_eq!(
        plan.to_push,
        vec!["[br]\noriginal text".to_string()],
        "the edited echo no longer matches, so the original is pushed again"
    );
}

#[test]
fn an_edit_to_an_already_pulled_comment_pulls_it_again() {
    let local = vec![LocalComment {
        author: YOUTRACK_AUTHOR.into(),
        text: "typed in the web UI".into(),
    }];
    let remote = vec![RemoteComment::for_test(
        "7-2",
        "typed in the web UI, then edited",
        "anton",
    )];

    let plan = plan_comment_sync(&local, &remote);

    assert_eq!(
        plan.to_pull.len(),
        1,
        "the edited remote text no longer matches the local copy, so it is pulled again: {:?}",
        plan.to_pull
    );
    assert_eq!(plan.to_pull[0].id, "7-2");
}

#[test]
fn a_second_local_comment_with_identical_text_is_never_pushed() {
    let mut local = vec![LocalComment {
        author: "anton".into(),
        text: "ship it".into(),
    }];
    let mut remote: Vec<RemoteComment> = Vec::new();

    let first_sync = plan_comment_sync(&local, &remote);
    for text in first_sync.to_push {
        remote.push(RemoteComment::for_test("7-1", &text, "anton"));
    }

    local.push(LocalComment {
        author: "anton".into(),
        text: "ship it".into(),
    });

    let second_sync = plan_comment_sync(&local, &remote);
    assert!(
        second_sync.to_push.is_empty(),
        "known limitation: the second comment matches the first's echo and is dropped: {:?}",
        second_sync.to_push
    );
}

#[test]
fn a_local_comment_that_literally_begins_with_the_marker_round_trips() {
    let local = vec![LocalComment {
        author: "anton".into(),
        text: "[br] not a marker, just my own text".into(),
    }];

    let plan = plan_comment_sync(&local, &vec![]);
    assert_eq!(plan.to_push.len(), 1);
    let pushed = plan.to_push[0].clone();
    assert_eq!(
        pushed, "[br]\n[br] not a marker, just my own text",
        "the local text's own leading marker must survive verbatim under the outer one"
    );

    let remote = vec![RemoteComment::for_test("7-1", &pushed, "anton")];
    let plan = plan_comment_sync(&local, &remote);
    assert!(
        plan.to_push.is_empty(),
        "the round trip must be recognised, not re-pushed: {:?}",
        plan.to_push
    );
}

#[test]
fn a_crlf_marker_line_still_matches_its_local_original() {
    let local = vec![LocalComment {
        author: "anton".into(),
        text: "cross platform".into(),
    }];
    let remote = vec![RemoteComment::for_test(
        "7-1",
        "[br]\r\ncross platform",
        "anton",
    )];

    let plan = plan_comment_sync(&local, &remote);
    assert!(
        plan.to_push.is_empty(),
        "a CRLF-marked echo must still match its local original: {:?}",
        plan.to_push
    );
}

#[test]
fn an_issue_with_five_hundred_and_one_comments_pages_past_the_boundary() {
    let server = MockServer::start();
    let first_page: Vec<serde_json::Value> = (0..500)
        .map(|n| {
            json(&format!(
                r#"{{"id":"7-{n}","text":"comment {n}","author":{{"login":"anton"}},"created":1786881856457}}"#
            ))
        })
        .collect();
    server.on(
        "GET",
        &comments_page_path(0),
        200,
        &serde_json::Value::Array(first_page).to_string(),
    );
    server.on(
        "GET",
        &comments_page_path(500),
        200,
        r#"[{"id":"7-500","text":"the 501st comment","author":{"login":"anton"},"created":1786881856457}]"#,
    );
    
    let comments = talk(&server, |t| fetch_comments(t, "EM-1")).expect("fetch must page past the boundary");

    assert_eq!(comments.len(), 501, "both pages must be collected");
    assert_eq!(
        comments[500].text, "the 501st comment",
        "the comment beyond the old hard boundary must be visible"
    );
}

#[test]
fn an_issue_with_exactly_five_hundred_comments_pages_to_an_empty_second_page() {
    let server = MockServer::start();
    let first_page: Vec<serde_json::Value> = (0..500)
        .map(|n| {
            json(&format!(
                r#"{{"id":"7-{n}","text":"comment {n}","author":{{"login":"anton"}},"created":1786881856457}}"#
            ))
        })
        .collect();
    server.on(
        "GET",
        &comments_page_path(0),
        200,
        &serde_json::Value::Array(first_page).to_string(),
    );
    server.on("GET", &comments_page_path(500), 200, "[]");
    
    let comments = talk(&server, |t| fetch_comments(t, "EM-1")).expect("a full page must not be refused");

    assert_eq!(
        comments.len(),
        500,
        "a page landing exactly on the boundary must not be treated as suspicious"
    );
}

#[test]
fn a_non_array_comment_body_is_still_an_error() {
    let server = MockServer::start();
    server.on("GET", COMMENTS_PATH, 200, r#"{"error":"Not Found"}"#);
    
    let err = talk(&server, |t| fetch_comments(t, "EM-1")).expect_err("must refuse a non-array body");
    let message = err.to_string();
    assert!(message.contains("EM-1"), "must name the issue: {message}");
}
