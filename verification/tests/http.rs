//! Sending requests, and what goes wrong with them.

use beads::json::{read_json, Json};
use beads::remote::error::RemoteError;
use beads::remote::http::{
    body_to_send, classify, token_from, Attempt, HttpClient, Method, Request, RetryPolicy, Token, Verdict,
    TOKEN_ENV,
};
use std::cell::RefCell;

fn value(j: &Json) -> serde_json::Value {
    match j {
        Json::Null => serde_json::Value::Null,
        Json::Bool(b) => serde_json::Value::Bool(*b),
        Json::Int(n) => serde_json::Value::from(*n as i64),
        Json::Decimal(text) => serde_json::from_str(text).expect("a number"),
        Json::Text(text) => serde_json::Value::String(text.clone()),
        Json::Array(items) => serde_json::Value::Array(items.iter().map(value).collect()),
        Json::Object(items) => {
            let mut map = serde_json::Map::new();
            for (key, item) in items {
                map.insert(key.clone(), value(item));
            }
            serde_json::Value::Object(map)
        }
    }
}

/// What was asked of a mirror.
#[derive(Debug, Clone)]
#[allow(dead_code)]
struct Asked {
    method: Method,
    path: String,
    body: String,
    pause: u128,
}

struct Route {
    method: String,
    path: String,
    answers: Vec<(u16, String)>,
    served: usize,
    drop_after: Option<usize>,
}

/// A mirror that answers by method and path.
struct MockServer {
    routes: RefCell<Vec<Route>>,
    asked: RefCell<Vec<Asked>>,
}

#[allow(dead_code)]
impl MockServer {
    fn start() -> MockServer {
        MockServer {
            routes: RefCell::new(Vec::new()),
            asked: RefCell::new(Vec::new()),
        }
    }

    fn on(&self, method: &str, path: &str, status: u16, body: &str) {
        self.on_sequence(method, path, vec![(status, body.to_string())]);
    }

    fn on_sequence(&self, method: &str, path: &str, answers: Vec<(u16, String)>) {
        let mut routes = self.routes.borrow_mut();
        routes.retain(|r| r.method != method || r.path != path);
        routes.push(Route {
            method: method.to_string(),
            path: path.to_string(),
            answers,
            served: 0,
            drop_after: None,
        });
    }

    /// The connection breaks before an answer comes.
    fn on_drop(&self, method: &str, path: &str) {
        self.on_sequence(method, path, vec![(200, String::new())]);
        self.on_drop_after(method, path, 0);
    }

    fn on_drop_after(&self, method: &str, path: &str, count: usize) {
        for route in self.routes.borrow_mut().iter_mut() {
            if route.method == method && route.path == path {
                route.drop_after = Some(count);
            }
        }
    }

    fn requests(&self) -> Vec<Asked> {
        self.asked.borrow().clone()
    }

    fn write_requests(&self) -> Vec<Asked> {
        self.requests()
            .into_iter()
            .filter(|r| r.method != Method::Get)
            .collect()
    }

    fn attempt(&self, request: &Request, pause: u128) -> Attempt {
        let method = match request.method {
            Method::Get => "GET",
            Method::Post => "POST",
            Method::Delete => "DELETE",
        };
        self.asked.borrow_mut().push(Asked {
            method: request.method,
            path: request.path.clone(),
            body: match &request.body {
                Some(body) => value(body).to_string(),
                None => String::new(),
            },
            pause,
        });
        for route in self.routes.borrow_mut().iter_mut() {
            if route.method == method && route.path == request.path {
                let place = route.served.min(route.answers.len() - 1);
                route.served += 1;
                if route.drop_after.is_some_and(|n| route.served > n) {
                    return Attempt::Broken("connection reset by peer".to_string());
                }
                let (status, body) = route.answers[place].clone();
                return Attempt::Answered { status, body };
            }
        }
        Attempt::Answered {
            status: 404,
            body: format!("no route for {method} {}", request.path),
        }
    }

    fn answer(&self, request: &Request, pause: u128) -> Result<Json, RemoteError> {
        classify(&self.attempt(request, pause), &request.entity)
    }
}

#[test]
fn only_429_and_5xx_are_retryable() {
    let retryable = [429_u16, 500, 502, 503, 504];
    for status in retryable {
        let err = RemoteError::Http {
            status,
            body: String::new(),
        };
        assert!(err.is_retryable(), "{status} must be retryable");
    }
    for status in [400_u16, 401, 403, 404, 409, 422] {
        let err = RemoteError::Http {
            status,
            body: String::new(),
        };
        assert!(!err.is_retryable(), "{status} must not be retryable");
    }
}

#[test]
fn must_be_unique_body_becomes_already_exists() {
    let body = r#"{"error":"must-be-unique","error_field":"name",
        "error_description":"A field with the name 'Design' and the 'text' type already exists."}"#;
    let err = RemoteError::from_response(409, body, "custom field 'Design'");
    assert!(
        matches!(&err, RemoteError::AlreadyExists { entity } if entity == "custom field 'Design'"),
        "expected AlreadyExists, got {err:?}"
    );
    assert!(
        !err.is_retryable(),
        "an already-present entity must not be retried"
    );
}

#[test]
fn an_unrelated_409_stays_http() {
    let err = RemoteError::from_response(409, r#"{"error":"conflict"}"#, "issue EM-1");
    assert!(
        matches!(err, RemoteError::Http { status: 409, .. }),
        "got {err:?}"
    );
}

#[test]
fn a_missing_token_fails_before_any_request() {
    let err = token_from(None).err().expect("must fail");
    let msg = err.to_string();
    assert!(msg.contains(TOKEN_ENV), "must name the variable: {msg}");
    assert!(msg.contains("export"), "must say how to fix it: {msg}");
}

/// So many milliseconds.
fn nanos(millis: u64) -> u64 {
    millis * 1_000_000
}

#[test]
fn backoff_delays_grow_and_stop_at_max_attempts() {
    let policy = RetryPolicy {
        max_attempts: 4,
        base_delay: nanos(10),
    };
    let delays: Vec<u64> = (0..3)
        .map(|attempt| {
            u64::try_from(policy.delay_for(attempt) / 1_000_000)
                .expect("test delay fits in u64")
        })
        .collect();
    assert_eq!(delays, vec![10, 20, 40], "delays must double");
    assert_eq!(policy.max_attempts, 4);
}

#[test]
fn only_retryable_errors_are_retried() {
    let policy = RetryPolicy {
        max_attempts: 3,
        base_delay: nanos(1),
    };
    assert!(policy.should_retry(
        &RemoteError::Http {
            status: 429,
            body: String::new()
        },
        0
    ));
    assert!(policy.should_retry(
        &RemoteError::Http {
            status: 503,
            body: String::new()
        },
        0
    ));
    assert!(!policy.should_retry(
        &RemoteError::Http {
            status: 403,
            body: String::new()
        },
        0
    ));
    assert!(!policy.should_retry(
        &RemoteError::Http {
            status: 429,
            body: String::new()
        },
        2
    ));
}

/// Sends a request the way a client does: again after each delay that it is
/// told to wait.
fn send(
    http: &mut HttpClient,
    server: &MockServer,
    request: Request,
) -> (Result<Json, RemoteError>, Vec<u128>) {
    let mut delays = Vec::new();
    http.issue(&request);
    let mut attempt = 0_u32;
    loop {
        let outcome = server.attempt(&request, 0);
        match http.judge(&request, attempt, &outcome) {
            Verdict::Done(reply) => return (reply, delays),
            Verdict::Again { delay } => delays.push(delay),
        }
        attempt += 1;
    }
}

fn client(retry: RetryPolicy) -> HttpClient {
    HttpClient::new("http://127.0.0.1:1/", Token::new("test-token"), retry)
}

fn issues() -> Request {
    Request::get("/api/issues".to_string(), "issue EM-1")
}

#[test]
fn a_429_then_200_succeeds_after_exactly_one_slept_retry() {
    let server = MockServer::start();
    server.on_sequence(
        "GET",
        "/api/issues",
        vec![
            (429, "rate limited".to_string()),
            (200, r#"{"ok":true}"#.to_string()),
        ],
    );
    let base_delay = nanos(30);
    let mut http = client(RetryPolicy {
        max_attempts: 3,
        base_delay,
    });

    let (reply, delays) = send(&mut http, &server, issues());

    assert_eq!(
        value(&reply.expect("must succeed on retry")).to_string(),
        r#"{"ok":true}"#
    );
    assert_eq!(
        server.requests().len(),
        2,
        "the 429 and the 200 that follows it"
    );
    assert_eq!(
        delays,
        [u128::from(base_delay)],
        "the backoff before the retry must actually be waited for"
    );
}

#[test]
fn a_500_sequence_exhausts_max_attempts_and_returns_the_final_http_error() {
    let server = MockServer::start();
    server.on(
        "GET",
        "/api/issues",
        500,
        r#"{"error":"Internal Server Error"}"#,
    );
    let mut http = client(RetryPolicy {
        max_attempts: 3,
        base_delay: nanos(1),
    });

    let (reply, _) = send(&mut http, &server, issues());
    let err = reply.expect_err("must exhaust retries");

    assert!(
        matches!(err, RemoteError::Http { status: 500, .. }),
        "got {err:?}"
    );
    assert_eq!(
        server.requests().len(),
        3,
        "exactly max_attempts requests, not one more and not one fewer"
    );
}

#[test]
fn a_400_is_not_retried() {
    let server = MockServer::start();
    server.on("GET", "/api/issues", 400, r#"{"error":"Bad Request"}"#);
    let mut http = client(RetryPolicy {
        max_attempts: 5,
        base_delay: nanos(1),
    });

    let (reply, _) = send(&mut http, &server, issues());
    let err = reply.expect_err("must fail");

    assert!(
        matches!(err, RemoteError::Http { status: 400, .. }),
        "got {err:?}"
    );
    assert_eq!(
        server.requests().len(),
        1,
        "a non-retryable status must not be retried"
    );
}

#[test]
fn write_count_is_zero_after_gets_and_counts_post_and_delete() {
    let server = MockServer::start();
    server.on("GET", "/api/issues", 200, r#"[{"id":"3-1"}]"#);
    server.on("POST", "/api/issues", 200, r#"{"idReadable":"EM-1"}"#);
    server.on("DELETE", "/api/issueLinks/EM-5", 200, "");
    let mut http = client(RetryPolicy::none());

    send(&mut http, &server, issues()).0.expect("get");
    send(&mut http, &server, issues()).0.expect("get");
    assert_eq!(http.read_count(), 2);
    assert_eq!(http.write_count(), 0, "GETs must never count as writes");

    let body = read_json(r#"{"summary": "x"}"#).expect("valid JSON");
    let post = Request::post("/api/issues".to_string(), body, "issue");
    send(&mut http, &server, post).0.expect("post");
    assert_eq!(http.write_count(), 1);

    let delete = Request::delete("/api/issueLinks/EM-5".to_string(), "link");
    send(&mut http, &server, delete).0.expect("delete");
    assert_eq!(
        http.write_count(),
        2,
        "POST and DELETE both count as writes"
    );
    assert_eq!(http.read_count(), 2, "writes must not also count as reads");
}

#[test]
fn the_authorization_header_reaches_the_server() {
    let mut http = HttpClient::new(
        "https://example.invalid//",
        Token::new("super-secret-value"),
        RetryPolicy::none(),
    );

    let (url, header) = http.issue(&issues());

    assert_eq!(url, "https://example.invalid/api/issues");
    assert_eq!(
        header, "Bearer super-secret-value",
        "the token must actually transmit, even though it can never be printed"
    );
}

#[test]
fn no_answer_can_leak_the_token() {
    let secret = "super-secret-value";
    let server = MockServer::start();
    server.on("GET", "/api/issues", 500, r#"{"error":"boom"}"#);
    let mut http = HttpClient::new(
        "https://example.invalid",
        Token::new(secret),
        RetryPolicy::none(),
    );
    let err = send(&mut http, &server, issues()).0.expect_err("500 must error");
    assert!(matches!(err, RemoteError::Http { status: 500, .. }));
    assert!(!err.to_string().contains(secret));
    assert!(!format!("{err:?}").contains(secret));

    server.on_drop("GET", "/api/issues");
    let err = send(&mut http, &server, issues()).0.expect_err("must fail to connect");
    assert!(matches!(err, RemoteError::Transport(_)), "got {err:?}");
    assert!(!err.to_string().contains(secret));
}

#[test]
fn a_post_is_repeated_only_if_it_was_turned_away() {
    let policy = RetryPolicy {
        max_attempts: 3,
        base_delay: nanos(10),
    };
    let post = || {
        let body = read_json(r#"{"summary": "x"}"#).expect("valid JSON");
        Request::post("/api/issues".to_string(), body, "issue")
    };

    let server = MockServer::start();
    server.on("POST", "/api/issues", 503, "down");
    let (reply, delays) = send(&mut client(policy), &server, post());
    assert!(
        matches!(reply, Err(RemoteError::Http { status: 503, .. })),
        "{reply:?}"
    );
    assert!(delays.is_empty(), "the issue may have been created");
    assert_eq!(server.requests().len(), 1);

    server.on_sequence(
        "POST",
        "/api/issues",
        vec![(429, "slow".to_string()), (200, "{}".to_string())],
    );
    let (reply, delays) = send(&mut client(policy), &server, post());
    assert!(reply.is_ok(), "{reply:?}");
    assert_eq!(delays, [10_000_000]);

    server.on("DELETE", "/api/issueLinks/EM-5", 503, "down");
    let delete = Request::delete("/api/issueLinks/EM-5".to_string(), "link");
    let (_, delays) = send(&mut client(policy), &server, delete);
    assert_eq!(delays, [10_000_000, 20_000_000]);
}

#[test]
fn a_blank_token_is_no_token() {
    for value in ["", "  ", "\n"] {
        let err = token_from(Some(value.to_string()))
            .err()
            .expect("must fail");
        assert!(matches!(err, RemoteError::Config(_)));
    }
    let token = token_from(Some("abc".to_string()))
        .ok()
        .expect("is a token");
    assert_eq!(token.authorization_header(), "Bearer abc");
}

#[test]
fn an_empty_answer_is_null_and_prose_is_refused() {
    let empty = Attempt::Answered {
        status: 204,
        body: "  \n".to_string(),
    };
    assert_eq!(classify(&empty, "issue").ok(), Some(Json::Null));
    let prose = Attempt::Answered {
        status: 200,
        body: "<html>".to_string(),
    };
    let err = classify(&prose, "issue").err().expect("must fail");
    assert!(
        err.to_string().contains("response was not JSON: "),
        "{}",
        err.to_string()
    );
}

#[test]
fn delays_are_kept_to_the_nanosecond() {
    let policy = RetryPolicy {
        max_attempts: 3,
        base_delay: 1_500_001,
    };
    assert_eq!(policy.delay_for(0), 1_500_001);
    assert_eq!(policy.delay_for(4), 24_000_016);
    assert_eq!(RetryPolicy::default().base_delay, nanos(500));
}

#[test]
fn an_answer_that_ends_the_request_needs_no_delay() {
    let http = client(RetryPolicy {
        max_attempts: u32::MAX,
        base_delay: u64::MAX,
    });
    let answered = |status: u16| Attempt::Answered {
        status,
        body: "{}".to_string(),
    };
    let far = u32::MAX;
    assert_eq!(
        http.judge(&issues(), far, &answered(200)),
        Verdict::Done(Ok(Json::Object(vec![])))
    );
    assert!(matches!(
        http.judge(&issues(), far, &answered(404)),
        Verdict::Done(Err(RemoteError::Http { status: 404, .. }))
    ));
    let broken = Attempt::Broken("no route".to_string());
    assert!(matches!(
        http.judge(&issues(), far, &broken),
        Verdict::Done(Err(RemoteError::Transport(_)))
    ));
    let post = Request::post("/api/issues".to_string(), Json::Null, "issue");
    assert!(matches!(
        http.judge(&post, far, &answered(503)),
        Verdict::Done(Err(RemoteError::Http { status: 503, .. }))
    ));
}

#[test]
fn the_body_of_a_request_is_written_as_json() {
    assert_eq!(issues().body_text(), Ok(None));
    let body = read_json(r#"{"summary": "a \"b\"", "project": {"id": "0-1"}}"#).expect("valid JSON");
    let post = Request::post("/api/issues".to_string(), body, "issue");
    assert_eq!(
        post.body_text(),
        Ok(Some(
            r#"{"project":{"id":"0-1"},"summary":"a \"b\""}"#.to_string()
        ))
    );

    let number = Request::post("/api/issues".to_string(), Json::Int(i128::MAX), "issue");
    assert_eq!(
        number.body_text(),
        Err(RemoteError::Transport(
            "request body was not JSON: number out of range".to_string()
        ))
    );
    assert_eq!(
        body_to_send(Err("why".to_string())),
        Err(RemoteError::Transport(
            "request body was not JSON: why".to_string()
        ))
    );
    assert_eq!(body_to_send(Ok("[]".to_string())), Ok("[]".to_string()));
}
