//! Requests, and what becomes of their answers.
//!
//! Nothing here sends anything. A [`Request`] says what is to be sent; what
//! came back is judged by [`HttpClient::judge`], which either hands out the
//! final reply or asks for another attempt after a delay.

use crate::json;
use crate::json::{read_json, write_json, Json};
use crate::remote::error;
use crate::remote::error::{RemoteError, RemoteErrorView};
use crate::text;
use crate::text::{chars_of, trim};
use vstd::prelude::*;
use vstd::string::*;

verus! {

broadcast use vstd::string::group_string_axioms;

/// The only place a credential is read from.
pub const TOKEN_ENV: &'static str = "BR_YOUTRACK_TOKEN";

/// A bearer token. It has no printable form: the one thing that can be got
/// out of it is the header that it is sent in.
#[derive(Clone)]
pub struct Token(String);

impl View for Token {
    type V = Seq<char>;

    closed spec fn view(&self) -> Seq<char> {
        self.0@
    }
}

impl Token {
    /// Wraps a raw token.
    pub fn new(value: &str) -> (r: Token)
        ensures
            r@ == value@,
    {
        Token(value.to_owned())
    }

    /// The value of the `Authorization` header.
    pub fn authorization_header(&self) -> (r: String)
        ensures
            r@ == "Bearer "@ + self@,
    {
        let mut out = "Bearer ".to_owned();
        out.append(self.0.as_str());
        out
    }
}

/// The advice to set the token.
pub open spec fn token_missing() -> Seq<char> {
    "BR_YOUTRACK_TOKEN is not set. `br remote` reads its credential from that variable and from nowhere else, so no file br writes can leak it. Set it first, e.g. `export BR_YOUTRACK_TOKEN=perm-…`."@
}

/// Takes the token from the value of the environment variable: it must be set
/// and not blank.
pub fn token_from(value: Option<String>) -> (r: Result<Token, RemoteError>)
    ensures
        error::seen_result(r) == (match value {
            Some(s) if text::trimmed(s@).len() > 0 => Ok(s@),
            _ => Err(RemoteErrorView::Config(token_missing())),
        }),
{
    if let Some(s) = value {
        if !trim(s.as_str()).is_empty() {
            return Ok(Token::new(s.as_str()));
        }
    }
    Err(
        RemoteError::Config(
            "BR_YOUTRACK_TOKEN is not set. `br remote` reads its credential from that variable and from nowhere else, so no file br writes can leak it. Set it first, e.g. `export BR_YOUTRACK_TOKEN=perm-…`.".to_owned(),
        ),
    )
}

/// How often a request is tried, and how long to wait in between.
#[derive(Debug, Clone, Copy, PartialEq, Eq, Structural)]
pub struct RetryPolicy {
    pub max_attempts: u32,
    /// The first delay, in nanoseconds.
    pub base_delay: u64,
}

impl Default for RetryPolicy {
    fn default() -> (r: RetryPolicy)
        ensures
            r == (RetryPolicy { max_attempts: 5, base_delay: 500_000_000 }),
    {
        RetryPolicy { max_attempts: 5, base_delay: 500_000_000 }
    }
}

/// Two to the power of `n`.
pub open spec fn doubled(n: nat) -> nat
    decreases n,
{
    if n == 0 {
        1
    } else {
        2 * doubled((n - 1) as nat)
    }
}

/// Two to the power of `attempt`, or the largest number of 32 bits where
/// that is less.
pub open spec fn backoff(attempt: u32) -> nat {
    if attempt < 32 {
        doubled(attempt as nat)
    } else {
        u32::MAX as nat
    }
}

/// A delay of so many nanoseconds can be waited for: its whole seconds fit in
/// 64 bits.
pub open spec fn can_wait(delay: int) -> bool {
    delay / 1_000_000_000 <= u64::MAX
}

proof fn doubled_bound(n: nat)
    ensures
        1 <= doubled(n),
        n <= 31 ==> doubled(n) <= 0x8000_0000,
    decreases n,
{
    if n > 0 {
        doubled_bound((n - 1) as nat);
    }
    if n <= 31 {
        assert(doubled(31) == 0x8000_0000) by {
            reveal_with_fuel(doubled, 33);
        }
        doubled_grows(n, 31);
    }
}

proof fn doubled_grows(a: nat, b: nat)
    requires
        a <= b,
    ensures
        doubled(a) <= doubled(b),
    decreases b,
{
    if a < b {
        doubled_grows(a, (b - 1) as nat);
    }
}

impl RetryPolicy {
    /// A policy that never tries again.
    pub fn none() -> (r: RetryPolicy)
        ensures
            r == (RetryPolicy { max_attempts: 1, base_delay: 0 }),
    {
        RetryPolicy { max_attempts: 1, base_delay: 0 }
    }

    /// The delay after the zero-based `attempt`, in nanoseconds: the first
    /// one, doubled with each attempt.
    pub fn delay_for(&self, attempt: u32) -> (r: u128)
        requires
            can_wait(self.base_delay * backoff(attempt)),
        ensures
            r == self.base_delay * backoff(attempt),
    {
        let factor: u32 = backoff_factor(attempt);
        proof {
            assert(self.base_delay * factor <= u64::MAX * u32::MAX) by (nonlinear_arith)
                requires
                    self.base_delay <= u64::MAX,
                    factor <= u32::MAX,
            ;
            assert(0 <= self.base_delay * factor) by (nonlinear_arith)
                requires
                    0 <= self.base_delay,
                    0 <= factor,
            ;
        }
        (self.base_delay as u128) * (factor as u128)
    }

    /// Whether `err` on the zero-based `attempt` warrants another one.
    pub fn should_retry(&self, err: &RemoteError, attempt: u32) -> (r: bool)
        requires
            error::may_pass(err@) ==> attempt < u32::MAX,
        ensures
            r == (error::may_pass(err@) && attempt + 1 < self.max_attempts),
    {
        err.is_retryable() && attempt + 1 < self.max_attempts
    }
}

/// Two to the power of `attempt`, capped at 32 bits.
pub(crate) fn backoff_factor(attempt: u32) -> (r: u32)
    ensures
        r == backoff(attempt),
{
    if attempt >= 32 {
        return u32::MAX;
    }
    let mut factor: u32 = 1;
    let mut i: u32 = 0;
    while i < attempt
        invariant
            i <= attempt,
            attempt < 32,
            factor == doubled(i as nat),
        decreases attempt - i,
    {
        proof {
            doubled_bound((i + 1) as nat);
        }
        factor = factor * 2;
        i += 1;
    }
    factor
}

/// What a request does.
#[derive(Debug, Clone, Copy, PartialEq, Eq, Structural)]
pub enum Method {
    Get,
    Post,
    Delete,
}

/// One request to the mirror. `entity` names in words what it is about.
#[derive(Debug, Clone, PartialEq, Eq)]
pub struct Request {
    pub method: Method,
    pub path: String,
    pub body: Option<Json>,
    pub entity: String,
}

/// What contracts say of a [`Request`].
pub struct RequestView {
    pub method: Method,
    pub path: Seq<char>,
    pub body: Option<json::JsonView>,
    pub entity: Seq<char>,
}

impl View for Request {
    type V = RequestView;

    open spec fn view(&self) -> RequestView {
        RequestView {
            method: self.method,
            path: self.path@,
            body: text::seen(self.body),
            entity: self.entity@,
        }
    }
}

/// Reading a path.
pub open spec fn get_of(path: Seq<char>, entity: Seq<char>) -> RequestView {
    RequestView { method: Method::Get, path, body: None, entity }
}

/// Sending a body to a path.
pub open spec fn post_of(path: Seq<char>, body: json::JsonView, entity: Seq<char>) -> RequestView {
    RequestView { method: Method::Post, path, body: Some(body), entity }
}

/// Removing what stands at a path.
pub open spec fn delete_of(path: Seq<char>, entity: Seq<char>) -> RequestView {
    RequestView { method: Method::Delete, path, body: None, entity }
}

impl Request {
    /// Reading a path.
    pub fn get(path: String, entity: &str) -> (r: Request)
        ensures
            r@ == get_of(path@, entity@),
    {
        Request { method: Method::Get, path, body: None, entity: entity.to_owned() }
    }

    /// Sending a body to a path.
    pub fn post(path: String, body: Json, entity: &str) -> (r: Request)
        ensures
            r@ == post_of(path@, body@, entity@),
    {
        Request { method: Method::Post, path, body: Some(body), entity: entity.to_owned() }
    }

    /// Removing what stands at a path.
    pub fn delete(path: String, entity: &str) -> (r: Request)
        ensures
            r@ == delete_of(path@, entity@),
    {
        Request { method: Method::Delete, path, body: None, entity: entity.to_owned() }
    }
}

/// What is sent for a body that has been written as a text, or not.
pub open spec fn body_sent(writing: Result<Seq<char>, Seq<char>>) -> Result<
    Seq<char>,
    RemoteErrorView,
> {
    match writing {
        Ok(body) => Ok(body),
        Err(complaint) => Err(
            RemoteErrorView::Transport("request body was not JSON: "@ + complaint),
        ),
    }
}

/// What is sent for a body that has been written as a text, or not.
pub fn body_to_send(writing: Result<String, String>) -> (r: Result<String, RemoteError>)
    ensures
        (match r {
            Ok(body) => Ok(body@),
            Err(e) => Err(e@),
        }) == body_sent(
            match writing {
                Ok(body) => Ok(body@),
                Err(complaint) => Err(complaint@),
            },
        ),
{
    match writing {
        Ok(body) => Ok(body),
        Err(complaint) => {
            let mut out = "request body was not JSON: ".to_owned();
            out.append(complaint.as_str());
            Err(RemoteError::Transport(out))
        },
    }
}

impl Request {
    /// The text of the body, where the request has one.
    pub fn body_text(&self) -> (r: Result<Option<String>, RemoteError>)
        ensures
            (match r {
                Ok(body) => Ok(text::seen(body)),
                Err(e) => Err(e@),
            }) == (match self@.body {
                None => Ok(None),
                Some(body) => match body_sent(json::written(body)) {
                    Ok(sent) => Ok(Some(sent)),
                    Err(e) => Err(e),
                },
            }),
    {
        match &self.body {
            None => Ok(None),
            Some(body) => match body_to_send(write_json(body)) {
                Ok(sent) => Ok(Some(sent)),
                Err(e) => Err(e),
            },
        }
    }
}

/// What came back from one attempt.
#[derive(Debug, Clone, PartialEq, Eq)]
pub enum Attempt {
    /// An answer, with its status and its body as text.
    Answered { status: u16, body: String },
    /// No answer that could be read, and why.
    Broken(String),
}

/// What contracts say of an [`Attempt`].
pub enum AttemptView {
    Answered { status: u16, body: Seq<char> },
    Broken(Seq<char>),
}

impl View for Attempt {
    type V = AttemptView;

    open spec fn view(&self) -> AttemptView {
        match self {
            Attempt::Answered { status, body } => AttemptView::Answered {
                status: *status,
                body: body@,
            },
            Attempt::Broken(reason) => AttemptView::Broken(reason@),
        }
    }
}

/// What an attempt means, given its body's reading as JSON: a value, nothing
/// for a blank body, or an error.
pub open spec fn attempt_meaning(
    a: AttemptView,
    reading: Result<json::JsonView, Seq<char>>,
    entity: Seq<char>,
) -> Result<json::JsonView, RemoteErrorView> {
    match a {
        AttemptView::Broken(reason) => Err(RemoteErrorView::Transport(reason)),
        AttemptView::Answered { status, body } => if status < 200 || status >= 300 {
            Err(error::response_error(status, body, reading, entity))
        } else if text::trimmed(body).len() == 0 {
            Ok(json::JsonView::Null)
        } else {
            match reading {
                Ok(value) => Ok(value),
                Err(complaint) => Err(
                    RemoteErrorView::Transport("response was not JSON: "@ + complaint),
                ),
            }
        },
    }
}

/// What the body of an attempt reads as.
pub open spec fn attempt_reading(a: AttemptView) -> Result<json::JsonView, Seq<char>> {
    match a {
        AttemptView::Answered { status: _, body } => json::json_reading(body),
        AttemptView::Broken(reason) => Err(reason),
    }
}

/// What an attempt means for the request about `entity`.
pub fn classify(attempt: &Attempt, entity: &str) -> (r: Result<Json, RemoteError>)
    ensures
        error::seen_result(r) == attempt_meaning(attempt@, attempt_reading(attempt@), entity@),
{
    match attempt {
        Attempt::Answered { status, body } => {
            classify_reading(*status, body.as_str(), read_json(body.as_str()), entity)
        },
        Attempt::Broken(reason) => Err(RemoteError::Transport(reason.clone())),
    }
}

/// What an answer means whose body has been read as JSON, or not.
pub fn classify_reading(
    status: u16,
    body: &str,
    reading: Result<Json, String>,
    entity: &str,
) -> (r: Result<Json, RemoteError>)
    ensures
        error::seen_result(r) == attempt_meaning(
            AttemptView::Answered { status, body: body@ },
            match reading {
                Ok(j) => Ok(j@),
                Err(e) => Err(e@),
            },
            entity@,
        ),
{
    if status < 200 || status >= 300 {
        return Err(RemoteError::from_reading(status, body, reading, entity));
    }
    if trim(body).is_empty() {
        return Ok(Json::Null);
    }
    match reading {
        Ok(value) => Ok(value),
        Err(complaint) => {
            let mut out = "response was not JSON: ".to_owned();
            out.append(complaint.as_str());
            Err(RemoteError::Transport(out))
        },
    }
}

/// What to do after an attempt.
#[derive(Debug, PartialEq, Eq)]
pub enum Verdict {
    /// The request is over, with this reply.
    Done(Result<Json, RemoteError>),
    /// Wait so many nanoseconds and send it again.
    Again { delay: u128 },
}

/// What contracts say of a [`Verdict`].
pub enum VerdictView {
    Done(Result<json::JsonView, RemoteErrorView>),
    Again { delay: int },
}

impl View for Verdict {
    type V = VerdictView;

    open spec fn view(&self) -> VerdictView {
        match self {
            Verdict::Done(reply) => VerdictView::Done(error::seen_result(*reply)),
            Verdict::Again { delay } => VerdictView::Again { delay: *delay as int },
        }
    }
}

/// The request may be sent again after `e`. One that posts may not, unless it
/// was turned away unread: a server that fails may have done what it was asked
/// for all the same, and doing it twice is how a mirror doubles.
pub open spec fn repeatable(method: Method, e: RemoteErrorView) -> bool {
    method is Post ==> (e matches RemoteErrorView::Http { status, .. } && status == 429)
}

/// Whether a request may be sent again after `err`.
pub fn may_retry(method: Method, err: &RemoteError) -> (r: bool)
    ensures
        r == repeatable(method, err@),
{
    match method {
        Method::Post => match err {
            RemoteError::Http { status, .. } => *status == 429,
            _ => false,
        },
        _ => true,
    }
}

/// The status of an answer allows the request to be sent again.
pub open spec fn may_ask_again(method: Method, outcome: AttemptView) -> bool {
    outcome matches AttemptView::Answered { status, .. } && (status == 429 || (500 <= status < 600
        && !(method is Post)))
}

/// What to do after the zero-based `attempt` at a request that meant `reply`.
pub open spec fn verdict_on(
    policy: RetryPolicy,
    method: Method,
    attempt: u32,
    reply: Result<json::JsonView, RemoteErrorView>,
) -> VerdictView {
    if reply matches Err(e) && repeatable(method, e) && error::may_pass(e) && attempt + 1
        < policy.max_attempts {
        VerdictView::Again { delay: (policy.base_delay * backoff(attempt)) as int }
    } else {
        VerdictView::Done(reply)
    }
}

/// `s` without the slashes at its end.
pub open spec fn without_slashes(s: Seq<char>) -> Seq<char>
    decreases s.len(),
{
    if s.len() > 0 && s.last() == '/' {
        without_slashes(s.drop_last())
    } else {
        s
    }
}

/// Where requests go, how they are signed, how often they are tried, and how
/// many there have been.
#[derive(Clone)]
pub struct HttpClient {
    base_url: String,
    token: Token,
    retry: RetryPolicy,
    reads: u32,
    writes: u32,
}

/// What contracts say of an [`HttpClient`].
pub struct HttpClientView {
    pub base_url: Seq<char>,
    pub token: Seq<char>,
    pub retry: RetryPolicy,
    pub reads: u32,
    pub writes: u32,
}

impl View for HttpClient {
    type V = HttpClientView;

    closed spec fn view(&self) -> HttpClientView {
        HttpClientView {
            base_url: self.base_url@,
            token: self.token@,
            retry: self.retry,
            reads: self.reads,
            writes: self.writes,
        }
    }
}

impl HttpClient {
    /// A client that has not sent anything yet.
    pub fn new(base_url: &str, token: Token, retry: RetryPolicy) -> (r: HttpClient)
        ensures
            r@ == (HttpClientView {
                base_url: without_slashes(base_url@),
                token: token@,
                retry,
                reads: 0,
                writes: 0,
            }),
    {
        let chars = chars_of(base_url);
        let mut len: usize = chars.len();
        assert(chars@.take(len as int) =~= chars@);
        while len > 0 && chars[len - 1] == '/'
            invariant
                len <= chars@.len(),
                chars@ == base_url@,
                without_slashes(base_url@) == without_slashes(chars@.take(len as int)),
            decreases len,
        {
            assert(chars@.take(len as int).drop_last() =~= chars@.take(len - 1));
            len -= 1;
        }
        let base = base_url.substring_char(0, len);
        assert(base@ =~= chars@.take(len as int));
        HttpClient { base_url: base.to_owned(), token, retry, reads: 0, writes: 0 }
    }

    /// Requests issued that could not change the mirror.
    pub fn read_count(&self) -> (r: u32)
        ensures
            r == self@.reads,
    {
        self.reads
    }

    /// Requests issued that could change the mirror.
    pub fn write_count(&self) -> (r: u32)
        ensures
            r == self@.writes,
    {
        self.writes
    }

    /// Counts a request as it is issued, however often it is then tried, and
    /// says where it goes and what header signs it.
    pub fn issue(&mut self, request: &Request) -> (r: (String, String))
        ensures
            r.0@ == old(self)@.base_url + request.path@,
            r.1@ == "Bearer "@ + old(self)@.token,
            final(self)@ == (match request.method {
                Method::Get => HttpClientView {
                    reads: counted(old(self)@.reads),
                    ..old(self)@
                },
                _ => HttpClientView { writes: counted(old(self)@.writes), ..old(self)@ },
            }),
    {
        match request.method {
            Method::Get => {
                self.reads = self.reads.wrapping_add(1);
            },
            _ => {
                self.writes = self.writes.wrapping_add(1);
            },
        }
        let mut url = self.base_url.clone();
        url.append(request.path.as_str());
        (url, self.token.authorization_header())
    }

    /// Judges what came back from the zero-based `attempt` at a request.
    pub fn judge(&self, request: &Request, attempt: u32, outcome: &Attempt) -> (r: Verdict)
        requires
            may_ask_again(request.method, outcome@) ==> attempt < u32::MAX,
            may_ask_again(request.method, outcome@) && attempt + 1 < self@.retry.max_attempts
                ==> can_wait(self@.retry.base_delay * backoff(attempt)),
        ensures
            r@ == verdict_on(
                self@.retry,
                request.method,
                attempt,
                attempt_meaning(outcome@, attempt_reading(outcome@), request.entity@),
            ),
    {
        judge_reply(
            &self.retry,
            request.method,
            attempt,
            classify(outcome, request.entity.as_str()),
        )
    }
}

/// The next count, starting again after the last one that 32 bits hold.
pub open spec fn counted(n: u32) -> u32 {
    if n == u32::MAX {
        0
    } else {
        (n + 1) as u32
    }
}

/// What to do after the zero-based `attempt` at a request that meant `reply`.
pub fn judge_reply(
    policy: &RetryPolicy,
    method: Method,
    attempt: u32,
    reply: Result<Json, RemoteError>,
) -> (r: Verdict)
    requires
        reply matches Err(e) && repeatable(method, e@) && error::may_pass(e@) ==> attempt
            < u32::MAX,
        reply matches Err(e) && repeatable(method, e@) && error::may_pass(e@) && attempt + 1
            < policy.max_attempts ==> can_wait(policy.base_delay * backoff(attempt)),
    ensures
        r@ == verdict_on(*policy, method, attempt, error::seen_result(reply)),
{
    match reply {
        Ok(value) => Verdict::Done(Ok(value)),
        Err(err) => {
            if may_retry(method, &err) && policy.should_retry(&err, attempt) {
                Verdict::Again { delay: policy.delay_for(attempt) }
            } else {
                Verdict::Done(Err(err))
            }
        },
    }
}

/// A request is sent again only after a rate limit or a failure of the server
/// itself, and never beyond the number of attempts that the policy allows.
pub proof fn retries_are_bounded(
    policy: RetryPolicy,
    method: Method,
    attempt: u32,
    reply: Result<json::JsonView, RemoteErrorView>,
)
    ensures
        verdict_on(policy, method, attempt, reply) is Again ==> attempt + 1 < policy.max_attempts
            && (reply matches Err(RemoteErrorView::Http { status, .. }) && (status == 429 || 500
            <= status < 600)),
        reply is Ok ==> verdict_on(policy, method, attempt, reply) == VerdictView::Done(reply),
        policy.max_attempts <= 1 ==> verdict_on(policy, method, attempt, reply)
            == VerdictView::Done(reply),
{
}

/// A request that posts is sent again only if it was turned away unread:
/// whatever else went wrong with it, it may have been carried out.
pub proof fn posts_are_not_repeated(
    policy: RetryPolicy,
    attempt: u32,
    reply: Result<json::JsonView, RemoteErrorView>,
)
    ensures
        verdict_on(policy, Method::Post, attempt, reply) is Again ==> (reply matches Err(
            RemoteErrorView::Http { status, .. },
        ) && status == 429),
{
}

/// An attempt gives a value exactly where it was answered with a status of the
/// two hundreds and a body that is blank or reads as JSON; the value is what
/// the body reads as, and nothing for a blank one.
pub proof fn answers_mean_what_they_read_as(
    status: u16,
    body: Seq<char>,
    reading: Result<json::JsonView, Seq<char>>,
    entity: Seq<char>,
)
    ensures
        ({
            let meaning = attempt_meaning(
                AttemptView::Answered { status, body },
                reading,
                entity,
            );
            let blank = text::trimmed(body).len() == 0;
            &&& meaning is Ok <==> 200 <= status <= 299 && (blank || reading is Ok)
            &&& meaning matches Ok(v) ==> if blank {
                v is Null
            } else {
                reading == Ok::<json::JsonView, Seq<char>>(v)
            }
            &&& !(200 <= status <= 299) ==> (meaning matches Err(e) && (e == (
            RemoteErrorView::Http { status, body }) || e == (RemoteErrorView::AlreadyExists {
                entity,
            })))
            &&& (meaning matches Err(RemoteErrorView::AlreadyExists { .. })) <==> !(200 <= status
                <= 299) && (reading matches Ok(v) && json::member(v, "error"@) == Some(
                json::JsonView::Text("must-be-unique"@),
            ))
        }),
{
}

/// A request is sent again exactly where it was turned away by a rate limit,
/// or failed by the server and is no post, and attempts are left.
pub proof fn requests_are_repeated_where_that_may_help(
    policy: RetryPolicy,
    method: Method,
    attempt: u32,
    status: u16,
    body: Seq<char>,
)
    ensures
        verdict_on(
            policy,
            method,
            attempt,
            Err(RemoteErrorView::Http { status, body }),
        ) is Again <==> attempt + 1 < policy.max_attempts && (status == 429 || (500 <= status <= 599
            && !(method is Post))),
{
}

/// Every wait between two attempts is twice as long as the one before it, and
/// the first is the given one.
pub proof fn waits_double(attempt: u32)
    requires
        attempt < 31,
    ensures
        backoff(0) == 1,
        backoff((attempt + 1) as u32) == 2 * backoff(attempt),
{
}

/// A verdict to try again waits for the policy's delay times the power of two
/// that the attempt stands for.
pub proof fn waits_start_with_the_delay(
    policy: RetryPolicy,
    method: Method,
    attempt: u32,
    reply: Result<json::JsonView, RemoteErrorView>,
)
    ensures
        verdict_on(policy, method, attempt, reply) matches VerdictView::Again { delay } ==> delay
            == policy.base_delay * backoff(attempt),
        verdict_on(policy, method, attempt, reply) matches VerdictView::Done(r) ==> r == reply,
{
}

/// What is left of an address without the slashes at its end is its beginning,
/// with nothing but slashes behind it.
pub proof fn only_slashes_are_taken_off(s: Seq<char>)
    ensures
        without_slashes(s).is_prefix_of(s),
        forall|i: int| without_slashes(s).len() <= i < s.len() ==> #[trigger] s[i] == '/',
        without_slashes(s).len() > 0 ==> without_slashes(s).last() != '/',
    decreases s.len(),
{
    if s.len() > 0 && s.last() == '/' {
        let rest = s.drop_last();
        only_slashes_are_taken_off(rest);
        let left = without_slashes(s);
        assert(left =~= s.subrange(0, left.len() as int)) by {
            assert(left =~= rest.subrange(0, left.len() as int));
        }
        assert forall|i: int| left.len() <= i < s.len() implies #[trigger] s[i] == '/' by {
            if i < rest.len() {
                assert(rest[i] == s[i]);
            }
        }
    } else {
        assert(s.subrange(0, s.len() as int) =~= s);
    }
}

} // verus!
