//! A run as a function of the replies that it has had.
//!
//! Nothing in this library sends a request. A run that needs the mirror is
//! worked out from its start each time, with the replies it has had so far:
//! it either comes to its end, or to the next request. Whoever runs it sends
//! that request, adds the reply to the list, and works the run out again.

use crate::json::{Json, JsonView};
use crate::remote::config::MAX_PAGE_SIZE;
use crate::remote::error;
use crate::remote::error::{RemoteError, RemoteErrorView};
use crate::remote::http::{Request, RequestView};
use crate::text;
use vstd::prelude::*;

verus! {

/// The replies that one run may take: as many as there are pages of the
/// largest size whose places 32 bits can count.
pub const MOST_REPLIES: usize = 4_294_967;

/// One reply more, and the place of a page could be beyond 32 bits.
pub proof fn replies_reach_the_last_page()
    ensures
        MOST_REPLIES * MAX_PAGE_SIZE <= u32::MAX < (MOST_REPLIES + 1) * MAX_PAGE_SIZE,
{
}

/// Why a run goes no further for now.
#[derive(Debug, Clone, PartialEq, Eq)]
pub enum Stop {
    /// The next request, to be sent after so many nanoseconds.
    Ask { request: Request, pause: u128 },
    /// The run has failed.
    Fail(RemoteError),
}

/// What contracts say of a [`Stop`].
pub enum StopView {
    Ask { request: RequestView, pause: u128 },
    Fail(RemoteErrorView),
}

impl View for Stop {
    type V = StopView;

    open spec fn view(&self) -> StopView {
        match self {
            Stop::Ask { request, pause } => StopView::Ask { request: request@, pause: *pause },
            Stop::Fail(e) => StopView::Fail(e@),
        }
    }
}

/// The replies to a run, those it has taken into account, and what it has
/// said so far.
pub struct Talk<'a> {
    replies: &'a Vec<Result<Json, RemoteError>>,
    next: usize,
    said: Vec<String>,
}

/// What contracts say of a [`Talk`]: the replies that are left, and what has
/// been said.
pub struct TalkView {
    pub rest: Seq<Result<JsonView, RemoteErrorView>>,
    pub said: Seq<Seq<char>>,
}

/// What contracts say of a list of replies.
pub open spec fn replies_view(s: Seq<Result<Json, RemoteError>>) -> Seq<
    Result<JsonView, RemoteErrorView>,
> {
    s.map_values(|r: Result<Json, RemoteError>| error::seen_result(r))
}

impl<'a> View for Talk<'a> {
    type V = TalkView;

    closed spec fn view(&self) -> TalkView {
        TalkView {
            rest: if self.next < self.replies@.len() {
                replies_view(self.replies@).skip(self.next as int)
            } else {
                Seq::empty()
            },
            said: text::views(self.said@),
        }
    }
}

/// A run that has not taken any reply into account.
pub open spec fn opened(replies: Seq<Result<JsonView, RemoteErrorView>>) -> TalkView {
    TalkView { rest: replies, said: Seq::empty() }
}

/// What a request comes to: its reply, whatever that is, or that it is still
/// to be sent.
pub open spec fn heard(request: RequestView, pause: u128, t: TalkView) -> (
    Result<Result<JsonView, RemoteErrorView>, StopView>,
    TalkView,
) {
    if t.rest.len() == 0 {
        (Err(StopView::Ask { request, pause }), t)
    } else {
        (Ok(t.rest[0]), TalkView { rest: t.rest.drop_first(), ..t })
    }
}

/// What a request comes to whose refusal ends the run.
pub open spec fn asked(request: RequestView, pause: u128, t: TalkView) -> (
    Result<JsonView, StopView>,
    TalkView,
) {
    match heard(request, pause, t) {
        (Ok(Ok(v)), after) => (Ok(v), after),
        (Ok(Err(e)), after) => (Err(StopView::Fail(e)), after),
        (Err(stop), after) => (Err(stop), after),
    }
}

/// Something said on the way.
pub open spec fn saying(line: Seq<char>, t: TalkView) -> TalkView {
    TalkView { said: t.said.push(line), ..t }
}

/// What contracts say of the outcome of a step.
pub open spec fn seen_step<T: View>(r: Result<T, Stop>) -> Result<T::V, StopView> {
    match r {
        Ok(x) => Ok(x@),
        Err(stop) => Err(stop@),
    }
}

/// What contracts say of the outcome of a step that has no value.
pub open spec fn seen_done(r: Result<(), Stop>) -> Result<(), StopView> {
    match r {
        Ok(_) => Ok(()),
        Err(stop) => Err(stop@),
    }
}

impl<'a> Talk<'a> {
    /// Starts a run with the replies that it has had.
    pub fn open(replies: &'a Vec<Result<Json, RemoteError>>) -> (r: Talk<'a>)
        ensures
            r@ == opened(replies_view(replies@)),
    {
        let r = Talk { replies, next: 0, said: Vec::new() };
        assert(r@.rest =~= replies_view(replies@));
        assert(r@.said =~= Seq::empty());
        r
    }

    /// The reply to a request, whatever it is.
    pub fn hear(&mut self, request: Request, pause: u128) -> (r: Result<
        &'a Result<Json, RemoteError>,
        Stop,
    >)
        ensures
            (match r {
                Ok(reply) => Ok(error::seen_result(*reply)),
                Err(stop) => Err(stop@),
            }, final(self)@) == heard(request@, pause, old(self)@),
    {
        if self.next >= self.replies.len() {
            assert(self@.rest.len() == 0);
            return Err(Stop::Ask { request, pause });
        }
        let ghost before = self@.rest;
        let reply = &self.replies[self.next];
        self.next = self.next + 1;
        assert(self@.rest =~= before.drop_first());
        Ok(reply)
    }

    /// The reply to a request whose refusal ends the run.
    pub fn ask(&mut self, request: Request, pause: u128) -> (r: Result<&'a Json, Stop>)
        ensures
            (match r {
                Ok(reply) => Ok(reply@),
                Err(stop) => Err(stop@),
            }, final(self)@) == asked(request@, pause, old(self)@),
    {
        match self.hear(request, pause) {
            Ok(reply) => match reply {
                Ok(value) => Ok(value),
                Err(e) => Err(Stop::Fail(e.copy())),
            },
            Err(stop) => Err(stop),
        }
    }

    /// Says something on the way.
    pub fn say(&mut self, line: &str)
        ensures
            final(self)@ == saying(line@, old(self)@),
    {
        let one = line.to_owned();
        proof {
            text::views_push(self.said@, one);
        }
        self.said.push(one);
    }

    /// Everything that has been said.
    pub fn into_said(self) -> (r: Vec<String>)
        ensures
            text::views(r@) == self@.said,
    {
        self.said
    }
}

} // verus!
