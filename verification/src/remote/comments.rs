//! Comments, and how either side knows its own.
//!
//! A comment that goes out carries a marker as its first line; a comment that
//! comes in is kept under the name of the integration user. Each side reads
//! the other's mark, so nothing has to be remembered between two runs.

use crate::json;
use crate::json::{entry, object_1, text_value, Json, JsonView};
use crate::remote::error;
use crate::remote::error::{RemoteError, RemoteErrorView};
use crate::remote::http;
use crate::remote::http::Request;
use crate::remote::model::RemoteIssue;
use crate::remote::talk;
use crate::remote::talk::{Stop, StopView, Talk, TalkView, MOST_REPLIES};
use crate::text;
use crate::text::{decimal_of, same_text, signed_decimal_of, starts_with};
use crate::time;
use crate::time::{instant_of_millis, Timestamp};
use vstd::prelude::*;
use vstd::string::*;

verus! {

broadcast use vstd::string::group_string_axioms;

/// The fields that the fetch of comments asks for.
pub const COMMENT_FIELDS: &'static str = "id,text,author(login),created";

/// How many comments are asked for at a time.
pub const COMMENT_PAGE_SIZE: u32 = 500;

/// The first line of every comment that goes out.
pub const BR_MARKER: &'static str = "[br]";

/// The name that a comment from the mirror is kept under.
pub const YOUTRACK_AUTHOR: &'static str = "youtrack";

/// One comment of the mirror.
#[derive(Debug, Clone, PartialEq, Eq)]
pub struct RemoteComment {
    pub id: String,
    pub text: String,
    pub author_login: String,
    pub created: Timestamp,
}

/// What contracts say of a [`RemoteComment`].
pub struct RemoteCommentView {
    pub id: Seq<char>,
    pub text: Seq<char>,
    pub author_login: Seq<char>,
    pub created: Timestamp,
}

impl View for RemoteComment {
    type V = RemoteCommentView;

    open spec fn view(&self) -> RemoteCommentView {
        RemoteCommentView {
            id: self.id@,
            text: self.text@,
            author_login: self.author_login@,
            created: self.created,
        }
    }
}

impl RemoteComment {
    /// A comment made at the start of 1970.
    pub fn for_test(id: &str, text: &str, author_login: &str) -> (r: RemoteComment)
        ensures
            r@ == (RemoteCommentView {
                id: id@,
                text: text@,
                author_login: author_login@,
                created: Timestamp { secs: 0, nanos: 0 },
            }),
    {
        RemoteComment {
            id: id.to_owned(),
            text: text.to_owned(),
            author_login: author_login.to_owned(),
            created: Timestamp { secs: 0, nanos: 0 },
        }
    }

    /// An equal comment.
    pub fn copy(&self) -> (r: RemoteComment)
        ensures
            r@ == self@,
    {
        RemoteComment {
            id: self.id.clone(),
            text: self.text.clone(),
            author_login: self.author_login.clone(),
            created: self.created,
        }
    }
}

/// A bead's comment, as far as a sync looks at it.
#[derive(Debug, Clone, PartialEq, Eq)]
pub struct LocalComment {
    pub author: String,
    pub text: String,
}

/// What contracts say of a [`LocalComment`].
pub struct LocalCommentView {
    pub author: Seq<char>,
    pub text: Seq<char>,
}

impl View for LocalComment {
    type V = LocalCommentView;

    open spec fn view(&self) -> LocalCommentView {
        LocalCommentView { author: self.author@, text: self.text@ }
    }
}

/// The comments of one issue that go out, and those that come in.
#[derive(Debug, Clone, PartialEq, Eq)]
pub struct CommentPlan {
    pub to_push: Vec<String>,
    pub to_pull: Vec<RemoteComment>,
}

impl Default for CommentPlan {
    fn default() -> (r: CommentPlan)
        ensures
            r.to_push@.len() == 0,
            r.to_pull@.len() == 0,
    {
        CommentPlan { to_push: Vec::new(), to_pull: Vec::new() }
    }
}

/// The request for the page of comments that starts at `skip`.
pub open spec fn comments_page_of(id_readable: Seq<char>, skip: u32) -> http::RequestView {
    http::get_of(
        "/api/issues/"@ + id_readable + "/comments?fields="@ + COMMENT_FIELDS@ + "&$skip="@
            + text::decimal(skip as int) + "&$top="@ + text::decimal(COMMENT_PAGE_SIZE as int),
        "comments"@,
    )
}

/// When a fetched comment was made, in milliseconds.
pub open spec fn created_millis(raw: JsonView) -> int {
    match json::number_at(raw, "created"@) {
        Some(n) => n,
        None => 0,
    }
}

/// One fetched comment.
pub open spec fn comment_read(id_readable: Seq<char>, raw: JsonView) -> Result<
    RemoteCommentView,
    RemoteErrorView,
> {
    if time::in_calendar(created_millis(raw)) {
        Ok(
            RemoteCommentView {
                id: json::text_or_empty(raw, "id"@),
                text: json::text_or_empty(raw, "text"@),
                author_login: match json::nested_text(raw, "author"@, "login"@) {
                    Some(s) => s,
                    None => Seq::empty(),
                },
                created: time::instant_at(created_millis(raw)),
            },
        )
    } else {
        Err(
            RemoteErrorView::Config(
                "a comment on "@ + id_readable + " reports created="@ + text::decimal(
                    created_millis(raw),
                ) + ", which is not a representable instant"@,
            ),
        )
    }
}

/// The comments of a page, up to the first that cannot be read.
pub open spec fn comments_read(id_readable: Seq<char>, items: Seq<JsonView>) -> Result<
    Seq<RemoteCommentView>,
    RemoteErrorView,
>
    decreases items.len(),
{
    if items.len() == 0 {
        Ok(Seq::empty())
    } else {
        match comments_read(id_readable, items.drop_last()) {
            Err(e) => Err(e),
            Ok(front) => match comment_read(id_readable, items.last()) {
                Err(e) => Err(e),
                Ok(c) => Ok(front.push(c)),
            },
        }
    }
}

/// The refusal of a page that is no list.
pub open spec fn not_comments(id_readable: Seq<char>, raw: JsonView) -> RemoteErrorView {
    RemoteErrorView::Config(
        "the comment list for "@ + id_readable + " returned a JSON "@ + json::kind_word(raw)
            + ", not an array"@,
    )
}

/// What a page of comments comes to.
pub open spec fn comments_page_read(id_readable: Seq<char>, raw: JsonView) -> Result<
    Seq<RemoteCommentView>,
    RemoteErrorView,
> {
    match raw {
        JsonView::Array(items) => comments_read(id_readable, items),
        _ => Err(not_comments(id_readable, raw)),
    }
}

/// Reads one fetched comment.
pub fn parse_comment(id_readable: &str, raw: &Json) -> (r: Result<RemoteComment, RemoteError>)
    ensures
        error::seen_result(r) == comment_read(id_readable@, raw@),
{
    let millis: i64 = match raw.get("created") {
        Some(v) => match v.as_i64() {
            Some(n) => n,
            None => 0,
        },
        None => 0,
    };
    let created = match instant_of_millis(millis) {
        Some(t) => t,
        None => {
            let mut out = "a comment on ".to_owned();
            out.append(id_readable);
            out.append(" reports created=");
            out.append(signed_decimal_of(millis).as_str());
            out.append(", which is not a representable instant");
            return Err(RemoteError::Config(out));
        },
    };
    let author_login = match raw.nested_text("author", "login") {
        Some(s) => s.to_owned(),
        None => String::new(),
    };
    Ok(
        RemoteComment {
            id: raw.text_or_empty("id").to_owned(),
            text: raw.text_or_empty("text").to_owned(),
            author_login,
            created,
        },
    )
}

/// A fetch of an issue's comments under way.
pub struct CommentFetch {
    pub id_readable: String,
    pub skip: u32,
    pub comments: Vec<RemoteComment>,
}

proof fn comments_refused_early(id_readable: Seq<char>, items: Seq<JsonView>, k: int)
    requires
        0 <= k <= items.len(),
        comments_read(id_readable, items.take(k)) is Err,
    ensures
        comments_read(id_readable, items) == comments_read(id_readable, items.take(k)),
    decreases items.len(),
{
    if k == items.len() {
        assert(items.take(k) =~= items);
    } else {
        assert(items.drop_last().take(k) =~= items.take(k));
        comments_refused_early(id_readable, items.drop_last(), k);
    }
}

impl CommentFetch {
    /// A fetch that has not read anything yet.
    pub fn start(id_readable: &str) -> (r: CommentFetch)
        ensures
            r.id_readable@ == id_readable@,
            r.skip == 0,
            r.comments@.len() == 0,
    {
        CommentFetch { id_readable: id_readable.to_owned(), skip: 0, comments: Vec::new() }
    }

    /// The request for the next page.
    pub fn request(&self) -> (r: Request)
        ensures
            r@ == comments_page_of(self.id_readable@, self.skip),
    {
        let mut path = "/api/issues/".to_owned();
        path.append(self.id_readable.as_str());
        path.append("/comments?fields=");
        path.append(COMMENT_FIELDS);
        path.append("&$skip=");
        path.append(decimal_of(self.skip as u64).as_str());
        path.append("&$top=");
        path.append(decimal_of(COMMENT_PAGE_SIZE as u64).as_str());
        Request::get(path, "comments")
    }

    /// Takes a page. One that is not full is the last: then the result is
    /// `true`. Anything but a list of readable comments is refused.
    pub fn receive(&mut self, raw: &Json) -> (r: Result<bool, RemoteError>)
        requires
            json::items_of(Some(raw@)).len() >= COMMENT_PAGE_SIZE ==> old(self).skip
                + COMMENT_PAGE_SIZE <= u32::MAX,
        ensures
            final(self).id_readable == old(self).id_readable,
            (match comments_page_read(old(self).id_readable@, raw@) {
                Err(e) => r is Err && r->Err_0@ == e,
                Ok(more) => {
                    let full = json::items_of(Some(raw@)).len() >= COMMENT_PAGE_SIZE;
                    &&& r == Ok::<bool, RemoteError>(!full)
                    &&& text::views(final(self).comments@) == text::views(old(self).comments@)
                        + more
                    &&& final(self).skip == old(self).skip + (if full {
                        COMMENT_PAGE_SIZE as int
                    } else {
                        0
                    })
                },
            }),
    {
        let items = match raw.as_array() {
            Some(items) => items,
            None => {
                let mut out = "the comment list for ".to_owned();
                out.append(self.id_readable.as_str());
                out.append(" returned a JSON ");
                out.append(raw.kind());
                out.append(", not an array");
                return Err(RemoteError::Config(out));
            },
        };
        let ghost all = text::views(items@);
        let ghost start = text::views(self.comments@);
        let ghost id = self.id_readable@;
        let mut i: usize = 0;
        assert(comments_read(id, all.take(0)) == Ok::<Seq<RemoteCommentView>, RemoteErrorView>(
            Seq::empty(),
        ));
        assert(start + Seq::<RemoteCommentView>::empty() =~= start);
        while i < items.len()
            invariant
                i <= items@.len(),
                all == text::views(items@),
                raw@ == JsonView::Array(all),
                id == self.id_readable@,
                self.id_readable == old(self).id_readable,
                self.skip == old(self).skip,
                comments_read(id, all.take(i as int)) is Ok,
                text::views(self.comments@) == start + comments_read(
                    id,
                    all.take(i as int),
                )->Ok_0,
            decreases items@.len() - i,
        {
            assert(all.take(i + 1).drop_last() =~= all.take(i as int));
            assert(all.take(i + 1).last() == items@[i as int]@);
            match parse_comment(self.id_readable.as_str(), &items[i]) {
                Ok(c) => {
                    let ghost before = comments_read(id, all.take(i as int))->Ok_0;
                    proof {
                        text::views_push(self.comments@, c);
                        assert((start + before).push(c@) =~= start + before.push(c@));
                    }
                    self.comments.push(c);
                },
                Err(e) => {
                    proof {
                        comments_refused_early(id, all, i + 1);
                    }
                    return Err(e);
                },
            }
            i += 1;
        }
        assert(all.take(i as int) =~= all);
        if (items.len() as u64) < COMMENT_PAGE_SIZE as u64 {
            return Ok(true);
        }
        self.skip = self.skip + COMMENT_PAGE_SIZE;
        Ok(false)
    }
}

/// The request that adds a comment.
pub open spec fn comment_post_of(id_readable: Seq<char>, body: Seq<char>) -> http::RequestView {
    http::post_of(
        "/api/issues/"@ + id_readable + "/comments?fields=id"@,
        JsonView::Object(seq![("text"@, JsonView::Text(body))]),
        "comment"@,
    )
}

/// The request that adds a comment, its text taken as it is.
pub fn push_comment(id_readable: &str, body: &str) -> (r: Request)
    ensures
        r@ == comment_post_of(id_readable@, body@),
{
    let mut path = "/api/issues/".to_owned();
    path.append(id_readable);
    path.append("/comments?fields=id");
    Request::post(path, object_1(entry("text", text_value(body))), "comment")
}

/// Whether both sides count the same number of comments. Where they do the
/// comments are not fetched.
pub fn comment_counts_agree(remote: &RemoteIssue, local_count: u32) -> (r: bool)
    ensures
        r == (remote.comments_count == local_count),
{
    remote.comments_count == local_count
}

/// The first line of the text is the marker.
pub open spec fn marked(s: Seq<char>) -> bool {
    s == BR_MARKER@ || (BR_MARKER@ + "\n"@).is_prefix_of(s) || (BR_MARKER@
        + "\r\n"@).is_prefix_of(s)
}

/// Whether the first line of the text is the marker.
pub fn is_br_echo(s: &str) -> (r: bool)
    ensures
        r == marked(s@),
{
    let mut unix = BR_MARKER.to_owned();
    unix.append("\n");
    let mut dos = BR_MARKER.to_owned();
    dos.append("\r\n");
    same_text(s, BR_MARKER) || starts_with(s, unix.as_str()) || starts_with(s, dos.as_str())
}

/// Whether the author is the integration user: then the comment came from
/// the mirror.
pub fn is_youtrack_echo(author: &str) -> (r: bool)
    ensures
        r == (author@ == YOUTRACK_AUTHOR@),
{
    same_text(author, YOUTRACK_AUTHOR)
}

/// The text behind the marker's line.
pub open spec fn unmarked(s: Seq<char>) -> Seq<char> {
    if BR_MARKER@.is_prefix_of(s) {
        let rest = s.skip(BR_MARKER@.len() as int);
        if "\r\n"@.is_prefix_of(rest) {
            rest.skip("\r\n"@.len() as int)
        } else if "\n"@.is_prefix_of(rest) {
            rest.skip("\n"@.len() as int)
        } else {
            rest
        }
    } else {
        s
    }
}

fn behind<'a>(s: &'a str, prefix: &str) -> (r: &'a str)
    requires
        prefix@.is_prefix_of(s@),
    ensures
        r@ == s@.skip(prefix@.len() as int),
{
    let from = prefix.unicode_len();
    let to = s.unicode_len();
    let r = s.substring_char(from, to);
    assert(r@ =~= s@.skip(prefix@.len() as int));
    r
}

/// The text behind the marker's line, whichever way the line ends.
pub fn strip_marker(s: &str) -> (r: &str)
    ensures
        r@ == unmarked(s@),
{
    if starts_with(s, BR_MARKER) {
        let rest = behind(s, BR_MARKER);
        if starts_with(rest, "\r\n") {
            behind(rest, "\r\n")
        } else if starts_with(rest, "\n") {
            behind(rest, "\n")
        } else {
            rest
        }
    } else {
        s
    }
}

/// A text as it goes out.
pub open spec fn outgoing(s: Seq<char>) -> Seq<char> {
    BR_MARKER@ + "\n"@ + s
}

/// What goes out is known as our own on its way back, and the text behind
/// the marker is the one that went out.
pub proof fn outgoing_is_recognised(s: Seq<char>)
    ensures
        marked(outgoing(s)),
        unmarked(outgoing(s)) == s,
{
    reveal_strlit("[br]");
    reveal_strlit("\n");
    reveal_strlit("\r\n");
    let out = outgoing(s);
    let head = BR_MARKER@ + "\n"@;
    assert(out.subrange(0, head.len() as int) =~= head);
    assert(out.subrange(0, BR_MARKER@.len() as int) =~= BR_MARKER@);
    let rest = out.skip(BR_MARKER@.len() as int);
    assert(rest =~= "\n"@ + s);
    assert(rest[0] == '\n');
    assert("\r\n"@[0] == '\r');
    assert(!"\r\n"@.is_prefix_of(rest)) by {
        if "\r\n"@.is_prefix_of(rest) {
            assert("\r\n"@ == rest.subrange(0, 2));
            assert(rest.subrange(0, 2)[0] == rest[0]);
        }
    }
    assert(rest.subrange(0, 1) =~= "\n"@);
    assert(rest.skip(1) =~= s);
}

/// The mirror has the text already, as one of our own comments.
pub open spec fn went_out(remote: Seq<RemoteCommentView>, s: Seq<char>) -> bool {
    exists|i: int|
        0 <= i < remote.len() && marked((#[trigger] remote[i]).text) && unmarked(remote[i].text)
            == s
}

/// The bead has the text already, as a comment from the mirror.
pub open spec fn came_in(local: Seq<LocalCommentView>, s: Seq<char>) -> bool {
    exists|i: int|
        0 <= i < local.len() && (#[trigger] local[i]).author == YOUTRACK_AUTHOR@ && local[i].text
            == s
}

/// The comments that go out: those that did not come from the mirror and are
/// not there yet.
pub open spec fn comments_out(
    local: Seq<LocalCommentView>,
    remote: Seq<RemoteCommentView>,
) -> Seq<Seq<char>> {
    text::picked(
        local,
        |c: LocalCommentView|
            if c.author == YOUTRACK_AUTHOR@ || went_out(remote, c.text) {
                None
            } else {
                Some(outgoing(c.text))
            },
    )
}

/// The comments that come in: those that are not our own and are not here
/// yet.
pub open spec fn comments_in(
    local: Seq<LocalCommentView>,
    remote: Seq<RemoteCommentView>,
) -> Seq<RemoteCommentView> {
    text::picked(
        remote,
        |c: RemoteCommentView|
            if marked(c.text) || came_in(local, c.text) {
                None
            } else {
                Some(c)
            },
    )
}

fn has_gone_out(remote: &Vec<RemoteComment>, s: &str) -> (r: bool)
    ensures
        r == went_out(text::views(remote@), s@),
{
    let ghost all = text::views(remote@);
    let mut i: usize = 0;
    while i < remote.len()
        invariant
            i <= remote@.len(),
            all == text::views(remote@),
            forall|j: int|
                0 <= j < i ==> !(marked((#[trigger] all[j]).text) && unmarked(all[j].text) == s@),
        decreases remote@.len() - i,
    {
        let one = remote[i].text.as_str();
        if is_br_echo(one) && same_text(strip_marker(one), s) {
            assert(marked(all[i as int].text));
            return true;
        }
        i += 1;
    }
    false
}

fn has_come_in(local: &Vec<LocalComment>, s: &str) -> (r: bool)
    ensures
        r == came_in(text::views(local@), s@),
{
    let ghost all = text::views(local@);
    let mut i: usize = 0;
    while i < local.len()
        invariant
            i <= local@.len(),
            all == text::views(local@),
            forall|j: int|
                0 <= j < i ==> !((#[trigger] all[j]).author == YOUTRACK_AUTHOR@ && all[j].text
                    == s@),
        decreases local@.len() - i,
    {
        if is_youtrack_echo(local[i].author.as_str()) && same_text(local[i].text.as_str(), s) {
            assert(all[i as int].author == YOUTRACK_AUTHOR@);
            return true;
        }
        i += 1;
    }
    false
}

/// Decides which comments of one issue go out and which come in. Comments
/// are known by their text alone.
pub fn plan_comment_sync(local: &Vec<LocalComment>, remote: &Vec<RemoteComment>) -> (r: CommentPlan)
    ensures
        text::views(r.to_push@) == comments_out(text::views(local@), text::views(remote@)),
        text::views(r.to_pull@) == comments_in(text::views(local@), text::views(remote@)),
{
    let ghost l = text::views(local@);
    let ghost m = text::views(remote@);
    let ghost out = |c: LocalCommentView|
        if c.author == YOUTRACK_AUTHOR@ || went_out(m, c.text) {
            None
        } else {
            Some(outgoing(c.text))
        };
    let ghost inward = |c: RemoteCommentView|
        if marked(c.text) || came_in(l, c.text) {
            None
        } else {
            Some(c)
        };
    let mut to_push: Vec<String> = Vec::new();
    let mut i: usize = 0;
    assert(text::views(to_push@) =~= text::picked(l.take(0), out));
    while i < local.len()
        invariant
            i <= local@.len(),
            l == text::views(local@),
            m == text::views(remote@),
            out == (|c: LocalCommentView|
                if c.author == YOUTRACK_AUTHOR@ || went_out(m, c.text) {
                    None
                } else {
                    Some(outgoing(c.text))
                }),
            text::views(to_push@) == text::picked(l.take(i as int), out),
        decreases local@.len() - i,
    {
        proof {
            text::picked_step(l, out, i as int);
        }
        if !is_youtrack_echo(local[i].author.as_str()) && !has_gone_out(
            remote,
            local[i].text.as_str(),
        ) {
            let mut one = BR_MARKER.to_owned();
            one.append("\n");
            one.append(local[i].text.as_str());
            proof {
                text::views_push(to_push@, one);
            }
            to_push.push(one);
        }
        i += 1;
    }
    assert(l.take(i as int) =~= l);
    let mut to_pull: Vec<RemoteComment> = Vec::new();
    let mut k: usize = 0;
    assert(text::views(to_pull@) =~= text::picked(m.take(0), inward));
    while k < remote.len()
        invariant
            k <= remote@.len(),
            l == text::views(local@),
            m == text::views(remote@),
            inward == (|c: RemoteCommentView|
                if marked(c.text) || came_in(l, c.text) {
                    None
                } else {
                    Some(c)
                }),
            text::views(to_pull@) == text::picked(m.take(k as int), inward),
        decreases remote@.len() - k,
    {
        proof {
            text::picked_step(m, inward, k as int);
        }
        if !is_br_echo(remote[k].text.as_str()) && !has_come_in(local, remote[k].text.as_str()) {
            let one = remote[k].copy();
            proof {
                text::views_push(to_pull@, one);
            }
            to_pull.push(one);
        }
        k += 1;
    }
    assert(m.take(k as int) =~= m);
    CommentPlan { to_push, to_pull }
}

/// After the planned comments have gone out and come in, nothing is left to
/// do: `sent` are the comments that the mirror then has for those that went
/// out, `kept` those that the bead has for those that came in.
pub proof fn comment_sync_settles(
    local: Seq<LocalCommentView>,
    remote: Seq<RemoteCommentView>,
    sent: Seq<RemoteCommentView>,
    kept: Seq<LocalCommentView>,
)
    requires
        sent.map_values(|c: RemoteCommentView| c.text) == comments_out(local, remote),
        kept.map_values(|c: LocalCommentView| c.text) == comments_in(local, remote).map_values(
            |c: RemoteCommentView| c.text,
        ),
        forall|i: int| 0 <= i < kept.len() ==> (#[trigger] kept[i]).author == YOUTRACK_AUTHOR@,
    ensures
        comments_out(local + kept, remote + sent).len() == 0,
        comments_in(local + kept, remote + sent).len() == 0,
{
    let l = local + kept;
    let m = remote + sent;
    let out = |c: LocalCommentView|
        if c.author == YOUTRACK_AUTHOR@ || went_out(remote, c.text) {
            None
        } else {
            Some(outgoing(c.text))
        };
    let inward = |c: RemoteCommentView|
        if marked(c.text) || came_in(local, c.text) {
            None
        } else {
            Some(c)
        };
    let sent_texts = sent.map_values(|c: RemoteCommentView| c.text);
    let kept_texts = kept.map_values(|c: LocalCommentView| c.text);
    let in_texts = comments_in(local, remote).map_values(|c: RemoteCommentView| c.text);
    assert(kept_texts == in_texts);
    assert(kept.len() == kept_texts.len());
    assert(comments_in(local, remote).len() == in_texts.len());
    assert(sent.len() == sent_texts.len());
    let out2 = |c: LocalCommentView|
        if c.author == YOUTRACK_AUTHOR@ || went_out(m, c.text) {
            None
        } else {
            Some(outgoing(c.text))
        };
    let inward2 = |c: RemoteCommentView|
        if marked(c.text) || came_in(l, c.text) {
            None
        } else {
            Some(c)
        };
    assert forall|i: int| 0 <= i < l.len() implies out2(#[trigger] l[i]) is None by {
        let c = l[i];
        if i < local.len() && c.author != YOUTRACK_AUTHOR@ {
            if went_out(remote, c.text) {
                let k = choose|k: int|
                    0 <= k < remote.len() && marked((#[trigger] remote[k]).text) && unmarked(
                        remote[k].text,
                    ) == c.text;
                assert(m[k] == remote[k]);
            } else {
                assert(local[i] == c);
                text::picked_holds(local, out, i);
                let k = choose|k: int|
                    0 <= k < comments_out(local, remote).len() && comments_out(local, remote)[k]
                        == outgoing(c.text);
                assert(sent_texts[k] == outgoing(c.text));
                assert(sent[k].text == outgoing(c.text));
                outgoing_is_recognised(c.text);
                assert(m[remote.len() + k] == sent[k]);
                assert(marked(m[remote.len() + k].text));
            }
            assert(went_out(m, c.text));
        }
    }
    text::picked_nothing(l, out2);
    assert forall|i: int| 0 <= i < m.len() implies inward2(#[trigger] m[i]) is None by {
        let c = m[i];
        if i >= remote.len() {
            let k = i - remote.len();
            assert(sent_texts[k] == c.text);
            text::picked_comes_from(local, out, k);
            let j = choose|j: int|
                0 <= j < local.len() && out(#[trigger] local[j]) == Some(
                    comments_out(local, remote)[k],
                );
            outgoing_is_recognised(local[j].text);
        } else if !marked(c.text) {
            if came_in(local, c.text) {
                let k = choose|k: int|
                    0 <= k < local.len() && (#[trigger] local[k]).author == YOUTRACK_AUTHOR@
                        && local[k].text == c.text;
                assert(l[k] == local[k]);
            } else {
                assert(remote[i] == c);
                text::picked_holds(remote, inward, i);
                let k = choose|k: int|
                    0 <= k < comments_in(local, remote).len() && comments_in(local, remote)[k]
                        == c;
                assert(in_texts[k] == c.text);
                assert(kept_texts[k] == c.text);
                assert(kept[k].text == c.text);
                assert(l[local.len() + k] == kept[k]);
                assert(l[local.len() + k].author == YOUTRACK_AUTHOR@);
            }
            assert(came_in(l, c.text));
        }
    }
    text::picked_nothing(m, inward2);
}

/// The comments of an issue from `skip` on, behind those that have been read.
pub open spec fn comments_from(
    id_readable: Seq<char>,
    skip: u32,
    had: Seq<RemoteCommentView>,
    t: TalkView,
) -> (Result<Seq<RemoteCommentView>, StopView>, TalkView)
    decreases t.rest.len(),
{
    match talk::asked(comments_page_of(id_readable, skip), 0, t) {
        (Err(stop), after) => (Err(stop), after),
        (Ok(raw), after) => match comments_page_read(id_readable, raw) {
            Err(e) => (Err(StopView::Fail(e)), after),
            Ok(more) => if json::items_of(Some(raw)).len() < COMMENT_PAGE_SIZE {
                (Ok(had + more), after)
            } else {
                comments_from(
                    id_readable,
                    (skip + COMMENT_PAGE_SIZE) as u32,
                    had + more,
                    after,
                )
            },
        },
    }
}

/// All comments of an issue.
pub open spec fn comments_fetched(id_readable: Seq<char>, t: TalkView) -> (
    Result<Seq<RemoteCommentView>, StopView>,
    TalkView,
) {
    comments_from(id_readable, 0, Seq::empty(), t)
}

/// Reads all comments of an issue, page by page.
pub fn fetch_comments(talk: &mut Talk, id_readable: &str) -> (r: Result<Vec<RemoteComment>, Stop>)
    requires
        old(talk)@.rest.len() <= MOST_REPLIES,
    ensures
        (match r {
            Ok(list) => Ok(text::views(list@)),
            Err(stop) => Err(stop@),
        }, final(talk)@) == comments_fetched(id_readable@, old(talk)@),
        final(talk)@.rest.len() <= old(talk)@.rest.len(),
{
    let ghost start = talk@;
    let mut fetch = CommentFetch::start(id_readable);
    assert(text::views(fetch.comments@) =~= Seq::<RemoteCommentView>::empty());
    loop
        invariant
            start == old(talk)@,
            start.rest.len() <= MOST_REPLIES,
            talk@.rest.len() <= start.rest.len(),
            fetch.id_readable@ == id_readable@,
            fetch.skip <= (start.rest.len() - talk@.rest.len()) * 1000,
            comments_fetched(id_readable@, start) == comments_from(
                id_readable@,
                fetch.skip,
                text::views(fetch.comments@),
                talk@,
            ),
        decreases talk@.rest.len(),
    {
        let ghost before = talk@;
        let raw = match talk.ask(fetch.request(), 0) {
            Ok(raw) => raw,
            Err(stop) => {
                return Err(stop);
            },
        };
        assert(talk@.rest.len() == before.rest.len() - 1);
        match fetch.receive(raw) {
            Ok(last) => {
                if last {
                    return Ok(fetch.comments);
                }
            },
            Err(e) => {
                return Err(Stop::Fail(e));
            },
        }
    }
}

/// The comments of the mirror that are copies of the one that was sent.
pub open spec fn copies_of(all: Seq<RemoteCommentView>, sent: Seq<char>) -> Seq<RemoteCommentView> {
    text::picked(
        all,
        |c: RemoteCommentView|
            if marked(c.text) && unmarked(c.text) == unmarked(sent) {
                Some(c)
            } else {
                None
            },
    )
}

/// Whether the mirror has as many copies of a comment as have been sent. The
/// copies are counted: a bead may say the same thing twice.
pub open spec fn landed(id_readable: Seq<char>, sent: Seq<char>, ordinal: nat, t: TalkView) -> (
    Result<bool, StopView>,
    TalkView,
) {
    match comments_fetched(id_readable, t) {
        (Err(stop), after) => (Err(stop), after),
        (Ok(all), after) => (Ok(copies_of(all, sent).len() >= ordinal), after),
    }
}

/// Whether the mirror has at least `ordinal` copies of a comment.
pub fn comment_landed(talk: &mut Talk, id_readable: &str, sent: &str, ordinal: usize) -> (r: Result<
    bool,
    Stop,
>)
    requires
        old(talk)@.rest.len() <= MOST_REPLIES,
    ensures
        (match r {
            Ok(b) => Ok(b),
            Err(stop) => Err(stop@),
        }, final(talk)@) == landed(id_readable@, sent@, ordinal as nat, old(talk)@),
        final(talk)@.rest.len() <= old(talk)@.rest.len(),
{
    let all = match fetch_comments(talk, id_readable) {
        Ok(all) => all,
        Err(stop) => {
            return Err(stop);
        },
    };
    let ghost seen = text::views(all@);
    let ghost f = |c: RemoteCommentView|
        if marked(c.text) && unmarked(c.text) == unmarked(sent@) {
            Some(c)
        } else {
            None
        };
    let want = strip_marker(sent);
    let mut count: usize = 0;
    let mut i: usize = 0;
    while i < all.len()
        invariant
            i <= all@.len(),
            seen == text::views(all@),
            f == (|c: RemoteCommentView|
                if marked(c.text) && unmarked(c.text) == unmarked(sent@) {
                    Some(c)
                } else {
                    None
                }),
            want@ == unmarked(sent@),
            count <= i,
            count == text::picked(seen.take(i as int), f).len(),
        decreases all@.len() - i,
    {
        proof {
            text::picked_step(seen, f, i as int);
            assert(seen[i as int] == all@[i as int]@);
        }
        let body = all[i].text.as_str();
        if is_br_echo(body) && same_text(strip_marker(body), want) {
            count += 1;
        }
        i += 1;
    }
    assert(seen.take(i as int) =~= seen);
    Ok(count >= ordinal)
}

/// The text bears our marker on a line of its own, and `rest` is what stands
/// behind that line.
pub open spec fn is_ours(s: Seq<char>, rest: Seq<char>) -> bool {
    (s == "[br]"@ && rest.len() == 0) || s == "[br]\n"@ + rest || s == "[br]\r\n"@ + rest
}

/// A comment is our own exactly where it starts with a line that holds the
/// marker and nothing else, and what it says stands behind that line.
pub proof fn our_comments_start_with_the_marker(s: Seq<char>)
    ensures
        marked(s) <==> exists|rest: Seq<char>| #[trigger] is_ours(s, rest),
        marked(s) ==> is_ours(s, unmarked(s)),
{
    reveal_strlit("[br]");
    reveal_strlit("\n");
    reveal_strlit("\r\n");
    reveal_strlit("[br]\n");
    reveal_strlit("[br]\r\n");
    assert("[br]"@ + "\n"@ =~= "[br]\n"@);
    assert("[br]"@ + "\r\n"@ =~= "[br]\r\n"@);
    if marked(s) {
        if s == BR_MARKER@ {
            assert(s.skip(4) =~= Seq::empty());
            assert(unmarked(s).len() == 0);
        } else if (BR_MARKER@ + "\n"@).is_prefix_of(s) {
            assert(s.subrange(0, 5) == "[br]\n"@);
            assert forall|k: int| 0 <= k < 5 implies s[k] == "[br]\n"@[k] by {
                assert(s.subrange(0, 5)[k] == s[k]);
            }
            assert(s.subrange(0, 4) =~= BR_MARKER@);
            assert(s.skip(4).subrange(0, 1) =~= "\n"@);
            assert(s.skip(4)[0] == '\n');
            if "\r\n"@.is_prefix_of(s.skip(4)) {
                assert(s.skip(4).subrange(0, 2)[0] == '\r');
            }
            assert(unmarked(s) =~= s.skip(5));
            assert(s =~= "[br]\n"@ + unmarked(s));
        } else {
            assert(s.subrange(0, 6) == "[br]\r\n"@);
            assert forall|k: int| 0 <= k < 6 implies s[k] == "[br]\r\n"@[k] by {
                assert(s.subrange(0, 6)[k] == s[k]);
            }
            assert(s.subrange(0, 4) =~= BR_MARKER@);
            assert(s.skip(4).subrange(0, 2) =~= "\r\n"@);
            assert(unmarked(s) =~= s.skip(6));
            assert(s =~= "[br]\r\n"@ + unmarked(s));
        }
        assert(is_ours(s, unmarked(s)));
    }
    if exists|rest: Seq<char>| #[trigger] is_ours(s, rest) {
        let rest = choose|rest: Seq<char>| #[trigger] is_ours(s, rest);
        if s == "[br]\n"@ + rest {
            assert(s.subrange(0, 5) =~= "[br]\n"@);
        } else if s == "[br]\r\n"@ + rest {
            assert(s.subrange(0, 6) =~= "[br]\r\n"@);
        }
    }
}

/// The mirror has one of our comments that says this.
pub open spec fn said_by_us(remote: Seq<RemoteCommentView>, s: Seq<char>) -> bool {
    exists|i: int| 0 <= i < remote.len() && is_ours((#[trigger] remote[i]).text, s)
}

/// The bead has a comment of the mirror's author that says this.
pub open spec fn said_by_the_mirror(local: Seq<LocalCommentView>, s: Seq<char>) -> bool {
    exists|i: int|
        0 <= i < local.len() && (#[trigger] local[i]).author == "youtrack"@ && local[i].text == s
}

/// A comment of the bead goes out, marked as our own, exactly where it did not
/// come from the mirror and the mirror does not have it from us.
pub proof fn own_comments_go_out(
    local: Seq<LocalCommentView>,
    remote: Seq<RemoteCommentView>,
    i: int,
    k: int,
)
    ensures
        0 <= i < local.len() && local[i].author != "youtrack"@ && !said_by_us(
            remote,
            local[i].text,
        ) ==> comments_out(local, remote).contains("[br]\n"@ + local[i].text),
        0 <= k < comments_out(local, remote).len() ==> exists|j: int|
            0 <= j < local.len() && (#[trigger] local[j]).author != "youtrack"@ && !said_by_us(
                remote,
                local[j].text,
            ) && comments_out(local, remote)[k] == "[br]\n"@ + local[j].text,
{
    let f = |c: LocalCommentView|
        if c.author == YOUTRACK_AUTHOR@ || went_out(remote, c.text) {
            None
        } else {
            Some(outgoing(c.text))
        };
    assert("[br]"@ + "\n"@ =~= "[br]\n"@) by {
        reveal_strlit("[br]");
        reveal_strlit("\n");
        reveal_strlit("[br]\n");
    }
    if 0 <= i < local.len() && local[i].author != "youtrack"@ && !said_by_us(
        remote,
        local[i].text,
    ) {
        went_out_is_said_by_us(remote, local[i].text);
        text::picked_holds(local, f, i);
    }
    if 0 <= k < comments_out(local, remote).len() {
        text::picked_comes_from(local, f, k);
        let j = choose|j: int|
            0 <= j < local.len() && f(#[trigger] local[j]) == Some(comments_out(local, remote)[k]);
        went_out_is_said_by_us(remote, local[j].text);
        assert(local[j].author != "youtrack"@);
    }
}

/// What the bead says and what one of our comments on the mirror says is the
/// same text, except that a comment without a line break behind its marker
/// says nothing.
proof fn went_out_is_said_by_us(remote: Seq<RemoteCommentView>, s: Seq<char>)
    ensures
        went_out(remote, s) <==> said_by_us(remote, s),
{
    if went_out(remote, s) {
        let i = choose|i: int|
            0 <= i < remote.len() && marked((#[trigger] remote[i]).text) && unmarked(
                remote[i].text,
            ) == s;
        our_comments_start_with_the_marker(remote[i].text);
        assert(is_ours(remote[i].text, s));
    }
    if said_by_us(remote, s) {
        let i = choose|i: int| 0 <= i < remote.len() && is_ours((#[trigger] remote[i]).text, s);
        our_comments_start_with_the_marker(remote[i].text);
        rest_is_unique(remote[i].text, s, unmarked(remote[i].text));
    }
}

proof fn rest_is_unique(s: Seq<char>, a: Seq<char>, b: Seq<char>)
    requires
        is_ours(s, a),
        is_ours(s, b),
    ensures
        a == b,
{
    reveal_strlit("[br]");
    reveal_strlit("[br]\n");
    reveal_strlit("[br]\r\n");
    if s == "[br]"@ {
        assert(("[br]\n"@ + a).len() == 5 + a.len());
        assert(("[br]\r\n"@ + a).len() == 6 + a.len());
        assert(("[br]\n"@ + b).len() == 5 + b.len());
        assert(("[br]\r\n"@ + b).len() == 6 + b.len());
        assert(a =~= b);
    } else {
        assert(("[br]\n"@ + a)[4] == '\n');
        assert(("[br]\n"@ + b)[4] == '\n');
        assert(("[br]\r\n"@ + a)[4] == '\r');
        assert(("[br]\r\n"@ + b)[4] == '\r');
        let n: int = if s[4] == '\n' {
            5
        } else {
            6
        };
        assert(s.skip(n) =~= a);
        assert(s.skip(n) =~= b);
    }
}

/// A comment of the mirror comes in as it stands exactly where it is not one
/// of ours and the bead does not have it from the mirror.
pub proof fn foreign_comments_come_in(
    local: Seq<LocalCommentView>,
    remote: Seq<RemoteCommentView>,
    c: RemoteCommentView,
)
    ensures
        comments_in(local, remote).contains(c) <==> (remote.contains(c) && (forall|
            rest: Seq<char>,
        |
            !#[trigger] is_ours(c.text, rest)) && !said_by_the_mirror(local, c.text)),
{
    let f = |c: RemoteCommentView|
        if marked(c.text) || came_in(local, c.text) {
            None
        } else {
            Some(c)
        };
    our_comments_start_with_the_marker(c.text);
    assert(came_in(local, c.text) == said_by_the_mirror(local, c.text));
    if comments_in(local, remote).contains(c) {
        let k = choose|k: int|
            0 <= k < comments_in(local, remote).len() && comments_in(local, remote)[k] == c;
        text::picked_comes_from(remote, f, k);
        let j = choose|j: int| 0 <= j < remote.len() && f(#[trigger] remote[j]) == Some(c);
        assert(remote[j] == c);
    }
    if remote.contains(c) && !marked(c.text) && !came_in(local, c.text) {
        let j = choose|j: int| 0 <= j < remote.len() && remote[j] == c;
        text::picked_holds(remote, f, j);
    }
}

/// The copies of a sent comment are the comments of ours that say what it
/// says.
pub proof fn copies_say_the_same(all: Seq<RemoteCommentView>, s: Seq<char>, c: RemoteCommentView)
    ensures
        copies_of(all, "[br]\n"@ + s).contains(c) <==> all.contains(c) && is_ours(c.text, s),
{
    let sent = "[br]\n"@ + s;
    let f = |c: RemoteCommentView|
        if marked(c.text) && unmarked(c.text) == unmarked(sent) {
            Some(c)
        } else {
            None
        };
    assert(is_ours(sent, s));
    our_comments_start_with_the_marker(sent);
    rest_is_unique(sent, s, unmarked(sent));
    our_comments_start_with_the_marker(c.text);
    if copies_of(all, sent).contains(c) {
        let k = choose|k: int| 0 <= k < copies_of(all, sent).len() && copies_of(all, sent)[k] == c;
        text::picked_comes_from(all, f, k);
        let j = choose|j: int| 0 <= j < all.len() && f(#[trigger] all[j]) == Some(c);
        assert(all[j] == c);
    }
    if all.contains(c) && is_ours(c.text, s) {
        rest_is_unique(c.text, s, unmarked(c.text));
        let j = choose|j: int| 0 <= j < all.len() && all[j] == c;
        text::picked_holds(all, f, j);
    }
}

/// Every part of a fetched comment is read under its own name, and when it was
/// made to the millisecond.
pub proof fn comment_parts_are_read_under_their_names(id_readable: Seq<char>, raw: JsonView)
    requires
        comment_read(id_readable, raw) is Ok,
    ensures
        ({
            let c = comment_read(id_readable, raw)->Ok_0;
            &&& json::member(raw, "id"@) matches Some(JsonView::Text(s)) ==> c.id == s
            &&& json::member(raw, "text"@) matches Some(JsonView::Text(s)) ==> c.text == s
            &&& json::nested_text(raw, "author"@, "login"@) matches Some(s) ==> c.author_login == s
            &&& json::member(raw, "created"@) matches Some(JsonView::Int(n)) ==> (i64::MIN <= n
                <= i64::MAX ==> time::millis(c.created) == n)
        }),
{
    time::instants_keep_their_milliseconds(created_millis(raw));
}

/// The comments of a page are read one for one and in order, or the page is
/// refused.
pub proof fn comments_are_read_in_order(id_readable: Seq<char>, items: Seq<JsonView>, k: int)
    requires
        comments_read(id_readable, items) is Ok,
    ensures
        comments_read(id_readable, items)->Ok_0.len() == items.len(),
        0 <= k < items.len() ==> comment_read(id_readable, items[k]) == Ok::<
            RemoteCommentView,
            RemoteErrorView,
        >(comments_read(id_readable, items)->Ok_0[k]),
    decreases items.len(),
{
    if items.len() > 0 {
        comments_are_read_in_order(id_readable, items.drop_last(), k);
        if 0 <= k < items.len() - 1 {
            assert(items.drop_last()[k] == items[k]);
        }
    }
}

/// The comments of an issue are read page by page: a page that is not full
/// ends them, and behind a full one comes the page that starts where that one
/// ends.
pub proof fn comment_pages_follow_each_other(
    id_readable: Seq<char>,
    skip: u32,
    had: Seq<RemoteCommentView>,
    t: TalkView,
    items: Seq<JsonView>,
)
    requires
        t.rest.len() > 0,
        t.rest[0] == Ok::<JsonView, RemoteErrorView>(JsonView::Array(items)),
        comments_read(id_readable, items) is Ok,
    ensures
        ({
            let (all, after) = comments_from(id_readable, skip, had, t);
            let rest = TalkView { rest: t.rest.drop_first(), ..t };
            let more = comments_read(id_readable, items)->Ok_0;
            &&& items.len() < COMMENT_PAGE_SIZE ==> all == Ok::<Seq<RemoteCommentView>, StopView>(
                had + more,
            ) && after == rest
            &&& items.len() >= COMMENT_PAGE_SIZE ==> (all, after) == comments_from(
                id_readable,
                (skip + COMMENT_PAGE_SIZE) as u32,
                had + more,
                rest,
            )
        }),
{
}

} // verus!
