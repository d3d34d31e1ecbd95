//! Labels as tags of the mirror.
//!
//! A tag must exist before it can be attached, and creating one may be
//! forbidden. A label is not worth losing an issue over, so a tag that cannot
//! be had is skipped and reported.

use crate::json;
use crate::json::{entry, object_1, text_value, Json, JsonView};
use crate::remote::error;
use crate::remote::error::{RemoteError, RemoteErrorView};
use crate::remote::http;
use crate::remote::http::Request;
use crate::remote::talk;
use crate::remote::talk::{Stop, StopView, Talk, TalkView};
use crate::text;
use crate::text::{add_pair, find_last};
use vstd::prelude::*;
use vstd::string::*;

verus! {

broadcast use {
    vstd::string::group_string_axioms,
    crate::json::array_view,
    crate::json::object_view,
};

/// The tags that are known, by name, and the names of those that could not be
/// had.
#[derive(Debug, Clone, PartialEq, Eq)]
pub struct TagCache {
    by_name: Vec<(String, String)>,
    skipped: Vec<String>,
}

/// What contracts say of a [`TagCache`]: names with identifiers, of which the
/// last one counts where a name occurs twice, and skipped names.
pub struct TagCacheView {
    pub by_name: Seq<(Seq<char>, Seq<char>)>,
    pub skipped: Seq<Seq<char>>,
}

impl View for TagCache {
    type V = TagCacheView;

    closed spec fn view(&self) -> TagCacheView {
        TagCacheView {
            by_name: text::pairs(self.by_name@),
            skipped: text::views(self.skipped@),
        }
    }
}

impl Default for TagCache {
    /// No tag is known.
    fn default() -> (r: TagCache)
        ensures
            r@ == (TagCacheView { by_name: Seq::empty(), skipped: Seq::empty() }),
    {
        let r = TagCache { by_name: Vec::new(), skipped: Vec::new() };
        assert(r@.by_name =~= Seq::empty());
        assert(r@.skipped =~= Seq::empty());
        r
    }
}

/// A tag, where it has a name and an identifier.
pub open spec fn tag_read(tag: JsonView) -> Option<(Seq<char>, Seq<char>)> {
    match (json::text_at(tag, "name"@), json::text_at(tag, "id"@)) {
        (Some(name), Some(id)) => Some((name, id)),
        _ => None,
    }
}

/// The tags of a listing.
pub open spec fn tags_listed(raw: JsonView) -> Seq<(Seq<char>, Seq<char>)> {
    text::picked(json::items_of(Some(raw)), |tag: JsonView| tag_read(tag))
}

/// Where an attempt to have a tag stands.
#[derive(Debug, PartialEq, Eq)]
pub enum TagStep {
    /// The tag's identifier, or none where it was skipped.
    Settled(Option<String>),
    /// Someone else has created the tag: the listing must be read again.
    Refresh,
    /// The run cannot go on.
    Failed(RemoteError),
}

/// What contracts say of a [`TagStep`].
pub enum TagStepView {
    Settled(Option<Seq<char>>),
    Refresh,
    Failed(RemoteErrorView),
}

impl View for TagStep {
    type V = TagStepView;

    open spec fn view(&self) -> TagStepView {
        match self {
            TagStep::Settled(id) => TagStepView::Settled(text::seen(*id)),
            TagStep::Refresh => TagStepView::Refresh,
            TagStep::Failed(e) => TagStepView::Failed(e@),
        }
    }
}

/// What the reply to the creation of a tag means for the cache.
pub open spec fn tag_created(
    cache: TagCacheView,
    name: Seq<char>,
    reply: Result<JsonView, RemoteErrorView>,
) -> (TagCacheView, TagStepView) {
    match reply {
        Ok(raw) => {
            let id = json::text_or_empty(raw, "id"@);
            (
                TagCacheView { by_name: cache.by_name.push((name, id)), ..cache },
                TagStepView::Settled(Some(id)),
            )
        },
        Err(RemoteErrorView::Http { status, body }) if status == 401 || status == 403 => (
            TagCacheView { skipped: cache.skipped.push(name), ..cache },
            TagStepView::Settled(None),
        ),
        Err(RemoteErrorView::AlreadyExists { entity }) => (cache, TagStepView::Refresh),
        Err(e) => (cache, TagStepView::Failed(e)),
    }
}

/// What a second listing means for a tag that someone else created.
pub open spec fn tag_refreshed(
    cache: TagCacheView,
    name: Seq<char>,
    reply: Result<JsonView, RemoteErrorView>,
) -> (TagCacheView, Result<Option<Seq<char>>, RemoteErrorView>) {
    match reply {
        Ok(raw) => match text::last_under(tags_listed(raw), name) {
            Some(id) => (
                TagCacheView { by_name: cache.by_name.push((name, id)), ..cache },
                Ok(Some(id)),
            ),
            None => (TagCacheView { skipped: cache.skipped.push(name), ..cache }, Ok(None)),
        },
        Err(e) => (cache, Err(e)),
    }
}

/// The path under which the tags are listed.
pub const TAGS_PATH: &'static str = "/api/tags?fields=id,name&$top=500";

/// The path to which a new tag is sent.
pub const TAG_CREATE_PATH: &'static str = "/api/tags?fields=id,name";

fn read_tags(raw: &Json) -> (r: Vec<(String, String)>)
    ensures
        text::pairs(r@) == tags_listed(raw@),
{
    let items = raw.items();
    let ghost all = text::views(items@);
    let ghost f = |tag: JsonView| tag_read(tag);
    let mut out: Vec<(String, String)> = Vec::new();
    let mut i: usize = 0;
    assert(text::pairs(out@) =~= text::picked(all.take(0), f));
    while i < items.len()
        invariant
            i <= items@.len(),
            all == text::views(items@),
            f == (|tag: JsonView| tag_read(tag)),
            text::pairs(out@) == text::picked(all.take(i as int), f),
        decreases items@.len() - i,
    {
        proof {
            text::picked_step(all, f, i as int);
        }
        if let Some(name) = items[i].text_at("name") {
            if let Some(id) = items[i].text_at("id") {
                add_pair(&mut out, name.to_owned(), id.to_owned());
            }
        }
        i += 1;
    }
    assert(all.take(i as int) =~= all);
    out
}

impl TagCache {
    /// The request for the listing of the tags.
    pub fn load_request() -> (r: Request)
        ensures
            r@ == http::get_of(TAGS_PATH@, "tags"@),
    {
        Request::get(TAGS_PATH.to_owned(), "tags")
    }

    /// The cache that a listing gives.
    pub fn load(raw: &Json) -> (r: TagCache)
        ensures
            r@ == (TagCacheView { by_name: tags_listed(raw@), skipped: Seq::empty() }),
    {
        let r = TagCache { by_name: read_tags(raw), skipped: Vec::new() };
        assert(r@.skipped =~= Seq::empty());
        r
    }

    /// The identifier of a tag that is known. Where there is none, the tag is
    /// to be created by [`TagCache::create_request`].
    pub fn cached(&self, name: &str) -> (r: Option<String>)
        ensures
            text::seen(r) == text::last_under(self@.by_name, name@),
    {
        match find_last(&self.by_name, name) {
            Some(id) => Some(id.clone()),
            None => None,
        }
    }

    /// The request that creates a tag.
    pub fn create_request(name: &str) -> (r: Request)
        ensures
            r@ == http::post_of(
                TAG_CREATE_PATH@,
                JsonView::Object(seq![("name"@, JsonView::Text(name@))]),
                "tag"@,
            ),
    {
        Request::post(
            TAG_CREATE_PATH.to_owned(),
            object_1(entry("name", text_value(name))),
            "tag",
        )
    }

    /// Takes the reply to the creation of a tag. One that is forbidden is
    /// skipped; one that exists already is to be looked up again.
    pub fn after_create(&mut self, name: &str, reply: Result<Json, RemoteError>) -> (r: TagStep)
        ensures
            (final(self)@, r@) == tag_created(old(self)@, name@, error::seen_result(reply)),
    {
        match reply {
            Ok(raw) => {
                let id = raw.text_or_empty("id").to_owned();
                add_pair(&mut self.by_name, name.to_owned(), id.clone());
                TagStep::Settled(Some(id))
            },
            Err(RemoteError::Http { status, body }) => {
                if status == 401 || status == 403 {
                    let one = name.to_owned();
                    proof {
                        text::views_push(self.skipped@, one);
                    }
                    self.skipped.push(one);
                    TagStep::Settled(None)
                } else {
                    TagStep::Failed(RemoteError::Http { status, body })
                }
            },
            Err(RemoteError::AlreadyExists { .. }) => TagStep::Refresh,
            Err(e) => TagStep::Failed(e),
        }
    }

    /// Takes the second listing for a tag that someone else created. One that
    /// is still not listed is skipped.
    pub fn after_refresh(&mut self, name: &str, reply: Result<Json, RemoteError>) -> (r: Result<
        Option<String>,
        RemoteError,
    >)
        ensures
            (final(self)@, match r {
                Ok(id) => Ok(text::seen(id)),
                Err(e) => Err(e@),
            }) == tag_refreshed(old(self)@, name@, error::seen_result(reply)),
    {
        match reply {
            Ok(raw) => {
                let tags = read_tags(&raw);
                match find_last(&tags, name) {
                    Some(id) => {
                        add_pair(&mut self.by_name, name.to_owned(), id.clone());
                        Ok(Some(id.clone()))
                    },
                    None => {
                        let one = name.to_owned();
                        proof {
                            text::views_push(self.skipped@, one);
                        }
                        self.skipped.push(one);
                        Ok(None)
                    },
                }
            },
            Err(e) => Err(e),
        }
    }

    /// The names of the tags that could not be had, in the order in which
    /// they were skipped.
    pub fn skipped(&self) -> (r: &[String])
        ensures
            text::views(r@) == self@.skipped,
    {
        self.skipped.as_slice()
    }
}

/// A tag that was had is known from then on, so it is created only once.
pub proof fn settled_tag_is_cached(
    cache: TagCacheView,
    name: Seq<char>,
    reply: Result<JsonView, RemoteErrorView>,
)
    ensures
        ({
            let (after, step) = tag_created(cache, name, reply);
            step matches TagStepView::Settled(Some(id)) ==> text::last_under(after.by_name, name) == Some(id)
        }),
        ({
            let (after, outcome) = tag_refreshed(cache, name, reply);
            outcome matches Ok(Some(id)) ==> text::last_under(after.by_name, name) == Some(id)
        }),
{
}

/// The list of tags that an issue carries, as a body sends it.
pub open spec fn tags_sent(ids: Seq<Seq<char>>) -> JsonView {
    JsonView::Array(
        ids.map_values(|id: Seq<char>| JsonView::Object(seq![("id"@, JsonView::Text(id))])),
    )
}

/// The list of tags that an issue carries, as a body sends it.
pub fn tags_body(ids: &Vec<String>) -> (r: Json)
    ensures
        r@ == tags_sent(text::views(ids@)),
{
    let ghost all = tags_sent(text::views(ids@))->Array_0;
    let mut out: Vec<Json> = Vec::new();
    let mut i: usize = 0;
    assert(text::views(out@) =~= all.take(0));
    while i < ids.len()
        invariant
            i <= ids@.len(),
            all == tags_sent(text::views(ids@))->Array_0,
            text::views(out@) == all.take(i as int),
        decreases ids@.len() - i,
    {
        let one = object_1(entry("id", text_value(ids[i].as_str())));
        proof {
            text::views_push(out@, one);
            assert(all[i as int] == one@);
            assert(all.take(i + 1) =~= all.take(i as int).push(one@));
        }
        out.push(one);
        i += 1;
    }
    assert(all.take(i as int) =~= all);
    Json::Array(out)
}

/// The names of the tags that a fetched issue carries.
pub open spec fn labels_read(raw: JsonView) -> Seq<Seq<char>> {
    text::picked(
        json::items_of(json::member(raw, "tags"@)),
        |tag: JsonView| json::text_at(tag, "name"@),
    )
}

/// The names of the tags that a fetched issue carries.
pub fn labels_from_tags(raw: &Json) -> (r: Vec<String>)
    ensures
        text::views(r@) == labels_read(raw@),
{
    let items = raw.items_at("tags");
    let ghost all = text::views(items@);
    let ghost f = |tag: JsonView| json::text_at(tag, "name"@);
    let mut out: Vec<String> = Vec::new();
    let mut i: usize = 0;
    assert(text::views(out@) =~= text::picked(all.take(0), f));
    while i < items.len()
        invariant
            i <= items@.len(),
            all == text::views(items@),
            f == (|tag: JsonView| json::text_at(tag, "name"@)),
            text::views(out@) == text::picked(all.take(i as int), f),
        decreases items@.len() - i,
    {
        proof {
            text::picked_step(all, f, i as int);
        }
        if let Some(name) = items[i].text_at("name") {
            let one = name.to_owned();
            proof {
                text::views_push(out@, one);
            }
            out.push(one);
        }
        i += 1;
    }
    assert(all.take(i as int) =~= all);
    out
}

/// Having a tag: it is known, or it is created, or someone else has created
/// it; or it is skipped. The cache that this leaves, and the identifier.
pub open spec fn tag_had(cache: TagCacheView, name: Seq<char>, t: TalkView) -> (
    Result<Option<Seq<char>>, StopView>,
    TagCacheView,
    TalkView,
) {
    match text::last_under(cache.by_name, name) {
        Some(id) => (Ok(Some(id)), cache, t),
        None => match talk::heard(create_of(name), 0, t) {
            (Err(stop), after) => (Err(stop), cache, after),
            (Ok(reply), after) => {
                let (now, step) = tag_created(cache, name, reply);
                match step {
                    TagStepView::Settled(id) => (Ok(id), now, after),
                    TagStepView::Failed(e) => (Err(StopView::Fail(e)), now, after),
                    TagStepView::Refresh => match talk::heard(
                        http::get_of(TAGS_PATH@, "tags"@),
                        0,
                        after,
                    ) {
                        (Err(stop), end) => (Err(stop), now, end),
                        (Ok(again), end) => {
                            let (last, outcome) = tag_refreshed(now, name, again);
                            match outcome {
                                Ok(id) => (Ok(id), last, end),
                                Err(e) => (Err(StopView::Fail(e)), last, end),
                            }
                        },
                    },
                }
            },
        },
    }
}

/// The request that creates a tag.
pub open spec fn create_of(name: Seq<char>) -> http::RequestView {
    http::post_of(
        TAG_CREATE_PATH@,
        JsonView::Object(seq![("name"@, JsonView::Text(name))]),
        "tag"@,
    )
}

impl TagCache {
    /// The identifier of a tag, which is created where it is not known. None
    /// where it had to be skipped.
    pub fn resolve_or_create(&mut self, talk: &mut Talk, name: &str) -> (r: Result<
        Option<String>,
        Stop,
    >)
        ensures
            (match r {
                Ok(id) => Ok(text::seen(id)),
                Err(stop) => Err(stop@),
            }, final(self)@, final(talk)@) == tag_had(old(self)@, name@, old(talk)@),
            final(talk)@.rest.len() <= old(talk)@.rest.len(),
    {
        if let Some(id) = self.cached(name) {
            return Ok(Some(id));
        }
        let reply = match talk.hear(TagCache::create_request(name), 0) {
            Ok(reply) => copy_reply(reply),
            Err(stop) => {
                return Err(stop);
            },
        };
        match self.after_create(name, reply) {
            TagStep::Settled(id) => Ok(id),
            TagStep::Failed(e) => Err(Stop::Fail(e)),
            TagStep::Refresh => {
                let again = match talk.hear(TagCache::load_request(), 0) {
                    Ok(again) => copy_reply(again),
                    Err(stop) => {
                        return Err(stop);
                    },
                };
                match self.after_refresh(name, again) {
                    Ok(id) => Ok(id),
                    Err(e) => Err(Stop::Fail(e)),
                }
            },
        }
    }
}

fn copy_reply(reply: &Result<Json, RemoteError>) -> (r: Result<Json, RemoteError>)
    ensures
        error::seen_result(r) == error::seen_result(*reply),
{
    match reply {
        Ok(value) => Ok(value.copy()),
        Err(e) => Err(e.copy()),
    }
}

/// The labels of an issue are the names that its tags say, and no others.
pub proof fn labels_are_the_names_of_tags(raw: JsonView, label: Seq<char>)
    ensures
        labels_read(raw).contains(label) <==> exists|i: int|
            0 <= i < json::items_of(json::member(raw, "tags"@)).len() && json::says(
                #[trigger] json::items_of(json::member(raw, "tags"@))[i],
                "name"@,
                label,
            ),
{
    let items = json::items_of(json::member(raw, "tags"@));
    let f = |tag: JsonView| json::text_at(tag, "name"@);
    let all = labels_read(raw);
    if all.contains(label) {
        let k = choose|k: int| 0 <= k < all.len() && all[k] == label;
        text::picked_comes_from(items, f, k);
        let i = choose|i: int| 0 <= i < items.len() && f(#[trigger] items[i]) == Some(label);
        assert(json::says(items[i], "name"@, label));
    }
    if exists|i: int| 0 <= i < items.len() && json::says(#[trigger] items[i], "name"@, label) {
        let i = choose|i: int|
            0 <= i < items.len() && json::says(#[trigger] items[i], "name"@, label);
        text::picked_holds(items, f, i);
    }
}

/// A tag is known under its name by its identifier, exactly where the listing
/// says both.
pub proof fn tags_are_known_by_name(raw: JsonView, name: Seq<char>, id: Seq<char>)
    ensures
        tags_listed(raw).contains((name, id)) <==> exists|i: int|
            0 <= i < json::items_of(Some(raw)).len() && json::says(
                #[trigger] json::items_of(Some(raw))[i],
                "name"@,
                name,
            ) && json::says(json::items_of(Some(raw))[i], "id"@, id),
{
    let items = json::items_of(Some(raw));
    let f = |tag: JsonView| tag_read(tag);
    let all = tags_listed(raw);
    if all.contains((name, id)) {
        let k = choose|k: int| 0 <= k < all.len() && all[k] == (name, id);
        text::picked_comes_from(items, f, k);
        let i = choose|i: int| 0 <= i < items.len() && f(#[trigger] items[i]) == Some((name, id));
        assert(json::says(items[i], "name"@, name));
    }
    if exists|i: int|
        0 <= i < items.len() && json::says(#[trigger] items[i], "name"@, name) && json::says(
            items[i],
            "id"@,
            id,
        ) {
        let i = choose|i: int|
            0 <= i < items.len() && json::says(#[trigger] items[i], "name"@, name) && json::says(
                items[i],
                "id"@,
                id,
            );
        text::picked_holds(items, f, i);
    }
}

/// A tag that is known is had without a request; one that is not is created
/// under its name, and is left out, and never tried again, where that is not
/// allowed.
pub proof fn tags_are_had_or_left_out(cache: TagCacheView, name: Seq<char>, t: TalkView)
    ensures
        ({
            let (id, now, after) = tag_had(cache, name, t);
            let known = text::last_under(cache.by_name, name);
            &&& known is Some ==> id == Ok::<Option<Seq<char>>, StopView>(known) && now == cache
                && after == t
            &&& known is None && t.rest.len() == 0 ==> (id matches Err(StopView::Ask { request, .. })
                && request.method is Post && request.body == Some(
                JsonView::Object(seq![("name"@, JsonView::Text(name))]),
            ))
            &&& known is None && t.rest.len() > 0 && (t.rest[0] matches Err(
                RemoteErrorView::Http { status, .. },
            ) && (status == 401 || status == 403)) ==> id == Ok::<Option<Seq<char>>, StopView>(None)
                && now.skipped == cache.skipped.push(name) && now.by_name == cache.by_name
            &&& known is None && t.rest.len() > 0 && (t.rest[0] matches Ok(raw) && json::member(
                raw,
                "id"@,
            ) is Some) ==> (json::member(t.rest[0]->Ok_0, "id"@) matches Some(JsonView::Text(made))
                ==> id == Ok::<Option<Seq<char>>, StopView>(Some(made)) && now.by_name
                == cache.by_name.push((name, made)) && now.skipped == cache.skipped)
        }),
{
}

/// The body of an update carries its tags by their identifiers, in order.
pub proof fn tags_are_sent_by_identifier(ids: Seq<Seq<char>>, k: int)
    ensures
        json::items_of(Some(tags_sent(ids))).len() == ids.len(),
        0 <= k < ids.len() ==> json::says(json::items_of(Some(tags_sent(ids)))[k], "id"@, ids[k]),
{
    if 0 <= k < ids.len() {
        let entries = seq![("id"@, JsonView::Text(ids[k]))];
        assert(json::items_of(Some(tags_sent(ids)))[k] == JsonView::Object(entries));
        assert(entries[0].0 == "id"@);
        assert(json::lookup(entries, "id"@) == Some(JsonView::Text(ids[k])));
    }
}

} // verus!
