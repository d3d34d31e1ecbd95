//! Link types resolved by name, and the links of an issue.
//!
//! The identifiers of link types are local to an instance, so they are looked
//! up by name. A link is created by the readable identifier of its target,
//! and removed by the internal one.

use crate::json;
use crate::json::{entry, find_with, object_1, text_value, Json, JsonView};
use crate::remote::error;
use crate::remote::error::{RemoteError, RemoteErrorView};
use crate::remote::http;
use crate::remote::http::Request;
use crate::remote::talk;
use crate::remote::talk::{Stop, StopView, Talk, TalkView};
use crate::text;
use crate::text::{join, same_text};
use vstd::prelude::*;
use vstd::string::*;

verus! {

broadcast use vstd::string::group_string_axioms;

/// The three link types that the mirror carries.
#[derive(Debug, Clone, Copy, PartialEq, Eq, Structural)]
pub enum LinkKind {
    Subtask,
    Depend,
    Relates,
}

/// Which end of a directed link a relation maps onto.
#[derive(Debug, Clone, Copy, PartialEq, Eq, Structural)]
pub enum Direction {
    SourceToTarget,
    TargetToSource,
    /// A type without direction takes the bare identifier.
    Undirected,
}

/// The identifiers of the three link types, without suffix.
#[derive(Debug, Clone, PartialEq, Eq)]
pub struct LinkTypes {
    pub subtask: String,
    pub depend: String,
    pub relates: String,
}

/// What contracts say of [`LinkTypes`].
pub struct LinkTypesView {
    pub subtask: Seq<char>,
    pub depend: Seq<char>,
    pub relates: Seq<char>,
}

impl View for LinkTypes {
    type V = LinkTypesView;

    open spec fn view(&self) -> LinkTypesView {
        LinkTypesView { subtask: self.subtask@, depend: self.depend@, relates: self.relates@ }
    }
}

/// One linked issue, with the identifier that a create addresses it by and
/// the one that a removal needs.
#[derive(Debug, Clone, PartialEq, Eq)]
pub struct LinkedIssue {
    pub id: String,
    pub id_readable: String,
}

/// What contracts say of a [`LinkedIssue`].
pub struct LinkedIssueView {
    pub id: Seq<char>,
    pub id_readable: Seq<char>,
}

impl View for LinkedIssue {
    type V = LinkedIssueView;

    open spec fn view(&self) -> LinkedIssueView {
        LinkedIssueView { id: self.id@, id_readable: self.id_readable@ }
    }
}

/// The links of one issue over one type in one direction.
#[derive(Debug, Clone, PartialEq, Eq)]
pub struct RemoteLink {
    pub link_id: String,
    pub kind: LinkKind,
    pub direction: String,
    pub issues: Vec<LinkedIssue>,
}

/// What contracts say of a [`RemoteLink`].
pub struct RemoteLinkView {
    pub link_id: Seq<char>,
    pub kind: LinkKind,
    pub direction: Seq<char>,
    pub issues: Seq<LinkedIssueView>,
}

impl View for RemoteLink {
    type V = RemoteLinkView;

    open spec fn view(&self) -> RemoteLinkView {
        RemoteLinkView {
            link_id: self.link_id@,
            kind: self.kind,
            direction: self.direction@,
            issues: text::views(self.issues@),
        }
    }
}

/// The path under which the link types are listed.
pub const LINK_TYPES_PATH: &'static str =
    "/api/issueLinkTypes?fields=id,name,sourceToTarget,targetToSource,directed&$top=100";

/// The identifier of the first listed type called `name`.
pub open spec fn type_called(raw: JsonView, name: Seq<char>) -> Option<Seq<char>> {
    match json::first_with(json::items_of(Some(raw)), "name"@, name) {
        Some(t) => json::text_at(t, "id"@),
        None => None,
    }
}

/// The names of the three types that a listing lacks.
pub open spec fn types_missing(raw: JsonView) -> Seq<Seq<char>> {
    (if type_called(raw, "Subtask"@) is None {
        seq!["Subtask"@]
    } else {
        Seq::empty()
    }) + (if type_called(raw, "Depend"@) is None {
        seq!["Depend"@]
    } else {
        Seq::empty()
    }) + (if type_called(raw, "Relates"@) is None {
        seq!["Relates"@]
    } else {
        Seq::empty()
    })
}

/// What a listing of the link types comes to.
pub open spec fn types_listed(raw: JsonView) -> Result<LinkTypesView, RemoteErrorView> {
    if types_missing(raw).len() == 0 {
        Ok(
            LinkTypesView {
                subtask: type_called(raw, "Subtask"@)->0,
                depend: type_called(raw, "Depend"@)->0,
                relates: type_called(raw, "Relates"@)->0,
            },
        )
    } else {
        Err(
            RemoteErrorView::Config(
                "this YouTrack instance has no issue link type named "@ + text::joined(
                    types_missing(raw),
                    ", "@,
                )
                    + "; br remote expects Subtask, Depend and Relates to exist (create them or rename an existing type to match)"@,
            ),
        )
    }
}

/// The bare identifier of a kind of link.
pub open spec fn bare_link_id(types: LinkTypesView, kind: LinkKind) -> Seq<char> {
    match kind {
        LinkKind::Subtask => types.subtask,
        LinkKind::Depend => types.depend,
        LinkKind::Relates => types.relates,
    }
}

/// The identifier of a kind of link in a direction, as a path names it.
pub open spec fn link_id_of(
    types: LinkTypesView,
    kind: LinkKind,
    direction: Direction,
) -> Seq<char> {
    match direction {
        Direction::SourceToTarget => bare_link_id(types, kind) + "s"@,
        Direction::TargetToSource => bare_link_id(types, kind) + "t"@,
        Direction::Undirected => bare_link_id(types, kind),
    }
}

impl LinkTypes {
    /// The request for the listing of the link types.
    pub fn resolve_request() -> (r: Request)
        ensures
            r@ == http::get_of(LINK_TYPES_PATH@, "issue link types"@),
    {
        Request::get(LINK_TYPES_PATH.to_owned(), "issue link types")
    }

    /// Takes the three types by name from their listing.
    pub fn resolve(raw: &Json) -> (r: Result<LinkTypes, RemoteError>)
        ensures
            error::seen_result(r) == types_listed(raw@),
    {
        let subtask = find_type(raw, "Subtask");
        let depend = find_type(raw, "Depend");
        let relates = find_type(raw, "Relates");
        let mut missing: Vec<String> = Vec::new();
        assert(text::views(missing@) =~= Seq::empty());
        if subtask.is_none() {
            missing.push("Subtask".to_owned());
        }
        if depend.is_none() {
            missing.push("Depend".to_owned());
        }
        if relates.is_none() {
            missing.push("Relates".to_owned());
        }
        assert(text::views(missing@) =~= types_missing(raw@));
        match (subtask, depend, relates) {
            (Some(subtask), Some(depend), Some(relates)) => Ok(
                LinkTypes {
                    subtask: subtask.to_owned(),
                    depend: depend.to_owned(),
                    relates: relates.to_owned(),
                },
            ),
            _ => {
                let mut out = "this YouTrack instance has no issue link type named ".to_owned();
                out.append(join(&missing, ", ").as_str());
                out.append(
                    "; br remote expects Subtask, Depend and Relates to exist (create them or rename an existing type to match)",
                );
                Err(RemoteError::Config(out))
            },
        }
    }

    /// The identifier of a kind of link in a direction, as a path names it:
    /// suffixed `s` from source to target, `t` from target to source, and
    /// bare for a type without direction.
    pub fn link_id(&self, kind: LinkKind, direction: Direction) -> (r: String)
        ensures
            r@ == link_id_of(self@, kind, direction),
    {
        let base = match kind {
            LinkKind::Subtask => &self.subtask,
            LinkKind::Depend => &self.depend,
            LinkKind::Relates => &self.relates,
        };
        let mut out = base.clone();
        match direction {
            Direction::SourceToTarget => {
                out.append("s");
            },
            Direction::TargetToSource => {
                out.append("t");
            },
            Direction::Undirected => {},
        }
        out
    }
}

fn find_type<'a>(raw: &'a Json, name: &str) -> (r: Option<&'a str>)
    ensures
        text::seen(r) == type_called(raw@, name@),
{
    match find_with(raw.items(), "name", name) {
        Some(t) => t.text_at("id"),
        None => None,
    }
}

/// The request that links `from_readable` to `to_readable`.
pub open spec fn link_add_of(
    from_readable: Seq<char>,
    link_id: Seq<char>,
    to_readable: Seq<char>,
) -> http::RequestView {
    http::post_of(
        "/api/issues/"@ + from_readable + "/links/"@ + link_id + "/issues?fields=idReadable"@,
        JsonView::Object(seq![("idReadable"@, JsonView::Text(to_readable))]),
        "issue link"@,
    )
}

/// The request that takes away the link from `from_readable` to the issue
/// with the internal identifier `to_internal_id`.
pub open spec fn link_remove_of(
    from_readable: Seq<char>,
    link_id: Seq<char>,
    to_internal_id: Seq<char>,
) -> http::RequestView {
    http::delete_of(
        "/api/issues/"@ + from_readable + "/links/"@ + link_id + "/issues/"@ + to_internal_id,
        "issue link"@,
    )
}

/// The request that links `from_readable` to `to_readable` over `link_id`.
pub fn link_add(from_readable: &str, link_id: &str, to_readable: &str) -> (r: Request)
    ensures
        r@ == link_add_of(from_readable@, link_id@, to_readable@),
{
    let mut path = "/api/issues/".to_owned();
    path.append(from_readable);
    path.append("/links/");
    path.append(link_id);
    path.append("/issues?fields=idReadable");
    Request::post(path, object_1(entry("idReadable", text_value(to_readable))), "issue link")
}

/// The request that takes away the link from `from_readable` over `link_id`.
/// The target is named by its internal identifier: the readable one is not
/// found there.
pub fn link_remove(from_readable: &str, link_id: &str, to_internal_id: &str) -> (r: Request)
    ensures
        r@ == link_remove_of(from_readable@, link_id@, to_internal_id@),
{
    let mut path = "/api/issues/".to_owned();
    path.append(from_readable);
    path.append("/links/");
    path.append(link_id);
    path.append("/issues/");
    path.append(to_internal_id);
    Request::delete(path, "issue link")
}

/// A linked issue, where both of its identifiers are there.
pub open spec fn linked_read(issue: JsonView) -> Option<LinkedIssueView> {
    match (json::text_at(issue, "id"@), json::text_at(issue, "idReadable"@)) {
        (Some(id), Some(id_readable)) => Some(LinkedIssueView { id, id_readable }),
        _ => None,
    }
}

/// The issues that a bucket links to.
pub open spec fn bucket_issues(link: JsonView) -> Seq<LinkedIssueView> {
    text::picked(
        json::items_of(json::member(link, "issues"@)),
        |issue: JsonView| linked_read(issue),
    )
}

/// The kind of link that a type's identifier stands for.
pub open spec fn kind_of(types: LinkTypesView, id: Seq<char>) -> Option<LinkKind> {
    if id == types.subtask {
        Some(LinkKind::Subtask)
    } else if id == types.depend {
        Some(LinkKind::Depend)
    } else if id == types.relates {
        Some(LinkKind::Relates)
    } else {
        None
    }
}

/// A bucket, where it links to something over one of the three types.
pub open spec fn bucket_read(link: JsonView, types: LinkTypesView) -> Option<RemoteLinkView> {
    if bucket_issues(link).len() == 0 {
        None
    } else {
        match json::nested_text(link, "linkType"@, "id"@) {
            Some(type_id) => match (kind_of(types, type_id), json::text_at(link, "id"@)) {
                (Some(kind), Some(link_id)) => Some(
                    RemoteLinkView {
                        link_id,
                        kind,
                        direction: json::text_or_empty(link, "direction"@),
                        issues: bucket_issues(link),
                    },
                ),
                _ => None,
            },
            None => None,
        }
    }
}

/// The links that a fetched issue carries.
pub open spec fn links_read(raw: JsonView, types: LinkTypesView) -> Seq<RemoteLinkView> {
    text::picked(
        json::items_of(json::member(raw, "links"@)),
        |link: JsonView| bucket_read(link, types),
    )
}

fn read_linked(items: &[Json]) -> (r: Vec<LinkedIssue>)
    ensures
        text::views(r@) == text::picked(
            text::views(items@),
            |issue: JsonView| linked_read(issue),
        ),
{
    let ghost all = text::views(items@);
    let ghost f = |issue: JsonView| linked_read(issue);
    let mut out: Vec<LinkedIssue> = Vec::new();
    let mut i: usize = 0;
    assert(text::views(out@) =~= text::picked(all.take(0), f));
    while i < items.len()
        invariant
            i <= items@.len(),
            all == text::views(items@),
            f == (|issue: JsonView| linked_read(issue)),
            text::views(out@) == text::picked(all.take(i as int), f),
        decreases items@.len() - i,
    {
        proof {
            text::picked_step(all, f, i as int);
        }
        if let Some(id) = items[i].text_at("id") {
            if let Some(id_readable) = items[i].text_at("idReadable") {
                let one = LinkedIssue { id: id.to_owned(), id_readable: id_readable.to_owned() };
                proof {
                    text::views_push(out@, one);
                }
                out.push(one);
            }
        }
        i += 1;
    }
    assert(all.take(i as int) =~= all);
    out
}

fn read_bucket(link: &Json, types: &LinkTypes) -> (r: Option<RemoteLink>)
    ensures
        text::seen(r) == bucket_read(link@, types@),
{
    let issues = read_linked(link.items_at("issues"));
    if issues.len() == 0 {
        assert(text::views(issues@).len() == 0);
        return None;
    }
    assert(text::views(issues@).len() > 0);
    let type_id = match link.nested_text("linkType", "id") {
        Some(id) => id,
        None => {
            return None;
        },
    };
    let kind = if same_text(type_id, types.subtask.as_str()) {
        LinkKind::Subtask
    } else if same_text(type_id, types.depend.as_str()) {
        LinkKind::Depend
    } else if same_text(type_id, types.relates.as_str()) {
        LinkKind::Relates
    } else {
        return None;
    };
    let direction = link.text_or_empty("direction").to_owned();
    match link.text_at("id") {
        Some(link_id) => Some(RemoteLink { link_id: link_id.to_owned(), kind, direction, issues }),
        None => None,
    }
}

/// The links that a fetched issue carries: every bucket that links to
/// something over one of the three types.
pub fn parse_links(raw: &Json, types: &LinkTypes) -> (r: Vec<RemoteLink>)
    ensures
        text::views(r@) == links_read(raw@, types@),
{
    let links = raw.items_at("links");
    let ghost all = text::views(links@);
    let ghost f = |link: JsonView| bucket_read(link, types@);
    let mut out: Vec<RemoteLink> = Vec::new();
    let mut i: usize = 0;
    assert(text::views(out@) =~= text::picked(all.take(0), f));
    while i < links.len()
        invariant
            i <= links@.len(),
            all == text::views(links@),
            f == (|link: JsonView| bucket_read(link, types@)),
            text::views(out@) == text::picked(all.take(i as int), f),
        decreases links@.len() - i,
    {
        proof {
            text::picked_step(all, f, i as int);
        }
        if let Some(one) = read_bucket(&links[i], types) {
            proof {
                text::views_push(out@, one);
            }
            out.push(one);
        }
        i += 1;
    }
    assert(all.take(i as int) =~= all);
    out
}

impl RemoteLink {
    /// An equal bucket.
    pub fn copy(&self) -> (r: RemoteLink)
        ensures
            r@ == self@,
    {
        let mut issues: Vec<LinkedIssue> = Vec::new();
        let ghost all = text::views(self.issues@);
        let mut i: usize = 0;
        while i < self.issues.len()
            invariant
                i <= self.issues@.len(),
                all == text::views(self.issues@),
                text::views(issues@) == all.take(i as int),
            decreases self.issues@.len() - i,
        {
            let one = LinkedIssue {
                id: self.issues[i].id.clone(),
                id_readable: self.issues[i].id_readable.clone(),
            };
            proof {
                text::views_push(issues@, one);
                assert(all.take(i + 1) =~= all.take(i as int).push(one@));
            }
            issues.push(one);
            i += 1;
        }
        assert(all.take(i as int) =~= all);
        RemoteLink {
            link_id: self.link_id.clone(),
            kind: self.kind,
            direction: self.direction.clone(),
            issues,
        }
    }
}

/// An equal list of buckets.
pub fn copy_links(list: &Vec<RemoteLink>) -> (r: Vec<RemoteLink>)
    ensures
        text::views(r@) == text::views(list@),
{
    let mut out: Vec<RemoteLink> = Vec::new();
    let ghost all = text::views(list@);
    let mut i: usize = 0;
    while i < list.len()
        invariant
            i <= list@.len(),
            all == text::views(list@),
            text::views(out@) == all.take(i as int),
        decreases list@.len() - i,
    {
        let one = list[i].copy();
        proof {
            text::views_push(out@, one);
            assert(all.take(i + 1) =~= all.take(i as int).push(one@));
        }
        out.push(one);
        i += 1;
    }
    assert(all.take(i as int) =~= all);
    out
}

/// The request for the links of one issue.
pub open spec fn issue_links_request(id_readable: Seq<char>) -> http::RequestView {
    http::get_of(
        "/api/issues/"@ + id_readable
            + "?fields=links(id,direction,linkType(id,name),issues(id,idReadable))"@,
        "issue links"@,
    )
}

/// The links of one issue, as they are now.
pub open spec fn issue_links(id_readable: Seq<char>, types: LinkTypesView, t: TalkView) -> (
    Result<Seq<RemoteLinkView>, StopView>,
    TalkView,
) {
    match talk::asked(issue_links_request(id_readable), 0, t) {
        (Err(stop), after) => (Err(stop), after),
        (Ok(raw), after) => (Ok(links_read(raw, types)), after),
    }
}

/// Reads the links of one issue.
pub fn fetch_issue_links(talk: &mut Talk, id_readable: &str, types: &LinkTypes) -> (r: Result<
    Vec<RemoteLink>,
    Stop,
>)
    ensures
        (match r {
            Ok(list) => Ok(text::views(list@)),
            Err(stop) => Err(stop@),
        }, final(talk)@) == issue_links(id_readable@, types@, old(talk)@),
        final(talk)@.rest.len() <= old(talk)@.rest.len(),
{
    let mut path = "/api/issues/".to_owned();
    path.append(id_readable);
    path.append("?fields=links(id,direction,linkType(id,name),issues(id,idReadable))");
    match talk.ask(Request::get(path, "issue links"), 0) {
        Ok(raw) => Ok(parse_links(raw, types)),
        Err(stop) => Err(stop),
    }
}

/// The listed type has this name.
pub open spec fn is_type(item: JsonView, name: Seq<char>) -> bool {
    json::says(item, "name"@, name)
}

/// The listing has a type of this name, and the first one of them says this
/// identifier.
pub open spec fn lists_type(raw: JsonView, name: Seq<char>, id: Seq<char>) -> bool {
    exists|i: int|
        0 <= i < json::items_of(Some(raw)).len() && is_type(
            #[trigger] json::items_of(Some(raw))[i],
            name,
        ) && json::says(json::items_of(Some(raw))[i], "id"@, id) && forall|j: int|
            0 <= j < i ==> !is_type(#[trigger] json::items_of(Some(raw))[j], name)
}

/// The three kinds of links are the types of their names, each with its own
/// identifier; a listing that lacks one of them is refused, and no other.
pub proof fn kinds_are_types_by_name(raw: JsonView)
    ensures
        types_listed(raw) matches Ok(types) ==> lists_type(raw, "Subtask"@, types.subtask)
            && lists_type(raw, "Depend"@, types.depend) && lists_type(
            raw,
            "Relates"@,
            types.relates,
        ),
        forall|a: Seq<char>, b: Seq<char>, c: Seq<char>| #[trigger]
            lists_type(raw, "Subtask"@, a) && #[trigger] lists_type(raw, "Depend"@, b)
                && #[trigger] lists_type(raw, "Relates"@, c) ==> types_listed(raw) is Ok,
{
    type_is_listed(raw, "Subtask"@);
    type_is_listed(raw, "Depend"@);
    type_is_listed(raw, "Relates"@);
}

proof fn type_is_listed(raw: JsonView, name: Seq<char>)
    ensures
        type_called(raw, name) matches Some(id) ==> lists_type(raw, name, id),
        forall|id: Seq<char>| #[trigger]
            lists_type(raw, name, id) ==> type_called(raw, name) == Some(id),
{
    let items = json::items_of(Some(raw));
    json::first_item_that_says_it(items, "name"@, name);
    if let Some(id) = type_called(raw, name) {
        let v = json::first_with(items, "name"@, name)->0;
        let i = choose|i: int|
            0 <= i < items.len() && #[trigger] items[i] == v && json::says(v, "name"@, name)
                && forall|k: int| 0 <= k < i ==> !json::says(#[trigger] items[k], "name"@, name);
        assert(is_type(items[i], name));
    }
    assert forall|id: Seq<char>| #[trigger] lists_type(raw, name, id) implies type_called(raw, name)
        == Some(id) by {
        let i = choose|i: int|
            0 <= i < items.len() && is_type(#[trigger] items[i], name) && json::says(
                items[i],
                "id"@,
                id,
            ) && forall|j: int| 0 <= j < i ==> !is_type(#[trigger] items[j], name);
        let v = json::first_with(items, "name"@, name)->0;
        let k = choose|k: int|
            0 <= k < items.len() && #[trigger] items[k] == v && json::says(v, "name"@, name)
                && forall|j: int| 0 <= j < k ==> !json::says(#[trigger] items[j], "name"@, name);
        assert(i == k) by {
            if i < k {
                assert(!json::says(items[i], "name"@, name));
            } else if k < i {
                assert(!is_type(items[k], name));
            }
        }
    }
}

/// The bucket says that it is this link: its identifier, the type of its kind,
/// its direction, and at least one issue at its other end.
pub open spec fn says_link(bucket: JsonView, types: LinkTypesView, link: RemoteLinkView) -> bool {
    &&& json::says(bucket, "id"@, link.link_id)
    &&& json::nested_text(bucket, "linkType"@, "id"@) == Some(
        match link.kind {
            LinkKind::Subtask => types.subtask,
            LinkKind::Depend => types.depend,
            LinkKind::Relates => types.relates,
        },
    )
    &&& json::member(bucket, "direction"@) matches Some(JsonView::Text(d)) ==> link.direction == d
    &&& link.issues.len() > 0
    &&& forall|k: int|
        0 <= k < link.issues.len() ==> says_issue(bucket, #[trigger] link.issues[k])
}

/// The bucket says that it leads to the issue.
pub open spec fn says_issue(bucket: JsonView, issue: LinkedIssueView) -> bool {
    exists|i: int|
        0 <= i < json::items_of(json::member(bucket, "issues"@)).len() && json::says(
            #[trigger] json::items_of(json::member(bucket, "issues"@))[i],
            "id"@,
            issue.id,
        ) && json::says(
            json::items_of(json::member(bucket, "issues"@))[i],
            "idReadable"@,
            issue.id_readable,
        )
}

/// The issues of a bucket are those that it says it leads to.
pub proof fn linked_issues_are_what_buckets_say(bucket: JsonView, issue: LinkedIssueView)
    ensures
        bucket_issues(bucket).contains(issue) <==> says_issue(bucket, issue),
{
    let items = json::items_of(json::member(bucket, "issues"@));
    let f = |issue: JsonView| linked_read(issue);
    let all = bucket_issues(bucket);
    if all.contains(issue) {
        let k = choose|k: int| 0 <= k < all.len() && all[k] == issue;
        text::picked_comes_from(items, f, k);
        let i = choose|i: int| 0 <= i < items.len() && f(#[trigger] items[i]) == Some(issue);
        assert(json::says(items[i], "id"@, issue.id));
    }
    if says_issue(bucket, issue) {
        let i = choose|i: int|
            0 <= i < items.len() && json::says(#[trigger] items[i], "id"@, issue.id) && json::says(
                items[i],
                "idReadable"@,
                issue.id_readable,
            );
        text::picked_holds(items, f, i);
    }
}

/// Every link of an issue is what one of its buckets says; and every bucket
/// that leads somewhere over one of the three types is one of its links.
pub proof fn links_are_what_buckets_say(raw: JsonView, types: LinkTypesView, k: int, b: int)
    ensures
        0 <= k < links_read(raw, types).len() ==> exists|i: int|
            0 <= i < json::items_of(json::member(raw, "links"@)).len() && says_link(
                #[trigger] json::items_of(json::member(raw, "links"@))[i],
                types,
                links_read(raw, types)[k],
            ),
        ({
            let buckets = json::items_of(json::member(raw, "links"@));
            0 <= b < buckets.len() && (json::nested_text(buckets[b], "linkType"@, "id"@) matches Some(
                id,
            ) && (id == types.subtask || id == types.depend || id == types.relates))
                && json::text_at(buckets[b], "id"@) is Some && (exists|issue: LinkedIssueView|
                #[trigger] says_issue(buckets[b], issue)) ==> exists|m: int|
                0 <= m < links_read(raw, types).len() && says_link(
                    buckets[b],
                    types,
                    #[trigger] links_read(raw, types)[m],
                )
        }),
{
    let buckets = json::items_of(json::member(raw, "links"@));
    let f = |link: JsonView| bucket_read(link, types);
    let all = links_read(raw, types);
    if 0 <= k < all.len() {
        text::picked_comes_from(buckets, f, k);
        let i = choose|i: int| 0 <= i < buckets.len() && f(#[trigger] buckets[i]) == Some(all[k]);
        read_bucket_says_link(buckets[i], types);
        assert(says_link(buckets[i], types, all[k]));
    }
    if 0 <= b < buckets.len() && (json::nested_text(buckets[b], "linkType"@, "id"@) matches Some(id)
        && (id == types.subtask || id == types.depend || id == types.relates)) && json::text_at(
        buckets[b],
        "id"@,
    ) is Some && (exists|issue: LinkedIssueView| #[trigger] says_issue(buckets[b], issue)) {
        let issue = choose|issue: LinkedIssueView| #[trigger] says_issue(buckets[b], issue);
        linked_issues_are_what_buckets_say(buckets[b], issue);
        assert(bucket_issues(buckets[b]).len() > 0);
        assert(f(buckets[b]) is Some);
        text::picked_holds(buckets, f, b);
        read_bucket_says_link(buckets[b], types);
        let m = choose|m: int| 0 <= m < all.len() && all[m] == f(buckets[b])->0;
        assert(says_link(buckets[b], types, all[m]));
    }
}

proof fn read_bucket_says_link(bucket: JsonView, types: LinkTypesView)
    ensures
        bucket_read(bucket, types) matches Some(link) ==> says_link(bucket, types, link),
{
    if let Some(link) = bucket_read(bucket, types) {
        assert forall|k: int| 0 <= k < link.issues.len() implies says_issue(
            bucket,
            #[trigger] link.issues[k],
        ) by {
            linked_issues_are_what_buckets_say(bucket, link.issues[k]);
        }
    }
}

} // verus!
