//! The paged fetch of every issue of the project.

use crate::json;
use crate::json::{Json, JsonView};
use crate::remote::config::{RemoteConfig, RemoteConfigView, MAX_PAGE_SIZE};
use crate::remote::error;
use crate::remote::error::{RemoteError, RemoteErrorView};
use crate::remote::http;
use crate::remote::http::Request;
use crate::remote::model::{
    RemoteIssue, RemoteIssueView, RemoteSnapshot, UnmappableIssue, UnmappableIssueView,
};
use crate::remote::youtrack::links;
use crate::remote::youtrack::links::{parse_links, LinkTypes, LinkTypesView};
use crate::remote::youtrack::mapping;
use crate::remote::youtrack::mapping::reverse_fields_structured;
use crate::remote::youtrack::tags;
use crate::remote::youtrack::tags::labels_from_tags;
use crate::remote::talk;
use crate::remote::talk::{Stop, StopView, Talk, TalkView, MOST_REPLIES};
use crate::text;
use crate::text::{decimal_of, signed_decimal_of};
use crate::time;
use crate::time::instant_of_millis;
use vstd::prelude::*;
use vstd::string::*;

verus! {

broadcast use vstd::string::group_string_axioms;

/// The fields that the fetch asks for. Without the internal identifiers of
/// linked issues no link could be removed.
pub const ISSUE_FIELDS: &'static str =
    "id,idReadable,summary,description,updated,commentsCount,tags(id,name),links(id,direction,linkType(id,name),issues(id,idReadable)),customFields(name,$type,value(name,text,id))";

/// The order in which the pages are asked for: by creation, which never
/// changes while a fetch is under way.
pub const SORT_CLAUSE: &'static str = "%20sort%20by:%20created%20asc";

/// The request for the page that starts at `skip`.
pub open spec fn page_of(cfg: RemoteConfigView, skip: u32) -> http::RequestView {
    http::get_of(
        "/api/issues?query=project:%20"@ + cfg.project + SORT_CLAUSE@ + "&fields="@ + ISSUE_FIELDS@
            + "&$skip="@ + text::decimal(skip as int) + "&$top="@ + text::decimal(
            cfg.page_size as int,
        ),
        "issues"@,
    )
}

/// When a fetched issue was last changed, in milliseconds.
pub open spec fn updated_millis(raw: JsonView) -> int {
    match json::number_at(raw, "updated"@) {
        Some(n) => n,
        None => 0,
    }
}

/// How many comments a fetched issue reports.
pub open spec fn comments_reported(raw: JsonView) -> u32 {
    match json::member(raw, "commentsCount"@) {
        Some(JsonView::Int(n)) if 0 <= n <= u32::MAX => n as u32,
        _ => 0,
    }
}

/// One fetched issue, or why it cannot be read. Every refusal names it.
pub open spec fn issue_read(cfg: RemoteConfigView, types: LinkTypesView, raw: JsonView) -> Result<
    RemoteIssueView,
    Seq<char>,
> {
    let id_readable = json::text_or_empty(raw, "idReadable"@);
    if !time::in_calendar(updated_millis(raw)) {
        Err(
            "issue "@ + id_readable + " reports updated="@ + text::decimal(updated_millis(raw))
                + ", which is not a representable instant"@,
        )
    } else {
        match mapping::fields_read(cfg, raw) {
            Err(u) => Err(id_readable + ": "@ + mapping::unmapped_text(u)),
            Ok(fields) => Ok(
                RemoteIssueView {
                    id: json::text_or_empty(raw, "id"@),
                    id_readable,
                    summary: json::text_or_empty(raw, "summary"@),
                    description: json::text_at(raw, "description"@),
                    updated: time::instant_at(updated_millis(raw)),
                    comments_count: comments_reported(raw),
                    labels: tags::labels_read(raw),
                    links: links::links_read(raw, types),
                    fields,
                    raw_custom_fields: match json::member(raw, "customFields"@) {
                        Some(v) => v,
                        None => JsonView::Null,
                    },
                },
            ),
        }
    }
}

/// The issue of a page element that can be read.
pub open spec fn readable(cfg: RemoteConfigView, types: LinkTypesView, raw: JsonView) -> Option<
    RemoteIssueView,
> {
    match issue_read(cfg, types, raw) {
        Ok(issue) => Some(issue),
        Err(_) => None,
    }
}

/// The report on a page element that cannot be read.
pub open spec fn unreadable(cfg: RemoteConfigView, types: LinkTypesView, raw: JsonView) -> Option<
    UnmappableIssueView,
> {
    match issue_read(cfg, types, raw) {
        Ok(_) => None,
        Err(reason) => Some(
            UnmappableIssueView { id_readable: json::text_or_empty(raw, "idReadable"@), reason },
        ),
    }
}

/// The refusal of a page that is no list.
pub open spec fn not_a_page(cfg: RemoteConfigView, raw: JsonView) -> RemoteErrorView {
    RemoteErrorView::Config(
        "the issue list endpoint returned a JSON "@ + json::kind_word(raw)
            + ", not an array; check that "@ + cfg.url + " is a YouTrack base URL"@,
    )
}

/// Reads one element of a page.
pub fn parse_issue(cfg: &RemoteConfig, raw: &Json, types: &LinkTypes) -> (r: Result<
    RemoteIssue,
    RemoteError,
>)
    ensures
        error::seen_result(r) == (match issue_read(cfg@, types@, raw@) {
            Ok(issue) => Ok(issue),
            Err(reason) => Err(RemoteErrorView::Config(reason)),
        }),
{
    let id_readable = raw.text_or_empty("idReadable").to_owned();
    let millis: i64 = match raw.get("updated") {
        Some(v) => match v.as_i64() {
            Some(n) => n,
            None => 0,
        },
        None => 0,
    };
    let updated = match instant_of_millis(millis) {
        Some(t) => t,
        None => {
            let mut out = "issue ".to_owned();
            out.append(id_readable.as_str());
            out.append(" reports updated=");
            out.append(signed_decimal_of(millis).as_str());
            out.append(", which is not a representable instant");
            return Err(RemoteError::Config(out));
        },
    };
    let fields = match reverse_fields_structured(cfg, raw) {
        Ok(fields) => fields,
        Err(unmapped) => {
            let mut out = id_readable;
            out.append(": ");
            out.append(unmapped.message().as_str());
            return Err(RemoteError::Config(out));
        },
    };
    let comments_count: u32 = match raw.get("commentsCount") {
        Some(Json::Int(n)) => {
            if 0 <= *n && *n <= u32::MAX as i128 {
                *n as u32
            } else {
                0
            }
        },
        _ => 0,
    };
    let description = match raw.text_at("description") {
        Some(s) => Some(s.to_owned()),
        None => None,
    };
    Ok(
        RemoteIssue {
            id: raw.text_or_empty("id").to_owned(),
            id_readable,
            summary: raw.text_or_empty("summary").to_owned(),
            description,
            updated,
            comments_count,
            labels: labels_from_tags(raw),
            links: parse_links(raw, types),
            fields,
            raw_custom_fields: match raw.get("customFields") {
                Some(v) => v.copy(),
                None => Json::Null,
            },
        },
    )
}

/// A fetch under way: what has been read, and where the next page starts.
pub struct SnapshotFetch {
    pub skip: u32,
    pub snapshot: RemoteSnapshot,
}

impl SnapshotFetch {
    /// A fetch that has not read anything yet.
    pub fn start() -> (r: SnapshotFetch)
        ensures
            r.skip == 0,
            r.snapshot.issues@.len() == 0,
            r.snapshot.unmappable@.len() == 0,
    {
        SnapshotFetch {
            skip: 0,
            snapshot: RemoteSnapshot { issues: Vec::new(), unmappable: Vec::new() },
        }
    }

    /// The request for the next page.
    pub fn request(&self, cfg: &RemoteConfig) -> (r: Request)
        ensures
            r@ == page_of(cfg@, self.skip),
    {
        let mut path = "/api/issues?query=project:%20".to_owned();
        path.append(cfg.project.as_str());
        path.append(SORT_CLAUSE);
        path.append("&fields=");
        path.append(ISSUE_FIELDS);
        path.append("&$skip=");
        path.append(decimal_of(self.skip as u64).as_str());
        path.append("&$top=");
        path.append(decimal_of(cfg.page_size as u64).as_str());
        Request::get(path, "issues")
    }

    /// Takes a page. The issues that can be read are kept, and so are the
    /// reports on those that cannot. A page that is not full is the last one:
    /// then the result is `true`. Anything but a list is refused.
    pub fn receive(&mut self, cfg: &RemoteConfig, types: &LinkTypes, raw: &Json) -> (r: Result<
        bool,
        RemoteError,
    >)
        requires
            json::items_of(Some(raw@)).len() >= cfg.page_size ==> old(self).skip + cfg.page_size
                <= u32::MAX,
        ensures
            !(raw@ is Array) ==> r is Err && r->Err_0@ == not_a_page(cfg@, raw@) && *final(self)
                == *old(self),
            raw@ is Array ==> r == Ok::<bool, RemoteError>(
                json::items_of(Some(raw@)).len() < cfg.page_size,
            ),
            raw@ is Array ==> text::views(final(self).snapshot.issues@) == text::views(
                old(self).snapshot.issues@,
            ) + text::picked(
                json::items_of(Some(raw@)),
                |e: JsonView| readable(cfg@, types@, e),
            ),
            raw@ is Array ==> text::views(final(self).snapshot.unmappable@) == text::views(
                old(self).snapshot.unmappable@,
            ) + text::picked(
                json::items_of(Some(raw@)),
                |e: JsonView| unreadable(cfg@, types@, e),
            ),
            raw@ is Array ==> final(self).skip == (if json::items_of(Some(raw@)).len()
                < cfg.page_size {
                old(self).skip as int
            } else {
                old(self).skip + cfg.page_size
            }),
    {
        let page = match raw.as_array() {
            Some(page) => page,
            None => {
                let mut out = "the issue list endpoint returned a JSON ".to_owned();
                out.append(raw.kind());
                out.append(", not an array; check that ");
                out.append(cfg.url.as_str());
                out.append(" is a YouTrack base URL");
                return Err(RemoteError::Config(out));
            },
        };
        let ghost all = text::views(page@);
        let ghost good = |e: JsonView| readable(cfg@, types@, e);
        let ghost bad = |e: JsonView| unreadable(cfg@, types@, e);
        let ghost issues = text::views(self.snapshot.issues@);
        let ghost reports = text::views(self.snapshot.unmappable@);
        let mut i: usize = 0;
        assert(issues + text::picked(all.take(0), good) =~= issues);
        assert(reports + text::picked(all.take(0), bad) =~= reports);
        while i < page.len()
            invariant
                i <= page@.len(),
                all == text::views(page@),
                good == (|e: JsonView| readable(cfg@, types@, e)),
                bad == (|e: JsonView| unreadable(cfg@, types@, e)),
                text::views(self.snapshot.issues@) == issues + text::picked(
                    all.take(i as int),
                    good,
                ),
                text::views(self.snapshot.unmappable@) == reports + text::picked(
                    all.take(i as int),
                    bad,
                ),
                self.skip == old(self).skip,
            decreases page@.len() - i,
        {
            proof {
                text::picked_step(all, good, i as int);
                text::picked_step(all, bad, i as int);
            }
            let ghost issues_so_far = self.snapshot.issues@;
            let ghost reports_so_far = self.snapshot.unmappable@;
            match parse_issue(cfg, &page[i], types) {
                Ok(issue) => {
                    proof {
                        text::views_push(issues_so_far, issue);
                    }
                    self.snapshot.issues.push(issue);
                },
                Err(RemoteError::Config(reason)) => {
                    let one = UnmappableIssue {
                        id_readable: page[i].text_or_empty("idReadable").to_owned(),
                        reason,
                    };
                    proof {
                        text::views_push(reports_so_far, one);
                    }
                    self.snapshot.unmappable.push(one);
                },
                Err(other) => {
                    assert(false);
                    return Err(other);
                },
            }
            assert(text::views(self.snapshot.issues@) =~= issues + text::picked(
                all.take(i + 1),
                good,
            ));
            assert(text::views(self.snapshot.unmappable@) =~= reports + text::picked(
                all.take(i + 1),
                bad,
            ));
            i += 1;
        }
        assert(all.take(i as int) =~= all);
        if (page.len() as u64) < cfg.page_size as u64 {
            return Ok(true);
        }
        self.skip = self.skip + cfg.page_size;
        Ok(false)
    }
}

/// The refusal of a snapshot in which some issue could not be read.
pub open spec fn strict_refusal(
    unread: Seq<UnmappableIssueView>,
    read: nat,
) -> RemoteErrorView {
    RemoteErrorView::Config(
        text::decimal(unread.len() as int) + " of "@ + text::decimal((unread.len() + read) as int)
            + " issue(s) cannot be read with this remote.yaml; the first is "@ + unread[0].reason
            + ". Run `br remote status` to list every one of them."@,
    )
}

/// The issues of a snapshot, where every one of them could be read. This is
/// for whoever writes: acting on part of the picture is worse than stopping.
pub fn fetch_all_issues(snapshot: RemoteSnapshot) -> (r: Result<Vec<RemoteIssue>, RemoteError>)
    requires
        snapshot.unmappable@.len() + snapshot.issues@.len() <= u64::MAX,
    ensures
        (match r {
            Ok(issues) => snapshot.unmappable@.len() == 0 && issues == snapshot.issues,
            Err(e) => snapshot.unmappable@.len() > 0 && e@ == strict_refusal(
                text::views(snapshot.unmappable@),
                snapshot.issues@.len(),
            ),
        }),
{
    if snapshot.unmappable.len() > 0 {
        let unread: u64 = snapshot.unmappable.len() as u64;
        let read: u64 = snapshot.issues.len() as u64;
        let mut out = decimal_of(unread);
        out.append(" of ");
        out.append(decimal_of(unread + read).as_str());
        out.append(" issue(s) cannot be read with this remote.yaml; the first is ");
        out.append(snapshot.unmappable[0].reason.as_str());
        out.append(". Run `br remote status` to list every one of them.");
        return Err(RemoteError::Config(out));
    }
    Ok(snapshot.issues)
}

/// The issues from `skip` on, behind those that have been read.
pub open spec fn snapshot_from(
    cfg: RemoteConfigView,
    types: LinkTypesView,
    skip: u32,
    issues: Seq<RemoteIssueView>,
    unread: Seq<UnmappableIssueView>,
    t: TalkView,
) -> (Result<(Seq<RemoteIssueView>, Seq<UnmappableIssueView>), StopView>, TalkView)
    decreases t.rest.len(),
{
    match talk::asked(page_of(cfg, skip), 0, t) {
        (Err(stop), after) => (Err(stop), after),
        (Ok(raw), after) => if !(raw is Array) {
            (Err(StopView::Fail(not_a_page(cfg, raw))), after)
        } else {
            let page = json::items_of(Some(raw));
            let read = issues + text::picked(page, |e: JsonView| readable(cfg, types, e));
            let not_read = unread + text::picked(page, |e: JsonView| unreadable(cfg, types, e));
            if page.len() < cfg.page_size {
                (Ok((read, not_read)), after)
            } else {
                snapshot_from(
                    cfg,
                    types,
                    (skip + cfg.page_size) as u32,
                    read,
                    not_read,
                    after,
                )
            }
        },
    }
}

/// All issues of the project: those that can be read, and the reports on
/// those that cannot.
pub open spec fn snapshot_fetched(cfg: RemoteConfigView, types: LinkTypesView, t: TalkView) -> (
    Result<(Seq<RemoteIssueView>, Seq<UnmappableIssueView>), StopView>,
    TalkView,
) {
    snapshot_from(cfg, types, 0, Seq::empty(), Seq::empty(), t)
}

/// Reads all issues of the project, page by page.
pub fn fetch_snapshot(talk: &mut Talk, cfg: &RemoteConfig, types: &LinkTypes) -> (r: Result<
    RemoteSnapshot,
    Stop,
>)
    requires
        0 < cfg.page_size <= MAX_PAGE_SIZE,
        old(talk)@.rest.len() <= MOST_REPLIES,
    ensures
        (match r {
            Ok(s) => Ok((text::views(s.issues@), text::views(s.unmappable@))),
            Err(stop) => Err(stop@),
        }, final(talk)@) == snapshot_fetched(cfg@, types@, old(talk)@),
        final(talk)@.rest.len() <= old(talk)@.rest.len(),
{
    let ghost start = talk@;
    let mut fetch = SnapshotFetch::start();
    assert(text::views(fetch.snapshot.issues@) =~= Seq::<RemoteIssueView>::empty());
    assert(text::views(fetch.snapshot.unmappable@) =~= Seq::<UnmappableIssueView>::empty());
    loop
        invariant
            0 < cfg.page_size <= MAX_PAGE_SIZE,
            start == old(talk)@,
            start.rest.len() <= MOST_REPLIES,
            talk@.rest.len() <= start.rest.len(),
            fetch.skip <= (start.rest.len() - talk@.rest.len()) * 1000,
            snapshot_fetched(cfg@, types@, start) == snapshot_from(
                cfg@,
                types@,
                fetch.skip,
                text::views(fetch.snapshot.issues@),
                text::views(fetch.snapshot.unmappable@),
                talk@,
            ),
        decreases talk@.rest.len(),
    {
        let ghost before = talk@;
        let raw = match talk.ask(fetch.request(cfg), 0) {
            Ok(raw) => raw,
            Err(stop) => {
                return Err(stop);
            },
        };
        assert(talk@.rest.len() == before.rest.len() - 1);
        match fetch.receive(cfg, types, raw) {
            Ok(last) => {
                if last {
                    return Ok(fetch.snapshot);
                }
            },
            Err(e) => {
                return Err(Stop::Fail(e));
            },
        }
    }
}

/// Every part of a fetched issue is read under its own name; and one of its
/// parts that is not there is read as nothing.
pub proof fn issue_parts_are_read_under_their_names(
    cfg: RemoteConfigView,
    types: LinkTypesView,
    raw: JsonView,
)
    requires
        issue_read(cfg, types, raw) is Ok,
    ensures
        ({
            let issue = issue_read(cfg, types, raw)->Ok_0;
            &&& json::member(raw, "id"@) matches Some(JsonView::Text(s)) ==> issue.id == s
            &&& json::member(raw, "idReadable"@) matches Some(JsonView::Text(s))
                ==> issue.id_readable == s
            &&& json::member(raw, "summary"@) matches Some(JsonView::Text(s)) ==> issue.summary == s
            &&& json::member(raw, "description"@) matches Some(JsonView::Text(s))
                ==> issue.description == Some(s)
            &&& !(json::member(raw, "description"@) matches Some(JsonView::Text(_)))
                ==> issue.description is None
            &&& json::member(raw, "updated"@) matches Some(JsonView::Int(n)) ==> (i64::MIN <= n
                <= i64::MAX ==> time::millis(issue.updated) == n)
            &&& json::member(raw, "commentsCount"@) matches Some(JsonView::Int(n)) ==> (0 <= n
                <= u32::MAX ==> issue.comments_count == n)
            &&& json::member(raw, "commentsCount"@) is None ==> issue.comments_count == 0
            &&& json::member(raw, "customFields"@) matches Some(v) ==> issue.raw_custom_fields == v
            &&& issue.labels == tags::labels_read(raw)
            &&& issue.links == links::links_read(raw, types)
            &&& mapping::fields_read(cfg, raw) == Ok::<
                mapping::RemoteIssueFieldsView,
                mapping::UnmappedValueView,
            >(issue.fields)
        }),
{
    time::instants_keep_their_milliseconds(updated_millis(raw));
}

/// Every item of a page is read, or it is reported by its identifier and with
/// a reason; never both.
pub proof fn items_are_read_or_reported(cfg: RemoteConfigView, types: LinkTypesView, raw: JsonView)
    ensures
        readable(cfg, types, raw) is Some <==> unreadable(cfg, types, raw) is None,
        unreadable(cfg, types, raw) matches Some(u) ==> (json::member(
            raw,
            "idReadable"@,
        ) matches Some(JsonView::Text(id)) ==> u.id_readable == id && text::holds(u.reason, id)),
        readable(cfg, types, raw) is Some ==> mapping::fields_read(cfg, raw) is Ok,
{
    if let Some(u) = unreadable(cfg, types, raw) {
        let id = json::text_or_empty(raw, "idReadable"@);
        text::holds_itself(id);
        if !time::in_calendar(updated_millis(raw)) {
            let rest = " reports updated="@ + text::decimal(updated_millis(raw))
                + ", which is not a representable instant"@;
            text::holds_within("issue "@, id, rest, id);
            assert("issue "@ + id + rest =~= u.reason);
        } else {
            let rest = ": "@ + mapping::unmapped_text(mapping::fields_read(cfg, raw)->Err_0);
            text::holds_within(Seq::empty(), id, rest, id);
            assert(Seq::<char>::empty() + id + rest =~= u.reason);
        }
    }
}

/// A snapshot waits for the page it is at. A page that is not full ends it,
/// and behind a full one comes the page that starts where that one ends;
/// nothing that was read is lost.
pub proof fn snapshot_pages_follow_each_other(
    cfg: RemoteConfigView,
    types: LinkTypesView,
    skip: u32,
    issues: Seq<RemoteIssueView>,
    unread: Seq<UnmappableIssueView>,
    t: TalkView,
    items: Seq<JsonView>,
)
    ensures
        ({
            let (all, after) = snapshot_from(cfg, types, skip, issues, unread, t);
            let rest = TalkView { rest: t.rest.drop_first(), ..t };
            &&& t.rest.len() == 0 ==> (all matches Err(StopView::Ask { request, .. }) && request
                == page_of(cfg, skip))
            &&& t.rest.len() > 0 && t.rest[0] == Ok::<JsonView, RemoteErrorView>(
                JsonView::Array(items),
            ) && items.len() < cfg.page_size ==> (all matches Ok((read, reported)) && after == rest
                && issues.is_prefix_of(read) && unread.is_prefix_of(reported) && read.len()
                + reported.len() == issues.len() + unread.len() + items.len())
            &&& t.rest.len() > 0 && t.rest[0] == Ok::<JsonView, RemoteErrorView>(
                JsonView::Array(items),
            ) && items.len() >= cfg.page_size ==> exists|
                more: Seq<RemoteIssueView>,
                bad: Seq<UnmappableIssueView>,
            |
                more.len() + bad.len() == items.len() && (all, after) == #[trigger] snapshot_from(
                    cfg,
                    types,
                    (skip + cfg.page_size) as u32,
                    issues + more,
                    unread + bad,
                    rest,
                )
        }),
{
    if t.rest.len() > 0 && t.rest[0] == Ok::<JsonView, RemoteErrorView>(JsonView::Array(items)) {
        let more = text::picked(items, |e: JsonView| readable(cfg, types, e));
        let bad = text::picked(items, |e: JsonView| unreadable(cfg, types, e));
        items_are_counted_once(cfg, types, items);
        assert((issues + more).subrange(0, issues.len() as int) =~= issues);
        assert((unread + bad).subrange(0, unread.len() as int) =~= unread);
        if items.len() >= cfg.page_size {
            let rest = TalkView { rest: t.rest.drop_first(), ..t };
            assert(json::items_of(Some(JsonView::Array(items))) == items);
            assert(snapshot_from(cfg, types, skip, issues, unread, t) == snapshot_from(
                cfg,
                types,
                (skip + cfg.page_size) as u32,
                issues + more,
                unread + bad,
                rest,
            ));
        }
    }
}

proof fn items_are_counted_once(cfg: RemoteConfigView, types: LinkTypesView, items: Seq<JsonView>)
    ensures
        text::picked(items, |e: JsonView| readable(cfg, types, e)).len() + text::picked(
            items,
            |e: JsonView| unreadable(cfg, types, e),
        ).len() == items.len(),
    decreases items.len(),
{
    if items.len() > 0 {
        items_are_counted_once(cfg, types, items.drop_last());
    }
}

} // verus!
