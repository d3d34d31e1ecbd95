//! Pushing fields and labels.

use crate::json;
use crate::json::{entry, Json, JsonView};
use crate::model::{Issue, Priority};
use crate::remote::config::{RemoteConfig, RemoteConfigView};
use crate::remote::diff::{Direction, Field, FieldChange, FieldChangeView};
use crate::remote::error;
use crate::remote::error::{RemoteError, RemoteErrorView};
use crate::remote::execute::creates;
use crate::remote::execute::creates::{CreateReport, CreateReportView};
use crate::remote::http;
use crate::remote::http::{Request, RequestView};
use crate::remote::plan;
use crate::remote::plan::{find_bead, IssueFieldPlanView, ReconcilePlan};
use crate::remote::talk;
use crate::remote::talk::{Stop, StopView, Talk, TalkView};
use crate::remote::youtrack::mapping;
use crate::remote::youtrack::mapping::{issue_update_body, FieldSet};
use crate::remote::youtrack::tags;
use crate::remote::youtrack::tags::{tags_body, TagCache, TagCacheView};
use crate::text;
use vstd::prelude::*;
use vstd::string::*;

verus! {

broadcast use vstd::string::group_string_axioms;

/// Everything that a push did, and everything that it could not do.
#[derive(Debug, Clone, PartialEq, Eq)]
pub struct PushReport {
    pub creates: CreateReport,
    /// `bds-1 → EM-1` for each pair whose fields were written.
    pub fields_updated: Vec<String>,
    /// `EM-1 + parent EM-2` for each link that was written.
    pub links_added: Vec<String>,
    /// `EM-1 - blocks EM-3` for each link that was taken away.
    pub links_removed: Vec<String>,
    pub comments_pushed: usize,
    /// How many of these were there already: only the answer had been lost.
    pub comments_recovered: usize,
    /// Identifiers of the beads whose issue was marked as deleted.
    pub tombstones_marked: Vec<String>,
    /// Tags that could not be had.
    pub tags_skipped: Vec<String>,
    /// How many beads were paired before the plan was made anew.
    pub replanned_after: usize,
    /// Changes of fields that the mirror wins.
    pub left_to_pull: usize,
    /// Comments that come in.
    pub comments_left_to_pull: usize,
    pub failures: Vec<String>,
}

/// What contracts say of a [`PushReport`].
pub struct PushReportView {
    pub creates: CreateReportView,
    pub fields_updated: Seq<Seq<char>>,
    pub links_added: Seq<Seq<char>>,
    pub links_removed: Seq<Seq<char>>,
    pub comments_pushed: usize,
    pub comments_recovered: usize,
    pub tombstones_marked: Seq<Seq<char>>,
    pub tags_skipped: Seq<Seq<char>>,
    pub replanned_after: usize,
    pub left_to_pull: usize,
    pub comments_left_to_pull: usize,
    pub failures: Seq<Seq<char>>,
}

impl View for PushReport {
    type V = PushReportView;

    open spec fn view(&self) -> PushReportView {
        PushReportView {
            creates: self.creates@,
            fields_updated: text::views(self.fields_updated@),
            links_added: text::views(self.links_added@),
            links_removed: text::views(self.links_removed@),
            comments_pushed: self.comments_pushed,
            comments_recovered: self.comments_recovered,
            tombstones_marked: text::views(self.tombstones_marked@),
            tags_skipped: text::views(self.tags_skipped@),
            replanned_after: self.replanned_after,
            left_to_pull: self.left_to_pull,
            comments_left_to_pull: self.comments_left_to_pull,
            failures: text::views(self.failures@),
        }
    }
}

/// A report of nothing.
pub open spec fn blank_push() -> PushReportView {
    PushReportView {
        creates: creates::no_creates(),
        fields_updated: Seq::empty(),
        links_added: Seq::empty(),
        links_removed: Seq::empty(),
        comments_pushed: 0,
        comments_recovered: 0,
        tombstones_marked: Seq::empty(),
        tags_skipped: Seq::empty(),
        replanned_after: 0,
        left_to_pull: 0,
        comments_left_to_pull: 0,
        failures: Seq::empty(),
    }
}

impl Default for PushReport {
    fn default() -> (r: PushReport)
        ensures
            r@ == blank_push(),
    {
        let r = PushReport {
            creates: CreateReport::default(),
            fields_updated: Vec::new(),
            links_added: Vec::new(),
            links_removed: Vec::new(),
            comments_pushed: 0,
            comments_recovered: 0,
            tombstones_marked: Vec::new(),
            tags_skipped: Vec::new(),
            replanned_after: 0,
            left_to_pull: 0,
            comments_left_to_pull: 0,
            failures: Vec::new(),
        };
        assert(r@.fields_updated =~= Seq::empty());
        assert(r@.links_added =~= Seq::empty());
        assert(r@.links_removed =~= Seq::empty());
        assert(r@.tombstones_marked =~= Seq::empty());
        assert(r@.tags_skipped =~= Seq::empty());
        assert(r@.failures =~= Seq::empty());
        r
    }
}

impl PushReport {
    /// Whether everything was done.
    pub fn is_clean(&self) -> (r: bool)
        ensures
            r == (self@.failures.len() == 0 && self@.creates.failed.len() == 0),
    {
        self.failures.len() == 0 && self.creates.failed.len() == 0
    }
}

/// The report with a failure.
pub open spec fn with_failure(report: PushReportView, line: Seq<char>) -> PushReportView {
    PushReportView { failures: report.failures.push(line), ..report }
}

pub(crate) fn add_failure(report: &mut PushReport, line: String)
    ensures
        final(report)@ == with_failure(old(report)@, line@),
{
    proof {
        text::views_push(report.failures@, line);
    }
    report.failures.push(line);
}

/// A change that the bead wins is among them.
pub open spec fn pushes(changes: Seq<FieldChangeView>, field: Field) -> bool
    decreases changes.len(),
{
    if changes.len() == 0 {
        false
    } else {
        (changes.last().field == field && changes.last().direction is Push) || pushes(
            changes.drop_last(),
            field,
        )
    }
}

/// The fields that an update of the issue carries. Labels are not among them:
/// they are tags.
pub open spec fn field_set_of(changes: Seq<FieldChangeView>) -> FieldSet {
    FieldSet {
        title: pushes(changes, Field::Title),
        description: pushes(changes, Field::Description),
        status: pushes(changes, Field::State),
        issue_type: pushes(changes, Field::Type),
        priority: pushes(changes, Field::Priority),
        design: pushes(changes, Field::Design),
        acceptance_criteria: pushes(changes, Field::AcceptanceCriteria),
        notes: pushes(changes, Field::Notes),
        close_reason: pushes(changes, Field::CloseReason),
        beads_id: false,
    }
}

/// The fields that an update carries, and whether the labels change.
pub fn push_field_set(changes: &Vec<FieldChange>) -> (r: (FieldSet, bool))
    ensures
        r.0 == field_set_of(text::views(changes@)),
        r.1 == pushes(text::views(changes@), Field::Labels),
{
    let ghost all = text::views(changes@);
    let mut fields = FieldSet::default();
    let mut labels = false;
    let mut i: usize = 0;
    while i < changes.len()
        invariant
            i <= changes@.len(),
            all == text::views(changes@),
            fields == field_set_of(all.take(i as int)),
            labels == pushes(all.take(i as int), Field::Labels),
        decreases changes@.len() - i,
    {
        proof {
            assert(all.take(i + 1).drop_last() =~= all.take(i as int));
            assert(all.take(i + 1).last() == changes@[i as int]@);
        }
        if matches!(changes[i].direction, Direction::Push) {
            match changes[i].field {
                Field::Title => {
                    fields.title = true;
                },
                Field::Description => {
                    fields.description = true;
                },
                Field::State => {
                    fields.status = true;
                },
                Field::Priority => {
                    fields.priority = true;
                },
                Field::Type => {
                    fields.issue_type = true;
                },
                Field::Design => {
                    fields.design = true;
                },
                Field::AcceptanceCriteria => {
                    fields.acceptance_criteria = true;
                },
                Field::Notes => {
                    fields.notes = true;
                },
                Field::CloseReason => {
                    fields.close_reason = true;
                },
                Field::Labels => {
                    labels = true;
                },
            }
        }
        i += 1;
    }
    assert(all.take(i as int) =~= all);
    (fields, labels)
}

/// Whether the set holds any field.
pub fn any_field(fields: FieldSet) -> (r: bool)
    ensures
        r == (fields != mapping::no_fields()),
{
    fields.title || fields.description || fields.status || fields.issue_type || fields.priority
        || fields.design || fields.acceptance_criteria || fields.notes || fields.close_reason
        || fields.beads_id
}

/// The cache of tags, which is read when it is first needed.
pub open spec fn cache_had(cache: Option<TagCacheView>, t: TalkView) -> (
    Result<TagCacheView, StopView>,
    TalkView,
) {
    match cache {
        Some(c) => (Ok(c), t),
        None => match talk::asked(http::get_of(tags::TAGS_PATH@, "tags"@), 0, t) {
            (Err(stop), after) => (Err(stop), after),
            (Ok(raw), after) => (
                Ok(TagCacheView { by_name: tags::tags_listed(raw), skipped: Seq::empty() }),
                after,
            ),
        },
    }
}

/// The identifiers of the tags from the `k`-th on, behind those that are
/// known. Tags that cannot be had are left out.
pub open spec fn tags_from(
    cache: TagCacheView,
    labels: Seq<Seq<char>>,
    k: int,
    ids: Seq<Seq<char>>,
    t: TalkView,
) -> (Result<Seq<Seq<char>>, StopView>, TagCacheView, TalkView)
    decreases labels.len() - k,
{
    if k < 0 || k >= labels.len() {
        (Ok(ids), cache, t)
    } else {
        match tags::tag_had(cache, labels[k], t) {
            (Err(stop), now, after) => (Err(stop), now, after),
            (Ok(Some(id)), now, after) => tags_from(now, labels, k + 1, ids.push(id), after),
            (Ok(None), now, after) => tags_from(now, labels, k + 1, ids, after),
        }
    }
}

/// The identifiers of the tags for labels, and the cache that this leaves.
pub open spec fn tags_had(cache: Option<TagCacheView>, labels: Seq<Seq<char>>, t: TalkView) -> (
    Result<Seq<Seq<char>>, StopView>,
    Option<TagCacheView>,
    TalkView,
) {
    match cache_had(cache, t) {
        (Err(stop), after) => (Err(stop), cache, after),
        (Ok(known), after) => {
            let (ids, now, end) = tags_from(known, labels, 0, Seq::empty(), after);
            (ids, Some(now), end)
        },
    }
}

#[verifier::loop_isolation(false)]
fn resolve_tags(talk: &mut Talk, cache: &mut Option<TagCache>, labels: &Vec<String>) -> (r: Result<
    Vec<String>,
    Stop,
>)
    ensures
        (match r {
            Ok(ids) => Ok(text::views(ids@)),
            Err(stop) => Err(stop@),
        }, text::seen(*final(cache)), final(talk)@) == tags_had(
            text::seen(*old(cache)),
            text::views(labels@),
            old(talk)@,
        ),
        final(talk)@.rest.len() <= old(talk)@.rest.len(),
{
    let ghost start = talk@;
    let mut known = match cache.take() {
        Some(known) => known,
        None => match talk.ask(TagCache::load_request(), 0) {
            Ok(raw) => TagCache::load(raw),
            Err(stop) => {
                return Err(stop);
            },
        },
    };
    let ghost loaded = known@;
    let ghost after = talk@;
    let ghost all = text::views(labels@);
    let mut ids: Vec<String> = Vec::new();
    let mut k: usize = 0;
    assert(text::views(ids@) =~= Seq::<Seq<char>>::empty());
    while k < labels.len()
        invariant
            k <= labels@.len(),
            talk@.rest.len() <= start.rest.len(),
            tags_from(loaded, all, 0, Seq::empty(), after) == tags_from(
                known@,
                all,
                k as int,
                text::views(ids@),
                talk@,
            ),
        decreases labels@.len() - k,
    {
        assert(all[k as int] == labels@[k as int]@);
        match known.resolve_or_create(talk, labels[k].as_str()) {
            Ok(Some(id)) => {
                proof {
                    text::views_push(ids@, id);
                }
                ids.push(id);
            },
            Ok(None) => {},
            Err(stop) => {
                *cache = Some(known);
                return Err(stop);
            },
        }
        k += 1;
    }
    *cache = Some(known);
    Ok(ids)
}

/// Where an issue is updated.
pub open spec fn update_path_of(remote_id: Seq<char>) -> Seq<char> {
    "/api/issues/"@ + remote_id + "?fields=idReadable"@
}

/// The request that updates an issue.
pub open spec fn update_request(remote_id: Seq<char>, body: JsonView) -> RequestView {
    http::post_of(update_path_of(remote_id), body, "issue"@)
}

pub(crate) fn update_of(remote_id: &str, body: Json) -> (r: Request)
    ensures
        r@ == update_request(remote_id@, body@),
{
    let mut path = "/api/issues/".to_owned();
    path.append(remote_id);
    path.append("?fields=idReadable");
    Request::post(path, body, "issue")
}

/// A body that carries the tags, too.
pub open spec fn with_tags(body: JsonView, ids: Seq<Seq<char>>) -> JsonView {
    match body {
        JsonView::Object(entries) => JsonView::Object(
            entries.push(("tags"@, tags::tags_sent(ids))),
        ),
        other => other,
    }
}

fn add_tags(body: Json, ids: &Vec<String>) -> (r: Json)
    ensures
        r@ == with_tags(body@, text::views(ids@)),
{
    broadcast use crate::json::object_view, crate::json::array_view;

    match body {
        Json::Object(entries) => {
            let ghost before = entries@;
            let mut entries = entries;
            entries.push(entry("tags", tags_body(ids)));
            assert(json::entries_view(entries@) =~= json::entries_view(before).push(
                ("tags"@, tags::tags_sent(text::views(ids@))),
            ));
            Json::Object(entries)
        },
        other => other,
    }
}

/// A pair in a report: the bead, then its issue.
pub open spec fn pair_text(bead_id: Seq<char>, remote_id: Seq<char>) -> Seq<char> {
    bead_id + " → "@ + remote_id
}

pub(crate) fn pair_line(bead_id: &str, remote_id: &str) -> (r: String)
    ensures
        r@ == pair_text(bead_id@, remote_id@),
{
    let mut out = bead_id.to_owned();
    out.append(" → ");
    out.append(remote_id);
    out
}

/// What could not be done, and why.
pub open spec fn failure_text(what: Seq<char>, e: RemoteErrorView) -> Seq<char> {
    what + ": "@ + error::error_text(e)
}

pub(crate) fn failure_line(what: &str, e: &RemoteError) -> (r: String)
    ensures
        r@ == failure_text(what@, e@),
{
    let why = e.to_string();
    let mut out = what.to_owned();
    out.append(": ");
    out.append(why.as_str());
    out
}

/// How far the update of fields has come.
pub struct FieldPush {
    pub report: PushReportView,
    pub cache: Option<TagCacheView>,
    pub stop: Option<StopView>,
    pub talk: TalkView,
}

/// Sending the update of one issue.
pub open spec fn update_sent(
    p: IssueFieldPlanView,
    body: JsonView,
    cache: Option<TagCacheView>,
    report: PushReportView,
    t: TalkView,
) -> FieldPush {
    match talk::heard(update_request(p.remote_id, body), 0, t) {
        (Err(stop), after) => FieldPush { report, cache, stop: Some(stop), talk: after },
        (Ok(Ok(_)), after) => FieldPush {
            report: PushReportView {
                fields_updated: report.fields_updated.push(pair_text(p.bead_id, p.remote_id)),
                ..report
            },
            cache,
            stop: None,
            talk: after,
        },
        (Ok(Err(e)), after) => FieldPush {
            report: with_failure(report, failure_text(pair_text(p.bead_id, p.remote_id), e)),
            cache,
            stop: None,
            talk: after,
        },
    }
}

/// The update of one issue's fields. What fails is noted, and does not stop
/// the others.
pub open spec fn field_pushed(
    cfg: RemoteConfigView,
    beads: Seq<Issue>,
    p: IssueFieldPlanView,
    cache: Option<TagCacheView>,
    report: PushReportView,
    t: TalkView,
) -> FieldPush {
    let untouched = FieldPush { report, cache, stop: None, talk: t };
    let fields = field_set_of(p.changes);
    let labels = pushes(p.changes, Field::Labels);
    match plan::bead_called(beads, p.bead_id) {
        None => untouched,
        Some(bead) => if !labels && fields == mapping::no_fields() {
            untouched
        } else {
            match mapping::update_body(cfg, bead, fields) {
                Err(e) => FieldPush {
                    report: with_failure(report, failure_text(p.bead_id, e)),
                    ..untouched
                },
                Ok(body) => if !labels {
                    update_sent(p, body, cache, report, t)
                } else {
                    match tags_had(cache, text::views(bead.labels@), t) {
                        (Ok(ids), now, after) => update_sent(
                            p,
                            with_tags(body, ids),
                            now,
                            report,
                            after,
                        ),
                        (Err(StopView::Fail(e)), now, after) => FieldPush {
                            report: with_failure(report, failure_text(p.bead_id, e)),
                            cache: now,
                            stop: None,
                            talk: after,
                        },
                        (Err(stop), now, after) => FieldPush {
                            report,
                            cache: now,
                            stop: Some(stop),
                            talk: after,
                        },
                    }
                },
            }
        },
    }
}

/// The updates from the `k`-th on.
pub open spec fn fields_pushed_from(
    cfg: RemoteConfigView,
    beads: Seq<Issue>,
    plans: Seq<IssueFieldPlanView>,
    k: int,
    cache: Option<TagCacheView>,
    report: PushReportView,
    t: TalkView,
) -> FieldPush
    decreases plans.len() - k,
{
    if k < 0 || k >= plans.len() {
        FieldPush { report, cache, stop: None, talk: t }
    } else {
        let one = field_pushed(cfg, beads, plans[k], cache, report, t);
        if one.stop is Some {
            one
        } else {
            fields_pushed_from(cfg, beads, plans, k + 1, one.cache, one.report, one.talk)
        }
    }
}

fn send_update(
    talk: &mut Talk,
    bead_id: &str,
    remote_id: &str,
    body: Json,
    report: &mut PushReport,
) -> (r: Option<Stop>)
    ensures
        ({
            let sent = update_sent(
                IssueFieldPlanView {
                    bead_id: bead_id@,
                    remote_id: remote_id@,
                    changes: Seq::empty(),
                },
                body@,
                None,
                old(report)@,
                old(talk)@,
            );
            final(report)@ == sent.report && text::seen(r) == sent.stop && final(talk)@
                == sent.talk
        }),
        final(talk)@.rest.len() <= old(talk)@.rest.len(),
{
    let pair = pair_line(bead_id, remote_id);
    match talk.hear(update_of(remote_id, body), 0) {
        Err(stop) => Some(stop),
        Ok(reply) => {
            match reply {
                Ok(_) => {
                    proof {
                        text::views_push(report.fields_updated@, pair);
                    }
                    report.fields_updated.push(pair);
                },
                Err(e) => {
                    add_failure(report, failure_line(pair.as_str(), e));
                },
            }
            None
        },
    }
}

fn push_field(
    talk: &mut Talk,
    cfg: &RemoteConfig,
    beads: &Vec<Issue>,
    p: &plan::IssueFieldPlan,
    cache: &mut Option<TagCache>,
    report: &mut PushReport,
) -> (r: Option<Stop>)
    ensures
        ({
            let end = field_pushed(
                cfg@,
                beads@,
                p@,
                text::seen(*old(cache)),
                old(report)@,
                old(talk)@,
            );
            &&& final(report)@ == end.report
            &&& text::seen(*final(cache)) == end.cache
            &&& text::seen(r) == end.stop
            &&& final(talk)@ == end.talk
        }),
        final(talk)@.rest.len() <= old(talk)@.rest.len(),
{
    let bead = match find_bead(beads, p.bead_id.as_str()) {
        Some(bead) => bead,
        None => {
            return None;
        },
    };
    let (fields, labels) = push_field_set(&p.changes);
    if !labels && !any_field(fields) {
        return None;
    }
    let body = match issue_update_body(cfg, bead, fields) {
        Ok(body) => body,
        Err(e) => {
            add_failure(report, failure_line(p.bead_id.as_str(), &e));
            return None;
        },
    };
    if !labels {
        return send_update(talk, p.bead_id.as_str(), p.remote_id.as_str(), body, report);
    }
    match resolve_tags(talk, cache, &bead.labels) {
        Ok(ids) => send_update(
            talk,
            p.bead_id.as_str(),
            p.remote_id.as_str(),
            add_tags(body, &ids),
            report,
        ),
        Err(Stop::Fail(e)) => {
            add_failure(report, failure_line(p.bead_id.as_str(), &e));
            None
        },
        Err(stop) => Some(stop),
    }
}

/// Updates the fields of every pair that the plan lists.
#[verifier::loop_isolation(false)]
pub(crate) fn push_fields(
    talk: &mut Talk,
    cfg: &RemoteConfig,
    plan: &ReconcilePlan,
    beads: &Vec<Issue>,
    cache: &mut Option<TagCache>,
    report: &mut PushReport,
) -> (r: Option<Stop>)
    ensures
        ({
            let end = fields_pushed_from(
                cfg@,
                beads@,
                plan@.field_changes,
                0,
                text::seen(*old(cache)),
                old(report)@,
                old(talk)@,
            );
            &&& final(report)@ == end.report
            &&& text::seen(*final(cache)) == end.cache
            &&& text::seen(r) == end.stop
            &&& final(talk)@ == end.talk
        }),
        final(talk)@.rest.len() <= old(talk)@.rest.len(),
{
    let ghost start = talk@;
    let ghost all = text::views(plan.field_changes@);
    let ghost whole = fields_pushed_from(
        cfg@,
        beads@,
        all,
        0,
        text::seen(*cache),
        report@,
        talk@,
    );
    let mut k: usize = 0;
    while k < plan.field_changes.len()
        invariant
            k <= plan.field_changes@.len(),
            talk@.rest.len() <= start.rest.len(),
            whole == fields_pushed_from(
                cfg@,
                beads@,
                all,
                k as int,
                text::seen(*cache),
                report@,
                talk@,
            ),
        decreases plan.field_changes@.len() - k,
    {
        assert(all[k as int] == plan.field_changes@[k as int]@);
        if let Some(stop) = push_field(talk, cfg, beads, &plan.field_changes[k], cache, report) {
            return Some(stop);
        }
        k += 1;
    }
    None
}

} // verus!
