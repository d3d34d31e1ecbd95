//! What holds of every run, whatever the mirror answers.

use crate::model::Issue;
use crate::remote::adopt;
use crate::remote::adopt::AdoptionCandidateView;
use crate::remote::comments;
use crate::remote::comments::RemoteCommentView;
use crate::remote::config::RemoteConfigView;
use crate::remote::execute::adoptions;
use crate::remote::execute::adoptions::{AdoptStopView, AdoptionRunView};
use crate::remote::execute::creates;
use crate::remote::execute::creates::CreateReportView;
use crate::remote::execute::orphans;
use crate::remote::execute::orphans::OrphanScanView;
use crate::remote::execute::pulling;
use crate::remote::execute::comment_pushes;
use crate::remote::execute::field_pushes;
use crate::remote::execute::field_pushes::PushReportView;
use crate::remote::execute::link_pushes;
use crate::remote::execute::pushing;
use crate::remote::execute::pushing::{PushStopView, RunInputsView};
use crate::remote::execute::reading;
use crate::remote::http::RequestView;
use crate::remote::model::{RemoteIssueView, UnmappableIssueView};
use crate::remote::plan;
use crate::remote::plan::{
    CommentWorkView, IssueFieldPlanView, IssueLinkPlanView, ReconcilePlanView,
};
use crate::remote::reconcile::PairedPairView;
use crate::remote::talk;
use crate::remote::talk::{StopView, TalkView};
use crate::remote::tombstone::TombstoneActionView;
use crate::remote::youtrack::admin;
use crate::remote::youtrack::fetch;
use crate::remote::youtrack::links;
use crate::remote::youtrack::links::LinkTypesView;
use crate::remote::youtrack::mapping;
use crate::remote::youtrack::tags;
use crate::remote::youtrack::tags::TagCacheView;
use crate::text;
use vstd::prelude::*;

verus! {

/// The run goes no further for want of something that is only read, or it
/// has failed.
pub open spec fn only_reads(stop: StopView) -> bool {
    stop matches StopView::Ask { request, .. } ==> request.method is Get
}

proof fn project_reads(short_name: Seq<char>, skip: int, t: TalkView)
    ensures
        admin::project_from(short_name, skip, t).0 matches Err(stop) ==> only_reads(stop),
    decreases t.rest.len(),
{
    let asked = talk::asked(
        admin::page_request(admin::PROJECT_LIST_PATH@, "project list"@, admin::PAGE_SIZE, skip),
        0,
        t,
    );
    if asked.0 is Ok {
        project_reads(short_name, skip + admin::PAGE_SIZE, asked.1);
    }
}

proof fn comments_read(id: Seq<char>, skip: u32, had: Seq<RemoteCommentView>, t: TalkView)
    ensures
        comments::comments_from(id, skip, had, t).0 matches Err(stop) ==> only_reads(stop),
    decreases t.rest.len(),
{
    let asked = talk::asked(comments::comments_page_of(id, skip), 0, t);
    if let (Ok(raw), after) = asked {
        if let Ok(more) = comments::comments_page_read(id, raw) {
            comments_read(id, (skip + comments::COMMENT_PAGE_SIZE) as u32, had + more, after);
        }
    }
}

proof fn snapshot_reads(
    cfg: RemoteConfigView,
    types: LinkTypesView,
    skip: u32,
    issues: Seq<RemoteIssueView>,
    unread: Seq<UnmappableIssueView>,
    t: TalkView,
)
    ensures
        fetch::snapshot_from(cfg, types, skip, issues, unread, t).0 matches Err(stop) ==> only_reads(
            stop,
        ),
    decreases t.rest.len(),
{
    let asked = talk::asked(fetch::page_of(cfg, skip), 0, t);
    if let (Ok(raw), after) = asked {
        let page = crate::json::items_of(Some(raw));
        snapshot_reads(
            cfg,
            types,
            (skip + cfg.page_size) as u32,
            issues + text::picked(page, |e: crate::json::JsonView| fetch::readable(cfg, types, e)),
            unread + text::picked(
                page,
                |e: crate::json::JsonView| fetch::unreadable(cfg, types, e),
            ),
            after,
        );
    }
}

proof fn work_reads(
    beads: Seq<Issue>,
    paired: Seq<PairedPairView>,
    k: int,
    had: Seq<CommentWorkView>,
    t: TalkView,
)
    ensures
        reading::work_from(beads, paired, k, had, t).0 matches Err(stop) ==> only_reads(stop),
    decreases paired.len() - k,
{
    if 0 <= k < paired.len() {
        match reading::comments_due(beads, paired[k]) {
            None => {
                work_reads(beads, paired, k + 1, had, t);
            },
            Some(bead) => {
                let id = paired[k].remote.id_readable;
                comments_read(id, 0, Seq::empty(), t);
                if let (Ok(fetched), after) = comments::comments_fetched(id, t) {
                    work_reads(beads, paired, k + 1, had, after);
                    work_reads(
                        beads,
                        paired,
                        k + 1,
                        had.push(reading::work_of(bead, id, fetched)),
                        after,
                    );
                }
            },
        }
    }
}

/// Planning changes nothing on the mirror: all that it asks for are reads.
pub proof fn planning_only_reads(
    cfg: RemoteConfigView,
    types: LinkTypesView,
    beads: Seq<Issue>,
    t: TalkView,
)
    ensures
        reading::reconciled(cfg, types, beads, t).0 matches Err(stop) ==> only_reads(stop),
{
    snapshot_reads(cfg, types, 0, Seq::empty(), Seq::empty(), t);
    if let (Ok((issues, unread)), after) = fetch::snapshot_fetched(cfg, types, t) {
        let paired = crate::remote::reconcile::pairing_of(cfg, beads, issues).paired;
        work_reads(beads, paired, 0, Seq::empty(), after);
    }
}

/// The creations go no further for want of a read, or of the creation of an
/// issue for the bead that is next: one that no issue names.
pub open spec fn creates_next(
    cfg: RemoteConfigView,
    p: ReconcilePlanView,
    beads: Seq<Issue>,
    done: int,
    stop: StopView,
) -> bool {
    stop matches StopView::Ask { request, .. } ==> (request.method is Get || ({
        &&& 0 <= done < p.creates.len()
        &&& text::last_under(orphans::orphans_of(p).recoverable, p.creates[done]) is None
        &&& !orphans::in_dispute(orphans::orphans_of(p), p.creates[done])
        &&& exists|project: Seq<char>|
            {
                &&& plan::bead_called(beads, p.creates[done]) is Some
                &&& #[trigger] mapping::create_body(
                    cfg,
                    project,
                    plan::bead_called(beads, p.creates[done])->0,
                ) is Ok
                &&& request == creates::create_request(
                    mapping::create_body(
                        cfg,
                        project,
                        plan::bead_called(beads, p.creates[done])->0,
                    )->Ok_0,
                )
            }
    }))
}

proof fn creations_next(
    cfg: RemoteConfigView,
    project: Seq<char>,
    p: ReconcilePlanView,
    beads: Seq<Issue>,
    k: int,
    report: CreateReportView,
    t: TalkView,
)
    ensures
        ({
            let made = creates::creations_from(
                cfg,
                project,
                beads,
                orphans::orphans_of(p),
                p.creates,
                k,
                report,
                t,
            );
            made.stop matches Some(stop) ==> creates_next(cfg, p, beads, made.done, stop)
        }),
    decreases p.creates.len() - k,
{
    if 0 <= k < p.creates.len() {
        let one = creates::creation(
            cfg,
            project,
            beads,
            orphans::orphans_of(p),
            p.creates[k],
            t,
        );
        match one {
            (Err(stop), _) => {
                let bead = plan::bead_called(beads, p.creates[k])->0;
                assert(mapping::create_body(cfg, project, bead) is Ok);
            },
            (Ok(outcome), after) => {
                creations_next(
                    cfg,
                    project,
                    p,
                    beads,
                    k + 1,
                    creates::with_outcome(report, p.creates[k], outcome),
                    after,
                );
            },
        }
    }
}

/// No issue is ever created for a bead that an issue of the mirror names
/// already, whether one names it or several: an interrupted run leaves no
/// duplicates behind.
pub proof fn stamped_beads_are_not_created_again(
    cfg: RemoteConfigView,
    p: ReconcilePlanView,
    beads: Seq<Issue>,
    t: TalkView,
)
    ensures
        ({
            let made = creates::creations(cfg, p, beads, t);
            made.stop matches Some(stop) ==> creates_next(cfg, p, beads, made.done, stop)
        }),
{
    let orphans = orphans::orphans_of(p);
    let report = CreateReportView { ambiguous: orphans.ambiguous, ..creates::no_creates() };
    creations_next(cfg, Seq::empty(), p, beads, 0, report, t);
    project_reads(cfg.project, 0, t);
    if let (Ok(project), after) = admin::project_from(cfg.project, 0, t) {
        creations_next(cfg, project.id, p, beads, 0, report, after);
    }
}

/// A request that a push may send once its creations are over: it reads, or
/// creates a tag, updates an issue, adds or takes away a link, or adds a
/// comment.
pub open spec fn changes_issues_only(request: RequestView) -> bool {
    ||| request.method is Get
    ||| exists|name: Seq<char>| request == #[trigger] tags::create_of(name)
    ||| exists|id: Seq<char>|
        request.method is Post && request.path == #[trigger] field_pushes::update_path_of(id)
    ||| exists|id: Seq<char>, body: Seq<char>|
        request == #[trigger] comments::comment_post_of(id, body)
    ||| exists|from: Seq<char>, link: Seq<char>, to: Seq<char>|
        request == #[trigger] links::link_add_of(from, link, to)
    ||| exists|from: Seq<char>, link: Seq<char>, to: Seq<char>|
        request == #[trigger] links::link_remove_of(from, link, to)
}

/// The run goes no further for want of such a request, or it has failed.
pub open spec fn asks_for_changes(stop: Option<StopView>) -> bool {
    stop matches Some(StopView::Ask { request, .. }) ==> changes_issues_only(request)
}

proof fn tag_asks(cache: TagCacheView, name: Seq<char>, t: TalkView)
    ensures
        tags::tag_had(cache, name, t).0 matches Err(stop) ==> asks_for_changes(Some(stop)),
{
}

proof fn tags_ask(
    cache: TagCacheView,
    labels: Seq<Seq<char>>,
    k: int,
    ids: Seq<Seq<char>>,
    t: TalkView,
)
    ensures
        field_pushes::tags_from(cache, labels, k, ids, t).0 matches Err(stop) ==> asks_for_changes(
            Some(stop),
        ),
    decreases labels.len() - k,
{
    if 0 <= k < labels.len() {
        tag_asks(cache, labels[k], t);
        match tags::tag_had(cache, labels[k], t) {
            (Ok(Some(id)), now, after) => {
                tags_ask(now, labels, k + 1, ids.push(id), after);
            },
            (Ok(None), now, after) => {
                tags_ask(now, labels, k + 1, ids, after);
            },
            _ => {},
        }
    }
}

proof fn field_asks(
    cfg: RemoteConfigView,
    beads: Seq<Issue>,
    p: IssueFieldPlanView,
    cache: Option<TagCacheView>,
    report: PushReportView,
    t: TalkView,
)
    ensures
        asks_for_changes(field_pushes::field_pushed(cfg, beads, p, cache, report, t).stop),
{
    let path = field_pushes::update_path_of(p.remote_id);
    if let Some(bead) = plan::bead_called(beads, p.bead_id) {
        let labels = text::views(bead.labels@);
        if let (Ok(known), after) = field_pushes::cache_had(cache, t) {
            tags_ask(known, labels, 0, Seq::empty(), after);
        }
    }
}

proof fn fields_ask(
    cfg: RemoteConfigView,
    beads: Seq<Issue>,
    plans: Seq<IssueFieldPlanView>,
    k: int,
    cache: Option<TagCacheView>,
    report: PushReportView,
    t: TalkView,
)
    ensures
        asks_for_changes(
            field_pushes::fields_pushed_from(cfg, beads, plans, k, cache, report, t).stop,
        ),
    decreases plans.len() - k,
{
    if 0 <= k < plans.len() {
        field_asks(cfg, beads, plans[k], cache, report, t);
        let one = field_pushes::field_pushed(cfg, beads, plans[k], cache, report, t);
        fields_ask(cfg, beads, plans, k + 1, one.cache, one.report, one.talk);
    }
}

proof fn links_ask(
    types: LinkTypesView,
    plans: Seq<IssueLinkPlanView>,
    i: int,
    j: int,
    report: PushReportView,
    t: TalkView,
)
    ensures
        asks_for_changes(link_pushes::links_pushed_from(types, plans, i, j, report, t).stop),
    decreases plans.len() - i, (if 0 <= i < plans.len() { plans[i].changes.len() - j } else { 0 }),
{
    if 0 <= i < plans.len() {
        if 0 <= j < plans[i].changes.len() {
            let change = plans[i].changes[j];
            let one = link_pushes::link_pushed(types, plans[i].remote_id, change, report, t);
            assert(changes_issues_only(
                link_pushes::link_request(types, plans[i].remote_id, change),
            ));
            assert(asks_for_changes(one.stop));
            links_ask(types, plans, i, j + 1, one.report, one.talk);
        } else {
            links_ask(types, plans, i + 1, 0, report, t);
        }
    }
}

proof fn comments_ask(
    work: Seq<CommentWorkView>,
    i: int,
    j: int,
    sent: Seq<Seq<char>>,
    report: PushReportView,
    t: TalkView,
)
    ensures
        asks_for_changes(comment_pushes::comments_pushed_from(work, i, j, sent, report, t).stop),
    decreases work.len() - i, (if 0 <= i < work.len() { work[i].to_push.len() - j } else { 0 }),
{
    if 0 <= i < work.len() {
        if 0 <= j < work[i].to_push.len() {
            let id = work[i].remote_id;
            let body = work[i].to_push[j];
            let one = comment_pushes::comment_pushed(id, body, sent, report, t);
            assert(changes_issues_only(comments::comment_post_of(id, body)));
            if let (Ok(_), after) = talk::heard(comments::comment_post_of(id, body), 0, t) {
                comments_read(id, 0, Seq::empty(), after);
            }
            assert(asks_for_changes(one.stop));
            comments_ask(work, i, j + 1, one.sent, one.report, one.talk);
        } else {
            comments_ask(work, i + 1, 0, Seq::empty(), report, t);
        }
    }
}

proof fn deletions_ask(
    cfg: RemoteConfigView,
    table: Seq<(Seq<char>, Seq<char>)>,
    actions: Seq<(Seq<char>, TombstoneActionView)>,
    k: int,
    report: PushReportView,
    t: TalkView,
)
    ensures
        asks_for_changes(
            comment_pushes::deletions_pushed_from(cfg, table, actions, k, report, t).stop,
        ),
    decreases actions.len() - k,
{
    if 0 <= k < actions.len() {
        match (actions[k].1, text::last_under(table, actions[k].0)) {
            (TombstoneActionView::Delete { reason }, Some(id)) => {
                let one = comment_pushes::deletion_pushed(
                    cfg,
                    actions[k].0,
                    id,
                    reason,
                    report,
                    t,
                );
                let path = field_pushes::update_path_of(id);
                assert(changes_issues_only(
                    comments::comment_post_of(
                        id,
                        crate::remote::tombstone::deleted_comment(reason),
                    ),
                ));
                assert(asks_for_changes(one.stop));
                deletions_ask(cfg, table, actions, k + 1, one.report, one.talk);
            },
            _ => {
                deletions_ask(cfg, table, actions, k + 1, report, t);
            },
        }
    }
}

/// Once its creations are over, a push changes what is there and creates no
/// more issues.
pub proof fn rest_of_a_push_changes_issues_only(
    cfg: RemoteConfigView,
    types: LinkTypesView,
    p: ReconcilePlanView,
    beads: Seq<Issue>,
    work: Seq<CommentWorkView>,
    report: PushReportView,
    t: TalkView,
)
    ensures
        asks_for_changes(
            pushing::rest_pushed(cfg, types, p, beads, work, report, t).stop,
        ),
{
    let counted = PushReportView {
        left_to_pull: pushing::capped(pushing::pulled_changes(p.field_changes)),
        comments_left_to_pull: pushing::capped(pushing::pulled_comments(p.comment_changes)),
        ..report
    };
    fields_ask(cfg, beads, p.field_changes, 0, None, counted, t);
    let fields = field_pushes::fields_pushed_from(cfg, beads, p.field_changes, 0, None, counted, t);
    let tagged = match fields.cache {
        Some(cache) => PushReportView { tags_skipped: cache.skipped, ..fields.report },
        None => fields.report,
    };
    links_ask(types, p.link_changes, 0, 0, tagged, fields.talk);
    let links = link_pushes::links_pushed_from(types, p.link_changes, 0, 0, tagged, fields.talk);
    comments_ask(work, 0, 0, Seq::empty(), links.report, links.talk);
    let comments = comment_pushes::comments_pushed_from(
        work,
        0,
        0,
        Seq::empty(),
        links.report,
        links.talk,
    );
    deletions_ask(
        cfg,
        comment_pushes::tombstoned_ids(p),
        crate::remote::tombstone::tombstone_actions(beads),
        0,
        comments.report,
        comments.talk,
    );
}

/// Such a request creates no issue.
pub proof fn changing_is_not_creating(request: RequestView, body: crate::json::JsonView)
    requires
        changes_issues_only(request),
    ensures
        request != creates::create_request(body),
{
    reveal_strlit("/api/issues?fields=id,idReadable");
    reveal_strlit("/api/tags?fields=id,name");
    reveal_strlit("/api/issues/");
    let made = creates::CREATE_PATH@;
    assert(made[11] == '?');
    assert(tags::TAG_CREATE_PATH@[5] == 't' && made[5] == 'i');
    let prefix = "/api/issues/"@;
    assert(prefix.len() == 12 && prefix[11] == '/');
    if request.method is Post && request.path == made {
        if exists|name: Seq<char>| request == #[trigger] tags::create_of(name) {
            assert(request.path == tags::TAG_CREATE_PATH@);
        } else if exists|id: Seq<char>| request.path == #[trigger] field_pushes::update_path_of(id) {
            let id = choose|id: Seq<char>|
                request.path == #[trigger] field_pushes::update_path_of(id);
            assert(field_pushes::update_path_of(id)[11] == '/');
        } else if exists|id: Seq<char>, text: Seq<char>|
            request == #[trigger] comments::comment_post_of(id, text) {
            let (id, text) = choose|id: Seq<char>, text: Seq<char>|
                request == #[trigger] comments::comment_post_of(id, text);
            assert(comments::comment_post_of(id, text).path[11] == '/');
        } else {
            let (from, link, to) = choose|from: Seq<char>, link: Seq<char>, to: Seq<char>|
                request == #[trigger] links::link_add_of(from, link, to);
            assert(links::link_add_of(from, link, to).path[11] == '/');
        }
    }
}

/// A push takes nothing away from the mirror but links: it never deletes an
/// issue, whatever became of its bead.
pub proof fn push_never_deletes_an_issue(
    cfg: RemoteConfigView,
    types: LinkTypesView,
    inputs: RunInputsView,
    again: Option<RunInputsView>,
    t: TalkView,
)
    ensures
        pushing::push_run(cfg, types, inputs, again, t).1 matches Some(
            PushStopView::Talk(StopView::Ask { request, .. }),
        ) ==> request.method is Delete ==> exists|from: Seq<char>, link: Seq<char>, to: Seq<char>|
            request == #[trigger] links::link_remove_of(from, link, to),
{
    let made = creates::creations(cfg, inputs.plan, inputs.beads, t);
    stamped_beads_are_not_created_again(cfg, inputs.plan, inputs.beads, t);
    let report = PushReportView { creates: made.report, ..field_pushes::blank_push() };
    rest_of_a_push_changes_issues_only(
        cfg,
        types,
        inputs.plan,
        inputs.beads,
        inputs.comments,
        report,
        made.talk,
    );
    let replanned = PushReportView {
        replanned_after: pushing::capped(
            made.report.created.len() + made.report.recovered.len(),
        ),
        ..report
    };
    if let Some(fresh) = again {
        rest_of_a_push_changes_issues_only(
            cfg,
            types,
            fresh.plan,
            fresh.beads,
            fresh.comments,
            replanned,
            made.talk,
        );
    }
}

/// A pull goes no further for want of a read, of a bead, or of the stamp that
/// tells an issue which bead it has become.
pub open spec fn stamps_only(
    ordered: Seq<AdoptionCandidateView>,
    minted: Seq<Seq<char>>,
    stop: AdoptStopView,
) -> bool {
    stop matches AdoptStopView::Talk(StopView::Ask { request, .. }) ==> (request.method is Get
        || exists|k: int|
        0 <= k < ordered.len() && k < minted.len() && request == field_pushes::update_request(
            #[trigger] ordered[k].remote.id_readable,
            adoptions::stamp_body(minted[k]),
        ))
}

proof fn adoptions_stamp(
    ordered: Seq<AdoptionCandidateView>,
    minted: Seq<Seq<char>>,
    k: int,
    run: AdoptionRunView,
    t: TalkView,
)
    ensures
        adoptions::adoptions_from(ordered, minted, k, run, t).stop matches Some(stop)
            ==> stamps_only(ordered, minted, stop),
    decreases ordered.len() - k,
{
    if 0 <= k < ordered.len() && k < minted.len() {
        let c = ordered[k];
        let id = c.remote.id_readable;
        let made = adoptions::with_bead(run, id, minted[k]);
        comments_read(id, 0, Seq::empty(), t);
        if let (Ok(now), after) = adoptions::comments_adopted(c, minted[k], made, t) {
            assert(ordered[k].remote.id_readable == id);
            if let (Ok(next), end) = adoptions::stamped(c, minted[k], now, after) {
                adoptions_stamp(ordered, minted, k + 1, next, end);
            }
        }
    }
}

/// All that a pull writes on the mirror are stamps on the issues that it
/// adopts.
pub proof fn pull_writes_stamps_only(
    cfg: RemoteConfigView,
    inputs: RunInputsView,
    minted: Seq<Seq<char>>,
    t: TalkView,
)
    ensures
        ({
            let end = pulling::pull_run(cfg, inputs, minted, t);
            end.stop matches Some(stop) ==> stamps_only(end.ordered, minted, stop)
        }),
{
    let orphans = orphans::orphans_of(inputs.plan);
    let start = adoptions::adoption_start(
        cfg,
        inputs.plan,
        inputs.beads,
        inputs.remote,
        orphans,
        orphans.recoverable,
    );
    adoptions_stamp(start.ordered, minted, 0, adoptions::adoption_begun(start), t);
}

/// How many changes of links a plan holds from the `j`-th of the `i`-th pair
/// on.
pub open spec fn changes_left(plans: Seq<IssueLinkPlanView>, i: int, j: int) -> nat
    decreases plans.len() - i,
{
    if i < 0 || i >= plans.len() {
        0
    } else {
        (if 0 <= j < plans[i].changes.len() {
            (plans[i].changes.len() - j) as nat
        } else {
            0
        }) + changes_left(plans, i + 1, 0)
    }
}

/// Every change of a link that a plan holds is accounted for once: it was
/// made, or it is among the failures.
pub proof fn every_link_change_is_accounted_for(
    types: LinkTypesView,
    plans: Seq<IssueLinkPlanView>,
    i: int,
    j: int,
    report: PushReportView,
    t: TalkView,
)
    requires
        0 <= i,
        0 <= j,
    ensures
        ({
            let end = link_pushes::links_pushed_from(types, plans, i, j, report, t);
            end.stop is None ==> end.report.links_added.len() + end.report.links_removed.len()
                + end.report.failures.len() == report.links_added.len()
                + report.links_removed.len() + report.failures.len() + changes_left(plans, i, j)
        }),
    decreases plans.len() - i, (if 0 <= i < plans.len() { plans[i].changes.len() - j } else { 0 }),
{
    if 0 <= i < plans.len() {
        if 0 <= j < plans[i].changes.len() {
            let change = plans[i].changes[j];
            let one = link_pushes::link_pushed(types, plans[i].remote_id, change, report, t);
            every_link_change_is_accounted_for(types, plans, i, j + 1, one.report, one.talk);
        } else {
            every_link_change_is_accounted_for(types, plans, i + 1, 0, report, t);
        }
    }
}

/// An issue is adopted only if it is no bead's already and in no dispute: one
/// that several beads' runs may have created is left for a person to settle.
pub proof fn disputed_issues_are_not_adopted(
    cfg: RemoteConfigView,
    p: ReconcilePlanView,
    beads: Seq<Issue>,
    remote: Seq<RemoteIssueView>,
    orphans: OrphanScanView,
    recovered: Seq<(Seq<char>, Seq<char>)>,
    k: int,
)
    requires
        0 <= k < adoptions::adoption_start(cfg, p, beads, remote, orphans, recovered).ordered.len(),
    ensures
        ({
            let start = adoptions::adoption_start(cfg, p, beads, remote, orphans, recovered);
            adoptions::is_adoptable(start.id_map, orphans, start.ordered[k].remote)
        }),
{
    broadcast use vstd::seq_lib::group_to_multiset_ensures;

    let start = adoptions::adoption_start(cfg, p, beads, remote, orphans, recovered);
    let known = start.id_map;
    let unpaired = crate::remote::reconcile::pairing_of(cfg, beads, remote).unpaired_remote;
    let f = |i: RemoteIssueView| adoptions::candidate_of(cfg, known, orphans, i);
    let candidates = text::picked(unpaired, f);
    let one = start.ordered[k];
    adopt::no_candidate_is_lost(candidates, known);
    assert(start.ordered.contains(one));
    assert(start.ordered.to_multiset().count(one) > 0);
    assert(candidates.to_multiset().count(one) > 0);
    assert(candidates.contains(one));
    let j = choose|j: int| 0 <= j < candidates.len() && candidates[j] == one;
    text::picked_comes_from(unpaired, f, j);
}

/// An issue that has been marked as deleted is not read any more, as long as
/// no status stands for the state that marks it: it is reported as one that
/// cannot be read, so that no later run pairs it and marks it again.
pub proof fn marked_issue_is_not_read(
    cfg: RemoteConfigView,
    types: LinkTypesView,
    raw: crate::json::JsonView,
)
    requires
        crate::remote::config::key_over(cfg.status_map, cfg.deleted_state) is None,
        mapping::bundle_value(raw, "State"@) == mapping::bundle_value(
            mapping::deleted_body(cfg),
            "State"@,
        ),
    ensures
        fetch::readable(cfg, types, raw) is None,
        fetch::unreadable(cfg, types, raw) is Some,
{
    mapping::deletion_sets_the_state(cfg);
}

} // verus!
