//! What the replies of the mirror make of a run.

use crate::json::JsonView;
use crate::model::Issue;
use crate::remote::adopt;
use crate::remote::adopt::{
    AdoptionCandidateView, DeferralReason, DeferredAdoptionView, ImportedCommentView,
    ImportedLinkView,
};
use crate::remote::comments;
use crate::remote::comments::RemoteCommentView;
use crate::remote::config::RemoteConfigView;
use crate::remote::diff::{FieldChange, FieldChangeView};
use crate::remote::error;
use crate::remote::error::RemoteErrorView;
use crate::remote::execute::adoptions;
use crate::remote::execute::adoptions::{AdoptStopView, AdoptionRunView};
use crate::remote::execute::comment_pushes;
use crate::remote::execute::creates;
use crate::remote::execute::creates::{CreateOutcomeView, CreateReportView};
use crate::remote::execute::field_pushes;
use crate::remote::execute::field_pushes::PushReportView;
use crate::remote::execute::link_pushes;
use crate::remote::execute::orphans;
use crate::remote::execute::orphans::OrphanScanView;
use crate::remote::execute::pulling;
use crate::remote::execute::pushing;
use crate::remote::execute::pushing::{PushStopView, RunInputsView};
use crate::remote::execute::reading;
use crate::remote::link_diff;
use crate::remote::link_diff::LinkChangeView;
use crate::remote::model::RemoteIssueView;
use crate::remote::plan;
use crate::remote::plan::{
    CommentPlanView, CommentWorkView, IssueFieldPlanView, IssueLinkPlanView, PlanScope,
    ReconcilePlanView,
};
use crate::remote::reconcile;
use crate::remote::reconcile::PairedPairView;
use crate::remote::talk::{StopView, TalkView};
use crate::remote::tombstone;
use crate::remote::tombstone::TombstoneActionView;
use crate::remote::youtrack::links;
use crate::remote::youtrack::links::{LinkKind, LinkTypesView, RemoteLinkView};
use crate::remote::youtrack::mapping;
use crate::remote::youtrack::tags::TagCacheView;
use crate::text;
use vstd::prelude::*;

verus! {

/// The identifier that a kind of link is kept under.
pub open spec fn kept_under(types: LinkTypesView, kind: LinkKind) -> Seq<char> {
    match kind {
        LinkKind::Subtask => types.subtask + "t"@,
        LinkKind::Depend => types.depend + "s"@,
        LinkKind::Relates => types.relates,
    }
}

/// A link is added under the issue that it starts at, by the readable
/// identifier of the other one; and taken away there by the internal one.
pub proof fn links_are_changed_where_they_start(
    types: LinkTypesView,
    remote_id: Seq<char>,
    kind: LinkKind,
    target_internal_id: Seq<char>,
    target_readable: Seq<char>,
)
    ensures
        ({
            let at = "/api/issues/"@ + remote_id + "/links/"@ + kept_under(types, kind);
            let add = link_pushes::link_request(
                types,
                remote_id,
                LinkChangeView::Add { kind, target_readable },
            );
            let remove = link_pushes::link_request(
                types,
                remote_id,
                LinkChangeView::Remove { kind, target_internal_id, target_readable },
            );
            &&& add.method is Post && add.path == at + "/issues?fields=idReadable"@ && add.body
                == Some(
                JsonView::Object(seq![("idReadable"@, JsonView::Text(target_readable))]),
            )
            &&& remove.method is Delete && remove.path == at + "/issues/"@ + target_internal_id
                && remove.body is None
        }),
{
}

/// The issue has the link now.
pub open spec fn links_now(
    now: Seq<RemoteLinkView>,
    types: LinkTypesView,
    kind: LinkKind,
    issue: Seq<char>,
) -> bool {
    exists|l: int, i: int|
        #![trigger now[l].issues[i]]
        0 <= l < now.len() && 0 <= i < now[l].issues.len() && now[l].link_id == kept_under(
            types,
            kind,
        ) && now[l].issues[i].id_readable == issue
}

proof fn present_is_linked(now: Seq<RemoteLinkView>, id: Seq<char>, issue: Seq<char>)
    ensures
        link_diff::readable_ids(link_diff::present_under(now, id)).contains(issue) <==> exists|
            l: int,
            i: int,
        |
            #![trigger now[l].issues[i]]
            0 <= l < now.len() && 0 <= i < now[l].issues.len() && now[l].link_id == id
                && now[l].issues[i].id_readable == issue,
    decreases now.len(),
{
    let there = link_diff::present_under(now, id);
    let ids = link_diff::readable_ids(there);
    if now.len() > 0 {
        let rest = now.drop_last();
        let n = now.len() - 1;
        let before = link_diff::present_under(rest, id);
        present_is_linked(rest, id, issue);
        assert(now[n] == now.last());
        if ids.contains(issue) {
            let k = choose|k: int| 0 <= k < ids.len() && ids[k] == issue;
            if k < before.len() {
                assert(link_diff::readable_ids(before)[k] == issue);
                let (l, i) = choose|l: int, i: int|
                    #![trigger rest[l].issues[i]]
                    0 <= l < rest.len() && 0 <= i < rest[l].issues.len() && rest[l].link_id == id
                        && rest[l].issues[i].id_readable == issue;
                assert(now[l].issues[i] == rest[l].issues[i]);
            } else {
                assert(now[n].issues[k - before.len()].id_readable == issue);
            }
        }
        if exists|l: int, i: int|
            #![trigger now[l].issues[i]]
            0 <= l < now.len() && 0 <= i < now[l].issues.len() && now[l].link_id == id
                && now[l].issues[i].id_readable == issue {
            let (l, i) = choose|l: int, i: int|
                #![trigger now[l].issues[i]]
                0 <= l < now.len() && 0 <= i < now[l].issues.len() && now[l].link_id == id
                    && now[l].issues[i].id_readable == issue;
            if l < n {
                assert(rest[l].issues[i].id_readable == issue);
                let k = choose|k: int|
                    0 <= k < link_diff::readable_ids(before).len() && link_diff::readable_ids(
                        before,
                    )[k] == issue;
                assert(ids[k] == issue);
            } else {
                assert(ids[before.len() + i] == issue);
            }
        }
    }
}

/// A change of a link has landed exactly where the issue has the link that was
/// to be added, or has no longer the one that was to be taken away.
pub proof fn landed_means_the_links_are_so(
    types: LinkTypesView,
    now: Seq<RemoteLinkView>,
    kind: LinkKind,
    internal: Seq<char>,
    issue: Seq<char>,
)
    ensures
        link_pushes::change_holds(
            types,
            LinkChangeView::Add { kind, target_readable: issue },
            now,
        ) <==> links_now(now, types, kind, issue),
        link_pushes::change_holds(
            types,
            LinkChangeView::Remove { kind, target_internal_id: internal, target_readable: issue },
            now,
        ) <==> !links_now(now, types, kind, issue),
{
    present_is_linked(now, kept_under(types, kind), issue);
}

/// The two reports agree in everything but the links and the failures.
pub open spec fn same_but_links(a: PushReportView, b: PushReportView) -> bool {
    PushReportView {
        links_added: b.links_added,
        links_removed: b.links_removed,
        failures: b.failures,
        ..a
    } == b
}

/// A change of a link waits for its reply; one that is granted is told among
/// those that were added or taken away; one that is refused is looked for, and
/// is told among them, too, where the mirror has it after all, with a word
/// that the answer was lost, and else as a failure.
pub proof fn link_changes_are_told_as_they_went(
    types: LinkTypesView,
    remote_id: Seq<char>,
    change: LinkChangeView,
    report: PushReportView,
    t: TalkView,
)
    ensures
        ({
            let end = link_pushes::link_pushed(types, remote_id, change, report, t);
            let line = link_pushes::link_text(remote_id, change);
            &&& same_but_links(report, end.report)
            &&& t.rest.len() == 0 ==> end.report == report && end.stop == Some(
                StopView::Ask {
                    request: link_pushes::link_request(types, remote_id, change),
                    pause: 0,
                },
            )
            &&& t.rest.len() > 0 && t.rest[0] is Ok ==> end.stop is None && end.talk.rest
                == t.rest.drop_first() && told_as_made(report, end.report, change, line)
            &&& t.rest.len() == 1 && t.rest[0] is Err ==> end.report == report && (
            end.stop matches Some(StopView::Ask { request, .. }) && request.method is Get)
            &&& t.rest.len() > 1 && t.rest[0] is Err ==> end.stop is None && match t.rest[1] {
                Ok(raw) => if link_pushes::change_holds(
                    types,
                    change,
                    links::links_read(raw, types),
                ) {
                    told_as_made(
                        report,
                        end.report,
                        change,
                        line + " "@ + link_pushes::LOST_ANSWER@,
                    )
                } else {
                    told_as_failed(report, end.report, line, t.rest[0]->Err_0)
                },
                Err(_) => told_as_failed(report, end.report, line, t.rest[0]->Err_0),
            }
        }),
{
    if t.rest.len() > 1 {
        assert(t.rest.drop_first()[0] == t.rest[1]);
    }
}

/// The later report has the change among those that were made.
pub open spec fn told_as_made(
    before: PushReportView,
    after: PushReportView,
    change: LinkChangeView,
    line: Seq<char>,
) -> bool {
    after.failures == before.failures && match change {
        LinkChangeView::Add { .. } => after.links_added == before.links_added.push(line)
            && after.links_removed == before.links_removed,
        LinkChangeView::Remove { .. } => after.links_removed == before.links_removed.push(line)
            && after.links_added == before.links_added,
    }
}

/// The later report has one failure more, with the reason at its end.
pub open spec fn told_as_failed(
    before: PushReportView,
    after: PushReportView,
    what: Seq<char>,
    why: RemoteErrorView,
) -> bool {
    after == PushReportView {
        failures: before.failures.push(what + ": "@ + error::error_text(why)),
        ..before
    }
}

/// How often the text was sent before is how often it is in the list.
pub proof fn times_counts(list: Seq<Seq<char>>, s: Seq<char>)
    ensures
        comment_pushes::times(list, s) == list.filter(|x: Seq<char>| x == s).len(),
    decreases list.len(),
{
    reveal(Seq::filter);
    if list.len() > 0 {
        times_counts(list.drop_last(), s);
    }
}

/// A comment that is granted counts once as pushed. One that is refused counts
/// as pushed and recovered where the mirror has one copy more than were sent
/// before, and is a failure where it has not.
pub proof fn comments_are_told_as_they_went(
    remote_id: Seq<char>,
    body: Seq<char>,
    sent: Seq<Seq<char>>,
    report: PushReportView,
    t: TalkView,
    fetched: Seq<RemoteCommentView>,
    after: TalkView,
)
    requires
        report.comments_pushed < usize::MAX,
        report.comments_recovered < usize::MAX,
        t.rest.len() > 0,
    ensures
        ({
            let end = comment_pushes::comment_pushed(remote_id, body, sent, report, t);
            let looked = comments::comments_fetched(
                remote_id,
                TalkView { rest: t.rest.drop_first(), ..t },
            );
            let copies = comments::copies_of(fetched, body).len();
            &&& t.rest[0] is Ok ==> end.stop is None && end.sent == sent.push(body) && end.report
                == (PushReportView {
                comments_pushed: (report.comments_pushed + 1) as usize,
                ..report
            })
            &&& t.rest[0] is Err && looked == (Ok::<Seq<RemoteCommentView>, StopView>(fetched), after)
                && copies > sent.filter(|x: Seq<char>| x == body).len() ==> end.stop is None
                && end.sent == sent.push(body) && end.report == (PushReportView {
                comments_pushed: (report.comments_pushed + 1) as usize,
                comments_recovered: (report.comments_recovered + 1) as usize,
                ..report
            })
            &&& t.rest[0] is Err && looked == (Ok::<Seq<RemoteCommentView>, StopView>(fetched), after)
                && copies <= sent.filter(|x: Seq<char>| x == body).len() ==> end.stop is None
                && end.sent == sent && told_as_failed(
                report,
                end.report,
                "comment on "@ + remote_id,
                t.rest[0]->Err_0,
            )
        }),
{
    times_counts(sent, body);
}

/// What a comment waits for is that it is added to its issue, word for word.
pub proof fn comments_are_posted_word_for_word(
    remote_id: Seq<char>,
    body: Seq<char>,
    sent: Seq<Seq<char>>,
    report: PushReportView,
    t: TalkView,
)
    requires
        t.rest.len() == 0,
    ensures
        ({
            let end = comment_pushes::comment_pushed(remote_id, body, sent, report, t);
            &&& end.report == report
            &&& end.stop matches Some(StopView::Ask { request, .. }) && request.method is Post
                && request.path == "/api/issues/"@ + remote_id + "/comments?fields=id"@
                && request.body == Some(JsonView::Object(seq![("text"@, JsonView::Text(body))]))
        }),
{
}

/// A deletion first marks the issue, and then says why; the bead is told as
/// marked only where the mirror granted both, and nothing is said on an issue
/// that could not be marked.
pub proof fn deletions_are_told_as_they_went(
    cfg: RemoteConfigView,
    bead_id: Seq<char>,
    remote_id: Seq<char>,
    reason: Option<Seq<char>>,
    report: PushReportView,
    t: TalkView,
)
    ensures
        ({
            let end = comment_pushes::deletion_pushed(cfg, bead_id, remote_id, reason, report, t);
            let marks = field_pushes::update_request(remote_id, mapping::deleted_body(cfg));
            let says = comments::comment_post_of(remote_id, tombstone::deleted_comment(reason));
            &&& t.rest.len() == 0 ==> end.report == report && end.stop == Some(
                StopView::Ask { request: marks, pause: 0 },
            )
            &&& t.rest.len() > 0 && t.rest[0] is Err ==> end.stop is None && end.talk.rest
                == t.rest.drop_first() && end.report.tombstones_marked == report.tombstones_marked
                && end.report.failures.len() == report.failures.len() + 1
            &&& t.rest.len() == 1 && t.rest[0] is Ok ==> end.report == report && end.stop == Some(
                StopView::Ask { request: says, pause: 0 },
            )
            &&& t.rest.len() > 1 && t.rest[0] is Ok && t.rest[1] is Err ==> end.stop is None
                && end.report.tombstones_marked == report.tombstones_marked
                && end.report.failures.len() == report.failures.len() + 1
            &&& t.rest.len() > 1 && t.rest[0] is Ok && t.rest[1] is Ok ==> end.stop is None
                && end.report == (PushReportView {
                tombstones_marked: report.tombstones_marked.push(bead_id),
                ..report
            })
        }),
{
    if t.rest.len() > 1 {
        assert(t.rest.drop_first()[0] == t.rest[1]);
    }
}

/// Beads that have an issue already, or that several issues name, are passed
/// without a request; any other bead that is there is created with all its
/// fields, or not at all.
pub proof fn only_beads_without_an_issue_are_created(
    cfg: RemoteConfigView,
    project_id: Seq<char>,
    beads: Seq<Issue>,
    scan: OrphanScanView,
    bead_id: Seq<char>,
    t: TalkView,
)
    ensures
        ({
            let (outcome, after) = creates::creation(
                cfg,
                project_id,
                beads,
                scan,
                bead_id,
                t,
            );
            let made = text::last_under(scan.recoverable, bead_id);
            let bead = plan::bead_called(beads, bead_id);
            &&& made matches Some(id) ==> after == t && outcome == Ok::<CreateOutcomeView, StopView>(
                CreateOutcomeView::Recovered(id),
            )
            &&& made is None && orphans::in_dispute(scan, bead_id) ==> after == t && outcome == Ok::<
                CreateOutcomeView,
                StopView,
            >(CreateOutcomeView::Skipped)
            &&& made is None && !orphans::in_dispute(scan, bead_id) && bead is None ==> after == t
                && (outcome matches Ok(CreateOutcomeView::Failed(_)))
            &&& made is None && !orphans::in_dispute(scan, bead_id) && (bead matches Some(b)
                && mapping::create_body(cfg, project_id, b) is Err) ==> after == t && (
            outcome matches Ok(CreateOutcomeView::Failed(_)))
            &&& made is None && !orphans::in_dispute(scan, bead_id) && (bead matches Some(b)
                && mapping::create_body(cfg, project_id, b) is Ok) && t.rest.len() == 0 ==> (
            outcome matches Err(StopView::Ask { request, .. }) && request.method is Post
                && request.body == Some(mapping::create_body(cfg, project_id, bead->0)->Ok_0))
            &&& made is None && !orphans::in_dispute(scan, bead_id) && (bead matches Some(b)
                && mapping::create_body(cfg, project_id, b) is Ok) && t.rest.len() > 0
                ==> outcome == Ok::<CreateOutcomeView, StopView>(creates::create_answer(t.rest[0]))
                && after.rest == t.rest.drop_first()
        }),
{
}

/// A creation has come about exactly where the reply names the issue, and the
/// issue is the one that the reply names.
pub proof fn created_issue_is_named_by_the_reply(reply: Result<JsonView, RemoteErrorView>)
    ensures
        creates::create_answer(reply) matches CreateOutcomeView::Created(id) ==> id.len() > 0 && (
        reply matches Ok(raw) && crate::json::member(raw, "idReadable"@) == Some(
            JsonView::Text(id),
        )),
        (reply matches Ok(raw) && (crate::json::member(raw, "idReadable"@) matches Some(
            JsonView::Text(id),
        ) && id.len() > 0)) ==> creates::create_answer(reply) is Created,
        !(creates::create_answer(reply) is Created) ==> creates::create_answer(reply) is Failed,
{
}

/// Every outcome of a creation goes into its own list, with the bead it is of.
pub proof fn creations_are_told_as_they_went(
    report: CreateReportView,
    bead_id: Seq<char>,
    outcome: CreateOutcomeView,
)
    ensures
        ({
            let now = creates::with_outcome(report, bead_id, outcome);
            &&& now.ambiguous == report.ambiguous
            &&& now.created == (if outcome is Created {
                report.created.push((bead_id, outcome->Created_0))
            } else {
                report.created
            })
            &&& now.recovered == (if outcome is Recovered {
                report.recovered.push((bead_id, outcome->Recovered_0))
            } else {
                report.recovered
            })
            &&& now.failed == (if outcome is Failed {
                report.failed.push((bead_id, outcome->Failed_0))
            } else {
                report.failed
            })
        }),
{
}

/// The report says that the bead was created or paired.
pub open spec fn has_issue_now(report: CreateReportView, bead: Seq<char>) -> bool {
    (exists|i: int| 0 <= i < report.created.len() && (#[trigger] report.created[i]).0 == bead) || (
    exists|i: int| 0 <= i < report.recovered.len() && (#[trigger] report.recovered[i]).0 == bead)
}

/// The first failure ends the creations. Where none failed and none waits, all
/// beads were dealt with, and each has an issue now unless several name it.
pub proof fn creations_go_on_until_one_fails(
    cfg: RemoteConfigView,
    project_id: Seq<char>,
    beads: Seq<Issue>,
    scan: OrphanScanView,
    ids: Seq<Seq<char>>,
    k: int,
    report: CreateReportView,
    t: TalkView,
    i: int,
)
    requires
        0 <= k <= ids.len(),
    ensures
        ({
            let end = creates::creations_from(
                cfg,
                project_id,
                beads,
                scan,
                ids,
                k,
                report,
                t,
            );
            &&& report.failed.len() <= end.report.failed.len() <= report.failed.len() + 1
            &&& end.report.failed.len() > report.failed.len() ==> end.stop is None
                && end.report.failed.last().0 == ids[end.done]
            &&& end.stop is None && end.report.failed.len() == report.failed.len() ==> end.done
                == ids.len()
            &&& k <= end.done <= ids.len()
            &&& k <= i < end.done ==> has_issue_now(end.report, ids[i]) || orphans::in_dispute(
                scan,
                ids[i],
            )
            &&& forall|b: Seq<char>| #[trigger]
                has_issue_now(report, b) ==> has_issue_now(end.report, b)
        }),
    decreases ids.len() - k,
{
    if k < ids.len() {
        let (outcome, after) = creates::creation(cfg, project_id, beads, scan, ids[k], t);
        if let Ok(o) = outcome {
            let now = creates::with_outcome(report, ids[k], o);
            assert forall|b: Seq<char>| #[trigger] has_issue_now(report, b) implies has_issue_now(
                now,
                b,
            ) by {
                if exists|i: int|
                    0 <= i < report.created.len() && (#[trigger] report.created[i]).0 == b {
                    let i = choose|i: int|
                        0 <= i < report.created.len() && (#[trigger] report.created[i]).0 == b;
                    assert(now.created[i] == report.created[i]);
                } else {
                    let i = choose|i: int|
                        0 <= i < report.recovered.len() && (#[trigger] report.recovered[i]).0 == b;
                    assert(now.recovered[i] == report.recovered[i]);
                }
            }
            if o is Created {
                assert(now.created.last().0 == ids[k]);
                assert(now.created[now.created.len() - 1].0 == ids[k]);
                assert(has_issue_now(now, ids[k]));
            }
            if o is Recovered {
                assert(now.recovered[now.recovered.len() - 1].0 == ids[k]);
                assert(has_issue_now(now, ids[k]));
            }
            if !(o is Failed) {
                creations_go_on_until_one_fails(
                    cfg,
                    project_id,
                    beads,
                    scan,
                    ids,
                    k + 1,
                    now,
                    after,
                    i,
                );
            }
        }
    }
}

/// Once a push has given beads their issues, it goes by what was read since:
/// nothing of what was planned before counts any more. As long as that has not
/// been read, it waits for it.
pub proof fn push_goes_by_what_was_read_last(
    cfg: RemoteConfigView,
    types: LinkTypesView,
    one: RunInputsView,
    other: RunInputsView,
    again: Option<RunInputsView>,
    t: TalkView,
)
    requires
        creates::creations(cfg, one.plan, one.beads, t) == creates::creations(
            cfg,
            other.plan,
            other.beads,
            t,
        ),
        ({
            let made = creates::creations(cfg, one.plan, one.beads, t);
            made.stop is None && made.report.failed.len() == 0 && made.report.created.len()
                + made.report.recovered.len() > 0
        }),
    ensures
        pushing::push_run(cfg, types, one, again, t) == pushing::push_run(
            cfg,
            types,
            other,
            again,
            t,
        ),
        again is None ==> pushing::push_run(cfg, types, one, again, t).1 == Some(
            PushStopView::Refresh,
        ),
{
}

/// Where a creation failed, nothing else is written.
pub proof fn failed_creation_ends_a_push(
    cfg: RemoteConfigView,
    types: LinkTypesView,
    inputs: RunInputsView,
    again: Option<RunInputsView>,
    t: TalkView,
)
    requires
        creates::creations(cfg, inputs.plan, inputs.beads, t).report.failed.len() > 0,
        creates::creations(cfg, inputs.plan, inputs.beads, t).stop is None,
    ensures
        ({
            let (report, stop) = pushing::push_run(cfg, types, inputs, again, t);
            &&& stop is None
            &&& report.fields_updated.len() == 0 && report.links_added.len() == 0
                && report.links_removed.len() == 0 && report.comments_pushed == 0
                && report.tombstones_marked.len() == 0 && report.failures.len() == 0
            &&& report.creates == creates::creations(cfg, inputs.plan, inputs.beads, t).report
        }),
{
}

/// Every comment that is to come in reaches its bead, in the name of the
/// mirror and word for word, and no other does.
pub proof fn incoming_comments_reach_their_beads(
    work: Seq<CommentWorkView>,
    row: ImportedCommentView,
)
    ensures
        pulling::incoming(work).contains(row) <==> row.author == "youtrack"@ && exists|
            w: int,
            c: int,
        |
            #![trigger work[w].to_pull[c]]
            0 <= w < work.len() && 0 <= c < work[w].to_pull.len() && row.bead_id == work[w].bead_id
                && row.text == work[w].to_pull[c].text,
{
    let f = |w: CommentWorkView|
        w.to_pull.map_values(
            |c: RemoteCommentView| crate::remote::adopt::comment_row(w.bead_id, c.text),
        );
    let all = pulling::incoming(work);
    if all.contains(row) {
        let k = choose|k: int| 0 <= k < all.len() && all[k] == row;
        text::told_comes_from(work, f, k);
        let w = choose|w: int| 0 <= w < work.len() && f(#[trigger] work[w]).contains(row);
        let rows = f(work[w]);
        let c = choose|c: int| 0 <= c < rows.len() && rows[c] == row;
        assert(work[w].to_pull[c].text == row.text);
    }
    if row.author == "youtrack"@ && exists|w: int, c: int|
        #![trigger work[w].to_pull[c]]
        0 <= w < work.len() && 0 <= c < work[w].to_pull.len() && row.bead_id == work[w].bead_id
            && row.text == work[w].to_pull[c].text {
        let (w, c) = choose|w: int, c: int|
            #![trigger work[w].to_pull[c]]
            0 <= w < work.len() && 0 <= c < work[w].to_pull.len() && row.bead_id
                == work[w].bead_id && row.text == work[w].to_pull[c].text;
        assert(f(work[w])[c] == row);
        text::told_holds(work, f, w, row);
    }
}

/// The comments of a pair are looked at exactly where its bead is there, is
/// not deleted, and has another number of comments than its issue reports.
pub proof fn comments_are_looked_at_where_counts_differ(beads: Seq<Issue>, p: PairedPairView)
    requires
        plan::bead_called(beads, p.bead_id) matches Some(b) ==> b.comments@.len() <= u32::MAX,
    ensures
        reading::comments_due(beads, p) is Some <==> (plan::bead_called(
            beads,
            p.bead_id,
        ) matches Some(b) && !(b.status@ is Tombstone) && b.comments@.len()
            != p.remote.comments_count),
        reading::comments_due(beads, p) matches Some(b) ==> Some(b) == plan::bead_called(
            beads,
            p.bead_id,
        ),
{
}

/// Where the comments of no pair are to be looked at, nothing is asked and no
/// comment moves; else those of the first such pair are asked for first.
pub proof fn pairs_are_looked_at_in_turn(
    beads: Seq<Issue>,
    paired: Seq<PairedPairView>,
    k: int,
    had: Seq<CommentWorkView>,
    t: TalkView,
    first: int,
)
    requires
        0 <= k <= paired.len(),
    ensures
        (forall|i: int|
            k <= i < paired.len() ==> reading::comments_due(beads, #[trigger] paired[i]) is None)
            ==> reading::work_from(beads, paired, k, had, t) == (
            Ok::<Seq<CommentWorkView>, StopView>(had),
            t,
        ),
        k <= first < paired.len() && reading::comments_due(beads, paired[first]) is Some && (forall|
            i: int,
        |
            k <= i < first ==> reading::comments_due(beads, #[trigger] paired[i]) is None)
            && t.rest.len() == 0 ==> (reading::work_from(beads, paired, k, had, t).0 matches Err(
            StopView::Ask { request, .. },
        ) && request == comments::comments_page_of(paired[first].remote.id_readable, 0)),
    decreases paired.len() - k,
{
    if k < paired.len() {
        if reading::comments_due(beads, paired[k]) is None {
            pairs_are_looked_at_in_turn(beads, paired, k + 1, had, t, first);
        }
    }
}

/// What the mirror wins is counted change by change, and no other change is.
pub proof fn won_changes_are_counted(plans: Seq<IssueFieldPlanView>, p: IssueFieldPlanView)
    ensures
        pushing::pulled_changes(Seq::empty()) == 0,
        pushing::pulled_changes(plans.push(p)) == pushing::pulled_changes(plans) + p.changes.filter(
            |c: FieldChangeView| c.direction is Pull,
        ).len(),
{
    assert(plans.push(p).drop_last() =~= plans);
    won_of_one(p.changes);
}

proof fn won_of_one(changes: Seq<FieldChangeView>)
    ensures
        plan::covered::<FieldChange>(PlanScope::Pull, changes).len() == changes.filter(
            |c: FieldChangeView| c.direction is Pull,
        ).len(),
    decreases changes.len(),
{
    reveal(Seq::filter);
    if changes.len() > 0 {
        won_of_one(changes.drop_last());
    }
}

/// The comments that come in are counted pair by pair.
pub proof fn incoming_comments_are_counted(entries: Seq<CommentPlanView>, c: CommentPlanView)
    ensures
        pushing::pulled_comments(Seq::empty()) == 0,
        pushing::pulled_comments(entries.push(c)) == pushing::pulled_comments(entries) + (
        if c.direction is Pull {
            c.count as nat
        } else {
            0
        }),
{
    assert(entries.push(c).drop_last() =~= entries);
}

/// The two reports agree in what stands in them before anything but issues is
/// written.
pub open spec fn same_start(a: PushReportView, b: PushReportView) -> bool {
    a.creates == b.creates && a.left_to_pull == b.left_to_pull && a.comments_left_to_pull
        == b.comments_left_to_pull && a.replanned_after == b.replanned_after
}

proof fn fields_keep_the_start(
    cfg: RemoteConfigView,
    beads: Seq<Issue>,
    plans: Seq<IssueFieldPlanView>,
    k: int,
    cache: Option<TagCacheView>,
    report: PushReportView,
    t: TalkView,
)
    ensures
        same_start(
            report,
            field_pushes::fields_pushed_from(cfg, beads, plans, k, cache, report, t).report,
        ),
    decreases plans.len() - k,
{
    if 0 <= k < plans.len() {
        let one = field_pushes::field_pushed(cfg, beads, plans[k], cache, report, t);
        assert(same_start(report, one.report));
        if one.stop is None {
            fields_keep_the_start(cfg, beads, plans, k + 1, one.cache, one.report, one.talk);
        }
    }
}

proof fn links_keep_the_start(
    types: LinkTypesView,
    plans: Seq<IssueLinkPlanView>,
    i: int,
    j: int,
    report: PushReportView,
    t: TalkView,
)
    ensures
        same_start(
            report,
            link_pushes::links_pushed_from(types, plans, i, j, report, t).report,
        ),
    decreases plans.len() - i, (if 0 <= i < plans.len() { plans[i].changes.len() - j } else { 0 }),
{
    if 0 <= i < plans.len() {
        if j < 0 || j >= plans[i].changes.len() {
            links_keep_the_start(types, plans, i + 1, 0, report, t);
        } else {
            let one = link_pushes::link_pushed(
                types,
                plans[i].remote_id,
                plans[i].changes[j],
                report,
                t,
            );
            link_changes_are_told_as_they_went(
                types,
                plans[i].remote_id,
                plans[i].changes[j],
                report,
                t,
            );
            if one.stop is None {
                links_keep_the_start(types, plans, i, j + 1, one.report, one.talk);
            }
        }
    }
}

proof fn comments_keep_the_start(
    work: Seq<CommentWorkView>,
    i: int,
    j: int,
    sent: Seq<Seq<char>>,
    report: PushReportView,
    t: TalkView,
)
    ensures
        same_start(
            report,
            comment_pushes::comments_pushed_from(work, i, j, sent, report, t).report,
        ),
    decreases work.len() - i, (if 0 <= i < work.len() { work[i].to_push.len() - j } else { 0 }),
{
    if 0 <= i < work.len() {
        if j < 0 || j >= work[i].to_push.len() {
            comments_keep_the_start(work, i + 1, 0, Seq::empty(), report, t);
        } else {
            let one = comment_pushes::comment_pushed(
                work[i].remote_id,
                work[i].to_push[j],
                sent,
                report,
                t,
            );
            assert(same_start(report, one.report));
            if one.stop is None {
                comments_keep_the_start(work, i, j + 1, one.sent, one.report, one.talk);
            }
        }
    }
}

proof fn deletions_keep_the_start(
    cfg: RemoteConfigView,
    table: Seq<(Seq<char>, Seq<char>)>,
    actions: Seq<(Seq<char>, TombstoneActionView)>,
    k: int,
    report: PushReportView,
    t: TalkView,
)
    ensures
        same_start(
            report,
            comment_pushes::deletions_pushed_from(cfg, table, actions, k, report, t).report,
        ),
    decreases actions.len() - k,
{
    if 0 <= k < actions.len() {
        match (actions[k].1, text::last_under(table, actions[k].0)) {
            (TombstoneActionView::Delete { reason }, Some(remote_id)) => {
                let one = comment_pushes::deletion_pushed(
                    cfg,
                    actions[k].0,
                    remote_id,
                    reason,
                    report,
                    t,
                );
                assert(same_start(report, one.report));
                if one.stop is None {
                    deletions_keep_the_start(cfg, table, actions, k + 1, one.report, one.talk);
                }
            },
            _ => deletions_keep_the_start(cfg, table, actions, k + 1, report, t),
        }
    }
}

/// Whatever becomes of a push, its report tells how much is left to pull, and
/// what was created before.
pub proof fn push_tells_what_is_left_to_pull(
    cfg: RemoteConfigView,
    types: LinkTypesView,
    p: ReconcilePlanView,
    beads: Seq<Issue>,
    work: Seq<CommentWorkView>,
    report: PushReportView,
    t: TalkView,
)
    requires
        pushing::pulled_changes(p.field_changes) <= usize::MAX,
        pushing::pulled_comments(p.comment_changes) <= usize::MAX,
    ensures
        ({
            let end = pushing::rest_pushed(cfg, types, p, beads, work, report, t).report;
            &&& end.left_to_pull == pushing::pulled_changes(p.field_changes)
            &&& end.comments_left_to_pull == pushing::pulled_comments(p.comment_changes)
            &&& end.creates == report.creates
            &&& end.replanned_after == report.replanned_after
        }),
{
    let counted = PushReportView {
        left_to_pull: pushing::capped(pushing::pulled_changes(p.field_changes)),
        comments_left_to_pull: pushing::capped(pushing::pulled_comments(p.comment_changes)),
        ..report
    };
    let fields = field_pushes::fields_pushed_from(cfg, beads, p.field_changes, 0, None, counted, t);
    fields_keep_the_start(cfg, beads, p.field_changes, 0, None, counted, t);
    if fields.stop is None {
        let tagged = match fields.cache {
            Some(cache) => PushReportView { tags_skipped: cache.skipped, ..fields.report },
            None => fields.report,
        };
        let links = link_pushes::links_pushed_from(types, p.link_changes, 0, 0, tagged, fields.talk);
        links_keep_the_start(types, p.link_changes, 0, 0, tagged, fields.talk);
        if links.stop is None {
            let comments = comment_pushes::comments_pushed_from(
                work,
                0,
                0,
                Seq::empty(),
                links.report,
                links.talk,
            );
            comments_keep_the_start(work, 0, 0, Seq::empty(), links.report, links.talk);
            if comments.stop is None {
                deletions_keep_the_start(
                    cfg,
                    comment_pushes::tombstoned_ids(p),
                    tombstone::tombstone_actions(beads),
                    0,
                    comments.report,
                    comments.talk,
                );
            }
        }
    }
}

/// Links come behind the fields, comments behind the links, and deletions
/// behind the comments: what is asked for first is the first thing of the
/// first of these that there is.
pub proof fn push_writes_in_its_order(
    cfg: RemoteConfigView,
    types: LinkTypesView,
    p: ReconcilePlanView,
    beads: Seq<Issue>,
    work: Seq<CommentWorkView>,
    report: PushReportView,
    t: TalkView,
)
    requires
        t.rest.len() == 0,
        p.field_changes.len() == 0,
    ensures
        ({
            let end = pushing::rest_pushed(cfg, types, p, beads, work, report, t);
            &&& p.link_changes.len() > 0 && p.link_changes[0].changes.len() > 0 ==> end.stop == Some(
                StopView::Ask {
                    request: link_pushes::link_request(
                        types,
                        p.link_changes[0].remote_id,
                        p.link_changes[0].changes[0],
                    ),
                    pause: 0,
                },
            )
            &&& p.link_changes.len() == 0 && work.len() > 0 && work[0].to_push.len() > 0
                ==> end.stop == Some(
                StopView::Ask {
                    request: comments::comment_post_of(work[0].remote_id, work[0].to_push[0]),
                    pause: 0,
                },
            )
            &&& p.link_changes.len() == 0 && work.len() == 0 && tombstone::tombstone_actions(
                beads,
            ).len() == 0 ==> end.stop is None
        }),
{
}

/// A deleted bead that was mirrored and lives on nowhere has its issue marked;
/// one that lives on, or has no issue, is passed without a request.
pub proof fn deletions_are_of_mirrored_beads(
    cfg: RemoteConfigView,
    table: Seq<(Seq<char>, Seq<char>)>,
    actions: Seq<(Seq<char>, TombstoneActionView)>,
    k: int,
    report: PushReportView,
    t: TalkView,
)
    requires
        0 <= k < actions.len(),
    ensures
        ({
            let end = comment_pushes::deletions_pushed_from(cfg, table, actions, k, report, t);
            let next = comment_pushes::deletions_pushed_from(cfg, table, actions, k + 1, report, t);
            &&& actions[k].1 is Forward ==> end == next
            &&& (forall|i: int| 0 <= i < table.len() ==> (#[trigger] table[i]).0 != actions[k].0)
                ==> end == next
            &&& t.rest.len() == 0 ==> (actions[k].1 is Delete ==> (text::last_under(
                table,
                actions[k].0,
            ) matches Some(id) ==> end.stop == Some(
                StopView::Ask {
                    request: field_pushes::update_request(id, mapping::deleted_body(cfg)),
                    pause: 0,
                },
            )))
        }),
{
    text::last_entry_counts(table, actions[k].0);
}

/// An issue without a bead and in no dispute that can be read is created or
/// put off; one that cannot be read, and that the plan has not told, is
/// refused by name.
pub proof fn unclaimed_issues_are_taken_or_refused(
    cfg: RemoteConfigView,
    p: ReconcilePlanView,
    beads: Seq<Issue>,
    remote: Seq<RemoteIssueView>,
    scan: OrphanScanView,
    recovered: Seq<(Seq<char>, Seq<char>)>,
    i: RemoteIssueView,
)
    requires
        reconcile::pairing_of(cfg, beads, remote).unpaired_remote.contains(i),
        adoptions::is_adoptable(
            adoptions::adoption_start(cfg, p, beads, remote, scan, recovered).id_map,
            scan,
            i,
        ),
    ensures
        ({
            let start = adoptions::adoption_start(cfg, p, beads, remote, scan, recovered);
            &&& adopt::adoption_read(cfg, i) matches Ok(c) ==> start.ordered.contains(c) || exists|
                k: int,
            |
                0 <= k < start.deferred.len() && text::holds(
                    #[trigger] start.deferred[k],
                    c.remote.id_readable,
                )
            &&& adopt::adoption_read(cfg, i) matches Err(e) ==> (!adoptions::is_reported(
                p,
                e.id_readable,
            ) ==> start.refused.contains(adopt::refusal_text(e)))
        }),
{
    let start = adoptions::adoption_start(cfg, p, beads, remote, scan, recovered);
    let known = start.id_map;
    let left = reconcile::pairing_of(cfg, beads, remote).unpaired_remote;
    let f = |i: RemoteIssueView| adoptions::candidate_of(cfg, known, scan, i);
    let g = |i: RemoteIssueView| adoptions::refusal_line(cfg, p, known, scan, i);
    let at = choose|at: int| 0 <= at < left.len() && left[at] == i;
    match adopt::adoption_read(cfg, i) {
        Ok(c) => {
            text::picked_holds(left, f, at);
            let all = text::picked(left, f);
            assert(all.contains(c));
            adopt::no_candidate_is_lost(all, known);
            let made = adopt::creation_order(all, known);
            let off = adopt::put_off(all, known);
            all.to_multiset_ensures();
            made.to_multiset_ensures();
            off.to_multiset_ensures();
            assert(all.to_multiset().count(c) > 0);
            assert(made.to_multiset().count(c) + off.to_multiset().count(c) > 0);
            if !made.contains(c) {
                assert(off.contains(c));
                let k = choose|k: int| 0 <= k < off.len() && off[k] == c;
                let d = adopt::deferral_of(c, all);
                assert(start.deferred[k] == adopt::deferral_text(d));
                deferral_names_the_issue(d);
            }
        },
        Err(e) => {
            if !adoptions::is_reported(p, e.id_readable) {
                text::picked_holds(left, g, at);
            }
        },
    }
}

proof fn deferral_names_the_issue(d: DeferredAdoptionView)
    ensures
        text::holds(adopt::deferral_text(d), d.id_readable),
{
    let none = Seq::<char>::empty();
    text::holds_itself(d.id_readable);
    match d.reason {
        DeferralReason::ParentNotAdoptable => {
            let rest = ": deferred because its parent "@ + d.parent_id
                + " is neither mirrored nor adoptable in this run — make "@ + d.parent_id
                + " adoptable and the next run takes both"@;
            text::holds_within(none, d.id_readable, rest, d.id_readable);
            assert(none + d.id_readable + rest =~= adopt::deferral_text(d));
        },
        DeferralReason::ParentDeferred => {
            let rest = ": deferred because its parent "@ + d.parent_id + " was itself deferred"@;
            text::holds_within(none, d.id_readable, rest, d.id_readable);
            assert(none + d.id_readable + rest =~= adopt::deferral_text(d));
        },
    }
}

/// An issue is known to have a bead exactly where it is paired with one or was
/// just recovered.
pub proof fn known_issues_are_paired_or_recovered(
    paired: Seq<PairedPairView>,
    recovered: Seq<(Seq<char>, Seq<char>)>,
    id: Seq<char>,
)
    ensures
        text::last_under(adoptions::known_beads(paired, recovered), id) is Some <==> (exists|i: int|
            0 <= i < paired.len() && (#[trigger] paired[i]).remote.id_readable == id) || (exists|
            i: int,
        | 0 <= i < recovered.len() && (#[trigger] recovered[i]).1 == id),
{
    let known = adoptions::known_beads(paired, recovered);
    text::last_entry_counts(known, id);
    if text::last_under(known, id) is Some {
        let k = choose|k: int| 0 <= k < known.len() && (#[trigger] known[k]).0 == id;
        if k < paired.len() {
            assert(paired[k].remote.id_readable == id);
        } else {
            assert(recovered[k - paired.len()].1 == id);
        }
    }
    if exists|i: int| 0 <= i < paired.len() && (#[trigger] paired[i]).remote.id_readable == id {
        let i = choose|i: int|
            0 <= i < paired.len() && (#[trigger] paired[i]).remote.id_readable == id;
        assert(known[i].0 == id);
    }
    if exists|i: int| 0 <= i < recovered.len() && (#[trigger] recovered[i]).1 == id {
        let i = choose|i: int| 0 <= i < recovered.len() && (#[trigger] recovered[i]).1 == id;
        assert(known[paired.len() + i].0 == id);
    }
}

/// A candidate is created under the bead that its parent became, and under
/// none where it has no parent.
pub proof fn children_are_created_under_their_parents(
    c: AdoptionCandidateView,
    id_map: Seq<(Seq<char>, Seq<char>)>,
    bead: Seq<char>,
)
    ensures
        adoptions::parent_for(c, id_map) == Some(bead) <==> (adopt::parent_named(
            c.remote.links,
        ) matches Some(parent) && adopt::became(id_map, parent, bead)),
        adopt::parent_named(c.remote.links) is None ==> adoptions::parent_for(c, id_map) is None,
{
    if let Some(parent) = adopt::parent_named(c.remote.links) {
        adopt::became_is_last_under(id_map, parent, bead);
    }
}

/// An adopted issue is told which bead it became; it counts as adopted also
/// where that fails, and then a note says so.
pub proof fn adopted_issues_are_stamped(
    c: AdoptionCandidateView,
    bead: Seq<char>,
    run: AdoptionRunView,
    t: TalkView,
)
    ensures
        ({
            let (outcome, after) = adoptions::stamped(c, bead, run, t);
            &&& t.rest.len() == 0 ==> (outcome matches Err(StopView::Ask { request, .. })
                && request.method is Post && request.path == "/api/issues/"@ + c.remote.id_readable
                + "?fields=idReadable"@)
            &&& t.rest.len() > 0 ==> (outcome matches Ok(now) && now.adopted == run.adopted.push(
                (c.remote.id_readable, bead),
            ) && now.comments == run.comments && now.failures == run.failures && now.id_map
                == run.id_map && now.comments_imported == run.comments_imported && now.notes.len()
                == run.notes.len() + (if t.rest[0] is Ok {
                0int
            } else {
                1
            }))
        }),
{
}

/// The comments of an adopted issue are fetched only where it reports any, and
/// all that are fetched and speak are taken over.
pub proof fn comments_of_adopted_issues_are_taken_over(
    c: AdoptionCandidateView,
    bead: Seq<char>,
    run: AdoptionRunView,
    t: TalkView,
)
    ensures
        ({
            let (outcome, after) = adoptions::comments_adopted(c, bead, run, t);
            &&& c.remote.comments_count == 0 ==> outcome == Ok::<AdoptionRunView, StopView>(run)
                && after == t
            &&& c.remote.comments_count > 0 && t.rest.len() == 0 ==> (outcome matches Err(
                StopView::Ask { request, .. },
            ) && request == comments::comments_page_of(c.remote.id_readable, 0))
            &&& c.remote.comments_count > 0 ==> (comments::comments_fetched(
                c.remote.id_readable,
                t,
            ).0 matches Ok(fetched) ==> (outcome matches Ok(now) && now.comments == run.comments
                + adopt::imported_comments(bead, fetched) && now.adopted == run.adopted
                && now.failures == run.failures))
        }),
{
}

/// The dependencies that are recorded are those that the links of the adopted
/// issues give, and no others.
pub proof fn rows_of_all_adopted_issues_are_recorded(
    ordered: Seq<AdoptionCandidateView>,
    id_map: Seq<(Seq<char>, Seq<char>)>,
    row: ImportedLinkView,
)
    ensures
        adoptions::all_imported(ordered, id_map).contains(row) <==> exists|k: int|
            0 <= k < ordered.len() && adopt::imported_rows(
                (#[trigger] ordered[k]).remote,
                id_map,
            ).contains(row),
{
    let f = |c: AdoptionCandidateView| adopt::imported_rows(c.remote, id_map);
    let all = adoptions::all_imported(ordered, id_map);
    if all.contains(row) {
        let m = choose|m: int| 0 <= m < all.len() && all[m] == row;
        text::told_comes_from(ordered, f, m);
        let k = choose|k: int| 0 <= k < ordered.len() && f(#[trigger] ordered[k]).contains(row);
        assert(adopt::imported_rows(ordered[k].remote, id_map).contains(row));
    }
    if exists|k: int|
        0 <= k < ordered.len() && adopt::imported_rows(
            (#[trigger] ordered[k]).remote,
            id_map,
        ).contains(row) {
        let k = choose|k: int|
            0 <= k < ordered.len() && adopt::imported_rows(
                (#[trigger] ordered[k]).remote,
                id_map,
            ).contains(row);
        text::told_holds(ordered, f, k, row);
    }
}

/// Adoptions go one after the other: one whose bead is not there yet waits for
/// it, to be created under its parent's bead and in the name of the mirror.
pub proof fn adoptions_wait_for_their_beads(
    ordered: Seq<AdoptionCandidateView>,
    minted: Seq<Seq<char>>,
    k: int,
    run: AdoptionRunView,
    t: TalkView,
)
    requires
        0 <= k < ordered.len(),
    ensures
        k >= minted.len() ==> adoptions::adoptions_from(ordered, minted, k, run, t).stop == Some(
            AdoptStopView::Create {
                index: k,
                parent: adoptions::parent_for(ordered[k], run.id_map),
                actor: "youtrack"@,
            },
        ) && adoptions::adoptions_from(ordered, minted, k, run, t).run == run,
{
}

/// Labels whose tags are known are sent as these tags, in order, without a
/// request for any of them.
pub proof fn known_labels_become_their_tags(
    cache: TagCacheView,
    labels: Seq<Seq<char>>,
    k: int,
    ids: Seq<Seq<char>>,
    t: TalkView,
)
    requires
        0 <= k <= labels.len(),
        forall|i: int|
            k <= i < labels.len() ==> text::last_under(cache.by_name, #[trigger] labels[i]) is Some,
    ensures
        field_pushes::tags_from(cache, labels, k, ids, t) == (
            Ok::<Seq<Seq<char>>, StopView>(
                ids + labels.skip(k).map_values(
                    |l: Seq<char>| text::last_under(cache.by_name, l)->0,
                ),
            ),
            cache,
            t,
        ),
    decreases labels.len() - k,
{
    let f = |l: Seq<char>| text::last_under(cache.by_name, l)->0;
    if k < labels.len() {
        let id = f(labels[k]);
        known_labels_become_their_tags(cache, labels, k + 1, ids.push(id), t);
        assert(ids.push(id) + labels.skip(k + 1).map_values(f) =~= ids + labels.skip(k).map_values(
            f,
        ));
    } else {
        assert(ids + labels.skip(k).map_values(f) =~= ids);
    }
}

/// The project is looked up exactly where some bead needs an issue that is not
/// there, and the first such bead is told where that fails.
pub proof fn project_is_looked_up_for_a_creation(
    scan: OrphanScanView,
    ids: Seq<Seq<char>>,
    k: int,
)
    requires
        0 <= k <= ids.len(),
    ensures
        creates::first_to_create(scan, ids, k) is None <==> forall|i: int|
            k <= i < ids.len() ==> needs_no_creation(scan, #[trigger] ids[i]),
        creates::first_to_create(scan, ids, k) matches Some(id) ==> exists|i: int|
            k <= i < ids.len() && #[trigger] ids[i] == id && !needs_no_creation(scan, id) && forall|
                j: int,
            |
                k <= j < i ==> needs_no_creation(scan, #[trigger] ids[j]),
    decreases ids.len() - k,
{
    if k < ids.len() {
        text::last_entry_counts(scan.recoverable, ids[k]);
        if needs_no_creation(scan, ids[k]) {
            project_is_looked_up_for_a_creation(scan, ids, k + 1);
            if let Some(id) = creates::first_to_create(scan, ids, k) {
                let i = choose|i: int|
                    k + 1 <= i < ids.len() && #[trigger] ids[i] == id && !needs_no_creation(
                        scan,
                        id,
                    ) && forall|j: int|
                        k + 1 <= j < i ==> needs_no_creation(scan, #[trigger] ids[j]);
                assert(ids[i] == id);
                assert forall|j: int| k <= j < i implies needs_no_creation(
                    scan,
                    #[trigger] ids[j],
                ) by {}
            }
        } else {
            assert(ids[k] == ids[k]);
        }
    }
}

/// The bead has an issue that names it, or several of which none is taken.
pub open spec fn needs_no_creation(scan: OrphanScanView, bead: Seq<char>) -> bool {
    (exists|i: int| 0 <= i < scan.recoverable.len() && (#[trigger] scan.recoverable[i]).0 == bead)
        || orphans::in_dispute(scan, bead)
}

/// Progress is told once for every full batch of creations, and once more at
/// the end where the last batch is not full; and the last word is the number
/// that was done.
pub proof fn progress_is_told_by_batches(done: nat, total: usize)
    requires
        done <= usize::MAX,
    ensures
        forall|i: int|
            0 <= i < done / 25 ==> (#[trigger] creates::progress_due(done, total, true)[i]).done
                == (i + 1) * 25,
        done > 0 ==> creates::progress_due(done, total, true).len() > 0
            && creates::progress_due(done, total, true).last().done == done
            && creates::progress_due(done, total, true).last().total == total,
        done == 0 ==> creates::progress_due(done, total, true).len() == 0,
        creates::progress_due(done, total, false).len() == done / 25,
{
    let all = creates::progress_due(done, total, true);
    assert forall|i: int| 0 <= i < done / 25 implies (#[trigger] all[i]).done == (i + 1) * 25 by {
        assert((i + 1) * 25 <= done);
    }
    if done > 0 {
        if done % 25 == 0 {
            assert(all.len() == done / 25);
            assert(all[done / 25 - 1].done == (done / 25) * 25);
        }
    }
}

} // verus!
