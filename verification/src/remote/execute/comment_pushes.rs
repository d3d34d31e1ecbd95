//! Pushing comments, and marking what was deleted.

use crate::model::Issue;
use crate::remote::comments;
use crate::remote::comments::{comment_landed, push_comment};
use crate::remote::config::{RemoteConfig, RemoteConfigView};
use crate::remote::execute::field_pushes;
use crate::remote::execute::field_pushes::{
    PushReport, PushReportView, add_failure, failure_line, pair_line, push_fields, update_of,
};
use crate::remote::execute::link_pushes::PartPush;
use crate::remote::plan;
use crate::remote::plan::{
    CommentWork, CommentWorkView, ReconcilePlan, ReconcilePlanView, TombstonedPairView,
};
use crate::remote::talk;
use crate::remote::talk::{Stop, StopView, Talk, TalkView, MOST_REPLIES};
use crate::remote::tombstone;
use crate::remote::tombstone::{
    deleted_comment_text, plan_tombstones, TombstoneAction, TombstoneActionView,
};
use crate::remote::youtrack::mapping;
use crate::remote::youtrack::mapping::deleted_state_body;
use crate::text;
use crate::text::{add_pair, find_last, same_text};
use vstd::prelude::*;
use vstd::string::*;

verus! {

broadcast use vstd::string::group_string_axioms;

/// A count that is one higher, as far as it can be counted.
pub open spec fn one_more(n: usize) -> usize {
    if n == usize::MAX {
        n
    } else {
        (n + 1) as usize
    }
}

/// How often a text is in a list.
pub open spec fn times(list: Seq<Seq<char>>, s: Seq<char>) -> nat
    decreases list.len(),
{
    if list.len() == 0 {
        0
    } else {
        times(list.drop_last(), s) + (if list.last() == s {
            1nat
        } else {
            0nat
        })
    }
}

/// How far the comments have come, and what has been sent to the issue at
/// hand.
pub struct CommentPush {
    pub report: PushReportView,
    pub sent: Seq<Seq<char>>,
    pub stop: Option<StopView>,
    pub talk: TalkView,
}

/// The report with a comment that is on the mirror now.
pub open spec fn with_comment(report: PushReportView, recovered: bool) -> PushReportView {
    PushReportView {
        comments_pushed: one_more(report.comments_pushed),
        comments_recovered: if recovered {
            one_more(report.comments_recovered)
        } else {
            report.comments_recovered
        },
        ..report
    }
}

/// One comment. One that fails is looked for before it is called a failure:
/// the mirror must have one copy more than were sent before.
pub open spec fn comment_pushed(
    remote_id: Seq<char>,
    body: Seq<char>,
    sent: Seq<Seq<char>>,
    report: PushReportView,
    t: TalkView,
) -> CommentPush {
    match talk::heard(comments::comment_post_of(remote_id, body), 0, t) {
        (Err(stop), after) => CommentPush { report, sent, stop: Some(stop), talk: after },
        (Ok(Ok(_)), after) => CommentPush {
            report: with_comment(report, false),
            sent: sent.push(body),
            stop: None,
            talk: after,
        },
        (Ok(Err(e)), after) => match comments::landed(
            remote_id,
            body,
            times(sent, body) + 1,
            after,
        ) {
            (Ok(true), end) => CommentPush {
                report: with_comment(report, true),
                sent: sent.push(body),
                stop: None,
                talk: end,
            },
            (Err(StopView::Ask { request, pause }), end) => CommentPush {
                report,
                sent,
                stop: Some(StopView::Ask { request, pause }),
                talk: end,
            },
            (_, end) => CommentPush {
                report: field_pushes::with_failure(report, field_pushes::failure_text("comment on "@ + remote_id, e)),
                sent,
                stop: None,
                talk: end,
            },
        },
    }
}

/// The comments from the `j`-th of the `i`-th pair on.
pub open spec fn comments_pushed_from(
    work: Seq<CommentWorkView>,
    i: int,
    j: int,
    sent: Seq<Seq<char>>,
    report: PushReportView,
    t: TalkView,
) -> PartPush
    decreases work.len() - i, (if 0 <= i < work.len() { work[i].to_push.len() - j } else { 0 }),
{
    if i < 0 || i >= work.len() {
        PartPush { report, stop: None, talk: t }
    } else if j < 0 || j >= work[i].to_push.len() {
        comments_pushed_from(work, i + 1, 0, Seq::empty(), report, t)
    } else {
        let one = comment_pushed(work[i].remote_id, work[i].to_push[j], sent, report, t);
        if one.stop is Some {
            PartPush { report: one.report, stop: one.stop, talk: one.talk }
        } else {
            comments_pushed_from(work, i, j + 1, one.sent, one.report, one.talk)
        }
    }
}

fn count_times(list: &Vec<String>, s: &str) -> (r: usize)
    ensures
        r == times(text::views(list@), s@),
        r <= list@.len(),
{
    let ghost all = text::views(list@);
    let mut count: usize = 0;
    let mut i: usize = 0;
    while i < list.len()
        invariant
            i <= list@.len(),
            all == text::views(list@),
            count <= i,
            count == times(all.take(i as int), s@),
        decreases list@.len() - i,
    {
        proof {
            assert(all.take(i + 1).drop_last() =~= all.take(i as int));
            assert(all.take(i + 1).last() == list@[i as int]@);
        }
        if same_text(list[i].as_str(), s) {
            count += 1;
        }
        i += 1;
    }
    assert(all.take(i as int) =~= all);
    count
}

fn add_comment(report: &mut PushReport, recovered: bool)
    ensures
        final(report)@ == with_comment(old(report)@, recovered),
{
    report.comments_pushed = report.comments_pushed.saturating_add(1);
    if recovered {
        report.comments_recovered = report.comments_recovered.saturating_add(1);
    }
}

fn push_one_comment(
    talk: &mut Talk,
    remote_id: &str,
    body: &str,
    sent: &mut Vec<String>,
    report: &mut PushReport,
) -> (r: Option<Stop>)
    requires
        old(talk)@.rest.len() <= MOST_REPLIES,
        old(sent)@.len() < usize::MAX,
    ensures
        ({
            let end = comment_pushed(
                remote_id@,
                body@,
                text::views(old(sent)@),
                old(report)@,
                old(talk)@,
            );
            &&& final(report)@ == end.report
            &&& text::views(final(sent)@) == end.sent
            &&& text::seen(r) == end.stop
            &&& final(talk)@ == end.talk
        }),
        final(sent)@.len() <= old(sent)@.len() + 1,
        final(talk)@.rest.len() <= old(talk)@.rest.len(),
{
    let e = match talk.hear(push_comment(remote_id, body), 0) {
        Err(stop) => {
            return Some(stop);
        },
        Ok(reply) => match reply {
            Ok(_) => {
                let one = body.to_owned();
                proof {
                    text::views_push(sent@, one);
                }
                sent.push(one);
                add_comment(report, false);
                return None;
            },
            Err(e) => e,
        },
    };
    let ordinal: usize = count_times(sent, body) + 1;
    match comment_landed(talk, remote_id, body, ordinal) {
        Ok(true) => {
            let one = body.to_owned();
            proof {
                text::views_push(sent@, one);
            }
            sent.push(one);
            add_comment(report, true);
            None
        },
        Err(Stop::Ask { request, pause }) => Some(Stop::Ask { request, pause }),
        _ => {
            let mut what = "comment on ".to_owned();
            what.append(remote_id);
            add_failure(report, failure_line(what.as_str(), e));
            None
        },
    }
}

/// Sends the comments that go out.
#[verifier::loop_isolation(false)]
pub fn push_comments(talk: &mut Talk, work: &Vec<CommentWork>, report: &mut PushReport) -> (r: Option<
    Stop,
>)
    requires
        old(talk)@.rest.len() <= MOST_REPLIES,
    ensures
        ({
            let end = comments_pushed_from(
                text::views(work@),
                0,
                0,
                Seq::empty(),
                old(report)@,
                old(talk)@,
            );
            final(report)@ == end.report && text::seen(r) == end.stop && final(talk)@ == end.talk
        }),
        final(talk)@.rest.len() <= old(talk)@.rest.len(),
{
    let ghost start = talk@;
    let ghost all = text::views(work@);
    let ghost whole = comments_pushed_from(all, 0, 0, Seq::empty(), report@, talk@);
    let mut i: usize = 0;
    while i < work.len()
        invariant
            i <= work@.len(),
            talk@.rest.len() <= start.rest.len(),
            whole == comments_pushed_from(all, i as int, 0, Seq::empty(), report@, talk@),
        decreases work@.len() - i,
    {
        let one = &work[i];
        assert(all[i as int] == one@);
        let mut sent: Vec<String> = Vec::new();
        let mut j: usize = 0;
        assert(text::views(sent@) =~= Seq::<Seq<char>>::empty());
        while j < one.to_push.len()
            invariant
                j <= one.to_push@.len(),
                sent@.len() <= j,
                talk@.rest.len() <= start.rest.len(),
                whole == comments_pushed_from(
                    all,
                    i as int,
                    j as int,
                    text::views(sent@),
                    report@,
                    talk@,
                ),
            decreases one.to_push@.len() - j,
        {
            assert(all[i as int].to_push[j as int] == one.to_push@[j as int]@);
            if let Some(stop) = push_one_comment(
                talk,
                one.remote_id.as_str(),
                one.to_push[j].as_str(),
                &mut sent,
                report,
            ) {
                return Some(stop);
            }
            j += 1;
        }
        i += 1;
    }
    None
}

/// The issues of deleted beads, by bead.
pub open spec fn tombstoned_ids(p: ReconcilePlanView) -> Seq<(Seq<char>, Seq<char>)> {
    p.tombstoned.map_values(|t: TombstonedPairView| (t.bead_id, t.remote_id))
}

/// Marking the issue of a deleted bead as deleted, and saying why. The report
/// then names the bead.
pub open spec fn deletion_pushed(
    cfg: RemoteConfigView,
    bead_id: Seq<char>,
    remote_id: Seq<char>,
    reason: Option<Seq<char>>,
    report: PushReportView,
    t: TalkView,
) -> PartPush {
    let pair = field_pushes::pair_text(bead_id, remote_id);
    match talk::heard(field_pushes::update_request(remote_id, mapping::deleted_body(cfg)), 0, t) {
        (Err(stop), after) => PartPush { report, stop: Some(stop), talk: after },
        (Ok(Err(e)), after) => PartPush {
            report: field_pushes::with_failure(report, field_pushes::failure_text(pair, e)),
            stop: None,
            talk: after,
        },
        (Ok(Ok(_)), after) => match talk::heard(
            comments::comment_post_of(remote_id, tombstone::deleted_comment(reason)),
            0,
            after,
        ) {
            (Err(stop), end) => PartPush { report, stop: Some(stop), talk: end },
            (Ok(Err(e)), end) => PartPush {
                report: field_pushes::with_failure(
                    report,
                    field_pushes::failure_text("deletion comment on "@ + remote_id, e),
                ),
                stop: None,
                talk: end,
            },
            (Ok(Ok(_)), end) => PartPush {
                report: PushReportView {
                    tombstones_marked: report.tombstones_marked.push(bead_id),
                    ..report
                },
                stop: None,
                talk: end,
            },
        },
    }
}

/// The deletions from the `k`-th on. A bead that lives on under another
/// identifier, and one that never had an issue, is passed over.
pub open spec fn deletions_pushed_from(
    cfg: RemoteConfigView,
    table: Seq<(Seq<char>, Seq<char>)>,
    actions: Seq<(Seq<char>, TombstoneActionView)>,
    k: int,
    report: PushReportView,
    t: TalkView,
) -> PartPush
    decreases actions.len() - k,
{
    if k < 0 || k >= actions.len() {
        PartPush { report, stop: None, talk: t }
    } else {
        match (actions[k].1, text::last_under(table, actions[k].0)) {
            (TombstoneActionView::Delete { reason }, Some(remote_id)) => {
                let one = deletion_pushed(cfg, actions[k].0, remote_id, reason, report, t);
                if one.stop is Some {
                    one
                } else {
                    deletions_pushed_from(cfg, table, actions, k + 1, one.report, one.talk)
                }
            },
            _ => deletions_pushed_from(cfg, table, actions, k + 1, report, t),
        }
    }
}

fn tombstoned_table(plan: &ReconcilePlan) -> (r: Vec<(String, String)>)
    ensures
        text::pairs(r@) == tombstoned_ids(plan@),
{
    let ghost want = tombstoned_ids(plan@);
    let mut out: Vec<(String, String)> = Vec::new();
    let mut i: usize = 0;
    assert(text::pairs(out@) =~= want.take(0));
    while i < plan.tombstoned.len()
        invariant
            i <= plan.tombstoned@.len(),
            want == tombstoned_ids(plan@),
            text::pairs(out@) == want.take(i as int),
        decreases plan.tombstoned@.len() - i,
    {
        add_pair(
            &mut out,
            plan.tombstoned[i].bead_id.clone(),
            plan.tombstoned[i].remote_id.clone(),
        );
        assert(want.take(i + 1) =~= want.take(i as int).push(want[i as int]));
        i += 1;
    }
    assert(want.take(i as int) =~= want);
    out
}

fn push_deletion(
    talk: &mut Talk,
    cfg: &RemoteConfig,
    bead_id: &str,
    remote_id: &str,
    reason: &Option<String>,
    report: &mut PushReport,
) -> (r: Option<Stop>)
    ensures
        ({
            let end = deletion_pushed(
                cfg@,
                bead_id@,
                remote_id@,
                text::seen(*reason),
                old(report)@,
                old(talk)@,
            );
            final(report)@ == end.report && text::seen(r) == end.stop && final(talk)@ == end.talk
        }),
        final(talk)@.rest.len() <= old(talk)@.rest.len(),
{
    let pair = pair_line(bead_id, remote_id);
    match talk.hear(update_of(remote_id, deleted_state_body(cfg)), 0) {
        Err(stop) => {
            return Some(stop);
        },
        Ok(reply) => {
            if let Err(e) = reply {
                add_failure(report, failure_line(pair.as_str(), e));
                return None;
            }
        },
    }
    let why = match reason {
        Some(reason) => deleted_comment_text(Some(reason.as_str())),
        None => deleted_comment_text(None),
    };
    match talk.hear(push_comment(remote_id, why.as_str()), 0) {
        Err(stop) => Some(stop),
        Ok(reply) => {
            match reply {
                Ok(_) => {
                    let marked = bead_id.to_owned();
                    proof {
                        text::views_push(report.tombstones_marked@, marked);
                    }
                    report.tombstones_marked.push(marked);
                },
                Err(e) => {
                    let mut what = "deletion comment on ".to_owned();
                    what.append(remote_id);
                    add_failure(report, failure_line(what.as_str(), e));
                },
            }
            None
        },
    }
}

/// Marks the issues of beads that are gone. Nothing is deleted.
#[verifier::loop_isolation(false)]
pub fn push_tombstones(
    talk: &mut Talk,
    cfg: &RemoteConfig,
    plan: &ReconcilePlan,
    beads: &Vec<Issue>,
    report: &mut PushReport,
) -> (r: Option<Stop>)
    ensures
        ({
            let end = deletions_pushed_from(
                cfg@,
                tombstoned_ids(plan@),
                tombstone::tombstone_actions(beads@),
                0,
                old(report)@,
                old(talk)@,
            );
            final(report)@ == end.report && text::seen(r) == end.stop && final(talk)@ == end.talk
        }),
        final(talk)@.rest.len() <= old(talk)@.rest.len(),
{
    let ghost start = talk@;
    let table = tombstoned_table(plan);
    let actions = plan_tombstones(beads);
    let ghost all = tombstone::actions_view(actions@);
    let ghost whole = deletions_pushed_from(
        cfg@,
        text::pairs(table@),
        all,
        0,
        report@,
        talk@,
    );
    let mut k: usize = 0;
    while k < actions.len()
        invariant
            k <= actions@.len(),
            talk@.rest.len() <= start.rest.len(),
            whole == deletions_pushed_from(
                cfg@,
                text::pairs(table@),
                all,
                k as int,
                report@,
                talk@,
            ),
        decreases actions@.len() - k,
    {
        let (bead_id, action) = &actions[k];
        assert(all[k as int] == (bead_id@, action@));
        k += 1;
        let reason = match action {
            TombstoneAction::Delete { reason } => reason,
            TombstoneAction::Forward { .. } => {
                continue;
            },
        };
        let remote_id = match find_last(&table, bead_id.as_str()) {
            Some(remote_id) => remote_id,
            None => {
                continue;
            },
        };
        if let Some(stop) = push_deletion(
            talk,
            cfg,
            bead_id.as_str(),
            remote_id.as_str(),
            reason,
            report,
        ) {
            return Some(stop);
        }
    }
    None
}

} // verus!
