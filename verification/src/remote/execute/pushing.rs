//! The whole push.

use crate::json::Json;
use crate::model::Issue;
use crate::remote::comments;
use crate::remote::config::{RemoteConfig, RemoteConfigView};
use crate::remote::diff::{Direction, FieldChange, FieldChangeView};
use crate::remote::error::RemoteError;
use crate::remote::execute::creates;
use crate::remote::execute::creates::{BatchProgress, execute_creates};
use crate::remote::execute::comment_pushes;
use crate::remote::execute::comment_pushes::{push_comments, push_tombstones};
use crate::remote::execute::field_pushes;
use crate::remote::execute::field_pushes::{PushReport, PushReportView, push_fields};
use crate::remote::execute::link_pushes;
use crate::remote::execute::link_pushes::{PartPush, push_links};
use crate::remote::execute::reading::RunInputs;
use crate::remote::model::RemoteIssueView;
use crate::remote::plan;
use crate::remote::plan::{
    CommentPlanView, CommentWorkView, IssueFieldPlanView, ReconcilePlan, ReconcilePlanView,
};
use crate::remote::talk;
use crate::remote::talk::{Stop, StopView, Talk, TalkView, MOST_REPLIES};
use crate::remote::tombstone;
use crate::remote::youtrack::links;
use crate::remote::youtrack::links::{LinkTypes, LinkTypesView};
use crate::remote::youtrack::tags::TagCache;
use crate::text;
use vstd::prelude::*;
use vstd::string::*;

verus! {

broadcast use vstd::string::group_string_axioms;

/// A number, as far as it can be counted.
pub open spec fn capped(n: nat) -> usize {
    if n > usize::MAX {
        usize::MAX
    } else {
        n as usize
    }
}

/// How many changes of fields the mirror wins.
pub open spec fn pulled_changes(plans: Seq<IssueFieldPlanView>) -> nat
    decreases plans.len(),
{
    if plans.len() == 0 {
        0
    } else {
        pulled_changes(plans.drop_last()) + plan::covered::<FieldChange>(
            plan::PlanScope::Pull,
            plans.last().changes,
        ).len()
    }
}

/// How many comments come in.
pub open spec fn pulled_comments(entries: Seq<CommentPlanView>) -> nat
    decreases entries.len(),
{
    if entries.len() == 0 {
        0
    } else {
        pulled_comments(entries.drop_last()) + (if entries.last().direction is Pull {
            entries.last().count as nat
        } else {
            0
        })
    }
}

/// Everything that a push writes but the creations.
pub open spec fn rest_pushed(
    cfg: RemoteConfigView,
    types: LinkTypesView,
    p: ReconcilePlanView,
    beads: Seq<Issue>,
    work: Seq<CommentWorkView>,
    report: PushReportView,
    t: TalkView,
) -> PartPush {
    let counted = PushReportView {
        left_to_pull: capped(pulled_changes(p.field_changes)),
        comments_left_to_pull: capped(pulled_comments(p.comment_changes)),
        ..report
    };
    let fields = field_pushes::fields_pushed_from(cfg, beads, p.field_changes, 0, None, counted, t);
    if fields.stop is Some {
        PartPush { report: fields.report, stop: fields.stop, talk: fields.talk }
    } else {
        let tagged = match fields.cache {
            Some(cache) => PushReportView { tags_skipped: cache.skipped, ..fields.report },
            None => fields.report,
        };
        let links = link_pushes::links_pushed_from(types, p.link_changes, 0, 0, tagged, fields.talk);
        if links.stop is Some {
            links
        } else {
            let comments = comment_pushes::comments_pushed_from(
                work,
                0,
                0,
                Seq::empty(),
                links.report,
                links.talk,
            );
            if comments.stop is Some {
                comments
            } else {
                comment_pushes::deletions_pushed_from(
                    cfg,
                    comment_pushes::tombstoned_ids(p),
                    tombstone::tombstone_actions(beads),
                    0,
                    comments.report,
                    comments.talk,
                )
            }
        }
    }
}

/// What contracts say of [`RunInputs`].
pub struct RunInputsView {
    pub plan: ReconcilePlanView,
    pub comments: Seq<CommentWorkView>,
    pub beads: Seq<Issue>,
    pub remote: Seq<RemoteIssueView>,
}

impl<'a> View for RunInputs<'a> {
    type V = RunInputsView;

    open spec fn view(&self) -> RunInputsView {
        RunInputsView {
            plan: self.plan@,
            comments: text::views(self.comments@),
            beads: self.beads@,
            remote: text::views(self.remote@),
        }
    }
}

/// What a push waits for.
#[derive(Debug, PartialEq, Eq)]
pub enum PushStop {
    /// A request, or it has failed.
    Talk(Stop),
    /// Beads have been paired. Once the pairs are stored, both sides are to
    /// be read again.
    Refresh,
}

/// What contracts say of a [`PushStop`].
pub enum PushStopView {
    Talk(StopView),
    Refresh,
}

impl View for PushStop {
    type V = PushStopView;

    open spec fn view(&self) -> PushStopView {
        match self {
            PushStop::Talk(stop) => PushStopView::Talk(stop@),
            PushStop::Refresh => PushStopView::Refresh,
        }
    }
}

/// How a part of a push ends.
pub open spec fn ended(part: PartPush) -> (PushReportView, Option<PushStopView>) {
    (
        part.report,
        match part.stop {
            Some(stop) => Some(PushStopView::Talk(stop)),
            None => None,
        },
    )
}

/// A whole push: the creations, and then everything else. Where beads were
/// paired, the rest goes by a plan that was made afterwards, since the first
/// one knows nothing of their links, comments and labels.
pub open spec fn push_run(
    cfg: RemoteConfigView,
    types: LinkTypesView,
    inputs: RunInputsView,
    again: Option<RunInputsView>,
    t: TalkView,
) -> (PushReportView, Option<PushStopView>) {
    let made = creates::creations(cfg, inputs.plan, inputs.beads, t);
    let report = PushReportView { creates: made.report, ..field_pushes::blank_push() };
    if made.stop is Some {
        (report, Some(PushStopView::Talk(made.stop->0)))
    } else if made.report.failed.len() > 0 {
        (report, None)
    } else if made.report.created.len() == 0 && made.report.recovered.len() == 0 {
        ended(
            rest_pushed(
                cfg,
                types,
                inputs.plan,
                inputs.beads,
                inputs.comments,
                report,
                made.talk,
            ),
        )
    } else {
        let replanned = PushReportView {
            replanned_after: capped(made.report.created.len() + made.report.recovered.len()),
            ..report
        };
        match again {
            None => (replanned, Some(PushStopView::Refresh)),
            Some(fresh) => ended(
                rest_pushed(
                    cfg,
                    types,
                    fresh.plan,
                    fresh.beads,
                    fresh.comments,
                    replanned,
                    made.talk,
                ),
            ),
        }
    }
}

fn count_pulls(changes: &Vec<FieldChange>) -> (r: usize)
    ensures
        r == plan::covered::<FieldChange>(
            plan::PlanScope::Pull,
            text::views(changes@),
        ).len(),
{
    let ghost all = text::views(changes@);
    let ghost f = |v: FieldChangeView|
        if plan::covers(plan::PlanScope::Pull, <FieldChange as plan::Directed>::way(v)) {
            Some(v)
        } else {
            None
        };
    let mut count: usize = 0;
    let mut i: usize = 0;
    while i < changes.len()
        invariant
            i <= changes@.len(),
            all == text::views(changes@),
            f == (|v: FieldChangeView|
                if plan::covers(plan::PlanScope::Pull, <FieldChange as plan::Directed>::way(v)) {
                    Some(v)
                } else {
                    None
                }),
            count <= i,
            count == text::picked(all.take(i as int), f).len(),
        decreases changes@.len() - i,
    {
        proof {
            text::picked_step(all, f, i as int);
            assert(all[i as int] == changes@[i as int]@);
        }
        if matches!(changes[i].direction, Direction::Pull) {
            count += 1;
        }
        i += 1;
    }
    assert(all.take(i as int) =~= all);
    count
}

fn count_left(plan: &ReconcilePlan) -> (r: (usize, usize))
    ensures
        r.0 == capped(pulled_changes(plan@.field_changes)),
        r.1 == capped(pulled_comments(plan@.comment_changes)),
{
    let ghost plans = text::views(plan.field_changes@);
    let ghost entries = text::views(plan.comment_changes@);
    let mut fields: usize = 0;
    let mut i: usize = 0;
    while i < plan.field_changes.len()
        invariant
            i <= plan.field_changes@.len(),
            plans == text::views(plan.field_changes@),
            fields == capped(pulled_changes(plans.take(i as int))),
        decreases plan.field_changes@.len() - i,
    {
        proof {
            assert(plans.take(i + 1).drop_last() =~= plans.take(i as int));
            assert(plans.take(i + 1).last() == plan.field_changes@[i as int]@);
        }
        fields = fields.saturating_add(count_pulls(&plan.field_changes[i].changes));
        i += 1;
    }
    assert(plans.take(i as int) =~= plans);
    let mut comments: usize = 0;
    let mut k: usize = 0;
    while k < plan.comment_changes.len()
        invariant
            k <= plan.comment_changes@.len(),
            entries == text::views(plan.comment_changes@),
            comments == capped(pulled_comments(entries.take(k as int))),
        decreases plan.comment_changes@.len() - k,
    {
        proof {
            assert(entries.take(k + 1).drop_last() =~= entries.take(k as int));
            assert(entries.take(k + 1).last() == plan.comment_changes@[k as int]@);
        }
        if matches!(plan.comment_changes[k].direction, Direction::Pull) {
            comments = comments.saturating_add(plan.comment_changes[k].count);
        }
        k += 1;
    }
    assert(entries.take(k as int) =~= entries);
    (fields, comments)
}

/// Writes everything but the creations.
pub fn apply_push(
    talk: &mut Talk,
    cfg: &RemoteConfig,
    types: &LinkTypes,
    inputs: &RunInputs,
    report: &mut PushReport,
) -> (r: Option<Stop>)
    requires
        old(talk)@.rest.len() <= MOST_REPLIES,
    ensures
        ({
            let end = rest_pushed(
                cfg@,
                types@,
                inputs@.plan,
                inputs@.beads,
                inputs@.comments,
                old(report)@,
                old(talk)@,
            );
            final(report)@ == end.report && text::seen(r) == end.stop && final(talk)@ == end.talk
        }),
{
    let (left_to_pull, comments_left_to_pull) = count_left(inputs.plan);
    report.left_to_pull = left_to_pull;
    report.comments_left_to_pull = comments_left_to_pull;
    let mut cache: Option<TagCache> = None;
    if let Some(stop) = push_fields(talk, cfg, inputs.plan, inputs.beads, &mut cache, report) {
        return Some(stop);
    }
    if let Some(cache) = &cache {
        report.tags_skipped = copy_skipped(cache);
    }
    if let Some(stop) = push_links(talk, types, inputs.plan, report) {
        return Some(stop);
    }
    if let Some(stop) = push_comments(talk, inputs.comments, report) {
        return Some(stop);
    }
    push_tombstones(talk, cfg, inputs.plan, inputs.beads, report)
}

fn copy_skipped(cache: &TagCache) -> (r: Vec<String>)
    ensures
        text::views(r@) == cache@.skipped,
{
    let list = cache.skipped();
    let ghost all = text::views(list@);
    let mut out: Vec<String> = Vec::new();
    let mut i: usize = 0;
    assert(text::views(out@) =~= all.take(0));
    while i < list.len()
        invariant
            i <= list@.len(),
            all == text::views(list@),
            text::views(out@) == all.take(i as int),
        decreases list@.len() - i,
    {
        let one = list[i].clone();
        proof {
            text::views_push(out@, one);
            assert(all.take(i + 1) =~= all.take(i as int).push(one@));
        }
        out.push(one);
        i += 1;
    }
    assert(all.take(i as int) =~= all);
    out
}

/// A push as far as it has come. The pairs in its report are to be stored
/// before anything else is done.
#[derive(Debug, PartialEq, Eq)]
pub struct PushStep {
    pub report: PushReport,
    pub progress: Vec<BatchProgress>,
    /// What it waits for, if it has not ended.
    pub stop: Option<PushStop>,
}

/// Pushes what the plan says, as far as the replies reach. `again` is what
/// was read after beads had been paired, once that has been asked for.
pub fn execute_push(
    cfg: &RemoteConfig,
    types: &LinkTypes,
    inputs: &RunInputs,
    again: Option<&RunInputs>,
    replies: &Vec<Result<Json, RemoteError>>,
) -> (r: PushStep)
    requires
        replies@.len() <= MOST_REPLIES,
    ensures
        (r.report@, text::seen(r.stop)) == push_run(
            cfg@,
            types@,
            inputs@,
            text::seen(again),
            talk::opened(talk::replies_view(replies@)),
        ),
        ({
            let made = creates::creations(
                cfg@,
                inputs@.plan,
                inputs@.beads,
                talk::opened(talk::replies_view(replies@)),
            );
            r.progress@ == creates::progress_due(
                made.done as nat,
                inputs.plan.creates@.len() as usize,
                made.stop is None,
            )
        }),
{
    let mut talk = Talk::open(replies);
    assert(talk::replies_view(replies@).len() == replies@.len());
    let made = execute_creates(&mut talk, cfg, inputs.plan, inputs.beads);
    let mut report = PushReport::default();
    report.creates = made.report;
    let progress = made.progress;
    if let Some(stop) = made.stop {
        return PushStep { report, progress, stop: Some(PushStop::Talk(stop)) };
    }
    if report.creates.failed.len() > 0 {
        return PushStep { report, progress, stop: None };
    }
    let stop = if report.creates.changed_pairings() {
        report.replanned_after = report.creates.created.len().saturating_add(
            report.creates.recovered.len(),
        );
        match again {
            None => {
                return PushStep { report, progress, stop: Some(PushStop::Refresh) };
            },
            Some(fresh) => apply_push(&mut talk, cfg, types, fresh, &mut report),
        }
    } else {
        apply_push(&mut talk, cfg, types, inputs, &mut report)
    };
    let stop = match stop {
        Some(stop) => Some(PushStop::Talk(stop)),
        None => None,
    };
    PushStep { report, progress, stop }
}

} // verus!
