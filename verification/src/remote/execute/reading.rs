//! One picture of both sides.

use crate::json::Json;
use crate::model;
use crate::model::{Issue, Status};
use crate::remote::comments;
use crate::remote::comments::{
    comment_counts_agree, fetch_comments, plan_comment_sync, LocalComment, LocalCommentView,
    RemoteCommentView,
};
use crate::remote::config::{RemoteConfig, RemoteConfigView, MAX_PAGE_SIZE};
use crate::remote::error::RemoteError;
use crate::remote::model::{RemoteIssue, RemoteIssueView};
use crate::remote::plan;
use crate::remote::plan::{
    build_plan, find_bead, CommentWork, CommentWorkView, ReconcilePlan, ReconcilePlanView,
};
use crate::remote::reconcile;
use crate::remote::reconcile::{pair_workspace, PairedPairView};
use crate::remote::talk;
use crate::remote::talk::{Stop, StopView, Talk, TalkView, MOST_REPLIES};
use crate::remote::youtrack::fetch;
use crate::remote::youtrack::fetch::fetch_snapshot;
use crate::remote::youtrack::links::{LinkTypes, LinkTypesView};
use crate::text;
use vstd::prelude::*;
use vstd::string::*;

verus! {

broadcast use vstd::string::group_string_axioms;

/// A bead's comments.
pub open spec fn local_comments(bead: Issue) -> Seq<LocalCommentView> {
    bead.comments@.map_values(
        |c: model::Comment| LocalCommentView { author: c.author@, text: c.body@ },
    )
}

/// How many comments a bead has, as far as that can be counted.
pub open spec fn local_count(bead: Issue) -> int {
    if bead.comments@.len() > u32::MAX {
        u32::MAX as int
    } else {
        bead.comments@.len() as int
    }
}

/// What moves between a pair, given the comments of its issue.
pub open spec fn work_of(bead: Issue, remote_id: Seq<char>, fetched: Seq<RemoteCommentView>) -> CommentWorkView {
    CommentWorkView {
        bead_id: bead.id@,
        remote_id,
        to_push: comments::comments_out(local_comments(bead), fetched),
        to_pull: comments::comments_in(local_comments(bead), fetched),
    }
}

/// The bead of a pair whose comments are to be looked at: it has not been
/// deleted, and the two sides do not count the same number.
pub open spec fn comments_due(beads: Seq<Issue>, p: PairedPairView) -> Option<Issue> {
    match plan::bead_called(beads, p.bead_id) {
        Some(b) if !(b.status@ is Tombstone) && p.remote.comments_count != local_count(b) => Some(b),
        _ => None,
    }
}

/// What moves between the pairs from the `k`-th on.
pub open spec fn work_from(
    beads: Seq<Issue>,
    paired: Seq<PairedPairView>,
    k: int,
    had: Seq<CommentWorkView>,
    t: TalkView,
) -> (Result<Seq<CommentWorkView>, StopView>, TalkView)
    decreases paired.len() - k,
{
    if k < 0 || k >= paired.len() {
        (Ok(had), t)
    } else {
        match comments_due(beads, paired[k]) {
            None => work_from(beads, paired, k + 1, had, t),
            Some(bead) => match comments::comments_fetched(paired[k].remote.id_readable, t) {
                (Err(stop), after) => (Err(stop), after),
                (Ok(fetched), after) => {
                    let work = work_of(bead, paired[k].remote.id_readable, fetched);
                    if work.to_push.len() == 0 && work.to_pull.len() == 0 {
                        work_from(beads, paired, k + 1, had, after)
                    } else {
                        work_from(beads, paired, k + 1, had.push(work), after)
                    }
                },
            },
        }
    }
}

/// The comments that move between the workspace and the mirror. Those of a
/// pair are fetched only where the two sides count differently.
pub open spec fn comment_work(
    cfg: RemoteConfigView,
    beads: Seq<Issue>,
    remote: Seq<RemoteIssueView>,
    t: TalkView,
) -> (Result<Seq<CommentWorkView>, StopView>, TalkView) {
    work_from(beads, reconcile::pairing_of(cfg, beads, remote).paired, 0, Seq::empty(), t)
}

fn read_local_comments(bead: &Issue) -> (r: Vec<LocalComment>)
    ensures
        text::views(r@) == local_comments(*bead),
{
    let ghost want = local_comments(*bead);
    let mut out: Vec<LocalComment> = Vec::new();
    let mut i: usize = 0;
    assert(text::views(out@) =~= want.take(0));
    while i < bead.comments.len()
        invariant
            i <= bead.comments@.len(),
            want == local_comments(*bead),
            text::views(out@) == want.take(i as int),
        decreases bead.comments@.len() - i,
    {
        let one = LocalComment {
            author: bead.comments[i].author.clone(),
            text: bead.comments[i].body.clone(),
        };
        proof {
            text::views_push(out@, one);
            assert(want.take(i + 1) =~= want.take(i as int).push(one@));
        }
        out.push(one);
        i += 1;
    }
    assert(want.take(i as int) =~= want);
    out
}

pub(crate) fn copy_issues(list: &Vec<RemoteIssue>) -> (r: Vec<RemoteIssue>)
    ensures
        text::views(r@) == text::views(list@),
{
    let ghost all = text::views(list@);
    let mut out: Vec<RemoteIssue> = Vec::new();
    let mut i: usize = 0;
    assert(text::views(out@) =~= all.take(0));
    while i < list.len()
        invariant
            i <= list@.len(),
            all == text::views(list@),
            text::views(out@) == all.take(i as int),
        decreases list@.len() - i,
    {
        let one = list[i].copy();
        proof {
            text::views_push(out@, one);
            assert(all.take(i + 1) =~= all.take(i as int).push(one@));
        }
        out.push(one);
        i += 1;
    }
    assert(all.take(i as int) =~= all);
    out
}

proof fn bead_called_is_called(beads: Seq<Issue>, id: Seq<char>)
    ensures
        plan::bead_called(beads, id) matches Some(b) ==> b.id@ == id,
    decreases beads.len(),
{
    if beads.len() > 0 && beads.last().id@ != id {
        bead_called_is_called(beads.drop_last(), id);
    }
}

/// Finds the comments that move between the workspace and the mirror.
#[verifier::loop_isolation(false)]
pub fn fetch_comment_work(
    talk: &mut Talk,
    cfg: &RemoteConfig,
    beads: &Vec<Issue>,
    remote: &Vec<RemoteIssue>,
) -> (r: Result<Vec<CommentWork>, Stop>)
    requires
        old(talk)@.rest.len() <= MOST_REPLIES,
    ensures
        (match r {
            Ok(list) => Ok(text::views(list@)),
            Err(stop) => Err(stop@),
        }, final(talk)@) == comment_work(cfg@, beads@, text::views(remote@), old(talk)@),
        final(talk)@.rest.len() <= old(talk)@.rest.len(),
{
    let ghost start = old(talk)@;
    let pairing = pair_workspace(cfg, beads, copy_issues(remote));
    let ghost paired = text::views(pairing.paired@);
    let mut work: Vec<CommentWork> = Vec::new();
    let mut k: usize = 0;
    assert(text::views(work@) =~= Seq::<CommentWorkView>::empty());
    while k < pairing.paired.len()
        invariant
            k <= pairing.paired@.len(),
            talk@.rest.len() <= start.rest.len(),
            comment_work(cfg@, beads@, text::views(remote@), start) == work_from(
                beads@,
                paired,
                k as int,
                text::views(work@),
                talk@,
            ),
        decreases pairing.paired@.len() - k,
    {
        let pair = &pairing.paired[k];
        assert(paired[k as int] == pair@);
        k += 1;
        let bead = match find_bead(beads, pair.bead_id.as_str()) {
            Some(bead) => bead,
            None => {
                continue;
            },
        };
        if matches!(bead.status, Status::Tombstone) {
            continue;
        }
        let count: u32 = if bead.comments.len() > u32::MAX as usize {
            u32::MAX
        } else {
            bead.comments.len() as u32
        };
        if comment_counts_agree(&pair.remote, count) {
            continue;
        }
        let fetched = match fetch_comments(talk, pair.remote.id_readable.as_str()) {
            Ok(fetched) => fetched,
            Err(stop) => {
                return Err(stop);
            },
        };
        let local = read_local_comments(bead);
        let sync = plan_comment_sync(&local, &fetched);
        assert(text::views(sync.to_push@).len() == sync.to_push@.len());
        assert(text::views(sync.to_pull@).len() == sync.to_pull@.len());
        if sync.to_push.len() == 0 && sync.to_pull.len() == 0 {
            continue;
        }
        let one = CommentWork {
            bead_id: pair.bead_id.clone(),
            remote_id: pair.remote.id_readable.clone(),
            to_push: sync.to_push,
            to_pull: sync.to_pull,
        };
        proof {
            bead_called_is_called(beads@, pair.bead_id@);
            text::views_push(work@, one);
            assert(one@ == work_of(*bead, pair.remote.id_readable@, text::views(fetched@)));
        }
        work.push(one);
    }
    Ok(work)
}

/// The rows that storage holds for an issue besides its own.
#[derive(Debug, Clone, PartialEq, Eq)]
pub struct IssueRows {
    pub dependencies: Option<Vec<model::Dependency>>,
    pub labels: Option<Vec<String>>,
    pub comments: Option<Vec<model::Comment>>,
}

/// An issue with its rows: those that are there take the place of its own.
pub open spec fn hydrated(issue: Issue, rows: IssueRows) -> Issue {
    Issue {
        dependencies: match rows.dependencies {
            Some(v) => v,
            None => issue.dependencies,
        },
        labels: match rows.labels {
            Some(v) => v,
            None => issue.labels,
        },
        comments: match rows.comments {
            Some(v) => v,
            None => issue.comments,
        },
        ..issue
    }
}

/// Every issue with its relations, labels and comments.
pub fn hydrated_issues(issues: Vec<Issue>, rows: Vec<IssueRows>) -> (r: Vec<Issue>)
    requires
        issues@.len() == rows@.len(),
    ensures
        r@.len() == issues@.len(),
        forall|i: int| 0 <= i < r@.len() ==> #[trigger] r@[i] == hydrated(issues@[i], rows@[i]),
{
    let mut issues = issues;
    let mut rows = rows;
    let ghost all = issues@;
    let ghost own = rows@;
    let mut out: Vec<Issue> = Vec::new();
    let mut left: usize = issues.len();
    let mut reversed: Vec<Issue> = Vec::new();
    while left > 0
        invariant
            all.len() == own.len(),
            left <= all.len(),
            issues@ == all.take(left as int),
            rows@ == own.take(left as int),
            reversed@.len() == all.len() - left,
            forall|i: int|
                0 <= i < reversed@.len() ==> #[trigger] reversed@[i] == hydrated(
                    all[all.len() - 1 - i],
                    own[all.len() - 1 - i],
                ),
        decreases left,
    {
        let mut issue = issues.pop().unwrap();
        let row = rows.pop().unwrap();
        assert(issue == all[left - 1]);
        assert(row == own[left - 1]);
        let ghost wanted = hydrated(issue, row);
        if let Some(v) = row.dependencies {
            issue.dependencies = v;
        }
        if let Some(v) = row.labels {
            issue.labels = v;
        }
        if let Some(v) = row.comments {
            issue.comments = v;
        }
        assert(issue == wanted);
        reversed.push(issue);
        left -= 1;
        assert(issues@ =~= all.take(left as int));
        assert(rows@ =~= own.take(left as int));
    }
    let mut todo: usize = reversed.len();
    let ghost back = reversed@;
    while todo > 0
        invariant
            todo <= back.len(),
            back.len() == all.len(),
            reversed@ == back.take(todo as int),
            out@.len() == back.len() - todo,
            forall|i: int|
                0 <= i < back.len() ==> #[trigger] back[i] == hydrated(
                    all[all.len() - 1 - i],
                    own[all.len() - 1 - i],
                ),
            forall|i: int|
                0 <= i < out@.len() ==> #[trigger] out@[i] == hydrated(all[i], own[i]),
        decreases todo,
    {
        let issue = reversed.pop().unwrap();
        assert(issue == back[todo - 1]);
        out.push(issue);
        todo -= 1;
        assert(reversed@ =~= back.take(todo as int));
    }
    out
}

/// Both sides, as they were read, and the plan that follows.
#[derive(Debug, Clone, PartialEq, Eq)]
pub struct Reconciliation {
    pub beads: Vec<Issue>,
    pub remote: Vec<RemoteIssue>,
    pub comments: Vec<CommentWork>,
    pub plan: ReconcilePlan,
}

/// What a run works on.
#[derive(Clone, Copy)]
pub struct RunInputs<'a> {
    pub plan: &'a ReconcilePlan,
    pub comments: &'a Vec<CommentWork>,
    pub beads: &'a Vec<Issue>,
    pub remote: &'a Vec<RemoteIssue>,
}

impl Reconciliation {
    /// What a run works on.
    pub fn inputs(&self) -> (r: RunInputs<'_>)
        ensures
            *r.plan == self.plan,
            *r.comments == self.comments,
            *r.beads == self.beads,
            *r.remote == self.remote,
    {
        RunInputs {
            plan: &self.plan,
            comments: &self.comments,
            beads: &self.beads,
            remote: &self.remote,
        }
    }
}

/// What both sides and the plan look like to contracts.
pub struct ReconciliationView {
    pub beads: Seq<Issue>,
    pub remote: Seq<RemoteIssueView>,
    pub comments: Seq<CommentWorkView>,
    pub plan: ReconcilePlanView,
}

impl View for Reconciliation {
    type V = ReconciliationView;

    open spec fn view(&self) -> ReconciliationView {
        ReconciliationView {
            beads: self.beads@,
            remote: text::views(self.remote@),
            comments: text::views(self.comments@),
            plan: self.plan@,
        }
    }
}

/// Reading the mirror, and planning.
pub open spec fn reconciled(
    cfg: RemoteConfigView,
    types: LinkTypesView,
    beads: Seq<Issue>,
    t: TalkView,
) -> (Result<ReconciliationView, StopView>, TalkView) {
    match fetch::snapshot_fetched(cfg, types, t) {
        (Err(stop), after) => (Err(stop), after),
        (Ok((issues, unread)), t1) => match comment_work(cfg, beads, issues, t1) {
            (Err(stop), after) => (Err(stop), after),
            (Ok(work), t2) => (
                Ok(
                    ReconciliationView {
                        beads,
                        remote: issues,
                        comments: work,
                        plan: plan::plan_of(cfg, beads, issues, unread, types, work),
                    },
                ),
                t2,
            ),
        },
    }
}

/// Reads the mirror and plans, as far as the replies reach. Only what reads
/// is asked for. An issue that cannot be read is reported in the plan and
/// ends nothing.
pub fn reconcile(
    cfg: &RemoteConfig,
    types: &LinkTypes,
    beads: Vec<Issue>,
    replies: &Vec<Result<Json, RemoteError>>,
) -> (r: Result<Reconciliation, Stop>)
    requires
        0 < cfg.page_size <= MAX_PAGE_SIZE,
        replies@.len() <= MOST_REPLIES,
    ensures
        talk::seen_step(r) == reconciled(
            cfg@,
            types@,
            beads@,
            talk::opened(talk::replies_view(replies@)),
        ).0,
{
    let mut talk = Talk::open(replies);
    assert(talk::replies_view(replies@).len() == replies@.len());
    let snapshot = match fetch_snapshot(&mut talk, cfg, types) {
        Ok(snapshot) => snapshot,
        Err(stop) => {
            return Err(stop);
        },
    };
    let remote = copy_issues(&snapshot.issues);
    let comments = match fetch_comment_work(&mut talk, cfg, &beads, &remote) {
        Ok(comments) => comments,
        Err(stop) => {
            return Err(stop);
        },
    };
    let plan = build_plan(cfg, &beads, snapshot, types, &comments);
    Ok(Reconciliation { beads, remote, comments, plan })
}

} // verus!
