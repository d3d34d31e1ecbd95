//! The whole pull.

use crate::json::Json;
use crate::remote::adopt;
use crate::remote::adopt::{
    mirror_comment, AdoptionCandidate, AdoptionCandidateView, ImportedComment, ImportedCommentView,
    ImportedLink, ImportedLinkView,
};
use crate::remote::comments;
use crate::remote::comments::RemoteCommentView;
use crate::remote::config::{RemoteConfig, RemoteConfigView};
use crate::remote::error::RemoteError;
use crate::remote::execute::adoptions;
use crate::remote::execute::adoptions::{
    AdoptStop, AdoptStopView, AdoptionRun, adopt_everything, import_all_links, plan_adoptions,
};
use crate::remote::execute::orphans;
use crate::remote::execute::orphans::{AmbiguousStamp, AmbiguousStampView, orphaned_creates};
use crate::remote::execute::field_pulls;
use crate::remote::execute::field_pulls::{FieldPull, FieldPullView, apply_field_pulls};
use crate::remote::execute::pushing;
use crate::remote::execute::pushing::RunInputsView;
use crate::remote::execute::reading::RunInputs;
use crate::remote::plan;
use crate::remote::plan::{CommentWork, CommentWorkView, IssueFieldPlanView};
use crate::remote::talk;
use crate::remote::talk::{Talk, TalkView, MOST_REPLIES};
use crate::remote::youtrack::links;
use crate::text;
use crate::text::add_pair;
use vstd::prelude::*;
use vstd::string::*;

verus! {

broadcast use vstd::string::group_string_axioms;

/// Everything that a pull did, and everything that it left.
#[derive(Debug, Clone, PartialEq, Eq)]
pub struct PullReport {
    /// `bds-1: state open → closed` for each field that the mirror won.
    pub fields_applied: Vec<String>,
    /// Issues with the beads that they became.
    pub adopted: Vec<(String, String)>,
    /// Beads with the issues that an earlier push created for them.
    pub recovered: Vec<(String, String)>,
    /// Issues that cannot be read and that the plan has not named, and why.
    pub refused: Vec<String>,
    /// Issues that are put off, and why.
    pub deferred: Vec<String>,
    /// Beads that several issues name.
    pub ambiguous: Vec<AmbiguousStamp>,
    pub comments_imported: usize,
    pub failures: Vec<String>,
}

/// What contracts say of a [`PullReport`].
pub struct PullReportView {
    pub fields_applied: Seq<Seq<char>>,
    pub adopted: Seq<(Seq<char>, Seq<char>)>,
    pub recovered: Seq<(Seq<char>, Seq<char>)>,
    pub refused: Seq<Seq<char>>,
    pub deferred: Seq<Seq<char>>,
    pub ambiguous: Seq<AmbiguousStampView>,
    pub comments_imported: usize,
    pub failures: Seq<Seq<char>>,
}

impl View for PullReport {
    type V = PullReportView;

    open spec fn view(&self) -> PullReportView {
        PullReportView {
            fields_applied: text::views(self.fields_applied@),
            adopted: text::pairs(self.adopted@),
            recovered: text::pairs(self.recovered@),
            refused: text::views(self.refused@),
            deferred: text::views(self.deferred@),
            ambiguous: text::views(self.ambiguous@),
            comments_imported: self.comments_imported,
            failures: text::views(self.failures@),
        }
    }
}

impl Default for PullReport {
    /// Nothing has been done.
    fn default() -> (r: PullReport)
        ensures
            r@ == (PullReportView {
                fields_applied: Seq::empty(),
                adopted: Seq::empty(),
                recovered: Seq::empty(),
                refused: Seq::empty(),
                deferred: Seq::empty(),
                ambiguous: Seq::empty(),
                comments_imported: 0,
                failures: Seq::empty(),
            }),
    {
        let r = PullReport {
            fields_applied: Vec::new(),
            adopted: Vec::new(),
            recovered: Vec::new(),
            refused: Vec::new(),
            deferred: Vec::new(),
            ambiguous: Vec::new(),
            comments_imported: 0,
            failures: Vec::new(),
        };
        assert(r@.fields_applied =~= Seq::empty());
        assert(r@.adopted =~= Seq::empty());
        assert(r@.recovered =~= Seq::empty());
        assert(r@.refused =~= Seq::empty());
        assert(r@.deferred =~= Seq::empty());
        assert(r@.ambiguous =~= Seq::empty());
        assert(r@.failures =~= Seq::empty());
        r
    }
}

impl PullReport {
    /// Whether everything was done.
    pub fn is_clean(&self) -> (r: bool)
        ensures
            r == (self@.failures.len() == 0),
    {
        self.failures.len() == 0
    }
}

/// The comments that come in, at the beads that get them.
pub open spec fn incoming(work: Seq<CommentWorkView>) -> Seq<ImportedCommentView> {
    text::told(
        work,
        |w: CommentWorkView|
            w.to_pull.map_values(|c: RemoteCommentView| adopt::comment_row(w.bead_id, c.text)),
    )
}

/// A pull as far as it has come.
pub struct PullView {
    pub report: PullReportView,
    pub updates: Seq<FieldPullView>,
    pub ordered: Seq<AdoptionCandidateView>,
    pub comments: Seq<ImportedCommentView>,
    pub links: Seq<ImportedLinkView>,
    pub notes: Seq<Seq<char>>,
    pub stop: Option<AdoptStopView>,
}

/// A whole pull. Issues that an earlier push created are paired first, so
/// that none of them is adopted; then fields, adoptions, and the comments of
/// the pairs.
pub open spec fn pull_run(
    cfg: RemoteConfigView,
    inputs: RunInputsView,
    minted: Seq<Seq<char>>,
    t: TalkView,
) -> PullView {
    let orphans = orphans::orphans_of(inputs.plan);
    let start = adoptions::adoption_start(
        cfg,
        inputs.plan,
        inputs.beads,
        inputs.remote,
        orphans,
        orphans.recoverable,
    );
    let end = adoptions::adoptions_from(start.ordered, minted, 0, adoptions::adoption_begun(start), t);
    let over = end.stop is None;
    PullView {
        report: PullReportView {
            fields_applied: text::told(
                inputs.plan.field_changes,
                |p: IssueFieldPlanView| field_pulls::field_pull_lines(p, inputs.remote),
            ),
            adopted: end.run.adopted,
            recovered: orphans.recoverable,
            refused: start.refused,
            deferred: start.deferred,
            ambiguous: orphans.ambiguous,
            comments_imported: if over {
                adoptions::counted_on(end.run.comments_imported, incoming(inputs.comments).len())
            } else {
                end.run.comments_imported
            },
            failures: end.run.failures,
        },
        updates: text::picked(
            inputs.plan.field_changes,
            |p: IssueFieldPlanView| field_pulls::field_pull(p, inputs.remote),
        ),
        ordered: start.ordered,
        comments: if over {
            end.run.comments + incoming(inputs.comments)
        } else {
            end.run.comments
        },
        links: if over {
            adoptions::all_imported(start.ordered, end.run.id_map)
        } else {
            Seq::empty()
        },
        notes: end.run.notes,
        stop: end.stop,
    }
}

/// A pull as far as it has come, with everything that is to be stored for
/// it: the pairs of the report, the updates, the comments and the links.
#[derive(Debug, PartialEq, Eq)]
pub struct PullStep {
    pub report: PullReport,
    pub updates: Vec<FieldPull>,
    /// What is adopted, in the order of creation.
    pub ordered: Vec<AdoptionCandidate>,
    pub comments: Vec<ImportedComment>,
    /// Once every bead is there.
    pub links: Vec<ImportedLink>,
    pub notes: Vec<String>,
    /// What it waits for, if it has not ended.
    pub stop: Option<AdoptStop>,
}

impl View for PullStep {
    type V = PullView;

    open spec fn view(&self) -> PullView {
        PullView {
            report: self.report@,
            updates: text::views(self.updates@),
            ordered: text::views(self.ordered@),
            comments: text::views(self.comments@),
            links: text::views(self.links@),
            notes: text::views(self.notes@),
            stop: text::seen(self.stop),
        }
    }
}

fn copy_pairs(list: &Vec<(String, String)>) -> (r: Vec<(String, String)>)
    ensures
        text::pairs(r@) == text::pairs(list@),
{
    let ghost all = text::pairs(list@);
    let mut out: Vec<(String, String)> = Vec::new();
    let mut i: usize = 0;
    assert(text::pairs(out@) =~= all.take(0));
    while i < list.len()
        invariant
            i <= list@.len(),
            all == text::pairs(list@),
            text::pairs(out@) == all.take(i as int),
        decreases list@.len() - i,
    {
        add_pair(&mut out, list[i].0.clone(), list[i].1.clone());
        assert(all.take(i + 1) =~= all.take(i as int).push(all[i as int]));
        i += 1;
    }
    assert(all.take(i as int) =~= all);
    out
}

fn add_incoming(work: &Vec<CommentWork>, comments: &mut Vec<ImportedComment>) -> (r: usize)
    ensures
        text::views(final(comments)@) == text::views(old(comments)@) + incoming(
            text::views(work@),
        ),
        r == pushing::capped(incoming(text::views(work@)).len()),
{
    let ghost start = text::views(comments@);
    let ghost all = text::views(work@);
    let ghost f = |w: CommentWorkView|
        w.to_pull.map_values(|c: RemoteCommentView| adopt::comment_row(w.bead_id, c.text));
    let mut count: usize = 0;
    let mut i: usize = 0;
    proof {
        text::told_ends(all, f, start);
        assert(text::told(all.take(0), f).len() == 0);
    }
    while i < work.len()
        invariant
            i <= work@.len(),
            all == text::views(work@),
            f == (|w: CommentWorkView|
                w.to_pull.map_values(
                    |c: RemoteCommentView| adopt::comment_row(w.bead_id, c.text),
                )),
            text::views(comments@) == start + text::told(all.take(i as int), f),
            count == pushing::capped(text::told(all.take(i as int), f).len()),
        decreases work@.len() - i,
    {
        let one = &work[i];
        let ghost had = text::views(comments@);
        let ghost want = f(one@);
        proof {
            text::told_step(all, f, i as int, start);
            assert(all[i as int] == one@);
            assert(all.take(i + 1).drop_last() =~= all.take(i as int));
            assert(want.len() == one.to_pull@.len());
        }
        let mut k: usize = 0;
        assert(had + want.take(0) =~= had);
        while k < one.to_pull.len()
            invariant
                k <= one.to_pull@.len(),
                want == one@.to_pull.map_values(
                    |c: RemoteCommentView| adopt::comment_row(one@.bead_id, c.text),
                ),
                text::views(comments@) == had + want.take(k as int),
            decreases one.to_pull@.len() - k,
        {
            let row = mirror_comment(one.bead_id.as_str(), one.to_pull[k].text.as_str());
            proof {
                text::views_push(comments@, row);
            }
            comments.push(row);
            assert(had + want.take(k + 1) =~= (had + want.take(k as int)).push(
                want[k as int],
            ));
            k += 1;
        }
        assert(want.take(k as int) =~= want);
        count = count.saturating_add(one.to_pull.len());
        i += 1;
    }
    proof {
        text::told_ends(all, f, start);
    }
    count
}

/// Pulls what the plan says, as far as the beads that were created and the
/// replies reach. `minted` holds the beads that have been created for the
/// adopted issues, in their order.
pub fn execute_pull(
    cfg: &RemoteConfig,
    inputs: &RunInputs,
    minted: &Vec<String>,
    replies: &Vec<Result<Json, RemoteError>>,
) -> (r: PullStep)
    requires
        replies@.len() <= MOST_REPLIES,
    ensures
        r@ == pull_run(
            cfg@,
            inputs@,
            text::views(minted@),
            talk::opened(talk::replies_view(replies@)),
        ),
{
    let mut talk = Talk::open(replies);
    assert(talk::replies_view(replies@).len() == replies@.len());
    let orphans = orphaned_creates(inputs.plan);
    let (updates, fields_applied) = apply_field_pulls(inputs.plan, inputs.remote);
    let start = plan_adoptions(
        cfg,
        inputs.plan,
        inputs.beads,
        inputs.remote,
        &orphans,
        &orphans.recoverable,
    );
    let mut run = AdoptionRun {
        id_map: copy_pairs(&start.id_map),
        adopted: Vec::new(),
        comments: Vec::new(),
        comments_imported: 0,
        notes: Vec::new(),
        failures: Vec::new(),
    };
    proof {
        assert(run@.adopted =~= Seq::empty());
        assert(run@.comments =~= Seq::empty());
        assert(run@.notes =~= Seq::empty());
        assert(run@.failures =~= Seq::empty());
    }
    let stop = adopt_everything(&mut talk, &start.ordered, minted, &mut run);
    let mut comments = run.comments;
    let mut comments_imported: usize = run.comments_imported;
    let mut links: Vec<ImportedLink> = Vec::new();
    assert(text::views(links@) =~= Seq::<ImportedLinkView>::empty());
    if stop.is_none() {
        let more = add_incoming(inputs.comments, &mut comments);
        comments_imported = comments_imported.saturating_add(more);
        links = import_all_links(&start.ordered, &run.id_map);
    }
    PullStep {
        report: PullReport {
            fields_applied,
            adopted: run.adopted,
            recovered: orphans.recoverable,
            refused: start.refused,
            deferred: start.deferred,
            ambiguous: orphans.ambiguous,
            comments_imported,
            failures: run.failures,
        },
        updates,
        ordered: start.ordered,
        comments,
        links,
        notes: run.notes,
        stop,
    }
}

} // verus!
