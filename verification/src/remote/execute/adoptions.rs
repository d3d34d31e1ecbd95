//! Adopting the issues that no bead names.

use crate::json;
use crate::json::{entry, object_3, text_value, Json, JsonView};
use crate::model::Issue;
use crate::remote::adopt;
use crate::remote::adopt::{
    classify_adoption, creation_parent, import_comments, import_links, stamp_adoption,
    topological_order, AdoptionCandidate, AdoptionCandidateView, AdoptionOutcome, DeferredAdoption,
    DeferredAdoptionView, ImportedComment, ImportedCommentView, ImportedLink, ImportedLinkView,
    RefusedAdoption,
};
use crate::remote::comments;
use crate::remote::comments::{fetch_comments, YOUTRACK_AUTHOR};
use crate::remote::config::{RemoteConfig, RemoteConfigView};
use crate::remote::execute::orphans;
use crate::remote::execute::orphans::{OrphanScan, OrphanScanView};
use crate::remote::execute::pushing;
use crate::remote::execute::field_pushes;
use crate::remote::execute::field_pushes::{failure_line, update_of};
use crate::remote::execute::reading::{copy_issues, reconcile};
use crate::remote::model::{RemoteIssue, RemoteIssueView};
use crate::remote::plan;
use crate::remote::plan::{ReconcilePlan, ReconcilePlanView};
use crate::remote::reconcile;
use crate::remote::reconcile::{pair_workspace, PairedPairView};
use crate::remote::talk;
use crate::remote::talk::{Stop, StopView, Talk, TalkView, MOST_REPLIES};
use crate::remote::youtrack::links;
use crate::remote::youtrack::mapping;
use crate::text;
use crate::text::{add_pair, find_last, same_text};
use vstd::prelude::*;
use vstd::string::*;

verus! {

broadcast use vstd::string::group_string_axioms;

/// From readable identifiers to beads: those of the pairs, and behind them
/// those that were just recovered.
pub open spec fn known_beads(
    paired: Seq<PairedPairView>,
    recovered: Seq<(Seq<char>, Seq<char>)>,
) -> Seq<(Seq<char>, Seq<char>)> {
    paired.map_values(|p: PairedPairView| (p.remote.id_readable, p.bead_id))
        + recovered.map_values(|p: (Seq<char>, Seq<char>)| (p.1, p.0))
}

/// The issue is up for adoption: it has no bead, and it is in no dispute.
pub open spec fn is_adoptable(
    known: Seq<(Seq<char>, Seq<char>)>,
    orphans: OrphanScanView,
    i: RemoteIssueView,
) -> bool {
    text::last_under(known, i.id_readable) is None && !orphans::disputed(orphans, i.id_readable)
}

/// An issue that is taken over.
pub open spec fn candidate_of(
    cfg: RemoteConfigView,
    known: Seq<(Seq<char>, Seq<char>)>,
    orphans: OrphanScanView,
    i: RemoteIssueView,
) -> Option<AdoptionCandidateView> {
    if is_adoptable(known, orphans, i) {
        match adopt::adoption_read(cfg, i) {
            Ok(c) => Some(c),
            Err(_) => None,
        }
    } else {
        None
    }
}

/// The plan says already that the issue cannot be read.
pub open spec fn is_reported(p: ReconcilePlanView, id: Seq<char>) -> bool {
    exists|k: int|
        0 <= k < p.refused_adoptions.len() && (#[trigger] p.refused_adoptions[k]).remote_id == id
}

/// What is said of an issue that cannot be read, where the plan has not said
/// it.
pub open spec fn refusal_line(
    cfg: RemoteConfigView,
    p: ReconcilePlanView,
    known: Seq<(Seq<char>, Seq<char>)>,
    orphans: OrphanScanView,
    i: RemoteIssueView,
) -> Option<Seq<char>> {
    if is_adoptable(known, orphans, i) {
        match adopt::adoption_read(cfg, i) {
            Ok(_) => None,
            Err(e) => if is_reported(p, e.id_readable) {
                None
            } else {
                Some(adopt::refusal_text(e))
            },
        }
    } else {
        None
    }
}

/// What is to be adopted, in which order, and what is not.
#[derive(Debug, Clone, PartialEq, Eq)]
pub struct AdoptionStart {
    /// From readable identifiers to beads.
    pub id_map: Vec<(String, String)>,
    /// Parents before children.
    pub ordered: Vec<AdoptionCandidate>,
    pub refused: Vec<String>,
    pub deferred: Vec<String>,
}

/// What contracts say of a [`AdoptionStart`].
pub struct AdoptionStartView {
    pub id_map: Seq<(Seq<char>, Seq<char>)>,
    pub ordered: Seq<AdoptionCandidateView>,
    pub refused: Seq<Seq<char>>,
    pub deferred: Seq<Seq<char>>,
}

impl View for AdoptionStart {
    type V = AdoptionStartView;

    open spec fn view(&self) -> AdoptionStartView {
        AdoptionStartView {
            id_map: text::pairs(self.id_map@),
            ordered: text::views(self.ordered@),
            refused: text::views(self.refused@),
            deferred: text::views(self.deferred@),
        }
    }
}

/// What is to be adopted.
pub open spec fn adoption_start(
    cfg: RemoteConfigView,
    p: ReconcilePlanView,
    beads: Seq<Issue>,
    remote: Seq<RemoteIssueView>,
    orphans: OrphanScanView,
    recovered: Seq<(Seq<char>, Seq<char>)>,
) -> AdoptionStartView {
    let pairing = reconcile::pairing_of(cfg, beads, remote);
    let known = known_beads(pairing.paired, recovered);
    let candidates = text::picked(
        pairing.unpaired_remote,
        |i: RemoteIssueView| candidate_of(cfg, known, orphans, i),
    );
    AdoptionStartView {
        id_map: known,
        ordered: adopt::creation_order(candidates, known),
        refused: text::picked(
            pairing.unpaired_remote,
            |i: RemoteIssueView| refusal_line(cfg, p, known, orphans, i),
        ),
        deferred: adopt::put_off(candidates, known).map_values(
            |c: AdoptionCandidateView| adopt::deferral_text(adopt::deferral_of(c, candidates)),
        ),
    }
}

fn known_table(paired: &Vec<reconcile::PairedPair>, recovered: &Vec<(String, String)>) -> (r: Vec<
    (String, String),
>)
    ensures
        text::pairs(r@) == known_beads(text::views(paired@), text::pairs(recovered@)),
{
    let ghost first = text::views(paired@).map_values(
        |p: PairedPairView| (p.remote.id_readable, p.bead_id),
    );
    let ghost second = text::pairs(recovered@).map_values(
        |p: (Seq<char>, Seq<char>)| (p.1, p.0),
    );
    let mut out: Vec<(String, String)> = Vec::new();
    let mut i: usize = 0;
    assert(text::pairs(out@) =~= first.take(0));
    while i < paired.len()
        invariant
            i <= paired@.len(),
            first == text::views(paired@).map_values(
                |p: PairedPairView| (p.remote.id_readable, p.bead_id),
            ),
            text::pairs(out@) == first.take(i as int),
        decreases paired@.len() - i,
    {
        add_pair(&mut out, paired[i].remote.id_readable.clone(), paired[i].bead_id.clone());
        assert(first.take(i + 1) =~= first.take(i as int).push(first[i as int]));
        i += 1;
    }
    assert(first.take(i as int) =~= first);
    let mut k: usize = 0;
    assert(first + second.take(0) =~= first);
    while k < recovered.len()
        invariant
            k <= recovered@.len(),
            second == text::pairs(recovered@).map_values(
                |p: (Seq<char>, Seq<char>)| (p.1, p.0),
            ),
            text::pairs(out@) == first + second.take(k as int),
        decreases recovered@.len() - k,
    {
        add_pair(&mut out, recovered[k].1.clone(), recovered[k].0.clone());
        assert(first + second.take(k + 1) =~= (first + second.take(k as int)).push(
            second[k as int],
        ));
        k += 1;
    }
    assert(second.take(k as int) =~= second);
    out
}

/// The refusal of an issue, where the plan has not reported it.
fn push_unreported_refusal(plan: &ReconcilePlan, refusal: &RefusedAdoption, lines: &mut Vec<String>)
    ensures
        text::views(final(lines)@) == (if is_reported(plan@, refusal@.id_readable) {
            text::views(old(lines)@)
        } else {
            text::views(old(lines)@).push(adopt::refusal_text(refusal@))
        }),
{
    let mut i: usize = 0;
    while i < plan.refused_adoptions.len()
        invariant
            i <= plan.refused_adoptions@.len(),
            lines@ == old(lines)@,
            forall|k: int|
                0 <= k < i ==> (#[trigger] plan@.refused_adoptions[k]).remote_id
                    != refusal@.id_readable,
        decreases plan.refused_adoptions@.len() - i,
    {
        assert(plan@.refused_adoptions[i as int] == plan.refused_adoptions@[i as int]@);
        if same_text(
            plan.refused_adoptions[i].remote_id.as_str(),
            refusal.id_readable.as_str(),
        ) {
            return;
        }
        i += 1;
    }
    let line = refusal.render();
    proof {
        text::views_push(lines@, line);
    }
    lines.push(line);
}

fn deferral_lines(deferred: &Vec<DeferredAdoption>) -> (r: Vec<String>)
    ensures
        text::views(r@) == text::views(deferred@).map_values(
            |d: DeferredAdoptionView| adopt::deferral_text(d),
        ),
{
    let ghost want = text::views(deferred@).map_values(
        |d: DeferredAdoptionView| adopt::deferral_text(d),
    );
    let mut out: Vec<String> = Vec::new();
    let mut i: usize = 0;
    assert(text::views(out@) =~= want.take(0));
    while i < deferred.len()
        invariant
            i <= deferred@.len(),
            want == text::views(deferred@).map_values(
                |d: DeferredAdoptionView| adopt::deferral_text(d),
            ),
            text::views(out@) == want.take(i as int),
        decreases deferred@.len() - i,
    {
        let one = deferred[i].render();
        proof {
            text::views_push(out@, one);
            assert(want.take(i + 1) =~= want.take(i as int).push(one@));
        }
        out.push(one);
        i += 1;
    }
    assert(want.take(i as int) =~= want);
    out
}

/// Chooses and orders what is to be adopted. One issue that cannot be read
/// keeps none of the others back.
#[verifier::loop_isolation(false)]
pub fn plan_adoptions(
    cfg: &RemoteConfig,
    plan: &ReconcilePlan,
    beads: &Vec<Issue>,
    remote: &Vec<RemoteIssue>,
    orphans: &OrphanScan,
    recovered: &Vec<(String, String)>,
) -> (r: AdoptionStart)
    ensures
        r@ == adoption_start(
            cfg@,
            plan@,
            beads@,
            text::views(remote@),
            orphans@,
            text::pairs(recovered@),
        ),
{
    let pairing = pair_workspace(cfg, beads, copy_issues(remote));
    let id_map = known_table(&pairing.paired, recovered);
    let ghost known = text::pairs(id_map@);
    let ghost all = text::views(pairing.unpaired_remote@);
    let ghost f = |i: RemoteIssueView| candidate_of(cfg@, known, orphans@, i);
    let ghost g = |i: RemoteIssueView| refusal_line(cfg@, plan@, known, orphans@, i);
    let mut candidates: Vec<AdoptionCandidate> = Vec::new();
    let mut refused: Vec<String> = Vec::new();
    let mut i: usize = 0;
    assert(text::views(candidates@) =~= text::picked(all.take(0), f));
    assert(text::views(refused@) =~= text::picked(all.take(0), g));
    while i < pairing.unpaired_remote.len()
        invariant
            i <= pairing.unpaired_remote@.len(),
            text::views(candidates@) == text::picked(all.take(i as int), f),
            text::views(refused@) == text::picked(all.take(i as int), g),
        decreases pairing.unpaired_remote@.len() - i,
    {
        let issue = &pairing.unpaired_remote[i];
        proof {
            text::picked_step(all, f, i as int);
            text::picked_step(all, g, i as int);
            assert(all[i as int] == issue@);
        }
        if find_last(&id_map, issue.id_readable.as_str()).is_none() && !orphans.claims(
            issue.id_readable.as_str(),
        ) {
            match classify_adoption(cfg, issue) {
                Ok(candidate) => {
                    proof {
                        text::views_push(candidates@, candidate);
                    }
                    candidates.push(candidate);
                },
                Err(refusal) => {
                    push_unreported_refusal(plan, &refusal, &mut refused);
                },
            }
        }
        i += 1;
    }
    assert(all.take(i as int) =~= all);
    let ghost chosen = text::views(candidates@);
    let order = topological_order(candidates, &id_map);
    let deferred = deferral_lines(&order.deferred);
    proof {
        let d = adopt::put_off(chosen, known);
        assert(text::views(deferred@) =~= d.map_values(
            |c: AdoptionCandidateView| adopt::deferral_text(adopt::deferral_of(c, chosen)),
        ));
    }
    AdoptionStart { id_map, ordered: order.ordered, refused, deferred }
}

/// What an adoption waits for.
#[derive(Debug, PartialEq, Eq)]
pub enum AdoptStop {
    /// The bead of this candidate, to be created under this parent and in
    /// this name.
    Create { index: usize, parent: Option<String>, actor: &'static str },
    /// A request, or it has failed.
    Talk(Stop),
}

/// What contracts say of an [`AdoptStop`].
pub enum AdoptStopView {
    Create { index: int, parent: Option<Seq<char>>, actor: Seq<char> },
    Talk(StopView),
}

impl View for AdoptStop {
    type V = AdoptStopView;

    open spec fn view(&self) -> AdoptStopView {
        match self {
            AdoptStop::Create { index, parent, actor } => AdoptStopView::Create {
                index: *index as int,
                parent: text::seen(*parent),
                actor: actor@,
            },
            AdoptStop::Talk(stop) => AdoptStopView::Talk(stop@),
        }
    }
}

/// What the adoptions have come to so far.
#[derive(Debug, Clone, PartialEq, Eq)]
pub struct AdoptionRun {
    /// From readable identifiers to beads, those that were created among them.
    pub id_map: Vec<(String, String)>,
    /// Issues with the beads that they became.
    pub adopted: Vec<(String, String)>,
    /// The comments that the new beads get.
    pub comments: Vec<ImportedComment>,
    pub comments_imported: usize,
    pub notes: Vec<String>,
    pub failures: Vec<String>,
}

/// What contracts say of a [`AdoptionRun`].
pub struct AdoptionRunView {
    pub id_map: Seq<(Seq<char>, Seq<char>)>,
    pub adopted: Seq<(Seq<char>, Seq<char>)>,
    pub comments: Seq<ImportedCommentView>,
    pub comments_imported: usize,
    pub notes: Seq<Seq<char>>,
    pub failures: Seq<Seq<char>>,
}

impl View for AdoptionRun {
    type V = AdoptionRunView;

    open spec fn view(&self) -> AdoptionRunView {
        AdoptionRunView {
            id_map: text::pairs(self.id_map@),
            adopted: text::pairs(self.adopted@),
            comments: text::views(self.comments@),
            comments_imported: self.comments_imported,
            notes: text::views(self.notes@),
            failures: text::views(self.failures@),
        }
    }
}

/// How far the adoptions have come.
pub struct AdoptView {
    pub run: AdoptionRunView,
    pub stop: Option<AdoptStopView>,
    pub talk: TalkView,
}

/// A number that is higher, as far as it can be counted.
pub open spec fn counted_on(n: usize, more: nat) -> usize {
    pushing::capped(n as nat + more)
}

/// Taking over the comments of an issue that has become a bead. That they
/// cannot be read is noted, and ends nothing.
pub open spec fn comments_adopted(
    c: AdoptionCandidateView,
    bead: Seq<char>,
    run: AdoptionRunView,
    t: TalkView,
) -> (Result<AdoptionRunView, StopView>, TalkView) {
    if c.remote.comments_count == 0 {
        (Ok(run), t)
    } else {
        match comments::comments_fetched(c.remote.id_readable, t) {
            (Ok(fetched), after) => (
                Ok(
                    AdoptionRunView {
                        comments: run.comments + adopt::imported_comments(bead, fetched),
                        comments_imported: counted_on(run.comments_imported, fetched.len()),
                        ..run
                    },
                ),
                after,
            ),
            (Err(StopView::Fail(e)), after) => (
                Ok(
                    AdoptionRunView {
                        failures: run.failures.push(
                            field_pushes::failure_text("comments of "@ + c.remote.id_readable, e),
                        ),
                        ..run
                    },
                ),
                after,
            ),
            (Err(stop), after) => (Err(stop), after),
        }
    }
}

/// The body that tells an issue which bead it became.
pub open spec fn stamp_body(bead: Seq<char>) -> JsonView {
    JsonView::Object(
        seq![("customFields"@, JsonView::Array(seq![mapping::bead_field(bead)]))],
    )
}

/// Telling an issue which bead it became. That this fails is said, and is
/// never retried.
pub open spec fn stamped(
    c: AdoptionCandidateView,
    bead: Seq<char>,
    run: AdoptionRunView,
    t: TalkView,
) -> (Result<AdoptionRunView, StopView>, TalkView) {
    let id = c.remote.id_readable;
    let adopted = AdoptionRunView { adopted: run.adopted.push((id, bead)), ..run };
    match talk::heard(field_pushes::update_request(id, stamp_body(bead)), 0, t) {
        (Err(stop), after) => (Err(stop), after),
        (Ok(Ok(_)), after) => (Ok(adopted), after),
        (Ok(Err(e)), after) => (
            Ok(
                AdoptionRunView {
                    notes: adopted.notes.push(adopt::stamp_note(id, bead, e)),
                    ..adopted
                },
            ),
            after,
        ),
    }
}

/// The run with a bead that was created.
pub open spec fn with_bead(run: AdoptionRunView, id: Seq<char>, bead: Seq<char>) -> AdoptionRunView {
    AdoptionRunView { id_map: run.id_map.push((id, bead)), ..run }
}

/// The bead that a candidate is created under.
pub open spec fn parent_for(c: AdoptionCandidateView, id_map: Seq<(Seq<char>, Seq<char>)>) -> Option<
    Seq<char>,
> {
    match adopt::parent_named(c.remote.links) {
        Some(parent) => text::last_under(id_map, parent),
        None => None,
    }
}

/// The adoptions from the `k`-th on. `minted` holds the beads that have been
/// created for the candidates, in their order.
pub open spec fn adoptions_from(
    ordered: Seq<AdoptionCandidateView>,
    minted: Seq<Seq<char>>,
    k: int,
    run: AdoptionRunView,
    t: TalkView,
) -> AdoptView
    decreases ordered.len() - k,
{
    if k < 0 || k >= ordered.len() {
        AdoptView { run, stop: None, talk: t }
    } else if k >= minted.len() {
        AdoptView {
            run,
            stop: Some(
                AdoptStopView::Create {
                    index: k,
                    parent: parent_for(ordered[k], run.id_map),
                    actor: comments::YOUTRACK_AUTHOR@,
                },
            ),
            talk: t,
        }
    } else {
        let made = with_bead(run, ordered[k].remote.id_readable, minted[k]);
        match comments_adopted(ordered[k], minted[k], made, t) {
            (Err(stop), after) => AdoptView {
                run: made,
                stop: Some(AdoptStopView::Talk(stop)),
                talk: after,
            },
            (Ok(now), after) => match stamped(ordered[k], minted[k], now, after) {
                (Err(stop), end) => AdoptView {
                    run: now,
                    stop: Some(AdoptStopView::Talk(stop)),
                    talk: end,
                },
                (Ok(next), end) => adoptions_from(ordered, minted, k + 1, next, end),
            },
        }
    }
}

/// A run that has not adopted anything.
pub open spec fn adoption_begun(start: AdoptionStartView) -> AdoptionRunView {
    AdoptionRunView {
        id_map: start.id_map,
        adopted: Seq::empty(),
        comments: Seq::empty(),
        comments_imported: 0,
        notes: Seq::empty(),
        failures: Seq::empty(),
    }
}

/// The dependencies that the links of all adopted issues stand for.
pub open spec fn all_imported(
    ordered: Seq<AdoptionCandidateView>,
    id_map: Seq<(Seq<char>, Seq<char>)>,
) -> Seq<ImportedLinkView> {
    text::told(ordered, |c: AdoptionCandidateView| adopt::imported_rows(c.remote, id_map))
}

fn adopt_comments(
    talk: &mut Talk,
    candidate: &AdoptionCandidate,
    bead: &str,
    run: &mut AdoptionRun,
) -> (r: Option<Stop>)
    requires
        old(talk)@.rest.len() <= MOST_REPLIES,
    ensures
        (match r {
            None => Ok(final(run)@),
            Some(stop) => Err(stop@),
        }, final(talk)@) == comments_adopted(candidate@, bead@, old(run)@, old(talk)@),
        r is Some ==> final(run)@ == old(run)@,
        final(talk)@.rest.len() <= old(talk)@.rest.len(),
{
    if candidate.remote.comments_count == 0 {
        return None;
    }
    match fetch_comments(talk, candidate.remote.id_readable.as_str()) {
        Ok(fetched) => {
            let mut more = import_comments(bead, &fetched);
            assert(text::views(fetched@).len() == fetched@.len());
            proof {
                text::views_joined(run.comments@, more@);
            }
            run.comments.append(&mut more);
            run.comments_imported = run.comments_imported.saturating_add(fetched.len());
            None
        },
        Err(Stop::Fail(e)) => {
            let mut what = "comments of ".to_owned();
            what.append(candidate.remote.id_readable.as_str());
            let line = failure_line(what.as_str(), &e);
            proof {
                text::views_push(run.failures@, line);
            }
            run.failures.push(line);
            None
        },
        Err(stop) => Some(stop),
    }
}

fn stamp_of_bead(bead: &str) -> (r: Json)
    ensures
        r@ == stamp_body(bead@),
{
    broadcast use crate::json::array_view, crate::json::object_view;

    let mut fields: Vec<Json> = Vec::new();
    fields.push(
        object_3(
            entry("name", text_value("Beads ID")),
            entry("$type", text_value("SimpleIssueCustomField")),
            entry("value", text_value(bead)),
        ),
    );
    assert(fields@[0]@->Object_0 =~= mapping::bead_field(bead@)->Object_0);
    assert(text::views(fields@) =~= seq![mapping::bead_field(bead@)]);
    let mut entries: Vec<(String, Json)> = Vec::new();
    entries.push(entry("customFields", Json::Array(fields)));
    let body = Json::Object(entries);
    assert(body@->Object_0 =~= stamp_body(bead@)->Object_0);
    body
}

fn stamp(
    talk: &mut Talk,
    candidate: &AdoptionCandidate,
    bead: &str,
    run: &mut AdoptionRun,
) -> (r: Option<Stop>)
    ensures
        (match r {
            None => Ok(final(run)@),
            Some(stop) => Err(stop@),
        }, final(talk)@) == stamped(candidate@, bead@, old(run)@, old(talk)@),
        r is Some ==> final(run)@ == old(run)@,
        final(talk)@.rest.len() <= old(talk)@.rest.len(),
{
    let id = candidate.remote.id_readable.as_str();
    let reply = match talk.hear(update_of(id, stamp_of_bead(bead)), 0) {
        Ok(reply) => match reply {
            Ok(_) => Ok(()),
            Err(e) => Err(e.copy()),
        },
        Err(stop) => {
            return Some(stop);
        },
    };
    let mut outcome = AdoptionOutcome { bead_id: bead.to_owned(), stamp_failed: false };
    if let Some(note) = stamp_adoption(&mut outcome, id, reply) {
        proof {
            text::views_push(run.notes@, note);
        }
        run.notes.push(note);
    }
    add_pair(&mut run.adopted, id.to_owned(), outcome.bead_id);
    None
}

/// Adopts every candidate, as far as the beads that were created and the
/// replies reach.
#[verifier::loop_isolation(false)]
pub fn adopt_everything(
    talk: &mut Talk,
    ordered: &Vec<AdoptionCandidate>,
    minted: &Vec<String>,
    run: &mut AdoptionRun,
) -> (r: Option<AdoptStop>)
    requires
        old(talk)@.rest.len() <= MOST_REPLIES,
    ensures
        ({
            let end = adoptions_from(
                text::views(ordered@),
                text::views(minted@),
                0,
                old(run)@,
                old(talk)@,
            );
            final(run)@ == end.run && text::seen(r) == end.stop && final(talk)@ == end.talk
        }),
{
    let ghost start = talk@;
    let ghost all = text::views(ordered@);
    let ghost beads = text::views(minted@);
    let ghost whole = adoptions_from(all, beads, 0, run@, talk@);
    let mut k: usize = 0;
    while k < ordered.len()
        invariant
            k <= ordered@.len(),
            talk@.rest.len() <= start.rest.len(),
            whole == adoptions_from(all, beads, k as int, run@, talk@),
        decreases ordered@.len() - k,
    {
        let candidate = &ordered[k];
        assert(all[k as int] == candidate@);
        assert(beads.len() == minted@.len());
        if k >= minted.len() {
            let parent = creation_parent(candidate, &run.id_map);
            return Some(AdoptStop::Create { index: k, parent, actor: YOUTRACK_AUTHOR });
        }
        let bead = minted[k].as_str();
        assert(beads[k as int] == bead@);
        add_pair(
            &mut run.id_map,
            candidate.remote.id_readable.clone(),
            bead.to_owned(),
        );
        if let Some(stop) = adopt_comments(talk, candidate, bead, run) {
            return Some(AdoptStop::Talk(stop));
        }
        if let Some(stop) = stamp(talk, candidate, bead, run) {
            return Some(AdoptStop::Talk(stop));
        }
        k += 1;
    }
    None
}

/// The dependencies that the links of all adopted issues stand for.
pub fn import_all_links(ordered: &Vec<AdoptionCandidate>, id_map: &Vec<(String, String)>) -> (r: Vec<
    ImportedLink,
>)
    ensures
        text::views(r@) == all_imported(text::views(ordered@), text::pairs(id_map@)),
{
    let ghost all = text::views(ordered@);
    let ghost table = text::pairs(id_map@);
    let ghost f = |c: AdoptionCandidateView| adopt::imported_rows(c.remote, table);
    let ghost none: Seq<ImportedLinkView> = Seq::empty();
    let mut out: Vec<ImportedLink> = Vec::new();
    let mut i: usize = 0;
    proof {
        text::told_ends(all, f, none);
        assert(text::views(out@) =~= none);
    }
    while i < ordered.len()
        invariant
            i <= ordered@.len(),
            all == text::views(ordered@),
            table == text::pairs(id_map@),
            f == (|c: AdoptionCandidateView| adopt::imported_rows(c.remote, table)),
            text::views(out@) == none + text::told(all.take(i as int), f),
        decreases ordered@.len() - i,
    {
        proof {
            text::told_step(all, f, i as int, none);
        }
        let rows = import_links(&ordered[i], id_map);
        let ghost had = text::views(out@);
        let ghost want = text::views(rows@);
        assert(had =~= had + want.take(0));
        for row in it: rows
            invariant
                it.seq() == rows@,
                want == text::views(rows@),
                text::views(out@) == had + want.take(it.index() as int),
        {
            proof {
                text::views_push(out@, row);
                let n = it.index() as int;
                assert((had + want.take(n)).push(row@) =~= had + want.take(n + 1));
            }
            out.push(row);
        }
        assert(want.take(want.len() as int) =~= want);
        i += 1;
    }
    proof {
        text::told_ends(all, f, none);
        assert(none + text::told(all, f) =~= text::told(all, f));
    }
    out
}

} // verus!
