//! Issues that an earlier run created and never learnt of.

use crate::remote::plan;
use crate::remote::plan::{AdoptionView, ReconcilePlan, ReconcilePlanView};
use crate::text;
use crate::text::{add_pair, copy_texts, holds_text, join, same_text};
use vstd::prelude::*;
use vstd::string::*;

verus! {

broadcast use vstd::string::group_string_axioms;

/// Several issues that name the same bead.
#[derive(Debug, Clone, PartialEq, Eq)]
pub struct AmbiguousStamp {
    pub bead_id: String,
    /// In the order of the fetch.
    pub remote_ids: Vec<String>,
}

/// What contracts say of a [`AmbiguousStamp`].
pub struct AmbiguousStampView {
    pub bead_id: Seq<char>,
    pub remote_ids: Seq<Seq<char>>,
}

impl View for AmbiguousStamp {
    type V = AmbiguousStampView;

    open spec fn view(&self) -> AmbiguousStampView {
        AmbiguousStampView {
            bead_id: self.bead_id@,
            remote_ids: text::views(self.remote_ids@),
        }
    }
}

/// What is said of several issues that name the same bead.
pub open spec fn ambiguity_text(a: AmbiguousStampView) -> Seq<char> {
    a.bead_id + " is claimed by "@ + text::joined(a.remote_ids, ", "@)
        + " — br cannot tell which issue belongs to it, so it created none of them and paired nothing. Clear the Beads ID field on all but one of them and re-run."@
}

impl AmbiguousStamp {
    /// One line with the bead, the issues that name it, and the remedy.
    pub fn render(&self) -> (r: String)
        ensures
            r@ == ambiguity_text(self@),
    {
        let list = join(&self.remote_ids, ", ");
        let mut out = self.bead_id.clone();
        out.append(" is claimed by ");
        out.append(list.as_str());
        out.append(
            " — br cannot tell which issue belongs to it, so it created none of them and paired nothing. Clear the Beads ID field on all but one of them and re-run.",
        );
        out
    }

    /// An equal stamp.
    pub fn copy(&self) -> (r: AmbiguousStamp)
        ensures
            r@ == self@,
    {
        AmbiguousStamp { bead_id: self.bead_id.clone(), remote_ids: copy_texts(&self.remote_ids) }
    }
}

/// Copies of stamps.
pub(crate) fn copy_stamps(list: &Vec<AmbiguousStamp>) -> (r: Vec<AmbiguousStamp>)
    ensures
        text::views(r@) == text::views(list@),
{
    let ghost all = text::views(list@);
    let mut out: Vec<AmbiguousStamp> = Vec::new();
    let mut i: usize = 0;
    assert(text::views(out@) =~= all.take(0));
    while i < list.len()
        invariant
            i <= list@.len(),
            all == text::views(list@),
            text::views(out@) == all.take(i as int),
        decreases list@.len() - i,
    {
        let one = list[i].copy();
        proof {
            text::views_push(out@, one);
            assert(all.take(i + 1) =~= all.take(i as int).push(one@));
        }
        out.push(one);
        i += 1;
    }
    assert(all.take(i as int) =~= all);
    out
}

/// Issues that an earlier run created and never learnt of.
#[derive(Debug, Clone, PartialEq, Eq)]
pub struct OrphanScan {
    /// Beads with the issues that they are to be paired with.
    pub recoverable: Vec<(String, String)>,
    /// Beads that several issues name.
    pub ambiguous: Vec<AmbiguousStamp>,
}

/// What contracts say of a [`OrphanScan`].
pub struct OrphanScanView {
    pub recoverable: Seq<(Seq<char>, Seq<char>)>,
    pub ambiguous: Seq<AmbiguousStampView>,
}

impl View for OrphanScan {
    type V = OrphanScanView;

    open spec fn view(&self) -> OrphanScanView {
        OrphanScanView {
            recoverable: text::pairs(self.recoverable@),
            ambiguous: text::views(self.ambiguous@),
        }
    }
}

impl Default for OrphanScan {
    fn default() -> (r: OrphanScan)
        ensures
            r.recoverable@.len() == 0,
            r.ambiguous@.len() == 0,
    {
        OrphanScan { recoverable: Vec::new(), ambiguous: Vec::new() }
    }
}

/// Several issues name the bead.
pub open spec fn in_dispute(scan: OrphanScanView, bead_id: Seq<char>) -> bool {
    exists|i: int| 0 <= i < scan.ambiguous.len() && (#[trigger] scan.ambiguous[i]).bead_id == bead_id
}

/// The issue is one of several that name the same bead.
pub open spec fn disputed(scan: OrphanScanView, remote_id: Seq<char>) -> bool {
    exists|i: int|
        0 <= i < scan.ambiguous.len() && (#[trigger] scan.ambiguous[i]).remote_ids.contains(
            remote_id,
        )
}

impl OrphanScan {
    /// Whether several issues name the bead.
    pub fn is_ambiguous(&self, bead_id: &str) -> (r: bool)
        ensures
            r == in_dispute(self@, bead_id@),
    {
        let ghost all = text::views(self.ambiguous@);
        let mut i: usize = 0;
        while i < self.ambiguous.len()
            invariant
                i <= self.ambiguous@.len(),
                all == text::views(self.ambiguous@),
                forall|k: int| 0 <= k < i ==> (#[trigger] all[k]).bead_id != bead_id@,
            decreases self.ambiguous@.len() - i,
        {
            assert(all[i as int] == self.ambiguous@[i as int]@);
            if same_text(self.ambiguous[i].bead_id.as_str(), bead_id) {
                assert(self@.ambiguous[i as int].bead_id == bead_id@);
                return true;
            }
            i += 1;
        }
        false
    }

    /// Whether the issue is one of several that name the same bead.
    pub fn claims(&self, remote_id: &str) -> (r: bool)
        ensures
            r == disputed(self@, remote_id@),
    {
        let ghost all = text::views(self.ambiguous@);
        let mut i: usize = 0;
        while i < self.ambiguous.len()
            invariant
                i <= self.ambiguous@.len(),
                all == text::views(self.ambiguous@),
                forall|k: int|
                    0 <= k < i ==> !(#[trigger] all[k]).remote_ids.contains(remote_id@),
            decreases self.ambiguous@.len() - i,
        {
            assert(all[i as int] == self.ambiguous@[i as int]@);
            if holds_text(&self.ambiguous[i].remote_ids, remote_id) {
                assert(self@.ambiguous[i as int].remote_ids.contains(remote_id@));
                return true;
            }
            i += 1;
        }
        false
    }
}

/// The bead that an issue names, where that bead is about to be created.
pub open spec fn stamp_of(creates: Seq<Seq<char>>, a: AdoptionView) -> Option<(Seq<char>, Seq<char>)> {
    match a.beads_id {
        Some(bead) if creates.contains(bead) => Some((bead, a.remote_id)),
        _ => None,
    }
}

/// The beads that are about to be created and that issues name, with these
/// issues.
pub open spec fn stamps(p: ReconcilePlanView) -> Seq<(Seq<char>, Seq<char>)> {
    text::picked(p.adoptions, |a: AdoptionView| stamp_of(p.creates, a))
}

/// The issues that name a bead.
pub open spec fn stamped_with(pairs: Seq<(Seq<char>, Seq<char>)>, bead: Seq<char>) -> Seq<Seq<char>> {
    text::picked(
        pairs,
        |p: (Seq<char>, Seq<char>)|
            if p.0 == bead {
                Some(p.1)
            } else {
                None
            },
    )
}

/// The beads that issues name, each where it is first named.
pub open spec fn stamped_beads(pairs: Seq<(Seq<char>, Seq<char>)>) -> Seq<Seq<char>>
    decreases pairs.len(),
{
    if pairs.len() == 0 {
        Seq::empty()
    } else {
        let front = stamped_beads(pairs.drop_last());
        if front.contains(pairs.last().0) {
            front
        } else {
            front.push(pairs.last().0)
        }
    }
}

/// A bead that exactly one issue names, with that issue.
pub open spec fn recovered_pair(pairs: Seq<(Seq<char>, Seq<char>)>, bead: Seq<char>) -> Option<
    (Seq<char>, Seq<char>),
> {
    if stamped_with(pairs, bead).len() == 1 {
        Some((bead, stamped_with(pairs, bead)[0]))
    } else {
        None
    }
}

/// A bead that several issues name, with these issues.
pub open spec fn ambiguous_stamp(pairs: Seq<(Seq<char>, Seq<char>)>, bead: Seq<char>) -> Option<
    AmbiguousStampView,
> {
    if stamped_with(pairs, bead).len() == 1 {
        None
    } else {
        Some(AmbiguousStampView { bead_id: bead, remote_ids: stamped_with(pairs, bead) })
    }
}

/// What is known of the issues that an earlier run created and never learnt
/// of.
pub open spec fn orphans_of(p: ReconcilePlanView) -> OrphanScanView {
    let pairs = stamps(p);
    OrphanScanView {
        recoverable: text::picked(
            stamped_beads(pairs),
            |b: Seq<char>| recovered_pair(pairs, b),
        ),
        ambiguous: text::picked(
            stamped_beads(pairs),
            |b: Seq<char>| ambiguous_stamp(pairs, b),
        ),
    }
}

fn read_stamps(plan: &ReconcilePlan) -> (r: Vec<(String, String)>)
    ensures
        text::pairs(r@) == stamps(plan@),
{
    let ghost all = text::views(plan.adoptions@);
    let ghost f = |a: AdoptionView| stamp_of(plan@.creates, a);
    let mut out: Vec<(String, String)> = Vec::new();
    let mut i: usize = 0;
    assert(text::pairs(out@) =~= text::picked(all.take(0), f));
    while i < plan.adoptions.len()
        invariant
            i <= plan.adoptions@.len(),
            all == text::views(plan.adoptions@),
            f == (|a: AdoptionView| stamp_of(plan@.creates, a)),
            text::pairs(out@) == text::picked(all.take(i as int), f),
        decreases plan.adoptions@.len() - i,
    {
        proof {
            text::picked_step(all, f, i as int);
            assert(all[i as int] == plan.adoptions@[i as int]@);
        }
        if let Some(bead) = &plan.adoptions[i].beads_id {
            if holds_text(&plan.creates, bead.as_str()) {
                add_pair(&mut out, bead.clone(), plan.adoptions[i].remote_id.clone());
            }
        }
        i += 1;
    }
    assert(all.take(i as int) =~= all);
    out
}

fn read_stamped_beads(pairs: &Vec<(String, String)>) -> (r: Vec<String>)
    ensures
        text::views(r@) == stamped_beads(text::pairs(pairs@)),
{
    let ghost all = text::pairs(pairs@);
    let mut out: Vec<String> = Vec::new();
    let mut i: usize = 0;
    assert(text::views(out@) =~= stamped_beads(all.take(0)));
    while i < pairs.len()
        invariant
            i <= pairs@.len(),
            all == text::pairs(pairs@),
            text::views(out@) == stamped_beads(all.take(i as int)),
        decreases pairs@.len() - i,
    {
        proof {
            assert(all.take(i + 1).drop_last() =~= all.take(i as int));
            assert(all.take(i + 1).last() == all[i as int]);
        }
        if !holds_text(&out, pairs[i].0.as_str()) {
            let one = pairs[i].0.clone();
            proof {
                text::views_push(out@, one);
            }
            out.push(one);
        }
        i += 1;
    }
    assert(all.take(i as int) =~= all);
    out
}

fn read_stamped_with(pairs: &Vec<(String, String)>, bead: &str) -> (r: Vec<String>)
    ensures
        text::views(r@) == stamped_with(text::pairs(pairs@), bead@),
{
    let ghost all = text::pairs(pairs@);
    let ghost f = |p: (Seq<char>, Seq<char>)|
        if p.0 == bead@ {
            Some(p.1)
        } else {
            None
        };
    let mut out: Vec<String> = Vec::new();
    let mut i: usize = 0;
    assert(text::views(out@) =~= text::picked(all.take(0), f));
    while i < pairs.len()
        invariant
            i <= pairs@.len(),
            all == text::pairs(pairs@),
            f == (|p: (Seq<char>, Seq<char>)|
                if p.0 == bead@ {
                    Some(p.1)
                } else {
                    None
                }),
            text::views(out@) == text::picked(all.take(i as int), f),
        decreases pairs@.len() - i,
    {
        proof {
            text::picked_step(all, f, i as int);
        }
        if same_text(pairs[i].0.as_str(), bead) {
            let one = pairs[i].1.clone();
            proof {
                text::views_push(out@, one);
            }
            out.push(one);
        }
        i += 1;
    }
    assert(all.take(i as int) =~= all);
    out
}

/// Finds the issues that an earlier run created and never learnt of: those
/// that no bead is paired with and that name a bead which is about to be
/// created. Where several name the same bead, none of them is taken.
pub fn orphaned_creates(plan: &ReconcilePlan) -> (r: OrphanScan)
    ensures
        r@ == orphans_of(plan@),
{
    let pairs = read_stamps(plan);
    let beads = read_stamped_beads(&pairs);
    let ghost table = text::pairs(pairs@);
    let ghost all = text::views(beads@);
    let ghost f = |b: Seq<char>| recovered_pair(table, b);
    let ghost g = |b: Seq<char>| ambiguous_stamp(table, b);
    let mut recoverable: Vec<(String, String)> = Vec::new();
    let mut ambiguous: Vec<AmbiguousStamp> = Vec::new();
    let mut i: usize = 0;
    assert(text::pairs(recoverable@) =~= text::picked(all.take(0), f));
    assert(text::views(ambiguous@) =~= text::picked(all.take(0), g));
    while i < beads.len()
        invariant
            i <= beads@.len(),
            all == text::views(beads@),
            table == text::pairs(pairs@),
            f == (|b: Seq<char>| recovered_pair(table, b)),
            g == (|b: Seq<char>| ambiguous_stamp(table, b)),
            text::pairs(recoverable@) == text::picked(all.take(i as int), f),
            text::views(ambiguous@) == text::picked(all.take(i as int), g),
        decreases beads@.len() - i,
    {
        proof {
            text::picked_step(all, f, i as int);
            text::picked_step(all, g, i as int);
        }
        let remote_ids = read_stamped_with(&pairs, beads[i].as_str());
        assert(text::views(remote_ids@).len() == remote_ids@.len());
        if remote_ids.len() == 1 {
            assert(text::views(remote_ids@)[0] == remote_ids@[0]@);
            add_pair(&mut recoverable, beads[i].clone(), remote_ids[0].clone());
        } else {
            let one = AmbiguousStamp { bead_id: beads[i].clone(), remote_ids };
            proof {
                text::views_push(ambiguous@, one);
            }
            ambiguous.push(one);
        }
        i += 1;
    }
    assert(all.take(i as int) =~= all);
    OrphanScan { recoverable, ambiguous }
}

proof fn named_beads(pairs: Seq<(Seq<char>, Seq<char>)>, bead: Seq<char>)
    ensures
        stamped_beads(pairs).contains(bead) <==> stamped_with(pairs, bead).len() > 0,
    decreases pairs.len(),
{
    if pairs.len() > 0 {
        let front = stamped_beads(pairs.drop_last());
        named_beads(pairs.drop_last(), bead);
        if !front.contains(pairs.last().0) {
            let all = front.push(pairs.last().0);
            assert(all[front.len() as int] == pairs.last().0);
            if front.contains(bead) {
                let k = choose|k: int| 0 <= k < front.len() && front[k] == bead;
                assert(all[k] == bead);
            }
            if all.contains(bead) && bead != pairs.last().0 {
                let k = choose|k: int| 0 <= k < all.len() && all[k] == bead;
                assert(front[k] == bead);
            }
        }
    }
}

proof fn recovered_under(
    pairs: Seq<(Seq<char>, Seq<char>)>,
    list: Seq<Seq<char>>,
    bead: Seq<char>,
)
    ensures
        text::last_under(text::picked(list, |b: Seq<char>| recovered_pair(pairs, b)), bead) == (
        match recovered_pair(pairs, bead) {
            Some(p) if list.contains(bead) => Some(p.1),
            _ => None,
        }),
    decreases list.len(),
{
    let f = |b: Seq<char>| recovered_pair(pairs, b);
    if list.len() > 0 {
        let front = list.drop_last();
        recovered_under(pairs, front, bead);
        if front.contains(bead) {
            let k = choose|k: int| 0 <= k < front.len() && front[k] == bead;
            assert(list[k] == bead);
        }
        if list.contains(bead) && list.last() != bead {
            let k = choose|k: int| 0 <= k < list.len() && list[k] == bead;
            assert(front[k] == bead);
        }
        if list.last() == bead {
            assert(list[list.len() - 1] == bead);
        }
        match f(list.last()) {
            Some(p) => {
                assert(text::picked(list, f) == text::picked(front, f).push(p));
                assert(text::picked(list, f).drop_last() =~= text::picked(front, f));
            },
            None => {},
        }
    }
}

/// A bead that exactly one issue names is paired with that issue; one that
/// several name is in dispute, and paired with none of them; of one that none
/// names, neither holds.
pub proof fn stamps_are_settled(p: ReconcilePlanView, bead: Seq<char>)
    ensures
        ({
            let scan = orphans_of(p);
            let named_by = stamped_with(stamps(p), bead);
            &&& text::last_under(scan.recoverable, bead) == (if named_by.len() == 1 {
                Some(named_by[0])
            } else {
                None
            })
            &&& in_dispute(scan, bead) <==> named_by.len() > 1
        }),
{
    let pairs = stamps(p);
    let list = stamped_beads(pairs);
    let scan = orphans_of(p);
    let f = |b: Seq<char>| ambiguous_stamp(pairs, b);
    named_beads(pairs, bead);
    recovered_under(pairs, list, bead);
    assert(scan.ambiguous == text::picked(list, f));
    if stamped_with(pairs, bead).len() > 1 {
        let i = choose|i: int| 0 <= i < list.len() && list[i] == bead;
        text::picked_holds(list, f, i);
        let stamp = f(list[i])->0;
        let k = choose|k: int| 0 <= k < scan.ambiguous.len() && scan.ambiguous[k] == stamp;
        assert(scan.ambiguous[k].bead_id == bead);
    }
    if in_dispute(scan, bead) {
        let k = choose|k: int|
            0 <= k < scan.ambiguous.len() && (#[trigger] scan.ambiguous[k]).bead_id == bead;
        text::picked_comes_from(list, f, k);
        let i = choose|i: int|
            0 <= i < list.len() && f(#[trigger] list[i]) == Some(scan.ambiguous[k]);
        assert(list[i] == bead);
        assert(list.contains(bead));
    }
}

/// The `i`-th unpaired issue names a bead that is about to be created.
pub open spec fn names_pending(p: ReconcilePlanView, i: int) -> bool {
    0 <= i < p.adoptions.len() && (p.adoptions[i].beads_id matches Some(bead)
        && p.creates.contains(bead))
}

/// Two unpaired issues name the same bead, which is about to be created.
pub open spec fn same_pending(p: ReconcilePlanView, i: int, j: int) -> bool {
    names_pending(p, i) && names_pending(p, j) && p.adoptions[i].beads_id
        == p.adoptions[j].beads_id
}

/// The issue is one of the unpaired ones, and names a bead that is about to
/// be created and that another of them names, too.
pub open spec fn rival_at(p: ReconcilePlanView, remote_id: Seq<char>, i: int, j: int) -> bool {
    i != j && same_pending(p, i, j) && p.adoptions[i].remote_id == remote_id
}

/// The issue that an unpaired one is, where it names the bead, which is about
/// to be created.
spec fn named_issue(creates: Seq<Seq<char>>, bead: Seq<char>, a: AdoptionView) -> Option<Seq<char>> {
    match stamp_of(creates, a) {
        Some(pair) if pair.0 == bead => Some(pair.1),
        _ => None,
    }
}

proof fn stamped_with_is_picked(
    creates: Seq<Seq<char>>,
    adoptions: Seq<AdoptionView>,
    bead: Seq<char>,
)
    ensures
        stamped_with(text::picked(adoptions, |a: AdoptionView| stamp_of(creates, a)), bead)
            == text::picked(adoptions, |a: AdoptionView| named_issue(creates, bead, a)),
    decreases adoptions.len(),
{
    let f = |a: AdoptionView| stamp_of(creates, a);
    if adoptions.len() > 0 {
        let front = adoptions.drop_last();
        stamped_with_is_picked(creates, front, bead);
        if let Some(pair) = stamp_of(creates, adoptions.last()) {
            assert(text::picked(adoptions, f) == text::picked(front, f).push(pair));
            assert(text::picked(adoptions, f).drop_last() =~= text::picked(front, f));
        }
    }
}

/// An issue is in dispute exactly where it names a bead that is about to be
/// created and that another unpaired issue names, too.
pub proof fn disputed_issues_share_a_bead(p: ReconcilePlanView, remote_id: Seq<char>)
    ensures
        disputed(orphans_of(p), remote_id) <==> exists|i: int, j: int|
            rival_at(p, remote_id, i, j),
{
    let pairs = stamps(p);
    let list = stamped_beads(pairs);
    let scan = orphans_of(p);
    let f = |b: Seq<char>| ambiguous_stamp(pairs, b);
    assert(scan.ambiguous == text::picked(list, f));
    if disputed(scan, remote_id) {
        let m = choose|m: int|
            0 <= m < scan.ambiguous.len() && (#[trigger] scan.ambiguous[m]).remote_ids.contains(
                remote_id,
            );
        text::picked_comes_from(list, f, m);
        let l = choose|l: int|
            0 <= l < list.len() && f(#[trigger] list[l]) == Some(scan.ambiguous[m]);
        let bead = list[l];
        let g = |a: AdoptionView| named_issue(p.creates, bead, a);
        stamped_with_is_picked(p.creates, p.adoptions, bead);
        let named = stamped_with(pairs, bead);
        let k = choose|k: int| 0 <= k < named.len() && named[k] == remote_id;
        text::picked_comes_from(p.adoptions, g, k);
        let i = choose|i: int|
            0 <= i < p.adoptions.len() && g(#[trigger] p.adoptions[i]) == Some(named[k]);
        assert(names_pending(p, i));
        if forall|j: int| j != i ==> !rival_at(p, remote_id, i, j) {
            assert forall|j: int| 0 <= j < p.adoptions.len() && j != i implies g(
                #[trigger] p.adoptions[j],
            ) is None by {
                assert(!rival_at(p, remote_id, i, j));
            }
            text::picked_single(p.adoptions, g, i);
            assert(false);
        }
    }
    if exists|i: int, j: int| rival_at(p, remote_id, i, j) {
        let (i, j) = choose|i: int, j: int| rival_at(p, remote_id, i, j);
        let bead = p.adoptions[i].beads_id->0;
        let g = |a: AdoptionView| named_issue(p.creates, bead, a);
        stamped_with_is_picked(p.creates, p.adoptions, bead);
        let named = stamped_with(pairs, bead);
        if i < j {
            text::picked_twice(p.adoptions, g, i, j);
        } else {
            text::picked_twice(p.adoptions, g, j, i);
        }
        text::picked_holds(p.adoptions, g, i);
        assert(named.contains(remote_id));
        named_beads(pairs, bead);
        let l = choose|l: int| 0 <= l < list.len() && list[l] == bead;
        text::picked_holds(list, f, l);
        let stamp = f(list[l])->0;
        let m = choose|m: int| 0 <= m < scan.ambiguous.len() && scan.ambiguous[m] == stamp;
        assert(scan.ambiguous[m].remote_ids.contains(remote_id));
    }
}

/// No two unpaired issues have the same identifier.
pub open spec fn distinct_issues(p: ReconcilePlanView) -> bool {
    forall|i: int, j: int|
        0 <= i < j < p.adoptions.len() ==> (#[trigger] p.adoptions[i]).remote_id != (
        #[trigger] p.adoptions[j]).remote_id
}

/// An issue that a bead is paired with is not in dispute.
pub proof fn recovered_issues_are_undisputed(p: ReconcilePlanView, k: int)
    requires
        distinct_issues(p),
        0 <= k < orphans_of(p).recoverable.len(),
    ensures
        !disputed(orphans_of(p), orphans_of(p).recoverable[k].1),
{
    let pairs = stamps(p);
    let list = stamped_beads(pairs);
    let scan = orphans_of(p);
    let f = |b: Seq<char>| recovered_pair(pairs, b);
    assert(scan.recoverable == text::picked(list, f));
    text::picked_comes_from(list, f, k);
    let l = choose|l: int|
        0 <= l < list.len() && f(#[trigger] list[l]) == Some(scan.recoverable[k]);
    let bead = list[l];
    let remote_id = scan.recoverable[k].1;
    let g = |a: AdoptionView| named_issue(p.creates, bead, a);
    stamped_with_is_picked(p.creates, p.adoptions, bead);
    let named = stamped_with(pairs, bead);
    assert(named[0] == remote_id);
    text::picked_comes_from(p.adoptions, g, 0);
    let at = choose|i: int|
        0 <= i < p.adoptions.len() && g(#[trigger] p.adoptions[i]) == Some(named[0]);
    disputed_issues_share_a_bead(p, remote_id);
    if disputed(scan, remote_id) {
        let (i, j) = choose|i: int, j: int| rival_at(p, remote_id, i, j);
        assert(i == at) by {
            assert(p.adoptions[i].remote_id == p.adoptions[at].remote_id);
        }
        assert(g(p.adoptions[j]) is Some);
        if i < j {
            text::picked_twice(p.adoptions, g, i, j);
        } else {
            text::picked_twice(p.adoptions, g, j, i);
        }
    }
}

} // verus!
