//! Pairing a workspace with a fetched mirror.
//!
//! Who belongs to whom stands on one side only: a bead's `external_ref` names
//! an issue of the mirror. Only references into the configured project count;
//! those of other trackers are nobody's business here.

use crate::model::{Issue, Status};
use crate::remote::config::{RemoteConfig, RemoteConfigView};
use crate::remote::model::{RemoteIssue, RemoteIssueView};
use crate::text;
use crate::text::{chars_of, same_text, starts_with};
use vstd::prelude::*;
use vstd::string::*;

verus! {

broadcast use vstd::string::group_string_axioms;

/// A bead with the issue that its reference names.
#[derive(Debug, Clone, PartialEq, Eq)]
pub struct PairedPair {
    pub bead_id: String,
    pub remote: RemoteIssue,
}

/// What contracts say of a [`PairedPair`].
pub struct PairedPairView {
    pub bead_id: Seq<char>,
    pub remote: RemoteIssueView,
}

impl View for PairedPair {
    type V = PairedPairView;

    open spec fn view(&self) -> PairedPairView {
        PairedPairView { bead_id: self.bead_id@, remote: self.remote@ }
    }
}

/// Who is who.
#[derive(Debug, Clone, PartialEq, Eq)]
pub struct Pairing {
    /// Beads whose reference names an issue that is there.
    pub paired: Vec<PairedPair>,
    /// Beads whose reference names an issue that is not there.
    pub dangling_local: Vec<String>,
    /// Issues that no bead names.
    pub unpaired_remote: Vec<RemoteIssue>,
    /// Beads without a reference that are not deleted.
    pub unpaired_local: Vec<String>,
    /// Beads whose reference belongs to another tracker.
    pub out_of_scope: Vec<String>,
}

/// What contracts say of a [`Pairing`].
pub struct PairingView {
    pub paired: Seq<PairedPairView>,
    pub dangling_local: Seq<Seq<char>>,
    pub unpaired_remote: Seq<RemoteIssueView>,
    pub unpaired_local: Seq<Seq<char>>,
    pub out_of_scope: Seq<Seq<char>>,
}

impl View for Pairing {
    type V = PairingView;

    open spec fn view(&self) -> PairingView {
        PairingView {
            paired: text::views(self.paired@),
            dangling_local: text::views(self.dangling_local@),
            unpaired_remote: text::views(self.unpaired_remote@),
            unpaired_local: text::views(self.unpaired_local@),
            out_of_scope: text::views(self.out_of_scope@),
        }
    }
}

impl Default for Pairing {
    /// Nobody is anybody.
    fn default() -> (r: Pairing)
        ensures
            r@ == (PairingView {
                paired: Seq::empty(),
                dangling_local: Seq::empty(),
                unpaired_remote: Seq::empty(),
                unpaired_local: Seq::empty(),
                out_of_scope: Seq::empty(),
            }),
    {
        let r = Pairing {
            paired: Vec::new(),
            dangling_local: Vec::new(),
            unpaired_remote: Vec::new(),
            unpaired_local: Vec::new(),
            out_of_scope: Vec::new(),
        };
        assert(r@.paired =~= Seq::empty());
        assert(r@.dangling_local =~= Seq::empty());
        assert(r@.unpaired_remote =~= Seq::empty());
        assert(r@.unpaired_local =~= Seq::empty());
        assert(r@.out_of_scope =~= Seq::empty());
        r
    }
}

/// The reference names an issue of the project: its prefix, then one or more
/// digits.
pub open spec fn in_scope(cfg: RemoteConfigView, reference: Seq<char>) -> bool {
    let prefix = cfg.project + "-"@;
    &&& prefix.is_prefix_of(reference)
    &&& reference.len() > prefix.len()
    &&& forall|i: int|
        prefix.len() <= i < reference.len() ==> text::is_digit(#[trigger] reference[i])
}

/// Whether a reference names an issue of the configured project.
pub fn is_in_scope(cfg: &RemoteConfig, external_ref: &str) -> (r: bool)
    ensures
        r == in_scope(cfg@, external_ref@),
{
    let prefix = cfg.issue_prefix();
    if !starts_with(external_ref, prefix.as_str()) {
        return false;
    }
    let chars = chars_of(external_ref);
    let mut i: usize = prefix.as_str().unicode_len();
    if i == chars.len() {
        return false;
    }
    while i < chars.len()
        invariant
            prefix@ == cfg@.project + "-"@,
            prefix@.len() <= i <= chars@.len(),
            chars@ == external_ref@,
            forall|j: int| prefix@.len() <= j < i ==> text::is_digit(#[trigger] external_ref@[j]),
        decreases chars@.len() - i,
    {
        if chars[i] < '0' || chars[i] > '9' {
            assert(!text::is_digit(external_ref@[i as int]));
            return false;
        }
        i += 1;
    }
    true
}

/// The place of the last issue called `id`.
pub open spec fn last_called(remote: Seq<RemoteIssueView>, id: Seq<char>) -> Option<int>
    decreases remote.len(),
{
    if remote.len() == 0 {
        None
    } else if remote.last().id_readable == id {
        Some(remote.len() - 1)
    } else {
        last_called(remote.drop_last(), id)
    }
}

/// How far the pairing has come: issues that are taken are known by their
/// places.
pub struct Claims {
    pub paired: Seq<(Seq<char>, int)>,
    pub dangling_local: Seq<Seq<char>>,
    pub unpaired_local: Seq<Seq<char>>,
    pub out_of_scope: Seq<Seq<char>>,
}

/// Some bead has the issue at this place.
pub open spec fn taken(paired: Seq<(Seq<char>, int)>, place: int) -> bool {
    exists|k: int| 0 <= k < paired.len() && (#[trigger] paired[k]).1 == place
}

/// The place of the issue that a reference names, where no bead has it yet.
pub open spec fn claimed_by(
    remote: Seq<RemoteIssueView>,
    paired: Seq<(Seq<char>, int)>,
    reference: Seq<char>,
) -> Option<int> {
    match last_called(remote, reference) {
        Some(place) if !taken(paired, place) => Some(place),
        _ => None,
    }
}

/// What one bead adds to the pairing.
pub open spec fn claim(
    cfg: RemoteConfigView,
    remote: Seq<RemoteIssueView>,
    so_far: Claims,
    bead: Issue,
) -> Claims {
    match text::seen(bead.external_ref) {
        Some(reference) => if !in_scope(cfg, reference) {
            Claims { out_of_scope: so_far.out_of_scope.push(bead.id@), ..so_far }
        } else {
            match claimed_by(remote, so_far.paired, reference) {
                Some(place) => Claims { paired: so_far.paired.push((bead.id@, place)), ..so_far },
                None => Claims {
                    dangling_local: so_far.dangling_local.push(bead.id@),
                    ..so_far
                },
            }
        },
        None => if bead.status@ is Tombstone {
            so_far
        } else {
            Claims { unpaired_local: so_far.unpaired_local.push(bead.id@), ..so_far }
        },
    }
}

/// The claims of the beads, one after the other.
pub open spec fn claims(
    cfg: RemoteConfigView,
    beads: Seq<Issue>,
    remote: Seq<RemoteIssueView>,
) -> Claims
    decreases beads.len(),
{
    if beads.len() == 0 {
        Claims {
            paired: Seq::empty(),
            dangling_local: Seq::empty(),
            unpaired_local: Seq::empty(),
            out_of_scope: Seq::empty(),
        }
    } else {
        claim(cfg, remote, claims(cfg, beads.drop_last(), remote), beads.last())
    }
}

/// The first `n` issues without those that are taken.
pub open spec fn leftover(
    remote: Seq<RemoteIssueView>,
    paired: Seq<(Seq<char>, int)>,
    n: nat,
) -> Seq<RemoteIssueView>
    decreases n,
{
    if n == 0 {
        Seq::empty()
    } else {
        let front = leftover(remote, paired, (n - 1) as nat);
        if taken(paired, n - 1) {
            front
        } else {
            front.push(remote[n - 1])
        }
    }
}

/// The pairs, with the issues themselves in place of their places.
pub open spec fn pairs_of(paired: Seq<(Seq<char>, int)>, remote: Seq<RemoteIssueView>) -> Seq<
    PairedPairView,
> {
    paired.map_values(
        |p: (Seq<char>, int)| PairedPairView { bead_id: p.0, remote: remote[p.1] },
    )
}

/// The whole pairing.
pub open spec fn pairing_of(
    cfg: RemoteConfigView,
    beads: Seq<Issue>,
    remote: Seq<RemoteIssueView>,
) -> PairingView {
    let c = claims(cfg, beads, remote);
    PairingView {
        paired: pairs_of(c.paired, remote),
        dangling_local: c.dangling_local,
        unpaired_remote: leftover(remote, c.paired, remote.len()),
        unpaired_local: c.unpaired_local,
        out_of_scope: c.out_of_scope,
    }
}

proof fn last_called_in_range(remote: Seq<RemoteIssueView>, id: Seq<char>)
    ensures
        last_called(remote, id) matches Some(p) ==> 0 <= p < remote.len()
            && remote[p].id_readable == id,
    decreases remote.len(),
{
    if remote.len() > 0 && remote.last().id_readable != id {
        last_called_in_range(remote.drop_last(), id);
    }
}

/// The slot at each place holds the issue of that place, or nothing where it
/// is taken.
spec fn slots_hold(
    slots: Seq<Option<RemoteIssue>>,
    remote: Seq<RemoteIssueView>,
    paired: Seq<(Seq<char>, int)>,
) -> bool {
    &&& slots.len() == remote.len()
    &&& forall|p: int|
        #![trigger slots[p]]
        0 <= p < slots.len() ==> text::seen(slots[p]) == (if taken(paired, p) {
            None
        } else {
            Some(remote[p])
        })
}

fn find_slot(ids: &Vec<String>, reference: &str, Ghost(remote): Ghost<Seq<RemoteIssueView>>) -> (r: Option<usize>)
    requires
        ids@.len() == remote.len(),
        forall|i: int| 0 <= i < ids@.len() ==> (#[trigger] ids@[i])@ == remote[i].id_readable,
    ensures
        (match r {
            Some(p) => Some(p as int),
            None => None,
        }) == last_called(remote, reference@),
{
    let mut i: usize = ids.len();
    assert(remote.take(i as int) =~= remote);
    while i > 0
        invariant
            i <= ids@.len(),
            ids@.len() == remote.len(),
            forall|k: int| 0 <= k < ids@.len() ==> (#[trigger] ids@[k])@ == remote[k].id_readable,
            last_called(remote, reference@) == last_called(remote.take(i as int), reference@),
        decreases i,
    {
        assert(remote.take(i as int).drop_last() =~= remote.take(i - 1));
        if same_text(ids[i - 1].as_str(), reference) {
            return Some(i - 1);
        }
        i -= 1;
    }
    None
}

proof fn taken_grows(paired: Seq<(Seq<char>, int)>, one: (Seq<char>, int), p: int)
    ensures
        taken(paired.push(one), p) == (taken(paired, p) || one.1 == p),
{
    let more = paired.push(one);
    if taken(paired, p) {
        let k = choose|k: int| 0 <= k < paired.len() && (#[trigger] paired[k]).1 == p;
        assert(more[k].1 == p);
    }
    if one.1 == p {
        assert(more[paired.len() as int].1 == p);
    }
    if taken(more, p) {
        let k = choose|k: int| 0 <= k < more.len() && (#[trigger] more[k]).1 == p;
        if k < paired.len() {
            assert(paired[k].1 == p);
        }
    }
}

/// Pairs the beads with the fetched issues. The first bead that names an
/// issue has it; issues that are left over keep the order of the fetch.
pub fn pair_workspace(cfg: &RemoteConfig, beads: &Vec<Issue>, remote: Vec<RemoteIssue>) -> (r: Pairing)
    ensures
        r@ == pairing_of(cfg@, beads@, text::views(remote@)),
{
    let ghost all = text::views(remote@);
    let mut ids: Vec<String> = Vec::new();
    let mut i: usize = 0;
    while i < remote.len()
        invariant
            i <= remote@.len(),
            ids@.len() == i,
            all == text::views(remote@),
            forall|k: int| 0 <= k < i ==> (#[trigger] ids@[k])@ == all[k].id_readable,
        decreases remote@.len() - i,
    {
        ids.push(remote[i].id_readable.clone());
        i += 1;
    }
    let mut slots: Vec<Option<RemoteIssue>> = Vec::new();
    let ghost nobody = Seq::<(Seq<char>, int)>::empty();
    for issue in it: remote
        invariant
            it.seq() == remote@,
            all == text::views(remote@),
            slots@.len() == it.index(),
            forall|k: int| 0 <= k < slots@.len() ==> #[trigger] slots@[k] == Some(remote@[k]),
    {
        slots.push(Some(issue));
    }
    assert(slots_hold(slots@, all, nobody)) by {
        assert forall|p: int|
            #![trigger slots@[p]]
            0 <= p < slots@.len() implies text::seen(slots@[p]) == (if taken(nobody, p) {
            None
        } else {
            Some(all[p])
        }) by {
            assert(slots@[p] == Some(remote@[p]));
            assert(all[p] == remote@[p]@);
        }
    }

    let mut pairing = Pairing {
        paired: Vec::new(),
        dangling_local: Vec::new(),
        unpaired_remote: Vec::new(),
        unpaired_local: Vec::new(),
        out_of_scope: Vec::new(),
    };
    let mut b: usize = 0;
    proof {
        let c = claims(cfg@, beads@.take(0), all);
        assert(text::views(pairing.paired@) =~= pairs_of(c.paired, all));
        assert(text::views(pairing.dangling_local@) =~= c.dangling_local);
        assert(text::views(pairing.unpaired_local@) =~= c.unpaired_local);
        assert(text::views(pairing.out_of_scope@) =~= c.out_of_scope);
        assert(c.paired =~= nobody);
    }
    while b < beads.len()
        invariant
            b <= beads@.len(),
            ids@.len() == all.len(),
            forall|k: int| 0 <= k < ids@.len() ==> (#[trigger] ids@[k])@ == all[k].id_readable,
            slots_hold(slots@, all, claims(cfg@, beads@.take(b as int), all).paired),
            text::views(pairing.paired@) == pairs_of(
                claims(cfg@, beads@.take(b as int), all).paired,
                all,
            ),
            text::views(pairing.dangling_local@) == claims(
                cfg@,
                beads@.take(b as int),
                all,
            ).dangling_local,
            text::views(pairing.unpaired_local@) == claims(
                cfg@,
                beads@.take(b as int),
                all,
            ).unpaired_local,
            text::views(pairing.out_of_scope@) == claims(
                cfg@,
                beads@.take(b as int),
                all,
            ).out_of_scope,
            pairing.unpaired_remote@.len() == 0,
        decreases beads@.len() - b,
    {
        let bead = &beads[b];
        let ghost before = claims(cfg@, beads@.take(b as int), all);
        let ghost after = claims(cfg@, beads@.take(b + 1), all);
        assert(beads@.take(b + 1).drop_last() =~= beads@.take(b as int));
        assert(after == claim(cfg@, all, before, *bead));
        match &bead.external_ref {
            Some(reference) => {
                if !is_in_scope(cfg, reference.as_str()) {
                    proof {
                        text::views_push(pairing.out_of_scope@, bead.id);
                    }
                    pairing.out_of_scope.push(bead.id.clone());
                } else {
                    let found = match find_slot(&ids, reference.as_str(), Ghost(all)) {
                        Some(p) => {
                            proof {
                                last_called_in_range(all, reference@);
                            }
                            let ghost held = slots@[p as int];
                            let slot = slots[p].take();
                            proof {
                                assert(slot == held);
                            }
                            match slot {
                                Some(issue) => {
                                    proof {
                                        let now = before.paired.push((bead.id@, p as int));
                                        assert(after.paired == now);
                                        assert forall|q: int|
                                            #![trigger slots@[q]]
                                            0 <= q < slots@.len() implies text::seen(slots@[q])
                                            == (if taken(now, q) {
                                            None
                                        } else {
                                            Some(all[q])
                                        }) by {
                                            taken_grows(before.paired, (bead.id@, p as int), q);
                                        }
                                    }
                                    Some(issue)
                                },
                                None => {
                                    proof {
                                        assert forall|q: int|
                                            #![trigger slots@[q]]
                                            0 <= q < slots@.len() implies text::seen(slots@[q])
                                            == (if taken(before.paired, q) {
                                            None
                                        } else {
                                            Some(all[q])
                                        }) by {}
                                    }
                                    None
                                },
                            }
                        },
                        None => None,
                    };
                    match found {
                        Some(issue) => {
                            let one = PairedPair { bead_id: bead.id.clone(), remote: issue };
                            proof {
                                text::views_push(pairing.paired@, one);
                            }
                            pairing.paired.push(one);
                            assert(text::views(pairing.paired@) =~= pairs_of(after.paired, all));
                        },
                        None => {
                            proof {
                                text::views_push(pairing.dangling_local@, bead.id);
                            }
                            pairing.dangling_local.push(bead.id.clone());
                        },
                    }
                }
            },
            None => {
                if !matches!(bead.status, Status::Tombstone) {
                    proof {
                        text::views_push(pairing.unpaired_local@, bead.id);
                    }
                    pairing.unpaired_local.push(bead.id.clone());
                }
            },
        }
        b += 1;
    }
    assert(beads@.take(b as int) =~= beads@);
    let ghost paired = claims(cfg@, beads@, all).paired;
    let mut rest: Vec<RemoteIssue> = Vec::new();
    assert(text::views(rest@) =~= Seq::empty());
    for slot in it: slots
        invariant
            it.seq() == slots@,
            slots_hold(slots@, all, paired),
            text::views(rest@) == leftover(all, paired, it.index() as nat),
    {
        assert(slot == slots@[it.index()]);
        if let Some(issue) = slot {
            proof {
                text::views_push(rest@, issue);
            }
            rest.push(issue);
        }
    }
    pairing.unpaired_remote = rest;
    pairing
}

// ---------------------------------------------------------------------------
// What holds of every pairing
// ---------------------------------------------------------------------------

proof fn leftover_shrinks(
    remote: Seq<RemoteIssueView>,
    paired: Seq<(Seq<char>, int)>,
    one: (Seq<char>, int),
    n: nat,
)
    requires
        !taken(paired, one.1),
        0 <= one.1,
    ensures
        leftover(remote, paired.push(one), n).len() + (if one.1 < n {
            1int
        } else {
            0
        }) == leftover(remote, paired, n).len(),
    decreases n,
{
    if n > 0 {
        leftover_shrinks(remote, paired, one, (n - 1) as nat);
        taken_grows(paired, one, n - 1);
    }
}

proof fn leftover_of_nobody(remote: Seq<RemoteIssueView>, n: nat)
    requires
        n <= remote.len(),
    ensures
        leftover(remote, Seq::empty(), n) == remote.take(n as int),
    decreases n,
{
    if n > 0 {
        leftover_of_nobody(remote, (n - 1) as nat);
        assert(remote.take(n as int) =~= remote.take(n - 1).push(remote[n - 1]));
    } else {
        assert(remote.take(0) =~= Seq::empty());
    }
}

/// Every issue of the mirror is either paired or left over, and none is
/// paired with two beads.
pub proof fn every_issue_is_placed_once(
    cfg: RemoteConfigView,
    beads: Seq<Issue>,
    remote: Seq<RemoteIssueView>,
)
    ensures
        pairing_of(cfg, beads, remote).paired.len() + pairing_of(
            cfg,
            beads,
            remote,
        ).unpaired_remote.len() == remote.len(),
        forall|i: int, j: int|
            0 <= i < j < claims(cfg, beads, remote).paired.len() ==> (#[trigger] claims(
                cfg,
                beads,
                remote,
            ).paired[i]).1 != (#[trigger] claims(cfg, beads, remote).paired[j]).1,
    decreases beads.len(),
{
    let c = claims(cfg, beads, remote);
    if beads.len() == 0 {
        assert(c.paired =~= Seq::empty());
        leftover_of_nobody(remote, remote.len());
    } else {
        let front = claims(cfg, beads.drop_last(), remote);
        every_issue_is_placed_once(cfg, beads.drop_last(), remote);
        if c.paired != front.paired {
            let reference = text::seen(beads.last().external_ref)->0;
            let place = claimed_by(remote, front.paired, reference)->0;
            last_called_in_range(remote, reference);
            leftover_shrinks(remote, front.paired, (beads.last().id@, place), remote.len());
            assert forall|i: int, j: int| 0 <= i < j < c.paired.len() implies (
            #[trigger] c.paired[i]).1 != (#[trigger] c.paired[j]).1 by {
                if j == front.paired.len() {
                    assert(front.paired[i] == c.paired[i]);
                } else {
                    assert(front.paired[i].1 != front.paired[j].1);
                }
            }
        }
    }
}

/// The deleted beads that never had an issue: the pairing has no place for
/// them.
pub open spec fn never_mirrored(beads: Seq<Issue>) -> Seq<Seq<char>> {
    text::picked(
        beads,
        |b: Issue|
            if b.external_ref is None && b.status@ is Tombstone {
                Some(b.id@)
            } else {
                None
            },
    )
}

/// Every bead lands in exactly one list, but for deleted ones that never had
/// an issue.
pub proof fn every_bead_is_placed_once(
    cfg: RemoteConfigView,
    beads: Seq<Issue>,
    remote: Seq<RemoteIssueView>,
)
    ensures
        ({
            let p = pairing_of(cfg, beads, remote);
            p.paired.len() + p.dangling_local.len() + p.unpaired_local.len()
                + p.out_of_scope.len() + never_mirrored(beads).len() == beads.len()
        }),
    decreases beads.len(),
{
    if beads.len() > 0 {
        every_bead_is_placed_once(cfg, beads.drop_last(), remote);
    }
}

/// A pair holds a bead of the workspace and the issue that its reference, one
/// into the configured project, names.
pub proof fn pairs_follow_references(
    cfg: RemoteConfigView,
    beads: Seq<Issue>,
    remote: Seq<RemoteIssueView>,
    k: int,
)
    requires
        0 <= k < pairing_of(cfg, beads, remote).paired.len(),
    ensures
        ({
            let pair = pairing_of(cfg, beads, remote).paired[k];
            &&& remote.contains(pair.remote)
            &&& in_scope(cfg, pair.remote.id_readable)
            &&& exists|i: int|
                0 <= i < beads.len() && (#[trigger] beads[i]).id@ == pair.bead_id && text::seen(
                    beads[i].external_ref,
                ) == Some(pair.remote.id_readable)
        }),
    decreases beads.len(),
{
    let c = claims(cfg, beads, remote);
    let pair = pairing_of(cfg, beads, remote).paired[k];
    if beads.len() > 0 {
        let front = claims(cfg, beads.drop_last(), remote);
        if k < front.paired.len() {
            pairs_follow_references(cfg, beads.drop_last(), remote, k);
            assert(front.paired[k] == c.paired[k]);
            let earlier = beads.drop_last();
            let i = choose|i: int|
                0 <= i < earlier.len() && (#[trigger] earlier[i]).id@ == pair.bead_id && text::seen(
                    earlier[i].external_ref,
                ) == Some(pair.remote.id_readable);
            assert(beads[i] == earlier[i]);
        } else {
            let reference = text::seen(beads.last().external_ref)->0;
            last_called_in_range(remote, reference);
            assert(remote[c.paired[k].1] == pair.remote);
            assert(beads[beads.len() - 1].id@ == pair.bead_id);
        }
    }
}

/// An issue that a bead names by a reference into the project is paired with
/// some bead, and so is never offered for adoption.
pub proof fn named_issue_is_taken(
    cfg: RemoteConfigView,
    beads: Seq<Issue>,
    remote: Seq<RemoteIssueView>,
    i: int,
)
    requires
        0 <= i < beads.len(),
        text::seen(beads[i].external_ref) matches Some(reference) && in_scope(cfg, reference)
            && last_called(remote, reference) is Some,
    ensures
        taken(
            claims(cfg, beads, remote).paired,
            last_called(remote, text::seen(beads[i].external_ref)->0)->0,
        ),
    decreases beads.len(),
{
    let reference = text::seen(beads[i].external_ref)->0;
    let place = last_called(remote, reference)->0;
    let front = claims(cfg, beads.drop_last(), remote);
    let all = claims(cfg, beads, remote);
    if i < beads.len() - 1 {
        named_issue_is_taken(cfg, beads.drop_last(), remote, i);
        if all.paired != front.paired {
            taken_grows(front.paired, all.paired.last(), place);
            assert(all.paired.drop_last() =~= front.paired);
            assert(front.paired.push(all.paired.last()) =~= all.paired);
        }
    } else {
        if !taken(front.paired, place) {
            taken_grows(front.paired, (beads.last().id@, place), place);
        }
    }
}

/// The reference is one into the configured project: its name, a hyphen, and a
/// number.
pub open spec fn refers_into(project: Seq<char>, reference: Seq<char>) -> bool {
    exists|number: Seq<char>| #[trigger]
        is_number(number) && reference == project + "-"@ + number
}

/// The text is a decimal number.
pub open spec fn is_number(number: Seq<char>) -> bool {
    number.len() > 0 && forall|k: int|
        0 <= k < number.len() ==> '0' <= #[trigger] number[k] && number[k] <= '9'
}

/// What is in scope is exactly a reference into the configured project.
pub proof fn scope_is_the_project(cfg: RemoteConfigView, reference: Seq<char>)
    ensures
        in_scope(cfg, reference) <==> refers_into(cfg.project, reference),
{
    let prefix = cfg.project + "-"@;
    if in_scope(cfg, reference) {
        let number = reference.skip(prefix.len() as int);
        assert(reference =~= prefix + number);
        assert forall|k: int| 0 <= k < number.len() implies '0' <= #[trigger] number[k] && number[k]
            <= '9' by {
            assert(text::is_digit(reference[prefix.len() + k]));
        }
        assert(is_number(number));
    }
    if refers_into(cfg.project, reference) {
        let number = choose|number: Seq<char>| #[trigger]
            is_number(number) && reference == cfg.project + "-"@ + number;
        assert(reference =~= prefix + number);
        assert(prefix.is_prefix_of(reference));
        assert forall|i: int| prefix.len() <= i < reference.len() implies text::is_digit(
            #[trigger] reference[i],
        ) by {
            assert(reference[i] == number[i - prefix.len()]);
        }
    }
}

/// Where a bead belongs in a pairing.
pub enum Lot {
    /// It was deleted before it ever had an issue.
    Nowhere,
    /// It has no reference and needs an issue.
    Create,
    /// Its reference belongs to another tracker.
    Elsewhere,
    /// It has the issue at this place.
    Pair(int),
    /// The issue of its reference is not there, or another bead has it.
    Gone,
}

/// Where the `i`-th bead belongs. Of several issues of one identifier the last
/// one counts, and of several beads of one reference the first.
pub open spec fn lot_of(
    cfg: RemoteConfigView,
    beads: Seq<Issue>,
    remote: Seq<RemoteIssueView>,
    i: int,
    lot: Lot,
) -> bool {
    match (beads[i].external_ref, lot) {
        (None, Lot::Nowhere) => beads[i].status@ is Tombstone,
        (None, Lot::Create) => !(beads[i].status@ is Tombstone),
        (Some(r), Lot::Elsewhere) => !refers_into(cfg.project, r@),
        (Some(r), Lot::Pair(at)) => refers_into(cfg.project, r@) && is_last_of(remote, r@, at)
            && !named_before(beads, i),
        (Some(r), Lot::Gone) => refers_into(cfg.project, r@) && ((forall|at: int|
            0 <= at < remote.len() ==> (#[trigger] remote[at]).id_readable != r@) || named_before(
            beads,
            i,
        )),
        _ => false,
    }
}

/// The last issue of the identifier stands at this place.
pub open spec fn is_last_of(remote: Seq<RemoteIssueView>, id: Seq<char>, at: int) -> bool {
    &&& 0 <= at < remote.len()
    &&& remote[at].id_readable == id
    &&& forall|j: int| at < j < remote.len() ==> (#[trigger] remote[j]).id_readable != id
}

/// An earlier bead has the same reference.
pub open spec fn named_before(beads: Seq<Issue>, i: int) -> bool {
    exists|b: int|
        0 <= b < i && text::seen((#[trigger] beads[b]).external_ref) == text::seen(
            beads[i].external_ref,
        )
}

proof fn last_called_is_last(remote: Seq<RemoteIssueView>, id: Seq<char>)
    ensures
        last_called(remote, id) matches Some(p) ==> is_last_of(remote, id, p),
        last_called(remote, id) is None ==> forall|at: int|
            0 <= at < remote.len() ==> (#[trigger] remote[at]).id_readable != id,
    decreases remote.len(),
{
    if remote.len() > 0 && remote.last().id_readable != id {
        let front = remote.drop_last();
        last_called_is_last(front, id);
        if let Some(p) = last_called(front, id) {
            assert(front[p] == remote[p]);
            assert forall|j: int| p < j < remote.len() implies (#[trigger] remote[j]).id_readable
                != id by {
                if j < front.len() {
                    assert(front[j] == remote[j]);
                }
            }
        } else {
            assert forall|at: int| 0 <= at < remote.len() implies (
            #[trigger] remote[at]).id_readable != id by {
                if at < front.len() {
                    assert(front[at] == remote[at]);
                }
            }
        }
    }
}

proof fn lots_stay(
    cfg: RemoteConfigView,
    beads: Seq<Issue>,
    remote: Seq<RemoteIssueView>,
    i: int,
    lot: Lot,
)
    requires
        0 <= i < beads.len() - 1,
    ensures
        lot_of(cfg, beads, remote, i, lot) == lot_of(cfg, beads.drop_last(), remote, i, lot),
{
    let front = beads.drop_last();
    assert(front[i] == beads[i]);
    assert(named_before(front, i) == named_before(beads, i)) by {
        if named_before(front, i) {
            let b = choose|b: int|
                0 <= b < i && text::seen((#[trigger] front[b]).external_ref) == text::seen(
                    front[i].external_ref,
                );
            assert(beads[b] == front[b]);
        }
        if named_before(beads, i) {
            let b = choose|b: int|
                0 <= b < i && text::seen((#[trigger] beads[b]).external_ref) == text::seen(
                    beads[i].external_ref,
                );
            assert(front[b] == beads[b]);
        }
    }
}

/// The last bead is claimed as its lot says.
proof fn last_lot(cfg: RemoteConfigView, beads: Seq<Issue>, remote: Seq<RemoteIssueView>)
    requires
        beads.len() > 0,
        text::seen(beads.last().external_ref) matches Some(r) && in_scope(cfg, r),
    ensures
        ({
            let r = text::seen(beads.last().external_ref)->0;
            let front = claims(cfg, beads.drop_last(), remote);
            match claimed_by(remote, front.paired, r) {
                Some(at) => lot_of(cfg, beads, remote, beads.len() - 1, Lot::Pair(at)),
                None => lot_of(cfg, beads, remote, beads.len() - 1, Lot::Gone),
            }
        }),
{
    let n = beads.len() - 1;
    let rest = beads.drop_last();
    let r = text::seen(beads.last().external_ref)->0;
    let front = claims(cfg, rest, remote);
    scope_is_the_project(cfg, r);
    last_called_is_last(remote, r);
    if let Some(at) = last_called(remote, r) {
        if named_before(beads, n) {
            let b = choose|b: int|
                0 <= b < n && text::seen((#[trigger] beads[b]).external_ref) == text::seen(
                    beads[n].external_ref,
                );
            assert(rest[b] == beads[b]);
            named_issue_is_taken(cfg, rest, remote, b);
        } else if taken(front.paired, at) {
            let k = choose|k: int| 0 <= k < front.paired.len() && (#[trigger] front.paired[k]).1
                == at;
            pairs_follow_references(cfg, rest, remote, k);
            let pair = pairing_of(cfg, rest, remote).paired[k];
            assert(pair.remote == remote[at]);
            let b = choose|b: int|
                0 <= b < rest.len() && (#[trigger] rest[b]).id@ == pair.bead_id && text::seen(
                    rest[b].external_ref,
                ) == Some(pair.remote.id_readable);
            assert(beads[b] == rest[b]);
            assert(named_before(beads, n));
        }
    }
}

/// Every bead lands where its reference says: one without a reference among
/// those to create, unless it is deleted; one of another tracker among those
/// out of scope; the first of a reference into the project with the issue that
/// it names; and every other one among those whose issue is gone.
pub proof fn each_bead_lands_where_its_reference_says(
    cfg: RemoteConfigView,
    beads: Seq<Issue>,
    remote: Seq<RemoteIssueView>,
    i: int,
)
    requires
        0 <= i < beads.len(),
    ensures
        ({
            let p = pairing_of(cfg, beads, remote);
            let id = beads[i].id@;
            &&& lot_of(cfg, beads, remote, i, Lot::Create) ==> p.unpaired_local.contains(id)
            &&& lot_of(cfg, beads, remote, i, Lot::Elsewhere) ==> p.out_of_scope.contains(id)
            &&& lot_of(cfg, beads, remote, i, Lot::Gone) ==> p.dangling_local.contains(id)
            &&& forall|at: int| #[trigger]
                lot_of(cfg, beads, remote, i, Lot::Pair(at)) ==> p.paired.contains(
                    PairedPairView { bead_id: id, remote: remote[at] },
                )
        }),
{
    lands(cfg, beads, remote, i);
    let c = claims(cfg, beads, remote);
    let p = pairing_of(cfg, beads, remote);
    assert forall|at: int| #[trigger] lot_of(cfg, beads, remote, i, Lot::Pair(at)) implies
        p.paired.contains(PairedPairView { bead_id: beads[i].id@, remote: remote[at] }) by {
        let k = choose|k: int| 0 <= k < c.paired.len() && c.paired[k] == (beads[i].id@, at);
        assert(p.paired[k] == (PairedPairView { bead_id: beads[i].id@, remote: remote[at] }));
    }
}

proof fn push_keeps<A>(s: Seq<A>, x: A, y: A)
    requires
        s.contains(x) || x == y,
    ensures
        s.push(y).contains(x),
{
    if s.contains(x) {
        let k = choose|k: int| 0 <= k < s.len() && s[k] == x;
        assert(s.push(y)[k] == x);
    } else {
        assert(s.push(y)[s.len() as int] == x);
    }
}

proof fn lands(
    cfg: RemoteConfigView,
    beads: Seq<Issue>,
    remote: Seq<RemoteIssueView>,
    i: int,
)
    requires
        0 <= i < beads.len(),
    ensures
        ({
            let c = claims(cfg, beads, remote);
            let id = beads[i].id@;
            &&& lot_of(cfg, beads, remote, i, Lot::Create) ==> c.unpaired_local.contains(id)
            &&& lot_of(cfg, beads, remote, i, Lot::Elsewhere) ==> c.out_of_scope.contains(id)
            &&& lot_of(cfg, beads, remote, i, Lot::Gone) ==> c.dangling_local.contains(id)
            &&& forall|at: int| #[trigger]
                lot_of(cfg, beads, remote, i, Lot::Pair(at)) ==> c.paired.contains((id, at))
        }),
    decreases beads.len(),
{
    let n = beads.len() - 1;
    let rest = beads.drop_last();
    let before = claims(cfg, rest, remote);
    let c = claims(cfg, beads, remote);
    let id = beads[i].id@;
    let last = beads.last().id@;
    if i < n {
        lands(cfg, rest, remote, i);
        assert(rest[i] == beads[i]);
        lots_stay(cfg, beads, remote, i, Lot::Create);
        lots_stay(cfg, beads, remote, i, Lot::Elsewhere);
        lots_stay(cfg, beads, remote, i, Lot::Gone);
        if before.unpaired_local.contains(id) {
            push_keeps(before.unpaired_local, id, last);
        }
        if before.out_of_scope.contains(id) {
            push_keeps(before.out_of_scope, id, last);
        }
        if before.dangling_local.contains(id) {
            push_keeps(before.dangling_local, id, last);
        }
        assert forall|at: int| #[trigger] lot_of(cfg, beads, remote, i, Lot::Pair(at)) implies
            c.paired.contains((id, at)) by {
            lots_stay(cfg, beads, remote, i, Lot::Pair(at));
            assert(before.paired.contains((id, at)));
            if c.paired.len() > before.paired.len() {
                push_keeps(before.paired, (id, at), c.paired.last());
            }
        }
    } else {
        push_keeps(before.unpaired_local, id, id);
        push_keeps(before.out_of_scope, id, id);
        push_keeps(before.dangling_local, id, id);
        if let Some(r) = text::seen(beads[i].external_ref) {
            scope_is_the_project(cfg, r);
            if in_scope(cfg, r) {
                last_lot(cfg, beads, remote);
                last_called_is_last(remote, r);
                assert forall|at: int| #[trigger]
                    lot_of(cfg, beads, remote, i, Lot::Pair(at)) implies c.paired.contains(
                    (id, at),
                ) by {
                    let place = last_called(remote, r)->0;
                    assert(place == at);
                    push_keeps(before.paired, (id, at), (id, at));
                }
            }
        }
    }
}

/// Every list of a pairing holds beads that belong there, and no others.
pub proof fn each_list_holds_its_beads_only(
    cfg: RemoteConfigView,
    beads: Seq<Issue>,
    remote: Seq<RemoteIssueView>,
    k: int,
)
    ensures
        ({
            let p = pairing_of(cfg, beads, remote);
            &&& 0 <= k < p.unpaired_local.len() ==> exists|i: int|
                0 <= i < beads.len() && (#[trigger] beads[i]).id@ == p.unpaired_local[k] && lot_of(
                    cfg,
                    beads,
                    remote,
                    i,
                    Lot::Create,
                )
            &&& 0 <= k < p.out_of_scope.len() ==> exists|i: int|
                0 <= i < beads.len() && (#[trigger] beads[i]).id@ == p.out_of_scope[k] && lot_of(
                    cfg,
                    beads,
                    remote,
                    i,
                    Lot::Elsewhere,
                )
            &&& 0 <= k < p.dangling_local.len() ==> exists|i: int|
                0 <= i < beads.len() && (#[trigger] beads[i]).id@ == p.dangling_local[k] && lot_of(
                    cfg,
                    beads,
                    remote,
                    i,
                    Lot::Gone,
                )
            &&& 0 <= k < p.paired.len() ==> exists|i: int, at: int|
                0 <= i < beads.len() && (#[trigger] beads[i]).id@ == p.paired[k].bead_id
                    && p.paired[k].remote == remote[at] && #[trigger] lot_of(
                    cfg,
                    beads,
                    remote,
                    i,
                    Lot::Pair(at),
                )
        }),
    decreases beads.len(),
{
    let p = pairing_of(cfg, beads, remote);
    if beads.len() > 0 {
        let n = beads.len() - 1;
        let rest = beads.drop_last();
        let q = pairing_of(cfg, rest, remote);
        let before = claims(cfg, rest, remote);
        let c = claims(cfg, beads, remote);
        each_list_holds_its_beads_only(cfg, rest, remote, k);
        if let Some(r) = text::seen(beads[n].external_ref) {
            scope_is_the_project(cfg, r);
            if in_scope(cfg, r) {
                last_lot(cfg, beads, remote);
            }
        }
        assert(beads[n].id@ == beads.last().id@);
        if 0 <= k < q.unpaired_local.len() {
            assert(p.unpaired_local[k] == q.unpaired_local[k]);
            let i = choose|i: int|
                0 <= i < rest.len() && (#[trigger] rest[i]).id@ == q.unpaired_local[k] && lot_of(
                    cfg,
                    rest,
                    remote,
                    i,
                    Lot::Create,
                );
            lots_stay(cfg, beads, remote, i, Lot::Create);
            assert(beads[i] == rest[i]);
        }
        if 0 <= k < q.out_of_scope.len() {
            assert(p.out_of_scope[k] == q.out_of_scope[k]);
            let i = choose|i: int|
                0 <= i < rest.len() && (#[trigger] rest[i]).id@ == q.out_of_scope[k] && lot_of(
                    cfg,
                    rest,
                    remote,
                    i,
                    Lot::Elsewhere,
                );
            lots_stay(cfg, beads, remote, i, Lot::Elsewhere);
            assert(beads[i] == rest[i]);
        }
        if 0 <= k < q.dangling_local.len() {
            assert(p.dangling_local[k] == q.dangling_local[k]);
            let i = choose|i: int|
                0 <= i < rest.len() && (#[trigger] rest[i]).id@ == q.dangling_local[k] && lot_of(
                    cfg,
                    rest,
                    remote,
                    i,
                    Lot::Gone,
                );
            lots_stay(cfg, beads, remote, i, Lot::Gone);
            assert(beads[i] == rest[i]);
        }
        if 0 <= k < q.paired.len() {
            assert(c.paired[k] == before.paired[k]);
            assert(p.paired[k] == q.paired[k]);
            let (i, at) = choose|i: int, at: int|
                0 <= i < rest.len() && (#[trigger] rest[i]).id@ == q.paired[k].bead_id
                    && q.paired[k].remote == remote[at] && #[trigger] lot_of(
                    cfg,
                    rest,
                    remote,
                    i,
                    Lot::Pair(at),
                );
            lots_stay(cfg, beads, remote, i, Lot::Pair(at));
            assert(beads[i] == rest[i]);
        } else if 0 <= k < p.paired.len() {
            let at = c.paired[k].1;
            assert(lot_of(cfg, beads, remote, n, Lot::Pair(at)));
            assert(beads[n].id@ == p.paired[k].bead_id);
        }
    }
}

/// One of the beads has the issue at this place.
pub open spec fn has_bead(
    cfg: RemoteConfigView,
    beads: Seq<Issue>,
    remote: Seq<RemoteIssueView>,
    at: int,
) -> bool {
    exists|i: int|
        0 <= i < beads.len() && #[trigger] lot_of(cfg, beads, remote, i, Lot::Pair(at))
}

/// A place that is taken is that of an issue that a bead has.
proof fn taken_by_its_bead(
    cfg: RemoteConfigView,
    beads: Seq<Issue>,
    remote: Seq<RemoteIssueView>,
    at: int,
)
    requires
        taken(claims(cfg, beads, remote).paired, at),
    ensures
        has_bead(cfg, beads, remote, at),
    decreases beads.len(),
{
    if beads.len() > 0 {
        let n = beads.len() - 1;
        let rest = beads.drop_last();
        let before = claims(cfg, rest, remote);
        let c = claims(cfg, beads, remote);
        let k = choose|k: int| 0 <= k < c.paired.len() && (#[trigger] c.paired[k]).1 == at;
        if k < before.paired.len() {
            assert(before.paired[k] == c.paired[k]);
            assert(taken(before.paired, at));
            taken_by_its_bead(cfg, rest, remote, at);
            let i = choose|i: int|
                0 <= i < rest.len() && #[trigger] lot_of(cfg, rest, remote, i, Lot::Pair(at));
            lots_stay(cfg, beads, remote, i, Lot::Pair(at));
        } else {
            last_lot(cfg, beads, remote);
            assert(lot_of(cfg, beads, remote, n, Lot::Pair(at)));
        }
    }
}

proof fn leftover_holds(
    remote: Seq<RemoteIssueView>,
    paired: Seq<(Seq<char>, int)>,
    n: nat,
    at: int,
)
    requires
        n <= remote.len(),
    ensures
        0 <= at < n && !taken(paired, at) ==> leftover(remote, paired, n).contains(remote[at]),
        forall|k: int|
            0 <= k < leftover(remote, paired, n).len() ==> exists|j: int|
                0 <= j < n && !taken(paired, j) && (#[trigger] leftover(remote, paired, n)[k])
                    == #[trigger] remote[j],
    decreases n,
{
    if n > 0 {
        let front = leftover(remote, paired, (n - 1) as nat);
        let all = leftover(remote, paired, n);
        leftover_holds(remote, paired, (n - 1) as nat, at);
        if 0 <= at < n && !taken(paired, at) {
            if taken(paired, n - 1) {
                assert(all == front);
            } else {
                push_keeps(front, remote[at], remote[n - 1]);
            }
        }
        assert forall|k: int| 0 <= k < all.len() implies exists|j: int|
            0 <= j < n && !taken(paired, j) && (#[trigger] all[k]) == #[trigger] remote[j] by {
            if k < front.len() {
                assert(all[k] == front[k]);
            } else {
                assert(all[k] == remote[n - 1]);
            }
        }
    }
}

/// An issue that no bead has is left over, and one that a bead has is not.
pub proof fn unclaimed_issues_are_left_over(
    cfg: RemoteConfigView,
    beads: Seq<Issue>,
    remote: Seq<RemoteIssueView>,
    at: int,
)
    requires
        0 <= at < remote.len(),
        forall|j: int|
            0 <= j < remote.len() && j != at ==> (#[trigger] remote[j]).id_readable
                != remote[at].id_readable,
    ensures
        pairing_of(cfg, beads, remote).unpaired_remote.contains(remote[at]) <==> !has_bead(
            cfg,
            beads,
            remote,
            at,
        ),
{
    let c = claims(cfg, beads, remote);
    let left = leftover(remote, c.paired, remote.len());
    leftover_holds(remote, c.paired, remote.len(), at);
    if taken(c.paired, at) {
        taken_by_its_bead(cfg, beads, remote, at);
    }
    if has_bead(cfg, beads, remote, at) {
        let i = choose|i: int|
            0 <= i < beads.len() && #[trigger] lot_of(cfg, beads, remote, i, Lot::Pair(at));
        lands(cfg, beads, remote, i);
        let k = choose|k: int| 0 <= k < c.paired.len() && c.paired[k] == (beads[i].id@, at);
        assert(c.paired[k].1 == at);
        assert(taken(c.paired, at));
        if left.contains(remote[at]) {
            let m = choose|m: int| 0 <= m < left.len() && left[m] == remote[at];
            assert(left[m] == remote[at]);
        }
    }
}

/// Whatever is left over is one of the mirror's issues.
pub proof fn leftover_is_of_the_mirror(
    cfg: RemoteConfigView,
    beads: Seq<Issue>,
    remote: Seq<RemoteIssueView>,
    k: int,
)
    requires
        0 <= k < pairing_of(cfg, beads, remote).unpaired_remote.len(),
    ensures
        exists|j: int|
            0 <= j < remote.len() && pairing_of(cfg, beads, remote).unpaired_remote[k]
                == #[trigger] remote[j],
{
    let c = claims(cfg, beads, remote);
    leftover_holds(remote, c.paired, remote.len(), 0);
    assert(leftover(remote, c.paired, remote.len())[k] == pairing_of(
        cfg,
        beads,
        remote,
    ).unpaired_remote[k]);
}

} // verus!
