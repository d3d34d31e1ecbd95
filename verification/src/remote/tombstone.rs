//! Deleted beads: some live on under another identifier, some are gone.
//!
//! Nothing here ever takes an issue off the mirror. A bead that was renamed
//! is forwarded to its successor, and a bead that is gone is marked as
//! deleted.

use crate::model::{Issue, Status};
use crate::remote::comments;
use crate::text;
use crate::text::holds_text;
use vstd::prelude::*;
use vstd::string::*;

verus! {

broadcast use vstd::string::group_string_axioms;

/// What to do about one deleted bead.
#[derive(Debug, Clone, PartialEq, Eq)]
pub enum TombstoneAction {
    /// The bead lives on as `destination_bead_id`.
    Forward { destination_bead_id: String },
    /// The bead is gone, for the reason given.
    Delete { reason: Option<String> },
}

/// What contracts say of a [`TombstoneAction`].
pub enum TombstoneActionView {
    Forward { destination_bead_id: Seq<char> },
    Delete { reason: Option<Seq<char>> },
}

impl View for TombstoneAction {
    type V = TombstoneActionView;

    open spec fn view(&self) -> TombstoneActionView {
        match self {
            TombstoneAction::Forward { destination_bead_id } => TombstoneActionView::Forward {
                destination_bead_id: destination_bead_id@,
            },
            TombstoneAction::Delete { reason } => TombstoneActionView::Delete {
                reason: text::seen(*reason),
            },
        }
    }
}

/// The first bead that once had the identifier.
pub open spec fn successor(id: Seq<char>, live: Seq<Issue>) -> Option<Seq<char>>
    decreases live.len(),
{
    if live.len() == 0 {
        None
    } else if text::views(live[0].former_ids@).contains(id) {
        Some(live[0].id@)
    } else {
        successor(id, live.drop_first())
    }
}

/// What to do about a deleted bead, given the reason of its deletion.
pub open spec fn action_for(id: Seq<char>, reason: Option<Seq<char>>, live: Seq<Issue>) -> TombstoneActionView {
    match successor(id, live) {
        Some(destination_bead_id) => TombstoneActionView::Forward { destination_bead_id },
        None => TombstoneActionView::Delete { reason },
    }
}

/// Classifies one deleted bead by who once had its identifier.
pub fn classify_tombstone(tombstone_id: &str, live: &Vec<Issue>) -> (r: TombstoneAction)
    ensures
        r@ == action_for(tombstone_id@, None, live@),
{
    let mut i: usize = 0;
    assert(live@.skip(0) =~= live@);
    while i < live.len()
        invariant
            i <= live@.len(),
            successor(tombstone_id@, live@) == successor(tombstone_id@, live@.skip(i as int)),
        decreases live@.len() - i,
    {
        assert(live@.skip(i as int).drop_first() =~= live@.skip(i + 1));
        if holds_text(&live[i].former_ids, tombstone_id) {
            return TombstoneAction::Forward { destination_bead_id: live[i].id.clone() };
        }
        i += 1;
    }
    TombstoneAction::Delete { reason: None }
}

/// One deleted bead with what to do about it.
pub open spec fn tombstone_entry(bead: Issue, beads: Seq<Issue>) -> Option<
    (Seq<char>, TombstoneActionView),
> {
    if bead.status@ is Tombstone {
        Some((bead.id@, action_for(bead.id@, text::seen(bead.delete_reason), beads)))
    } else {
        None
    }
}

/// Every deleted bead with what to do about it.
pub open spec fn tombstone_actions(beads: Seq<Issue>) -> Seq<(Seq<char>, TombstoneActionView)> {
    text::picked(beads, |b: Issue| tombstone_entry(b, beads))
}

/// The views of identifiers with actions.
pub open spec fn actions_view(s: Seq<(String, TombstoneAction)>) -> Seq<
    (Seq<char>, TombstoneActionView),
> {
    s.map_values(|e: (String, TombstoneAction)| (e.0@, e.1@))
}

/// Classifies every deleted bead against the whole workspace, in its order.
pub fn plan_tombstones(beads: &Vec<Issue>) -> (r: Vec<(String, TombstoneAction)>)
    ensures
        actions_view(r@) == tombstone_actions(beads@),
{
    let ghost f = |b: Issue| tombstone_entry(b, beads@);
    let mut out: Vec<(String, TombstoneAction)> = Vec::new();
    let mut i: usize = 0;
    assert(actions_view(out@) =~= text::picked(beads@.take(0), f));
    while i < beads.len()
        invariant
            i <= beads@.len(),
            f == (|b: Issue| tombstone_entry(b, beads@)),
            actions_view(out@) == text::picked(beads@.take(i as int), f),
        decreases beads@.len() - i,
    {
        proof {
            text::picked_step(beads@, f, i as int);
        }
        let bead = &beads[i];
        if matches!(bead.status, Status::Tombstone) {
            let action = match classify_tombstone(bead.id.as_str(), beads) {
                TombstoneAction::Forward { destination_bead_id } => TombstoneAction::Forward {
                    destination_bead_id,
                },
                TombstoneAction::Delete { .. } => TombstoneAction::Delete {
                    reason: text::copy_optional(&bead.delete_reason),
                },
            };
            let ghost before = out@;
            let ghost added = (bead.id@, action@);
            out.push((bead.id.clone(), action));
            assert(actions_view(out@) =~= actions_view(before).push(added));
        }
        i += 1;
    }
    assert(beads@.take(i as int) =~= beads@);
    out
}

/// A bead that lives on under another identifier is never treated as gone.
pub proof fn renamed_bead_is_forwarded(id: Seq<char>, reason: Option<Seq<char>>, live: Seq<Issue>, k: int)
    requires
        0 <= k < live.len(),
        text::views(live[k].former_ids@).contains(id),
    ensures
        action_for(id, reason, live) is Forward,
    decreases live.len(),
{
    if !text::views(live[0].former_ids@).contains(id) {
        assert(live.drop_first()[k - 1] == live[k]);
        renamed_bead_is_forwarded(id, reason, live.drop_first(), k - 1);
    }
}

/// A bead that no other once was is gone.
pub proof fn unclaimed_bead_is_gone(id: Seq<char>, reason: Option<Seq<char>>, live: Seq<Issue>)
    requires
        forall|k: int| 0 <= k < live.len() ==> !text::views((#[trigger] live[k]).former_ids@).contains(id),
    ensures
        action_for(id, reason, live) == (TombstoneActionView::Delete { reason }),
    decreases live.len(),
{
    if live.len() > 0 {
        let rest = live.drop_first();
        assert forall|k: int| 0 <= k < rest.len() implies !text::views((#[trigger] rest[k]).former_ids@).contains(id) by {
            assert(rest[k] == live[k + 1]);
        }
        assert(!text::views(live[0].former_ids@).contains(id));
        unclaimed_bead_is_gone(id, reason, rest);
    }
}

/// The comment that marks a deletion on the mirror.
pub open spec fn deleted_comment(reason: Option<Seq<char>>) -> Seq<char> {
    match reason {
        Some(reason) => "[br]\ndeleted in beads: "@ + reason,
        None => "[br]\ndeleted in beads"@,
    }
}

/// The comment that marks a deletion on the mirror. It carries the marker of
/// the comments that go out, so it never comes back in.
pub fn deleted_comment_text(reason: Option<&str>) -> (r: String)
    ensures
        r@ == deleted_comment(text::seen(reason)),
        comments::marked(r@),
{
    proof {
        deletion_is_marked(text::seen(reason));
    }
    match reason {
        Some(reason) => {
            let mut out = "[br]\ndeleted in beads: ".to_owned();
            out.append(reason);
            out
        },
        None => "[br]\ndeleted in beads".to_owned(),
    }
}

proof fn deletion_is_marked(reason: Option<Seq<char>>)
    ensures
        comments::marked(deleted_comment(reason)),
{
    reveal_strlit("[br]");
    reveal_strlit("\n");
    reveal_strlit("[br]\ndeleted in beads: ");
    reveal_strlit("[br]\ndeleted in beads");
    let head = comments::BR_MARKER@ + "\n"@;
    assert(deleted_comment(reason).subrange(0, head.len() as int) =~= head);
}

/// A bead is forwarded only to one that once had its identifier, and to the
/// first of those.
pub proof fn forwarding_leads_to_the_first_heir(
    id: Seq<char>,
    reason: Option<Seq<char>>,
    live: Seq<Issue>,
)
    ensures
        action_for(id, reason, live) matches TombstoneActionView::Forward {
            destination_bead_id,
        } ==> exists|k: int|
            0 <= k < live.len() && (#[trigger] live[k]).id@ == destination_bead_id && text::views(
                live[k].former_ids@,
            ).contains(id) && forall|j: int|
                0 <= j < k ==> !text::views((#[trigger] live[j]).former_ids@).contains(id),
    decreases live.len(),
{
    if live.len() > 0 {
        if text::views(live[0].former_ids@).contains(id) {
            assert(live[0].id@ == live[0].id@);
        } else {
            let rest = live.drop_first();
            forwarding_leads_to_the_first_heir(id, reason, rest);
            if let TombstoneActionView::Forward { destination_bead_id } = action_for(
                id,
                reason,
                live,
            ) {
                let k = choose|k: int|
                    0 <= k < rest.len() && (#[trigger] rest[k]).id@ == destination_bead_id
                        && text::views(rest[k].former_ids@).contains(id) && forall|j: int|
                        0 <= j < k ==> !text::views((#[trigger] rest[j]).former_ids@).contains(id);
                assert(live[k + 1] == rest[k]);
                assert forall|j: int| 0 <= j < k + 1 implies !text::views(
                    (#[trigger] live[j]).former_ids@,
                ).contains(id) by {
                    if j > 0 {
                        assert(rest[j - 1] == live[j]);
                    }
                }
            }
        }
    }
}

/// Every deleted bead is settled, under its own identifier and for its own
/// reason, and no other bead is.
pub proof fn every_deleted_bead_is_settled(beads: Seq<Issue>, i: int, k: int)
    ensures
        0 <= i < beads.len() && beads[i].status@ is Tombstone ==> tombstone_actions(beads).contains(
            (beads[i].id@, action_for(beads[i].id@, text::seen(beads[i].delete_reason), beads)),
        ),
        0 <= k < tombstone_actions(beads).len() ==> exists|j: int|
            0 <= j < beads.len() && (#[trigger] beads[j]).status@ is Tombstone
                && tombstone_actions(beads)[k] == (
                beads[j].id@,
                action_for(beads[j].id@, text::seen(beads[j].delete_reason), beads),
            ),
{
    let f = |b: Issue| tombstone_entry(b, beads);
    if 0 <= i < beads.len() && beads[i].status@ is Tombstone {
        text::picked_holds(beads, f, i);
    }
    if 0 <= k < tombstone_actions(beads).len() {
        text::picked_comes_from(beads, f, k);
        let j = choose|j: int|
            0 <= j < beads.len() && f(#[trigger] beads[j]) == Some(tombstone_actions(beads)[k]);
        assert(beads[j].status@ is Tombstone);
    }
}

/// Whoever reads the comment of a deletion reads its reason at the end, behind
/// the marker of our own comments and the words that say so; without a reason
/// the words stand alone.
pub proof fn deletions_give_their_reason(reason: Seq<char>)
    ensures
        "[br]\ndeleted in beads"@.is_prefix_of(deleted_comment(Some(reason))),
        reason.is_suffix_of(deleted_comment(Some(reason))),
        deleted_comment(Some(reason)).len() == deleted_comment(None).len() + 2 + reason.len(),
        deleted_comment(None) == "[br]\ndeleted in beads"@,
{
    reveal_strlit("[br]\ndeleted in beads");
    reveal_strlit("[br]\ndeleted in beads: ");
    let all = deleted_comment(Some(reason));
    assert(all.skip(all.len() - reason.len()) =~= reason);
    assert(all.take("[br]\ndeleted in beads"@.len() as int) =~= "[br]\ndeleted in beads"@);
    assert(all.subrange(all.len() - reason.len(), all.len() as int) =~= reason);
    assert(all.subrange(0, "[br]\ndeleted in beads"@.len() as int)
        =~= "[br]\ndeleted in beads"@);
}

} // verus!
