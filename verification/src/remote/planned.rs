//! What a plan holds, told from the workspace and the mirror that it was made
//! from.

use crate::model;
use crate::model::{DependencyTypeView, DependencyView, Issue};
use crate::order;
use crate::order::Ranked;
use crate::remote::config;
use crate::remote::config::RemoteConfigView;
use crate::remote::diff;
use crate::remote::diff::{Direction, FieldChange};
use crate::remote::link_diff;
use crate::remote::model::{RemoteIssueView, UnmappableIssueView};
use crate::remote::plan;
use crate::remote::plan::{
    AdoptionView, CommentPlan, CommentPlanView, CommentWorkView, DanglingRefView,
    Directed, IssueFieldPlanView, IssueLinkPlanView, PlanScope, ReconcilePlanView, RefusedAdoptionView, TombstonedPairView,
    UnmappedLocalView, UnmirroredLink, UnmirroredLinkView,
};
use crate::remote::reconcile;
use crate::remote::reconcile::{Lot, PairedPairView};
use crate::remote::youtrack::links::LinkTypesView;
use crate::text;
use vstd::prelude::*;

verus! {

/// No two beads have the same identifier.
pub open spec fn distinct_beads(beads: Seq<Issue>) -> bool {
    forall|i: int, j: int|
        0 <= i < j < beads.len() ==> (#[trigger] beads[i]).id@ != (#[trigger] beads[j]).id@
}

/// The bead of an identifier is the last one that has it.
pub proof fn bead_is_the_last_of_its_name(beads: Seq<Issue>, id: Seq<char>)
    ensures
        plan::bead_called(beads, id) is None <==> forall|i: int|
            0 <= i < beads.len() ==> (#[trigger] beads[i]).id@ != id,
        plan::bead_called(beads, id) matches Some(b) ==> exists|i: int|
            0 <= i < beads.len() && #[trigger] beads[i] == b && b.id@ == id && forall|j: int|
                i < j < beads.len() ==> (#[trigger] beads[j]).id@ != id,
    decreases beads.len(),
{
    if beads.len() > 0 {
        let n = beads.len() - 1;
        let rest = beads.drop_last();
        assert(beads[n] == beads.last());
        if beads.last().id@ != id {
            bead_is_the_last_of_its_name(rest, id);
            if let Some(b) = plan::bead_called(beads, id) {
                let i = choose|i: int|
                    0 <= i < rest.len() && #[trigger] rest[i] == b && b.id@ == id && forall|j: int|
                        i < j < rest.len() ==> (#[trigger] rest[j]).id@ != id;
                assert(beads[i] == b);
                assert forall|j: int| i < j < beads.len() implies (#[trigger] beads[j]).id@
                    != id by {
                    if j < n {
                        assert(rest[j] == beads[j]);
                    }
                }
            } else {
                assert forall|i: int| 0 <= i < beads.len() implies (#[trigger] beads[i]).id@
                    != id by {
                    if i < n {
                        assert(rest[i] == beads[i]);
                    }
                }
            }
        }
    }
}

proof fn bead_is_found(beads: Seq<Issue>, i: int)
    requires
        distinct_beads(beads),
        0 <= i < beads.len(),
    ensures
        plan::bead_called(beads, beads[i].id@) == Some(beads[i]),
{
    let id = beads[i].id@;
    bead_is_the_last_of_its_name(beads, id);
    let b = plan::bead_called(beads, id)->0;
    let j = choose|j: int|
        0 <= j < beads.len() && #[trigger] beads[j] == b && b.id@ == id && forall|m: int|
            j < m < beads.len() ==> (#[trigger] beads[m]).id@ != id;
    if j < i {
        assert(beads[i].id@ != id);
    } else if i < j {
        assert(beads[i].id@ != beads[j].id@);
    }
}

/// A plan creates an issue for every bead that needs one and for no other. It
/// leaves alone every bead of another tracker, and says so of no other.
pub proof fn plan_sorts_the_beads(
    cfg: RemoteConfigView,
    beads: Seq<Issue>,
    issues: Seq<RemoteIssueView>,
    unmappable: Seq<UnmappableIssueView>,
    types: LinkTypesView,
    comments: Seq<CommentWorkView>,
    i: int,
    k: int,
)
    ensures
        ({
            let p = plan::plan_of(cfg, beads, issues, unmappable, types, comments);
            &&& 0 <= i < beads.len() && reconcile::lot_of(cfg, beads, issues, i, Lot::Create)
                ==> p.creates.contains(beads[i].id@)
            &&& 0 <= i < beads.len() && reconcile::lot_of(cfg, beads, issues, i, Lot::Elsewhere)
                ==> p.out_of_scope.contains(beads[i].id@)
            &&& 0 <= k < p.creates.len() ==> exists|j: int|
                0 <= j < beads.len() && (#[trigger] beads[j]).id@ == p.creates[k]
                    && reconcile::lot_of(cfg, beads, issues, j, Lot::Create)
            &&& 0 <= k < p.out_of_scope.len() ==> exists|j: int|
                0 <= j < beads.len() && (#[trigger] beads[j]).id@ == p.out_of_scope[k]
                    && reconcile::lot_of(cfg, beads, issues, j, Lot::Elsewhere)
        }),
{
    if 0 <= i < beads.len() {
        reconcile::each_bead_lands_where_its_reference_says(cfg, beads, issues, i);
    }
    reconcile::each_list_holds_its_beads_only(cfg, beads, issues, k);
}

/// The identifier is that of an issue that could not be read.
pub open spec fn is_unreadable(unmappable: Seq<UnmappableIssueView>, id: Seq<char>) -> bool {
    exists|u: int| 0 <= u < unmappable.len() && (#[trigger] unmappable[u]).id_readable == id
}

/// A bead whose issue is gone is told with its reference, unless the issue is
/// there and only could not be read; and no other bead is told.
pub proof fn gone_issues_are_told(
    cfg: RemoteConfigView,
    beads: Seq<Issue>,
    issues: Seq<RemoteIssueView>,
    unmappable: Seq<UnmappableIssueView>,
    types: LinkTypesView,
    comments: Seq<CommentWorkView>,
    i: int,
)
    requires
        distinct_beads(beads),
        0 <= i < beads.len(),
        beads[i].external_ref is Some,
    ensures
        plan::plan_of(cfg, beads, issues, unmappable, types, comments).dangling.contains(
            DanglingRefView { bead_id: beads[i].id@, external_ref: beads[i].external_ref->0@ },
        ) <==> reconcile::lot_of(cfg, beads, issues, i, Lot::Gone) && !is_unreadable(
            unmappable,
            beads[i].external_ref->0@,
        ),
{
    let p = plan::plan_of(cfg, beads, issues, unmappable, types, comments);
    let gone = reconcile::pairing_of(cfg, beads, issues).dangling_local;
    let f = |id: Seq<char>| plan::dangling_of(beads, unmappable, id);
    let id = beads[i].id@;
    let r = beads[i].external_ref->0@;
    let told = DanglingRefView { bead_id: id, external_ref: r };
    bead_is_found(beads, i);
    let ids = plan::unreadable_ids(unmappable);
    assert(ids.contains(r) == is_unreadable(unmappable, r)) by {
        if ids.contains(r) {
            let u = choose|u: int| 0 <= u < ids.len() && ids[u] == r;
            assert(unmappable[u].id_readable == r);
        }
        if is_unreadable(unmappable, r) {
            let u = choose|u: int|
                0 <= u < unmappable.len() && (#[trigger] unmappable[u]).id_readable == r;
            assert(ids[u] == r);
        }
    }
    if reconcile::lot_of(cfg, beads, issues, i, Lot::Gone) && !is_unreadable(unmappable, r) {
        reconcile::each_bead_lands_where_its_reference_says(cfg, beads, issues, i);
        let k = choose|k: int| 0 <= k < gone.len() && gone[k] == id;
        text::picked_holds(gone, f, k);
    }
    if p.dangling.contains(told) {
        let m = choose|m: int| 0 <= m < p.dangling.len() && p.dangling[m] == told;
        text::picked_comes_from(gone, f, m);
        let k = choose|k: int| 0 <= k < gone.len() && f(#[trigger] gone[k]) == Some(told);
        assert(gone[k] == id);
        reconcile::each_list_holds_its_beads_only(cfg, beads, issues, k);
        let j = choose|j: int|
            0 <= j < beads.len() && (#[trigger] beads[j]).id@ == gone[k] && reconcile::lot_of(
                cfg,
                beads,
                issues,
                j,
                Lot::Gone,
            );
        bead_is_found(beads, j);
        assert(i == j) by {
            if i < j {
                assert(beads[i].id@ != beads[j].id@);
            } else if j < i {
                assert(beads[j].id@ != beads[i].id@);
            }
        }
    }
}

/// An issue that no bead has is offered for adoption as it stands, and an
/// issue that could not be read is refused with the reason.
pub proof fn unclaimed_issues_are_offered(
    cfg: RemoteConfigView,
    beads: Seq<Issue>,
    issues: Seq<RemoteIssueView>,
    unmappable: Seq<UnmappableIssueView>,
    types: LinkTypesView,
    comments: Seq<CommentWorkView>,
    at: int,
    u: int,
)
    requires
        0 <= at < issues.len(),
        forall|j: int|
            0 <= j < issues.len() && j != at ==> (#[trigger] issues[j]).id_readable
                != issues[at].id_readable,
    ensures
        ({
            let p = plan::plan_of(cfg, beads, issues, unmappable, types, comments);
            &&& p.adoptions.contains(
                AdoptionView {
                    remote_id: issues[at].id_readable,
                    summary: issues[at].summary,
                    beads_id: issues[at].fields.beads_id,
                },
            ) ==> !reconcile::has_bead(cfg, beads, issues, at)
            &&& !reconcile::has_bead(cfg, beads, issues, at) ==> p.adoptions.contains(
                AdoptionView {
                    remote_id: issues[at].id_readable,
                    summary: issues[at].summary,
                    beads_id: issues[at].fields.beads_id,
                },
            )
            &&& p.refused_adoptions.len() == unmappable.len()
            &&& 0 <= u < unmappable.len() ==> p.refused_adoptions[u] == (RefusedAdoptionView {
                remote_id: unmappable[u].id_readable,
                reason: unmappable[u].reason,
            })
        }),
{
    let p = plan::plan_of(cfg, beads, issues, unmappable, types, comments);
    let left = reconcile::pairing_of(cfg, beads, issues).unpaired_remote;
    let offer = AdoptionView {
        remote_id: issues[at].id_readable,
        summary: issues[at].summary,
        beads_id: issues[at].fields.beads_id,
    };
    reconcile::unclaimed_issues_are_left_over(cfg, beads, issues, at);
    if left.contains(issues[at]) {
        let k = choose|k: int| 0 <= k < left.len() && left[k] == issues[at];
        assert(p.adoptions[k] == offer);
    }
    if p.adoptions.contains(offer) {
        let k = choose|k: int| 0 <= k < p.adoptions.len() && p.adoptions[k] == offer;
        assert(left[k].id_readable == issues[at].id_readable);
        reconcile::leftover_is_of_the_mirror(cfg, beads, issues, k);
        let j = choose|j: int| 0 <= j < issues.len() && left[k] == #[trigger] issues[j];
        assert(j == at);
        assert(left.contains(issues[at]));
    }
}

/// A pair is told among the deleted where its bead is deleted. Else its fields
/// are compared, and it is told with the changes where there are any.
pub proof fn pairs_are_compared_or_told_deleted(
    cfg: RemoteConfigView,
    beads: Seq<Issue>,
    issues: Seq<RemoteIssueView>,
    unmappable: Seq<UnmappableIssueView>,
    types: LinkTypesView,
    comments: Seq<CommentWorkView>,
    i: int,
    at: int,
)
    requires
        distinct_beads(beads),
        0 <= i < beads.len(),
        reconcile::lot_of(cfg, beads, issues, i, Lot::Pair(at)),
    ensures
        ({
            let p = plan::plan_of(cfg, beads, issues, unmappable, types, comments);
            &&& beads[i].status@ is Tombstone ==> p.tombstoned.contains(
                TombstonedPairView { bead_id: beads[i].id@, remote_id: issues[at].id_readable },
            )
            &&& !(beads[i].status@ is Tombstone) && diff::changes_of(beads[i], issues[at]).len()
                > 0 ==> p.field_changes.contains(
                IssueFieldPlanView {
                    bead_id: beads[i].id@,
                    remote_id: issues[at].id_readable,
                    changes: diff::changes_of(beads[i], issues[at]),
                },
            )
        }),
{
    let paired = reconcile::pairing_of(cfg, beads, issues).paired;
    let pair = PairedPairView { bead_id: beads[i].id@, remote: issues[at] };
    reconcile::each_bead_lands_where_its_reference_says(cfg, beads, issues, i);
    bead_is_found(beads, i);
    let k = choose|k: int| 0 <= k < paired.len() && paired[k] == pair;
    assert(paired[k] == pair);
    if beads[i].status@ is Tombstone {
        text::picked_holds(paired, |p: PairedPairView| plan::tombstoned_pair(beads, p), k);
    } else if diff::changes_of(beads[i], issues[at]).len() > 0 {
        text::picked_holds(paired, |p: PairedPairView| plan::field_plan(beads, p), k);
    }
}

/// Every deleted pair, and every pair with changes, that the plan tells is one
/// of the workspace and the mirror.
pub proof fn told_pairs_are_pairs(
    cfg: RemoteConfigView,
    beads: Seq<Issue>,
    issues: Seq<RemoteIssueView>,
    unmappable: Seq<UnmappableIssueView>,
    types: LinkTypesView,
    comments: Seq<CommentWorkView>,
    k: int,
)
    requires
        distinct_beads(beads),
    ensures
        ({
            let p = plan::plan_of(cfg, beads, issues, unmappable, types, comments);
            &&& 0 <= k < p.tombstoned.len() ==> exists|i: int, at: int|
                0 <= i < beads.len() && (#[trigger] beads[i]).id@ == p.tombstoned[k].bead_id
                    && beads[i].status@ is Tombstone && p.tombstoned[k].remote_id
                    == issues[at].id_readable && #[trigger] reconcile::lot_of(
                    cfg,
                    beads,
                    issues,
                    i,
                    Lot::Pair(at),
                )
            &&& 0 <= k < p.field_changes.len() ==> exists|i: int, at: int|
                0 <= i < beads.len() && (#[trigger] beads[i]).id@ == p.field_changes[k].bead_id
                    && !(beads[i].status@ is Tombstone) && p.field_changes[k].remote_id
                    == issues[at].id_readable && p.field_changes[k].changes == diff::changes_of(
                    beads[i],
                    issues[at],
                ) && #[trigger] reconcile::lot_of(cfg, beads, issues, i, Lot::Pair(at))
        }),
{
    let p = plan::plan_of(cfg, beads, issues, unmappable, types, comments);
    let paired = reconcile::pairing_of(cfg, beads, issues).paired;
    let deleted = |q: PairedPairView| plan::tombstoned_pair(beads, q);
    let compared = |q: PairedPairView| plan::field_plan(beads, q);
    if 0 <= k < p.tombstoned.len() {
        text::picked_comes_from(paired, deleted, k);
        let m = choose|m: int|
            0 <= m < paired.len() && deleted(#[trigger] paired[m]) == Some(p.tombstoned[k]);
        reconcile::each_list_holds_its_beads_only(cfg, beads, issues, m);
        let (i, at) = choose|i: int, at: int|
            0 <= i < beads.len() && (#[trigger] beads[i]).id@ == paired[m].bead_id
                && paired[m].remote == issues[at] && #[trigger] reconcile::lot_of(
                cfg,
                beads,
                issues,
                i,
                Lot::Pair(at),
            );
        bead_is_found(beads, i);
        assert(reconcile::lot_of(cfg, beads, issues, i, Lot::Pair(at)));
    }
    if 0 <= k < p.field_changes.len() {
        text::picked_comes_from(paired, compared, k);
        let m = choose|m: int|
            0 <= m < paired.len() && compared(#[trigger] paired[m]) == Some(p.field_changes[k]);
        reconcile::each_list_holds_its_beads_only(cfg, beads, issues, m);
        let (i, at) = choose|i: int, at: int|
            0 <= i < beads.len() && (#[trigger] beads[i]).id@ == paired[m].bead_id
                && paired[m].remote == issues[at] && #[trigger] reconcile::lot_of(
                cfg,
                beads,
                issues,
                i,
                Lot::Pair(at),
            );
        bead_is_found(beads, i);
        assert(reconcile::lot_of(cfg, beads, issues, i, Lot::Pair(at)));
    }
}

/// The map has an entry of this key.
pub open spec fn has_key(all: Seq<(Seq<char>, Seq<char>)>, key: Seq<char>) -> bool {
    exists|i: int| 0 <= i < all.len() && (#[trigger] all[i]).0 == key
}

/// What is told of a bead's type that the type map lacks.
pub open spec fn lacking_type(bead: Issue) -> UnmappedLocalView {
    UnmappedLocalView {
        bead_id: bead.id@,
        field: "issue_type"@,
        value: model::issue_type_name(bead.issue_type@),
        map_key: "type_map"@,
    }
}

/// What is told of a bead's status that the status map lacks.
pub open spec fn lacking_status(bead: Issue) -> UnmappedLocalView {
    UnmappedLocalView {
        bead_id: bead.id@,
        field: "status"@,
        value: model::status_name(bead.status@),
        map_key: "status_map"@,
    }
}

/// The bead takes part in the mirror: it is not deleted and its reference is
/// not one of another tracker.
pub open spec fn takes_part(cfg: RemoteConfigView, bead: Issue) -> bool {
    !(bead.status@ is Tombstone) && match bead.external_ref {
        Some(r) => reconcile::refers_into(cfg.project, r@),
        None => true,
    }
}

/// A type or a status that its map lacks is told of every bead that takes part
/// in the mirror, with the map that lacks it; and nothing else is told.
pub proof fn lacking_values_are_told(
    cfg: RemoteConfigView,
    beads: Seq<Issue>,
    issues: Seq<RemoteIssueView>,
    unmappable: Seq<UnmappableIssueView>,
    types: LinkTypesView,
    comments: Seq<CommentWorkView>,
    i: int,
    k: int,
)
    requires
        distinct_beads(beads),
    ensures
        ({
            let p = plan::plan_of(cfg, beads, issues, unmappable, types, comments);
            &&& 0 <= i < beads.len() && takes_part(cfg, beads[i]) && !has_key(
                cfg.type_map,
                model::issue_type_name(beads[i].issue_type@),
            ) ==> p.unmapped_local.contains(lacking_type(beads[i]))
            &&& 0 <= i < beads.len() && takes_part(cfg, beads[i]) && !has_key(
                cfg.status_map,
                model::status_name(beads[i].status@),
            ) ==> p.unmapped_local.contains(lacking_status(beads[i]))
            &&& 0 <= k < p.unmapped_local.len() ==> exists|j: int|
                0 <= j < beads.len() && takes_part(cfg, #[trigger] beads[j]) && ((
                p.unmapped_local[k] == lacking_type(beads[j]) && !has_key(
                    cfg.type_map,
                    model::issue_type_name(beads[j].issue_type@),
                )) || (p.unmapped_local[k] == lacking_status(beads[j]) && !has_key(
                    cfg.status_map,
                    model::status_name(beads[j].status@),
                )))
        }),
{
    let p = plan::plan_of(cfg, beads, issues, unmappable, types, comments);
    let ignored = reconcile::pairing_of(cfg, beads, issues).out_of_scope;
    let f = |b: Issue| plan::unmapped_of(cfg, ignored, b);
    if 0 <= i < beads.len() && takes_part(cfg, beads[i]) {
        ignored_are_elsewhere(cfg, beads, issues, i);
        config::lookup_finds_the_first_entry(
            cfg.type_map,
            model::issue_type_name(beads[i].issue_type@),
        );
        config::lookup_finds_the_first_entry(cfg.status_map, model::status_name(beads[i].status@));
        let all = f(beads[i]);
        if !has_key(cfg.type_map, model::issue_type_name(beads[i].issue_type@)) {
            assert(all[0] == lacking_type(beads[i]));
            text::told_holds(beads, f, i, lacking_type(beads[i]));
        }
        if !has_key(cfg.status_map, model::status_name(beads[i].status@)) {
            assert(all.last() == lacking_status(beads[i]));
            assert(all.contains(lacking_status(beads[i])));
            text::told_holds(beads, f, i, lacking_status(beads[i]));
        }
    }
    if 0 <= k < p.unmapped_local.len() {
        text::told_comes_from(beads, f, k);
        let j = choose|j: int|
            0 <= j < beads.len() && f(#[trigger] beads[j]).contains(p.unmapped_local[k]);
        ignored_are_elsewhere(cfg, beads, issues, j);
        config::lookup_finds_the_first_entry(
            cfg.type_map,
            model::issue_type_name(beads[j].issue_type@),
        );
        config::lookup_finds_the_first_entry(cfg.status_map, model::status_name(beads[j].status@));
        assert(takes_part(cfg, beads[j]));
    }
}

proof fn ignored_are_elsewhere(
    cfg: RemoteConfigView,
    beads: Seq<Issue>,
    issues: Seq<RemoteIssueView>,
    i: int,
)
    requires
        distinct_beads(beads),
        0 <= i < beads.len(),
    ensures
        reconcile::pairing_of(cfg, beads, issues).out_of_scope.contains(beads[i].id@)
            <==> reconcile::lot_of(cfg, beads, issues, i, Lot::Elsewhere),
{
    let ignored = reconcile::pairing_of(cfg, beads, issues).out_of_scope;
    reconcile::each_bead_lands_where_its_reference_says(cfg, beads, issues, i);
    if ignored.contains(beads[i].id@) {
        let k = choose|k: int| 0 <= k < ignored.len() && ignored[k] == beads[i].id@;
        reconcile::each_list_holds_its_beads_only(cfg, beads, issues, k);
        let j = choose|j: int|
            0 <= j < beads.len() && (#[trigger] beads[j]).id@ == ignored[k] && reconcile::lot_of(
                cfg,
                beads,
                issues,
                j,
                Lot::Elsewhere,
            );
        if i < j {
            assert(beads[i].id@ != beads[j].id@);
        } else if j < i {
            assert(beads[j].id@ != beads[i].id@);
        }
    }
}

/// A plan tells how many comments of a pair go each way, and tells no way that
/// none goes. Where no comment goes any way, a note says what was compared.
pub proof fn comments_are_counted_each_way(
    cfg: RemoteConfigView,
    beads: Seq<Issue>,
    issues: Seq<RemoteIssueView>,
    unmappable: Seq<UnmappableIssueView>,
    types: LinkTypesView,
    comments: Seq<CommentWorkView>,
    i: int,
    k: int,
)
    ensures
        ({
            let p = plan::plan_of(cfg, beads, issues, unmappable, types, comments);
            &&& 0 <= i < comments.len() && comments[i].to_push.len() > 0
                ==> p.comment_changes.contains(
                CommentPlanView {
                    bead_id: comments[i].bead_id,
                    remote_id: comments[i].remote_id,
                    direction: Direction::Push,
                    count: comments[i].to_push.len() as usize,
                },
            )
            &&& 0 <= i < comments.len() && comments[i].to_pull.len() > 0
                ==> p.comment_changes.contains(
                CommentPlanView {
                    bead_id: comments[i].bead_id,
                    remote_id: comments[i].remote_id,
                    direction: Direction::Pull,
                    count: comments[i].to_pull.len() as usize,
                },
            )
            &&& 0 <= k < p.comment_changes.len() ==> exists|j: int|
                0 <= j < comments.len() && p.comment_changes[k].bead_id == (
                #[trigger] comments[j]).bead_id && p.comment_changes[k].remote_id
                    == comments[j].remote_id && match p.comment_changes[k].direction {
                    Direction::Push => comments[j].to_push.len() > 0 && p.comment_changes[k].count
                        == comments[j].to_push.len() as usize,
                    Direction::Pull => comments[j].to_pull.len() > 0 && p.comment_changes[k].count
                        == comments[j].to_pull.len() as usize,
                }
            &&& (forall|j: int|
                0 <= j < comments.len() ==> (#[trigger] comments[j]).to_push.len() == 0
                    && comments[j].to_pull.len() == 0) ==> p.notes == seq![
                plan::COMMENT_COUNT_GATE@,
            ]
            &&& 0 <= i < comments.len() && (comments[i].to_push.len() > 0
                || comments[i].to_pull.len() > 0) ==> p.notes.len() == 0
        }),
{
    let p = plan::plan_of(cfg, beads, issues, unmappable, types, comments);
    let f = |w: CommentWorkView| plan::sections_of(w);
    if 0 <= i < comments.len() {
        let w = comments[i];
        let all = f(w);
        if w.to_push.len() > 0 {
            assert(all.contains(all[0]));
            text::told_holds(comments, f, i, all[0]);
        }
        if w.to_pull.len() > 0 {
            assert(all.contains(all.last()));
            text::told_holds(comments, f, i, all.last());
        }
    }
    if 0 <= k < p.comment_changes.len() {
        text::told_comes_from(comments, f, k);
        let j = choose|j: int|
            0 <= j < comments.len() && f(#[trigger] comments[j]).contains(p.comment_changes[k]);
        assert(comments[j] == comments[j]);
    }
    if p.comment_changes.len() > 0 {
        text::told_comes_from(comments, f, 0);
    }
}

/// Nothing is pending to push exactly where no bead needs an issue, no link
/// differs, no deleted bead is still mirrored, no value lacks a name, no
/// reference is gone, and neither a field nor a comment is to be pushed.
pub proof fn nothing_to_push_means_that(p: ReconcilePlanView)
    ensures
        plan::nothing_pending(p, PlanScope::Push) <==> (p.creates.len() == 0 && p.link_changes.len()
            == 0 && p.tombstoned.len() == 0 && p.unmapped_local.len() == 0 && p.dangling.len() == 0
            && !has_field_change(p, Direction::Push) && !has_comments(p, Direction::Push)),
{
    no_pairs_in(p, PlanScope::Push, Direction::Push);
    no_comments_within(p, PlanScope::Push, Direction::Push);
}

/// Nothing is pending to pull exactly where no issue is offered or refused for
/// adoption, no reference is gone, and neither a field nor a comment is to be
/// pulled.
pub proof fn nothing_to_pull_means_that(p: ReconcilePlanView)
    ensures
        plan::nothing_pending(p, PlanScope::Pull) <==> (p.adoptions.len() == 0
            && p.refused_adoptions.len() == 0 && p.dangling.len() == 0 && !has_field_change(
            p,
            Direction::Pull,
        ) && !has_comments(p, Direction::Pull)),
{
    no_pairs_in(p, PlanScope::Pull, Direction::Pull);
    no_comments_within(p, PlanScope::Pull, Direction::Pull);
}

/// Some field of some pair is to be written this way.
pub open spec fn has_field_change(p: ReconcilePlanView, way: Direction) -> bool {
    exists|k: int, m: int|
        0 <= k < p.field_changes.len() && 0 <= m < p.field_changes[k].changes.len() && (
        #[trigger] p.field_changes[k].changes[m]).direction == way
}

/// Some comments of some pair go this way.
pub open spec fn has_comments(p: ReconcilePlanView, way: Direction) -> bool {
    exists|k: int|
        0 <= k < p.comment_changes.len() && (#[trigger] p.comment_changes[k]).direction == way
}

proof fn covered_means<T: Directed>(scope: PlanScope, s: Seq<T::V>)
    ensures
        plan::covered::<T>(scope, s).len() == 0 <==> forall|i: int|
            0 <= i < s.len() ==> !plan::covers(scope, T::way(#[trigger] s[i])),
{
    let f = |v: T::V|
        if plan::covers(scope, T::way(v)) {
            Some(v)
        } else {
            None
        };
    if forall|i: int| 0 <= i < s.len() ==> !plan::covers(scope, T::way(#[trigger] s[i])) {
        text::picked_nothing(s, f);
    } else {
        let i = choose|i: int|
            0 <= i < s.len() && plan::covers(scope, T::way(#[trigger] s[i]));
        text::picked_holds(s, f, i);
    }
}

proof fn no_pairs_in(p: ReconcilePlanView, scope: PlanScope, way: Direction)
    requires
        scope is Push && way is Push || scope is Pull && way is Pull,
    ensures
        plan::pairs_in(scope, p).len() == 0 <==> !has_field_change(p, way),
{
    let f = |i: IssueFieldPlanView| plan::pair_in(scope, i);
    let pairs = p.field_changes;
    if has_field_change(p, way) {
        let (k, m) = choose|k: int, m: int|
            0 <= k < p.field_changes.len() && 0 <= m < p.field_changes[k].changes.len() && (
            #[trigger] p.field_changes[k].changes[m]).direction == way;
        covered_means::<FieldChange>(scope, pairs[k].changes);
        text::picked_holds(pairs, f, k);
    } else {
        assert forall|k: int| 0 <= k < pairs.len() implies f(#[trigger] pairs[k]) is None by {
            covered_means::<FieldChange>(scope, pairs[k].changes);
            assert forall|m: int| 0 <= m < pairs[k].changes.len() implies !plan::covers(
                scope,
                FieldChange::way(#[trigger] pairs[k].changes[m]),
            ) by {
                assert(p.field_changes[k].changes[m].direction != way);
            }
        }
        text::picked_nothing(pairs, f);
    }
}

proof fn no_comments_within(p: ReconcilePlanView, scope: PlanScope, way: Direction)
    requires
        scope is Push && way is Push || scope is Pull && way is Pull,
    ensures
        plan::comments_within(scope, p).len() == 0 <==> !has_comments(p, way),
{
    covered_means::<CommentPlan>(scope, p.comment_changes);
}

/// The row says that the bead `blocker` blocks the bead `blocked`.
pub open spec fn says_blocks(row: DependencyView, blocker: Seq<char>, blocked: Seq<char>) -> bool {
    row.dep_type is Blocks && row.depends_on_id == blocker && row.issue_id == blocked
}

/// The row relates the two beads, whichever of them it belongs to.
pub open spec fn says_related(row: DependencyView, one: Seq<char>, other: Seq<char>) -> bool {
    (row.dep_type is Related || row.dep_type is RelatesTo) && ((row.issue_id == one
        && row.depends_on_id == other) || (row.issue_id == other && row.depends_on_id == one))
}

/// The row gives the bead its parent.
pub open spec fn says_parent(row: DependencyView, child: Seq<char>, parent: Seq<char>) -> bool {
    row.dep_type is ParentChild && row.issue_id == child && row.depends_on_id == parent
}

/// The relations of a bead are those that the rows say: it blocks what waits
/// for it, it is related to what either side names, and the last row decides
/// its parent. Each is listed once and in order.
pub proof fn relations_come_from_the_rows(rows: Seq<DependencyView>, id: Seq<char>, x: Seq<char>)
    ensures
        ({
            let links = plan::links_of(rows, id);
            &&& links.blocks.contains(x) <==> exists|r: int|
                0 <= r < rows.len() && says_blocks(#[trigger] rows[r], id, x)
            &&& links.related.contains(x) <==> exists|r: int|
                0 <= r < rows.len() && says_related(#[trigger] rows[r], id, x)
            &&& links.parent is None <==> forall|r: int, y: Seq<char>|
                0 <= r < rows.len() ==> !#[trigger] says_parent(rows[r], id, y)
            &&& links.parent == Some(x) ==> exists|r: int|
                0 <= r < rows.len() && says_parent(#[trigger] rows[r], id, x) && forall|
                    q: int,
                    y: Seq<char>,
                |
                    r < q < rows.len() ==> !#[trigger] says_parent(rows[q], id, y)
            &&& order::strictly_rising(links.blocks)
            &&& order::strictly_rising(links.related)
        }),
{
    let links = plan::links_of(rows, id);
    let blocked = |d: DependencyView| plan::blocked_by(d, id);
    let related = |d: DependencyView| plan::related_by(d, id);
    order::distinct_sorted_facts(text::told(rows, blocked));
    order::distinct_sorted_facts(text::told(rows, related));
    assert(links.blocks.contains(x) == text::told(rows, blocked).contains(x)) by {
        assert(links.blocks.to_set().contains(x) == links.blocks.contains(x));
        assert(text::told(rows, blocked).to_set().contains(x) == text::told(
            rows,
            blocked,
        ).contains(x));
    }
    assert(links.related.contains(x) == text::told(rows, related).contains(x)) by {
        assert(links.related.to_set().contains(x) == links.related.contains(x));
        assert(text::told(rows, related).to_set().contains(x) == text::told(
            rows,
            related,
        ).contains(x));
    }
    if text::told(rows, blocked).contains(x) {
        let all = text::told(rows, blocked);
        let k = choose|k: int| 0 <= k < all.len() && all[k] == x;
        text::told_comes_from(rows, blocked, k);
        let r = choose|r: int| 0 <= r < rows.len() && blocked(#[trigger] rows[r]).contains(x);
        assert(says_blocks(rows[r], id, x));
    }
    if exists|r: int| 0 <= r < rows.len() && says_blocks(#[trigger] rows[r], id, x) {
        let r = choose|r: int| 0 <= r < rows.len() && says_blocks(#[trigger] rows[r], id, x);
        assert(blocked(rows[r])[0] == x);
        text::told_holds(rows, blocked, r, x);
    }
    if text::told(rows, related).contains(x) {
        let all = text::told(rows, related);
        let k = choose|k: int| 0 <= k < all.len() && all[k] == x;
        text::told_comes_from(rows, related, k);
        let r = choose|r: int| 0 <= r < rows.len() && related(#[trigger] rows[r]).contains(x);
        assert(says_related(rows[r], id, x));
    }
    if exists|r: int| 0 <= r < rows.len() && says_related(#[trigger] rows[r], id, x) {
        let r = choose|r: int| 0 <= r < rows.len() && says_related(#[trigger] rows[r], id, x);
        let all = related(rows[r]);
        if rows[r].issue_id == id && rows[r].depends_on_id == x {
            assert(all[0] == x);
        } else {
            assert(all.last() == x);
        }
        assert(all.contains(x));
        text::told_holds(rows, related, r, x);
    }
    parent_is_the_last(rows, id);
}

proof fn parent_is_the_last(rows: Seq<DependencyView>, id: Seq<char>)
    ensures
        plan::parent_of(rows, id) is None <==> forall|r: int, y: Seq<char>|
            0 <= r < rows.len() ==> !#[trigger] says_parent(rows[r], id, y),
        plan::parent_of(rows, id) matches Some(x) ==> exists|r: int|
            0 <= r < rows.len() && says_parent(#[trigger] rows[r], id, x) && forall|
                q: int,
                y: Seq<char>,
            |
                r < q < rows.len() ==> !#[trigger] says_parent(rows[q], id, y),
    decreases rows.len(),
{
    if rows.len() > 0 {
        let n = rows.len() - 1;
        let rest = rows.drop_last();
        let last = rows.last();
        assert(rows[n] == last);
        if last.dep_type is ParentChild && last.issue_id == id {
            assert(says_parent(rows[n], id, last.depends_on_id));
        } else {
            parent_is_the_last(rest, id);
            if let Some(x) = plan::parent_of(rows, id) {
                let r = choose|r: int|
                    0 <= r < rest.len() && says_parent(#[trigger] rest[r], id, x) && forall|
                        q: int,
                        y: Seq<char>,
                    |
                        r < q < rest.len() ==> !#[trigger] says_parent(rest[q], id, y);
                assert(says_parent(rows[r], id, x));
                assert forall|q: int, y: Seq<char>| r < q < rows.len() implies !#[trigger]
                    says_parent(rows[q], id, y) by {
                    if q < n {
                        assert(rest[q] == rows[q]);
                        assert(!says_parent(rest[q], id, y));
                    }
                }
            } else {
                assert forall|r: int, y: Seq<char>| 0 <= r < rows.len() implies !#[trigger]
                    says_parent(rows[r], id, y) by {
                    if r < n {
                        assert(rest[r] == rows[r]);
                        assert(!says_parent(rest[r], id, y));
                    }
                }
            }
        }
    }
}

/// The rows of a workspace are the dependencies of its beads, and no others.
pub proof fn rows_are_the_dependencies(beads: Seq<Issue>, row: DependencyView)
    ensures
        plan::all_rows(beads).contains(row) <==> exists|i: int, k: int|
            0 <= i < beads.len() && 0 <= k < beads[i].dependencies@.len()
                && #[trigger] beads[i].dependencies@[k]@ == row,
{
    let f = |b: Issue| text::views(b.dependencies@);
    let rows = plan::all_rows(beads);
    if rows.contains(row) {
        let m = choose|m: int| 0 <= m < rows.len() && rows[m] == row;
        text::told_comes_from(beads, f, m);
        let i = choose|i: int| 0 <= i < beads.len() && f(#[trigger] beads[i]).contains(row);
        let all = f(beads[i]);
        let k = choose|k: int| 0 <= k < all.len() && all[k] == row;
        assert(beads[i].dependencies@[k]@ == row);
    }
    if exists|i: int, k: int|
        0 <= i < beads.len() && 0 <= k < beads[i].dependencies@.len()
            && #[trigger] beads[i].dependencies@[k]@ == row {
        let (i, k) = choose|i: int, k: int|
            0 <= i < beads.len() && 0 <= k < beads[i].dependencies@.len()
                && #[trigger] beads[i].dependencies@[k]@ == row;
        assert(f(beads[i])[k] == row);
        text::told_holds(beads, f, i, row);
    }
}

/// The mirror has a link for a dependency of this type.
pub open spec fn has_link_type(t: DependencyTypeView) -> bool {
    t is ParentChild || t is Blocks || t is Related || t is RelatesTo
}

/// A dependency is told as not mirrored exactly where the mirror has no link
/// for its type; all such rows are told, by bead and then by target.
pub proof fn other_rows_are_told(rows: Seq<DependencyView>, u: UnmirroredLinkView)
    ensures
        plan::unmirrored_rows(rows).contains(u) <==> exists|r: int|
            0 <= r < rows.len() && !has_link_type((#[trigger] rows[r]).dep_type) && u == (
            UnmirroredLinkView {
                bead_id: rows[r].issue_id,
                dep_type: model::dependency_type_name(rows[r].dep_type),
                target_id: rows[r].depends_on_id,
            }),
        forall|k: int, m: int|
            0 <= k < m < plan::unmirrored_rows(rows).len() ==> ({
                let a = #[trigger] plan::unmirrored_rows(rows)[k];
                let b = #[trigger] plan::unmirrored_rows(rows)[m];
                text::before(a.bead_id, b.bead_id) || (a.bead_id == b.bead_id && !text::before(
                    b.target_id,
                    a.target_id,
                ))
            }),
{
    let f = |d: DependencyView| plan::unmirrored_row(d);
    let le = |a: UnmirroredLinkView, b: UnmirroredLinkView| UnmirroredLink::at_most(a, b);
    let unsorted = text::picked(rows, f);
    let all = plan::unmirrored_rows(rows);
    order::stable_sorted_keeps_items(unsorted, le);
    assert(all.contains(u) == unsorted.contains(u)) by {
        all.to_multiset_ensures();
        unsorted.to_multiset_ensures();
        assert(all.contains(u) <==> all.to_multiset().count(u) > 0);
        assert(unsorted.contains(u) <==> unsorted.to_multiset().count(u) > 0);
    }
    if unsorted.contains(u) {
        let k = choose|k: int| 0 <= k < unsorted.len() && unsorted[k] == u;
        text::picked_comes_from(rows, f, k);
        let r = choose|r: int| 0 <= r < rows.len() && f(#[trigger] rows[r]) == Some(u);
        assert(!has_link_type(rows[r].dep_type));
    }
    if exists|r: int|
        0 <= r < rows.len() && !has_link_type((#[trigger] rows[r]).dep_type) && u == (
        UnmirroredLinkView {
            bead_id: rows[r].issue_id,
            dep_type: model::dependency_type_name(rows[r].dep_type),
            target_id: rows[r].depends_on_id,
        }) {
        let r = choose|r: int|
            0 <= r < rows.len() && !has_link_type((#[trigger] rows[r]).dep_type) && u == (
            UnmirroredLinkView {
                bead_id: rows[r].issue_id,
                dep_type: model::dependency_type_name(rows[r].dep_type),
                target_id: rows[r].depends_on_id,
            });
        text::picked_holds(rows, f, r);
    }
    assert(order::ranks_all(le)) by {
        assert forall|a: UnmirroredLinkView, b: UnmirroredLinkView|
            #![trigger le(a, b)]
            le(a, b) || le(b, a) by {
            UnmirroredLink::at_most_total(a, b);
        }
        assert forall|a: UnmirroredLinkView, b: UnmirroredLinkView, c: UnmirroredLinkView|
            #![trigger le(a, b), le(b, c)]
            le(a, b) && le(b, c) implies le(a, c) by {
            UnmirroredLink::at_most_transitive(a, b, c);
        }
    }
    order::stable_sorted_in_order(unsorted, le);
    assert forall|k: int, m: int| 0 <= k < m < all.len() implies ({
        let a = #[trigger] all[k];
        let b = #[trigger] all[m];
        text::before(a.bead_id, b.bead_id) || (a.bead_id == b.bead_id && !text::before(
            b.target_id,
            a.target_id,
        ))
    }) by {
        let a = all[k];
        let b = all[m];
        assert(le(a, b));
        text::order_total(a.bead_id, b.bead_id);
        text::order_total(a.target_id, b.target_id);
    }
}

/// The links of a pair whose bead is not deleted are compared over the rows of
/// the whole workspace and the identifiers of all pairs; it is told with the
/// changes where there are any.
pub proof fn links_of_pairs_are_compared(
    cfg: RemoteConfigView,
    beads: Seq<Issue>,
    issues: Seq<RemoteIssueView>,
    unmappable: Seq<UnmappableIssueView>,
    types: LinkTypesView,
    comments: Seq<CommentWorkView>,
    table: Seq<(Seq<char>, Seq<char>)>,
    i: int,
    at: int,
)
    requires
        distinct_beads(beads),
        0 <= i < beads.len(),
        reconcile::lot_of(cfg, beads, issues, i, Lot::Pair(at)),
        table == plan::mirror_ids(reconcile::pairing_of(cfg, beads, issues).paired),
    ensures
        ({
            let p = plan::plan_of(cfg, beads, issues, unmappable, types, comments);
            let changes = link_diff::link_changes(
                plan::links_of(plan::all_rows(beads), beads[i].id@),
                issues[at],
                types,
                table,
            );
            let told = IssueLinkPlanView {
                bead_id: beads[i].id@,
                remote_id: issues[at].id_readable,
                changes,
            };
            &&& table.contains((beads[i].id@, issues[at].id_readable))
            &&& p.link_changes.contains(told) <==> !(beads[i].status@ is Tombstone)
                && changes.len() > 0
        }),
{
    let p = plan::plan_of(cfg, beads, issues, unmappable, types, comments);
    let paired = reconcile::pairing_of(cfg, beads, issues).paired;
    let pair = PairedPairView { bead_id: beads[i].id@, remote: issues[at] };
    let f = |p: PairedPairView| plan::link_plan(beads, types, table, p);
    let changes = link_diff::link_changes(
        plan::links_of(plan::all_rows(beads), beads[i].id@),
        issues[at],
        types,
        table,
    );
    let told = IssueLinkPlanView {
        bead_id: beads[i].id@,
        remote_id: issues[at].id_readable,
        changes,
    };
    reconcile::each_bead_lands_where_its_reference_says(cfg, beads, issues, i);
    bead_is_found(beads, i);
    let k = choose|k: int| 0 <= k < paired.len() && paired[k] == pair;
    assert(paired[k] == pair);
    assert(table[k] == (beads[i].id@, issues[at].id_readable));
    if !(beads[i].status@ is Tombstone) && changes.len() > 0 {
        text::picked_holds(paired, f, k);
    }
    if p.link_changes.contains(told) {
        let m = choose|m: int| 0 <= m < p.link_changes.len() && p.link_changes[m] == told;
        text::picked_comes_from(paired, f, m);
    }
}

} // verus!
