//! Which links the mirror lacks, and which it has too many.
//!
//! Each kind of link is mirrored in one direction only, and a link is looked
//! for under the very identifier that it is written under. So the two ends of
//! a link never undo each other's work.

use crate::order;
use crate::order::add_text;
use crate::remote::model::{RemoteIssue, RemoteIssueView};
use crate::remote::youtrack::links;
use crate::remote::youtrack::links::{
    Direction, LinkKind, LinkTypes, LinkTypesView, LinkedIssue, LinkedIssueView, RemoteLinkView,
};
use crate::text;
use crate::text::{find_last, holds_text, same_text};
use vstd::prelude::*;
use vstd::string::*;

verus! {

broadcast use vstd::string::group_string_axioms;

/// One bead's relations, as bead identifiers.
#[derive(Debug, Clone, PartialEq, Eq)]
pub struct BeadLinks {
    /// The bead this one is a subtask of.
    pub parent: Option<String>,
    /// Beads that this one blocks.
    pub blocks: Vec<String>,
    /// Beads related to this one.
    pub related: Vec<String>,
}

impl Default for BeadLinks {
    fn default() -> (r: BeadLinks)
        ensures
            r.parent is None,
            r.blocks@.len() == 0,
            r.related@.len() == 0,
    {
        BeadLinks { parent: None, blocks: Vec::new(), related: Vec::new() }
    }
}

/// What contracts say of [`BeadLinks`].
pub struct BeadLinksView {
    pub parent: Option<Seq<char>>,
    pub blocks: Seq<Seq<char>>,
    pub related: Seq<Seq<char>>,
}

impl View for BeadLinks {
    type V = BeadLinksView;

    open spec fn view(&self) -> BeadLinksView {
        BeadLinksView {
            parent: text::seen(self.parent),
            blocks: text::views(self.blocks@),
            related: text::views(self.related@),
        }
    }
}

/// One link to create or to take away.
#[derive(Debug, Clone, PartialEq, Eq)]
pub enum LinkChange {
    Add { kind: LinkKind, target_readable: String },
    Remove {
        kind: LinkKind,
        /// The internal identifier, by which alone a link can be removed.
        target_internal_id: String,
        /// For the printed plan.
        target_readable: String,
    },
}

/// What contracts say of a [`LinkChange`].
pub enum LinkChangeView {
    Add { kind: LinkKind, target_readable: Seq<char> },
    Remove { kind: LinkKind, target_internal_id: Seq<char>, target_readable: Seq<char> },
}

impl View for LinkChange {
    type V = LinkChangeView;

    open spec fn view(&self) -> LinkChangeView {
        match self {
            LinkChange::Add { kind, target_readable } => LinkChangeView::Add {
                kind: *kind,
                target_readable: target_readable@,
            },
            LinkChange::Remove { kind, target_internal_id, target_readable } =>
                LinkChangeView::Remove {
                kind: *kind,
                target_internal_id: target_internal_id@,
                target_readable: target_readable@,
            },
        }
    }
}

/// The direction that a kind is mirrored in.
pub open spec fn direction_mirrored(kind: LinkKind) -> Direction {
    match kind {
        LinkKind::Subtask => Direction::TargetToSource,
        LinkKind::Depend => Direction::SourceToTarget,
        LinkKind::Relates => Direction::Undirected,
    }
}

/// The direction that a kind is mirrored in: a child names its parent, a
/// blocker what it blocks.
pub fn mirrored_direction(kind: LinkKind) -> (r: Direction)
    ensures
        r == direction_mirrored(kind),
{
    match kind {
        LinkKind::Subtask => Direction::TargetToSource,
        LinkKind::Depend => Direction::SourceToTarget,
        LinkKind::Relates => Direction::Undirected,
    }
}

/// How the wire names a direction.
pub open spec fn tag_of(direction: Direction) -> Seq<char> {
    match direction {
        Direction::SourceToTarget => "OUTWARD"@,
        Direction::TargetToSource => "INWARD"@,
        Direction::Undirected => "BOTH"@,
    }
}

/// The word that a fetched link carries for a direction.
pub fn direction_tag(direction: Direction) -> (r: &'static str)
    ensures
        r@ == tag_of(direction),
{
    match direction {
        Direction::SourceToTarget => "OUTWARD",
        Direction::TargetToSource => "INWARD",
        Direction::Undirected => "BOTH",
    }
}

/// The name that a kind is printed under.
pub open spec fn kind_text(kind: LinkKind) -> Seq<char> {
    match kind {
        LinkKind::Subtask => "parent"@,
        LinkKind::Depend => "blocks"@,
        LinkKind::Relates => "relates"@,
    }
}

/// The name that a kind is printed under.
pub fn kind_name(kind: LinkKind) -> (r: &'static str)
    ensures
        r@ == kind_text(kind),
{
    match kind {
        LinkKind::Subtask => "parent",
        LinkKind::Depend => "blocks",
        LinkKind::Relates => "relates",
    }
}

/// The identifier that a kind is read and written under.
pub open spec fn mirrored_link_id(types: LinkTypesView, kind: LinkKind) -> Seq<char> {
    links::link_id_of(types, kind, direction_mirrored(kind))
}

/// The issues that the mirror links to under an identifier.
pub open spec fn present_under(all: Seq<RemoteLinkView>, link_id: Seq<char>) -> Seq<LinkedIssueView>
    decreases all.len(),
{
    if all.len() == 0 {
        Seq::empty()
    } else if all.last().link_id == link_id {
        present_under(all.drop_last(), link_id) + all.last().issues
    } else {
        present_under(all.drop_last(), link_id)
    }
}

/// The readable identifiers of linked issues.
pub open spec fn readable_ids(issues: Seq<LinkedIssueView>) -> Seq<Seq<char>> {
    issues.map_values(|i: LinkedIssueView| i.id_readable)
}

/// The mirrors of beads, in order and each once. A bead without a mirror has
/// none to be linked to yet.
pub open spec fn mirrors_of(
    bead_ids: Seq<Seq<char>>,
    table: Seq<(Seq<char>, Seq<char>)>,
) -> Seq<Seq<char>> {
    order::distinct_sorted(
        text::picked(bead_ids, |id: Seq<char>| text::last_under(table, id)),
    )
}

/// The links of one kind to create: those wanted and not present.
pub open spec fn links_to_add(
    kind: LinkKind,
    wanted: Seq<Seq<char>>,
    present: Seq<LinkedIssueView>,
) -> Seq<LinkChangeView> {
    text::picked(
        wanted,
        |t: Seq<char>|
            if readable_ids(present).contains(t) {
                None
            } else {
                Some(LinkChangeView::Add { kind, target_readable: t })
            },
    )
}

/// The links of one kind to take away: those present and not wanted.
pub open spec fn links_to_remove(
    kind: LinkKind,
    wanted: Seq<Seq<char>>,
    present: Seq<LinkedIssueView>,
) -> Seq<LinkChangeView> {
    text::picked(
        present,
        |i: LinkedIssueView|
            if wanted.contains(i.id_readable) {
                None
            } else {
                Some(
                    LinkChangeView::Remove {
                        kind,
                        target_internal_id: i.id,
                        target_readable: i.id_readable,
                    },
                )
            },
    )
}

/// The changes of one kind.
pub open spec fn kind_changes(
    kind: LinkKind,
    bead_ids: Seq<Seq<char>>,
    remote: RemoteIssueView,
    types: LinkTypesView,
    table: Seq<(Seq<char>, Seq<char>)>,
) -> Seq<LinkChangeView> {
    let wanted = mirrors_of(bead_ids, table);
    let present = present_under(remote.links, mirrored_link_id(types, kind));
    links_to_add(kind, wanted, present) + links_to_remove(kind, wanted, present)
}

/// The parent as a list of one, or of none.
pub open spec fn parent_list(parent: Option<Seq<char>>) -> Seq<Seq<char>> {
    match parent {
        Some(p) => seq![p],
        None => Seq::empty(),
    }
}

/// All changes of a bead's links: parent, blocked and related beads, in this
/// order.
pub open spec fn link_changes(
    deps: BeadLinksView,
    remote: RemoteIssueView,
    types: LinkTypesView,
    table: Seq<(Seq<char>, Seq<char>)>,
) -> Seq<LinkChangeView> {
    kind_changes(LinkKind::Subtask, parent_list(deps.parent), remote, types, table)
        + kind_changes(LinkKind::Depend, deps.blocks, remote, types, table) + kind_changes(
        LinkKind::Relates,
        deps.related,
        remote,
        types,
        table,
    )
}

fn mirrors(bead_ids: &Vec<String>, table: &Vec<(String, String)>) -> (r: Vec<String>)
    ensures
        text::views(r@) == mirrors_of(text::views(bead_ids@), text::pairs(table@)),
{
    let ghost all = text::views(bead_ids@);
    let ghost f = |id: Seq<char>| text::last_under(text::pairs(table@), id);
    let mut out: Vec<String> = Vec::new();
    let mut i: usize = 0;
    assert(text::views(out@) =~= order::distinct_sorted(text::picked(all.take(0), f)));
    while i < bead_ids.len()
        invariant
            i <= bead_ids@.len(),
            all == text::views(bead_ids@),
            f == (|id: Seq<char>| text::last_under(text::pairs(table@), id)),
            text::views(out@) == order::distinct_sorted(text::picked(all.take(i as int), f)),
        decreases bead_ids@.len() - i,
    {
        proof {
            text::picked_step(all, f, i as int);
        }
        if let Some(target) = find_last(table, bead_ids[i].as_str()) {
            proof {
                let before = text::picked(all.take(i as int), f);
                assert(before.push(target@).drop_last() =~= before);
            }
            add_text(&mut out, target.as_str());
        }
        i += 1;
    }
    assert(all.take(i as int) =~= all);
    out
}

fn present<'a>(remote: &'a RemoteIssue, link_id: &str) -> (r: Vec<&'a LinkedIssue>)
    ensures
        text::views(r@) == present_under(remote@.links, link_id@),
{
    let ghost all = text::views(remote.links@);
    let mut out: Vec<&'a LinkedIssue> = Vec::new();
    let mut i: usize = 0;
    assert(text::views(out@) =~= present_under(all.take(0), link_id@));
    while i < remote.links.len()
        invariant
            i <= remote.links@.len(),
            all == text::views(remote.links@),
            text::views(out@) == present_under(all.take(i as int), link_id@),
        decreases remote.links@.len() - i,
    {
        assert(all.take(i + 1).drop_last() =~= all.take(i as int));
        assert(all.take(i + 1).last() == remote.links@[i as int]@);
        let link = &remote.links[i];
        if same_text(link.link_id.as_str(), link_id) {
            let ghost before = text::views(out@);
            let ghost more = text::views(link.issues@);
            let mut k: usize = 0;
            assert(before + more.take(0) =~= before);
            while k < link.issues.len()
                invariant
                    k <= link.issues@.len(),
                    more == text::views(link.issues@),
                    text::views(out@) == before + more.take(k as int),
                decreases link.issues@.len() - k,
            {
                proof {
                    text::views_push(out@, &link.issues@[k as int]);
                    assert((before + more.take(k as int)).push(more[k as int]) =~= before
                        + more.take(k + 1));
                }
                out.push(&link.issues[k]);
                k += 1;
            }
            assert(more.take(k as int) =~= more);
        }
        i += 1;
    }
    assert(all.take(i as int) =~= all);
    out
}

fn lists_readable(issues: &Vec<&LinkedIssue>, target: &str) -> (r: bool)
    ensures
        r == readable_ids(text::views(issues@)).contains(target@),
{
    let ghost ids = readable_ids(text::views(issues@));
    let mut i: usize = 0;
    while i < issues.len()
        invariant
            i <= issues@.len(),
            ids == readable_ids(text::views(issues@)),
            forall|j: int| 0 <= j < i ==> ids[j] != target@,
        decreases issues@.len() - i,
    {
        if same_text(issues[i].id_readable.as_str(), target) {
            assert(ids[i as int] == target@);
            return true;
        }
        i += 1;
    }
    false
}

fn diff_one_kind(
    changes: &mut Vec<LinkChange>,
    kind: LinkKind,
    bead_ids: &Vec<String>,
    remote: &RemoteIssue,
    types: &LinkTypes,
    table: &Vec<(String, String)>,
)
    ensures
        text::views(final(changes)@) == text::views(old(changes)@) + kind_changes(
            kind,
            text::views(bead_ids@),
            remote@,
            types@,
            text::pairs(table@),
        ),
{
    let wanted = mirrors(bead_ids, table);
    let link_id = types.link_id(kind, mirrored_direction(kind));
    let there = present(remote, link_id.as_str());
    let ghost w = text::views(wanted@);
    let ghost p = text::views(there@);
    let ghost start = text::views(changes@);
    let ghost add = |t: Seq<char>|
        if readable_ids(p).contains(t) {
            None
        } else {
            Some(LinkChangeView::Add { kind, target_readable: t })
        };
    let ghost take_away = |i: LinkedIssueView|
        if w.contains(i.id_readable) {
            None
        } else {
            Some(
                LinkChangeView::Remove {
                    kind,
                    target_internal_id: i.id,
                    target_readable: i.id_readable,
                },
            )
        };
    let mut i: usize = 0;
    assert(start + text::picked(w.take(0), add) =~= start);
    while i < wanted.len()
        invariant
            i <= wanted@.len(),
            w == text::views(wanted@),
            p == text::views(there@),
            add == (|t: Seq<char>|
                if readable_ids(p).contains(t) {
                    None
                } else {
                    Some(LinkChangeView::Add { kind, target_readable: t })
                }),
            text::views(changes@) == start + text::picked(w.take(i as int), add),
        decreases wanted@.len() - i,
    {
        proof {
            text::picked_step(w, add, i as int);
        }
        if !lists_readable(&there, wanted[i].as_str()) {
            let one = LinkChange::Add { kind, target_readable: wanted[i].clone() };
            proof {
                text::views_push(changes@, one);
            }
            changes.push(one);
        }
        i += 1;
        assert(text::views(changes@) =~= start + text::picked(w.take(i as int), add));
    }
    assert(w.take(i as int) =~= w);
    let ghost middle = text::views(changes@);
    let mut k: usize = 0;
    assert(middle + text::picked(p.take(0), take_away) =~= middle);
    while k < there.len()
        invariant
            k <= there@.len(),
            w == text::views(wanted@),
            p == text::views(there@),
            take_away == (|i: LinkedIssueView|
                if w.contains(i.id_readable) {
                    None
                } else {
                    Some(
                        LinkChangeView::Remove {
                            kind,
                            target_internal_id: i.id,
                            target_readable: i.id_readable,
                        },
                    )
                }),
            text::views(changes@) == middle + text::picked(p.take(k as int), take_away),
        decreases there@.len() - k,
    {
        proof {
            text::picked_step(p, take_away, k as int);
        }
        let issue = there[k];
        assert(p[k as int] == issue@);
        if !holds_text(&wanted, issue.id_readable.as_str()) {
            let one = LinkChange::Remove {
                kind,
                target_internal_id: issue.id.clone(),
                target_readable: issue.id_readable.clone(),
            };
            proof {
                text::views_push(changes@, one);
            }
            changes.push(one);
        }
        k += 1;
        assert(text::views(changes@) =~= middle + text::picked(p.take(k as int), take_away));
    }
    assert(p.take(k as int) =~= p);
    proof {
        let a = links_to_add(kind, w, p);
        let b = links_to_remove(kind, w, p);
        assert(a == text::picked(w, add));
        assert(b == text::picked(p, take_away));
        assert(start + a + b =~= start + (a + b));
    }
}

/// Compares a bead's relations with its mirror's links. `table` gives the
/// readable identifiers of the beads that have a mirror; a relation to any
/// other bead is left for a later run.
pub fn diff_links(
    deps: &BeadLinks,
    remote: &RemoteIssue,
    types: &LinkTypes,
    table: &Vec<(String, String)>,
) -> (r: Vec<LinkChange>)
    ensures
        text::views(r@) == link_changes(deps@, remote@, types@, text::pairs(table@)),
{
    let mut parent: Vec<String> = Vec::new();
    if let Some(p) = &deps.parent {
        parent.push(p.clone());
    }
    assert(text::views(parent@) =~= parent_list(deps@.parent));
    let mut changes: Vec<LinkChange> = Vec::new();
    diff_one_kind(&mut changes, LinkKind::Subtask, &parent, remote, types, table);
    diff_one_kind(&mut changes, LinkKind::Depend, &deps.blocks, remote, types, table);
    diff_one_kind(&mut changes, LinkKind::Relates, &deps.related, remote, types, table);
    assert(text::views(changes@) =~= link_changes(deps@, remote@, types@, text::pairs(table@)));
    changes
}

/// Once the mirror links to exactly what is wanted, nothing is left to add or
/// to take away.
pub proof fn settled_links_stay(
    kind: LinkKind,
    wanted: Seq<Seq<char>>,
    present: Seq<LinkedIssueView>,
)
    requires
        readable_ids(present).to_set() == wanted.to_set(),
    ensures
        links_to_add(kind, wanted, present).len() == 0,
        links_to_remove(kind, wanted, present).len() == 0,
{
    let ids = readable_ids(present);
    assert forall|i: int| 0 <= i < wanted.len() implies ids.contains(#[trigger] wanted[i]) by {
        assert(wanted.to_set().contains(wanted[i]));
        assert(ids.to_set().contains(wanted[i]));
    }
    assert forall|i: int| 0 <= i < present.len() implies wanted.contains(
        (#[trigger] present[i]).id_readable,
    ) by {
        assert(ids[i] == present[i].id_readable);
        assert(ids.to_set().contains(ids[i]));
        assert(wanted.to_set().contains(ids[i]));
    }
    text::picked_nothing(
        wanted,
        |t: Seq<char>|
            if readable_ids(present).contains(t) {
                None
            } else {
                Some(LinkChangeView::Add { kind, target_readable: t })
            },
    );
    text::picked_nothing(
        present,
        |i: LinkedIssueView|
            if wanted.contains(i.id_readable) {
                None
            } else {
                Some(
                    LinkChangeView::Remove {
                        kind,
                        target_internal_id: i.id,
                        target_readable: i.id_readable,
                    },
                )
            },
    );
}

/// A link that a bead holds is never taken off the mirror.
pub proof fn held_link_is_not_removed(
    kind: LinkKind,
    bead_ids: Seq<Seq<char>>,
    remote: RemoteIssueView,
    types: LinkTypesView,
    table: Seq<(Seq<char>, Seq<char>)>,
    other: Seq<char>,
    k: int,
)
    requires
        bead_ids.contains(other),
        text::last_under(table, other) is Some,
        0 <= k < kind_changes(kind, bead_ids, remote, types, table).len(),
    ensures
        kind_changes(kind, bead_ids, remote, types, table)[k] matches LinkChangeView::Remove {
            target_readable,
            ..
        } ==> target_readable != text::last_under(table, other)->0,
{
    let target = text::last_under(table, other)->0;
    let f = |id: Seq<char>| text::last_under(table, id);
    let found = text::picked(bead_ids, f);
    let wanted = mirrors_of(bead_ids, table);
    let present = present_under(remote.links, mirrored_link_id(types, kind));
    let i = choose|i: int| 0 <= i < bead_ids.len() && bead_ids[i] == other;
    text::picked_holds(bead_ids, f, i);
    order::distinct_sorted_facts(found);
    assert(found.to_set().contains(target));
    assert(wanted.to_set().contains(target));
    let added = links_to_add(kind, wanted, present);
    if k >= added.len() {
        text::picked_comes_from(
            present,
            |i: LinkedIssueView|
                if wanted.contains(i.id_readable) {
                    None
                } else {
                    Some(
                        LinkChangeView::Remove {
                            kind,
                            target_internal_id: i.id,
                            target_readable: i.id_readable,
                        },
                    )
                },
            k - added.len(),
        );
    } else {
        text::picked_comes_from(
            wanted,
            |t: Seq<char>|
                if readable_ids(present).contains(t) {
                    None
                } else {
                    Some(LinkChangeView::Add { kind, target_readable: t })
                },
            k,
        );
    }
}

/// A link to the issue is among those to add.
pub open spec fn is_added(changes: Seq<LinkChangeView>, target: Seq<char>) -> bool {
    exists|k: int|
        0 <= k < changes.len() && ((#[trigger] changes[k]) matches LinkChangeView::Add {
            target_readable,
            ..
        } && target_readable == target)
}

/// A link to the issue is among those to take away.
pub open spec fn is_removed(changes: Seq<LinkChangeView>, target: Seq<char>) -> bool {
    exists|k: int|
        0 <= k < changes.len() && ((#[trigger] changes[k]) matches LinkChangeView::Remove {
            target_readable,
            ..
        } && target_readable == target)
}

/// Once the changes have been made the mirror links to exactly what is
/// wanted: what it linked to and was not taken away, and what was added.
pub proof fn link_changes_converge(
    kind: LinkKind,
    wanted: Seq<Seq<char>>,
    present: Seq<LinkedIssueView>,
    target: Seq<char>,
)
    ensures
        ({
            let added = links_to_add(kind, wanted, present);
            let removed = links_to_remove(kind, wanted, present);
            let held = readable_ids(present).contains(target);
            wanted.contains(target) <==> (held && !is_removed(removed, target)) || is_added(
                added,
                target,
            )
        }),
{
    let ids = readable_ids(present);
    let adds = |t: Seq<char>|
        if readable_ids(present).contains(t) {
            None
        } else {
            Some(LinkChangeView::Add { kind, target_readable: t })
        };
    let removes = |i: LinkedIssueView|
        if wanted.contains(i.id_readable) {
            None
        } else {
            Some(
                LinkChangeView::Remove {
                    kind,
                    target_internal_id: i.id,
                    target_readable: i.id_readable,
                },
            )
        };
    let added = links_to_add(kind, wanted, present);
    let removed = links_to_remove(kind, wanted, present);
    if is_added(added, target) {
        let k = choose|k: int|
            0 <= k < added.len() && ((#[trigger] added[k]) matches LinkChangeView::Add {
                target_readable,
                ..
            } && target_readable == target);
        text::picked_comes_from(wanted, adds, k);
    }
    if is_removed(removed, target) {
        let k = choose|k: int|
            0 <= k < removed.len() && ((#[trigger] removed[k]) matches LinkChangeView::Remove {
                target_readable,
                ..
            } && target_readable == target);
        text::picked_comes_from(present, removes, k);
    }
    if wanted.contains(target) && !ids.contains(target) {
        let i = choose|i: int| 0 <= i < wanted.len() && wanted[i] == target;
        text::picked_holds(wanted, adds, i);
        let change = adds(wanted[i])->0;
        let k = choose|k: int| 0 <= k < added.len() && added[k] == change;
        assert(added[k] == change);
    }
    if ids.contains(target) && !wanted.contains(target) {
        let i = choose|i: int| 0 <= i < ids.len() && ids[i] == target;
        assert(present[i].id_readable == target);
        text::picked_holds(present, removes, i);
        let change = removes(present[i])->0;
        let k = choose|k: int| 0 <= k < removed.len() && removed[k] == change;
        assert(removed[k] == change);
    }
}

/// The bead stands in a relation of this kind to the other one: under it, in
/// its way, or related to it.
pub open spec fn stands_to(deps: BeadLinks, kind: LinkKind, other: Seq<char>) -> bool {
    match kind {
        LinkKind::Subtask => deps.parent matches Some(parent) && parent@ == other,
        LinkKind::Depend => exists|i: int|
            0 <= i < deps.blocks@.len() && (#[trigger] deps.blocks@[i])@ == other,
        LinkKind::Relates => exists|i: int|
            0 <= i < deps.related@.len() && (#[trigger] deps.related@[i])@ == other,
    }
}

/// The table leads from the bead to the issue. Of several entries of a bead
/// the last one counts.
pub open spec fn leads_to(
    table: Seq<(Seq<char>, Seq<char>)>,
    bead: Seq<char>,
    issue: Seq<char>,
) -> bool {
    exists|i: int|
        #![trigger table[i]]
        0 <= i < table.len() && table[i] == (bead, issue) && forall|j: int|
            i < j < table.len() ==> (#[trigger] table[j]).0 != bead
}

/// The bead wants its mirror to have a link of this kind to the issue.
pub open spec fn wants_link(
    deps: BeadLinks,
    table: Seq<(Seq<char>, Seq<char>)>,
    kind: LinkKind,
    issue: Seq<char>,
) -> bool {
    exists|bead: Seq<char>| #[trigger] stands_to(deps, kind, bead) && leads_to(table, bead, issue)
}

/// The mirror has a link of this kind to the issue: a child names its parent
/// at the target end, a blocker what it blocks at the source end, and related
/// issues name each other at either.
pub open spec fn has_link(
    remote: RemoteIssue,
    types: LinkTypes,
    kind: LinkKind,
    issue: Seq<char>,
) -> bool {
    exists|l: int, i: int|
        #![trigger remote.links@[l].issues@[i]]
        0 <= l < remote.links@.len() && 0 <= i < remote.links@[l].issues@.len()
            && remote.links@[l].link_id@ == (match kind {
            LinkKind::Subtask => types.subtask@ + "t"@,
            LinkKind::Depend => types.depend@ + "s"@,
            LinkKind::Relates => types.relates@,
        }) && remote.links@[l].issues@[i].id_readable@ == issue
}

/// The changes add a link of this kind to the issue.
pub open spec fn adds_link(
    changes: Seq<LinkChangeView>,
    kind: LinkKind,
    issue: Seq<char>,
) -> bool {
    exists|k: int|
        0 <= k < changes.len() && #[trigger] changes[k] == (LinkChangeView::Add {
            kind,
            target_readable: issue,
        })
}

/// The changes take a link of this kind to the issue away.
pub open spec fn removes_link(
    changes: Seq<LinkChangeView>,
    kind: LinkKind,
    issue: Seq<char>,
) -> bool {
    exists|k: int|
        0 <= k < changes.len() && (#[trigger] changes[k] matches LinkChangeView::Remove {
            kind: of,
            target_readable,
            ..
        } && of == kind && target_readable == issue)
}

/// A link is added exactly where the bead wants it and the mirror lacks it,
/// and taken away exactly where the mirror has it and the bead does not want
/// it. So after the changes the mirror links, under each kind, to exactly the
/// issues that the bead's own relations lead to.
pub proof fn mirror_gets_the_links_of_the_bead(
    deps: BeadLinks,
    remote: RemoteIssue,
    types: LinkTypes,
    table: Seq<(Seq<char>, Seq<char>)>,
    kind: LinkKind,
    issue: Seq<char>,
)
    ensures
        ({
            let changes = link_changes(deps@, remote@, types@, table);
            let wanted = wants_link(deps, table, kind, issue);
            let held = has_link(remote, types, kind, issue);
            &&& adds_link(changes, kind, issue) <==> wanted && !held
            &&& removes_link(changes, kind, issue) <==> held && !wanted
            &&& wanted <==> (held && !removes_link(changes, kind, issue)) || adds_link(
                changes,
                kind,
                issue,
            )
        }),
{
    let ids = relatives(deps@, kind);
    let changes = link_changes(deps@, remote@, types@, table);
    let part = kind_changes(kind, ids, remote@, types@, table);
    let present = present_under(remote@.links, mirrored_link_id(types@, kind));
    let wanted = mirrors_of(ids, table);
    kind_of_change(kind, wanted, present);
    parts_of_changes(deps@, remote@, types@, table);
    link_changes_converge(kind, wanted, present, issue);
    link_is_present(remote, types, kind, issue);
    link_is_wanted(deps, table, kind, issue);
    let added = links_to_add(kind, wanted, present);
    let removed = links_to_remove(kind, wanted, present);
    if adds_link(changes, kind, issue) {
        let k = choose|k: int|
            0 <= k < changes.len() && #[trigger] changes[k] == (LinkChangeView::Add {
                kind,
                target_readable: issue,
            });
        let m = change_within(deps@, remote@, types@, table, kind, k);
        assert(part[m] == changes[k]);
        assert(m < added.len());
        assert(added[m] == changes[k]);
        assert(is_added(added, issue));
    }
    if removes_link(changes, kind, issue) {
        let k = choose|k: int|
            0 <= k < changes.len() && (#[trigger] changes[k] matches LinkChangeView::Remove {
                kind: of,
                target_readable,
                ..
            } && of == kind && target_readable == issue);
        let m = change_within(deps@, remote@, types@, table, kind, k);
        assert(part[m] == changes[k]);
        assert(m >= added.len());
        assert(removed[m - added.len()] == changes[k]);
        assert(is_removed(removed, issue));
    }
    if is_added(added, issue) {
        let m = choose|m: int|
            0 <= m < added.len() && ((#[trigger] added[m]) matches LinkChangeView::Add {
                target_readable,
                ..
            } && target_readable == issue);
        assert(part[m] == added[m]);
        let k = change_among(deps@, remote@, types@, table, kind, m);
        assert(added[m] == (LinkChangeView::Add { kind, target_readable: issue }));
        assert(changes[k] == added[m]);
        assert(adds_link(changes, kind, issue));
    }
    if is_removed(removed, issue) {
        let m = choose|m: int|
            0 <= m < removed.len() && ((#[trigger] removed[m]) matches LinkChangeView::Remove {
                target_readable,
                ..
            } && target_readable == issue);
        assert(part[added.len() + m] == removed[m]);
        let k = change_among(deps@, remote@, types@, table, kind, added.len() + m);
        assert(changes[k] == removed[m]);
        assert(removes_link(changes, kind, issue));
    }
    change_has_its_reason(kind, wanted, present, issue);
}

proof fn change_has_its_reason(
    kind: LinkKind,
    wanted: Seq<Seq<char>>,
    present: Seq<LinkedIssueView>,
    issue: Seq<char>,
)
    ensures
        is_added(links_to_add(kind, wanted, present), issue) ==> !readable_ids(present).contains(
            issue,
        ),
        is_removed(links_to_remove(kind, wanted, present), issue) ==> !wanted.contains(issue)
            && readable_ids(present).contains(issue),
{
    let added = links_to_add(kind, wanted, present);
    let removed = links_to_remove(kind, wanted, present);
    if is_added(added, issue) {
        let m = choose|m: int|
            0 <= m < added.len() && ((#[trigger] added[m]) matches LinkChangeView::Add {
                target_readable,
                ..
            } && target_readable == issue);
        text::picked_comes_from(
            wanted,
            |t: Seq<char>|
                if readable_ids(present).contains(t) {
                    None
                } else {
                    Some(LinkChangeView::Add { kind, target_readable: t })
                },
            m,
        );
    }
    if is_removed(removed, issue) {
        let m = choose|m: int|
            0 <= m < removed.len() && ((#[trigger] removed[m]) matches LinkChangeView::Remove {
                target_readable,
                ..
            } && target_readable == issue);
        let f = |i: LinkedIssueView|
            if wanted.contains(i.id_readable) {
                None
            } else {
                Some(
                    LinkChangeView::Remove {
                        kind,
                        target_internal_id: i.id,
                        target_readable: i.id_readable,
                    },
                )
            };
        text::picked_comes_from(present, f, m);
        let i = choose|i: int| 0 <= i < present.len() && f(#[trigger] present[i]) == Some(
            removed[m],
        );
        assert(readable_ids(present)[i] == issue);
    }
}

/// The other beads of one kind.
spec fn relatives(deps: BeadLinksView, kind: LinkKind) -> Seq<Seq<char>> {
    match kind {
        LinkKind::Subtask => parent_list(deps.parent),
        LinkKind::Depend => deps.blocks,
        LinkKind::Relates => deps.related,
    }
}

proof fn parts_of_changes(
    deps: BeadLinksView,
    remote: RemoteIssueView,
    types: LinkTypesView,
    table: Seq<(Seq<char>, Seq<char>)>,
)
    ensures
        link_changes(deps, remote, types, table) == kind_changes(
            LinkKind::Subtask,
            relatives(deps, LinkKind::Subtask),
            remote,
            types,
            table,
        ) + kind_changes(
            LinkKind::Depend,
            relatives(deps, LinkKind::Depend),
            remote,
            types,
            table,
        ) + kind_changes(
            LinkKind::Relates,
            relatives(deps, LinkKind::Relates),
            remote,
            types,
            table,
        ),
{
}

/// Every change of one kind is of that kind, additions before removals.
proof fn kind_of_change(kind: LinkKind, wanted: Seq<Seq<char>>, present: Seq<LinkedIssueView>)
    ensures
        forall|k: int|
            0 <= k < links_to_add(kind, wanted, present).len() ==> (#[trigger] links_to_add(
                kind,
                wanted,
                present,
            )[k] matches LinkChangeView::Add { kind: of, .. } && of == kind),
        forall|k: int|
            0 <= k < links_to_remove(kind, wanted, present).len() ==> (#[trigger] links_to_remove(
                kind,
                wanted,
                present,
            )[k] matches LinkChangeView::Remove { kind: of, .. } && of == kind),
{
    assert forall|k: int| 0 <= k < links_to_add(kind, wanted, present).len() implies (
    #[trigger] links_to_add(kind, wanted, present)[k] matches LinkChangeView::Add {
        kind: of,
        ..
    } && of == kind) by {
        text::picked_comes_from(
            wanted,
            |t: Seq<char>|
                if readable_ids(present).contains(t) {
                    None
                } else {
                    Some(LinkChangeView::Add { kind, target_readable: t })
                },
            k,
        );
    }
    assert forall|k: int| 0 <= k < links_to_remove(kind, wanted, present).len() implies (
    #[trigger] links_to_remove(kind, wanted, present)[k] matches LinkChangeView::Remove {
        kind: of,
        ..
    } && of == kind) by {
        text::picked_comes_from(
            present,
            |i: LinkedIssueView|
                if wanted.contains(i.id_readable) {
                    None
                } else {
                    Some(
                        LinkChangeView::Remove {
                            kind,
                            target_internal_id: i.id,
                            target_readable: i.id_readable,
                        },
                    )
                },
            k,
        );
    }
}

/// The kind of a change.
pub open spec fn kind_changed(change: LinkChangeView) -> LinkKind {
    match change {
        LinkChangeView::Add { kind, .. } => kind,
        LinkChangeView::Remove { kind, .. } => kind,
    }
}

proof fn kind_holds(
    kind: LinkKind,
    ids: Seq<Seq<char>>,
    remote: RemoteIssueView,
    types: LinkTypesView,
    table: Seq<(Seq<char>, Seq<char>)>,
)
    ensures
        forall|k: int|
            0 <= k < kind_changes(kind, ids, remote, types, table).len() ==> kind_changed(
                #[trigger] kind_changes(kind, ids, remote, types, table)[k],
            ) == kind,
{
    let wanted = mirrors_of(ids, table);
    let present = present_under(remote.links, mirrored_link_id(types, kind));
    let added = links_to_add(kind, wanted, present);
    let removed = links_to_remove(kind, wanted, present);
    let all = kind_changes(kind, ids, remote, types, table);
    kind_of_change(kind, wanted, present);
    assert forall|k: int| 0 <= k < all.len() implies kind_changed(#[trigger] all[k]) == kind by {
        if k < added.len() {
            assert(all[k] == added[k]);
        } else {
            assert(all[k] == removed[k - added.len()]);
        }
    }
}

proof fn change_within(
    deps: BeadLinksView,
    remote: RemoteIssueView,
    types: LinkTypesView,
    table: Seq<(Seq<char>, Seq<char>)>,
    kind: LinkKind,
    k: int,
) -> (m: int)
    requires
        0 <= k < link_changes(deps, remote, types, table).len(),
        kind_changed(link_changes(deps, remote, types, table)[k]) == kind,
    ensures
        0 <= m < kind_changes(kind, relatives(deps, kind), remote, types, table).len(),
        kind_changes(kind, relatives(deps, kind), remote, types, table)[m] == link_changes(
            deps,
            remote,
            types,
            table,
        )[k],
{
    let a = kind_changes(
        LinkKind::Subtask,
        relatives(deps, LinkKind::Subtask),
        remote,
        types,
        table,
    );
    let b = kind_changes(
        LinkKind::Depend,
        relatives(deps, LinkKind::Depend),
        remote,
        types,
        table,
    );
    let c = kind_changes(
        LinkKind::Relates,
        relatives(deps, LinkKind::Relates),
        remote,
        types,
        table,
    );
    parts_of_changes(deps, remote, types, table);
    kind_holds(LinkKind::Subtask, relatives(deps, LinkKind::Subtask), remote, types, table);
    kind_holds(LinkKind::Depend, relatives(deps, LinkKind::Depend), remote, types, table);
    kind_holds(LinkKind::Relates, relatives(deps, LinkKind::Relates), remote, types, table);
    let all = a + b + c;
    if k < a.len() {
        assert(all[k] == a[k]);
        k
    } else if k < a.len() + b.len() {
        assert(all[k] == b[k - a.len()]);
        k - a.len()
    } else {
        assert(all[k] == c[k - a.len() - b.len()]);
        k - a.len() - b.len()
    }
}

proof fn change_among(
    deps: BeadLinksView,
    remote: RemoteIssueView,
    types: LinkTypesView,
    table: Seq<(Seq<char>, Seq<char>)>,
    kind: LinkKind,
    m: int,
) -> (k: int)
    requires
        0 <= m < kind_changes(kind, relatives(deps, kind), remote, types, table).len(),
    ensures
        0 <= k < link_changes(deps, remote, types, table).len(),
        kind_changes(kind, relatives(deps, kind), remote, types, table)[m] == link_changes(
            deps,
            remote,
            types,
            table,
        )[k],
{
    let a = kind_changes(
        LinkKind::Subtask,
        relatives(deps, LinkKind::Subtask),
        remote,
        types,
        table,
    );
    let b = kind_changes(
        LinkKind::Depend,
        relatives(deps, LinkKind::Depend),
        remote,
        types,
        table,
    );
    let c = kind_changes(
        LinkKind::Relates,
        relatives(deps, LinkKind::Relates),
        remote,
        types,
        table,
    );
    parts_of_changes(deps, remote, types, table);
    let all = a + b + c;
    match kind {
        LinkKind::Subtask => {
            assert(all[m] == a[m]);
            m
        },
        LinkKind::Depend => {
            assert(all[a.len() + m] == b[m]);
            a.len() + m
        },
        LinkKind::Relates => {
            assert(all[a.len() + b.len() + m] == c[m]);
            a.len() + b.len() + m
        },
    }
}

proof fn link_is_present(remote: RemoteIssue, types: LinkTypes, kind: LinkKind, issue: Seq<char>)
    ensures
        has_link(remote, types, kind, issue) <==> readable_ids(
            present_under(remote@.links, mirrored_link_id(types@, kind)),
        ).contains(issue),
{
    let id = mirrored_link_id(types@, kind);
    let all = remote@.links;
    let ids = readable_ids(present_under(all, id));
    if has_link(remote, types, kind, issue) {
        let (l, i) = choose|l: int, i: int|
            #![trigger remote.links@[l].issues@[i]]
            0 <= l < remote.links@.len() && 0 <= i < remote.links@[l].issues@.len()
                && remote.links@[l].link_id@ == (match kind {
                LinkKind::Subtask => types.subtask@ + "t"@,
                LinkKind::Depend => types.depend@ + "s"@,
                LinkKind::Relates => types.relates@,
            }) && remote.links@[l].issues@[i].id_readable@ == issue;
        assert(all[l] == remote.links@[l]@);
        assert(all[l].issues[i] == remote.links@[l].issues@[i]@);
        let k = linked_is_present(all, id, l, i);
        assert(ids[k] == issue);
    }
    if ids.contains(issue) {
        let k = choose|k: int| 0 <= k < ids.len() && ids[k] == issue;
        let (l, i) = present_is_linked(all, id, k);
        assert(all[l] == remote.links@[l]@);
        assert(all[l].issues[i] == remote.links@[l].issues@[i]@);
        assert(remote.links@[l].issues@[i].id_readable@ == issue);
    }
}

proof fn linked_is_present(all: Seq<RemoteLinkView>, id: Seq<char>, l: int, i: int) -> (k: int)
    requires
        0 <= l < all.len(),
        all[l].link_id == id,
        0 <= i < all[l].issues.len(),
    ensures
        0 <= k < present_under(all, id).len(),
        present_under(all, id)[k] == all[l].issues[i],
    decreases all.len(),
{
    let front = all.drop_last();
    if l == all.len() - 1 {
        present_under(front, id).len() + i
    } else {
        assert(front[l] == all[l]);
        let k = linked_is_present(front, id, l, i);
        assert(present_under(all, id)[k] == present_under(front, id)[k]);
        k
    }
}

proof fn present_is_linked(all: Seq<RemoteLinkView>, id: Seq<char>, k: int) -> (r: (int, int))
    requires
        0 <= k < present_under(all, id).len(),
    ensures
        0 <= r.0 < all.len(),
        all[r.0].link_id == id,
        0 <= r.1 < all[r.0].issues.len(),
        present_under(all, id)[k] == all[r.0].issues[r.1],
    decreases all.len(),
{
    let front = all.drop_last();
    if k < present_under(front, id).len() {
        let r = present_is_linked(front, id, k);
        assert(front[r.0] == all[r.0]);
        r
    } else {
        (all.len() - 1, k - present_under(front, id).len())
    }
}

/// What a table holds last under a key is where it leads.
pub proof fn table_leads(table: Seq<(Seq<char>, Seq<char>)>, bead: Seq<char>, issue: Seq<char>)
    ensures
        text::last_under(table, bead) == Some(issue) <==> leads_to(table, bead, issue),
    decreases table.len(),
{
    if table.len() > 0 {
        let front = table.drop_last();
        let last = table.len() - 1;
        table_leads(front, bead, issue);
        if table.last().0 == bead {
            if table.last().1 == issue {
                assert(table[last] == (bead, issue));
            }
            if leads_to(table, bead, issue) {
                let i = choose|i: int|
                    #![trigger table[i]]
                    0 <= i < table.len() && table[i] == (bead, issue) && forall|j: int|
                        i < j < table.len() ==> (#[trigger] table[j]).0 != bead;
                assert(i == last) by {
                    if i < last {
                        assert(table[last].0 != bead);
                    }
                }
            }
        } else {
            if leads_to(front, bead, issue) {
                let i = choose|i: int|
                    #![trigger front[i]]
                    0 <= i < front.len() && front[i] == (bead, issue) && forall|j: int|
                        i < j < front.len() ==> (#[trigger] front[j]).0 != bead;
                assert(table[i] == front[i]);
                assert forall|j: int| i < j < table.len() implies (#[trigger] table[j]).0
                    != bead by {
                    if j < last {
                        assert(front[j] == table[j]);
                    }
                }
            }
            if leads_to(table, bead, issue) {
                let i = choose|i: int|
                    #![trigger table[i]]
                    0 <= i < table.len() && table[i] == (bead, issue) && forall|j: int|
                        i < j < table.len() ==> (#[trigger] table[j]).0 != bead;
                assert(i < last);
                assert(front[i] == table[i]);
                assert forall|j: int| i < j < front.len() implies (#[trigger] front[j]).0
                    != bead by {
                    assert(front[j] == table[j]);
                }
            }
        }
    }
}

proof fn link_is_wanted(
    deps: BeadLinks,
    table: Seq<(Seq<char>, Seq<char>)>,
    kind: LinkKind,
    issue: Seq<char>,
)
    ensures
        wants_link(deps, table, kind, issue) <==> mirrors_of(
            relatives(deps@, kind),
            table,
        ).contains(issue),
{
    let ids = relatives(deps@, kind);
    let f = |id: Seq<char>| text::last_under(table, id);
    let found = text::picked(ids, f);
    let wanted = mirrors_of(ids, table);
    order::distinct_sorted_facts(found);
    assert(wanted.to_set().contains(issue) == found.to_set().contains(issue));
    if wants_link(deps, table, kind, issue) {
        let bead = choose|bead: Seq<char>| #[trigger]
            stands_to(deps, kind, bead) && leads_to(table, bead, issue);
        table_leads(table, bead, issue);
        let i = match kind {
            LinkKind::Subtask => 0,
            LinkKind::Depend => choose|i: int|
                0 <= i < deps.blocks@.len() && (#[trigger] deps.blocks@[i])@ == bead,
            LinkKind::Relates => choose|i: int|
                0 <= i < deps.related@.len() && (#[trigger] deps.related@[i])@ == bead,
        };
        assert(ids[i] == bead);
        text::picked_holds(ids, f, i);
    }
    if found.contains(issue) {
        let k = choose|k: int| 0 <= k < found.len() && found[k] == issue;
        text::picked_comes_from(ids, f, k);
        let i = choose|i: int| 0 <= i < ids.len() && f(#[trigger] ids[i]) == Some(found[k]);
        table_leads(table, ids[i], issue);
        match kind {
            LinkKind::Subtask => {},
            LinkKind::Depend => {
                assert(deps.blocks@[i]@ == ids[i]);
            },
            LinkKind::Relates => {
                assert(deps.related@[i]@ == ids[i]);
            },
        }
        assert(stands_to(deps, kind, ids[i]));
    }
}

/// A link is taken away by the internal identifier of the very issue that the
/// mirror links to, and every link to an unwanted issue is.
pub proof fn links_are_removed_by_internal_identifier(
    deps: BeadLinks,
    remote: RemoteIssue,
    types: LinkTypes,
    table: Seq<(Seq<char>, Seq<char>)>,
    kind: LinkKind,
    l: int,
    i: int,
)
    requires
        0 <= l < remote.links@.len(),
        0 <= i < remote.links@[l].issues@.len(),
        remote.links@[l].link_id@ == (match kind {
            LinkKind::Subtask => types.subtask@ + "t"@,
            LinkKind::Depend => types.depend@ + "s"@,
            LinkKind::Relates => types.relates@,
        }),
        !wants_link(deps, table, kind, remote.links@[l].issues@[i].id_readable@),
    ensures
        link_changes(deps@, remote@, types@, table).contains(
            (LinkChangeView::Remove {
                kind,
                target_internal_id: remote.links@[l].issues@[i].id@,
                target_readable: remote.links@[l].issues@[i].id_readable@,
            }),
        ),
{
    let ids = relatives(deps@, kind);
    let id = mirrored_link_id(types@, kind);
    let all = remote@.links;
    let issue = remote.links@[l].issues@[i]@;
    assert(all[l] == remote.links@[l]@);
    assert(all[l].issues[i] == issue);
    let present = present_under(all, id);
    let wanted = mirrors_of(ids, table);
    let p = linked_is_present(all, id, l, i);
    link_is_wanted(deps, table, kind, issue.id_readable);
    let f = |i: LinkedIssueView|
        if wanted.contains(i.id_readable) {
            None
        } else {
            Some(
                LinkChangeView::Remove {
                    kind,
                    target_internal_id: i.id,
                    target_readable: i.id_readable,
                },
            )
        };
    text::picked_holds(present, f, p);
    let removed = links_to_remove(kind, wanted, present);
    let added = links_to_add(kind, wanted, present);
    let want = f(present[p])->0;
    let m = choose|m: int| 0 <= m < removed.len() && removed[m] == want;
    let part = kind_changes(kind, ids, remote@, types@, table);
    assert(part[added.len() + m] == removed[m]);
    let k = change_among(deps@, remote@, types@, table, kind, added.len() + m);
    assert(link_changes(deps@, remote@, types@, table)[k] == want);
}

/// Changes come by kind: parents, then what is blocked, then what is related.
/// Within a kind links are added before any is taken away.
pub proof fn link_changes_come_by_kind(
    deps: BeadLinksView,
    remote: RemoteIssueView,
    types: LinkTypesView,
    table: Seq<(Seq<char>, Seq<char>)>,
    k: int,
    m: int,
)
    requires
        0 <= k < m < link_changes(deps, remote, types, table).len(),
    ensures
        ({
            let a = link_changes(deps, remote, types, table)[k];
            let b = link_changes(deps, remote, types, table)[m];
            &&& kind_changed(b) is Subtask ==> kind_changed(a) is Subtask
            &&& kind_changed(a) is Relates ==> kind_changed(b) is Relates
            &&& kind_changed(a) == kind_changed(b) && a is Remove ==> b is Remove
        }),
{
    let x = relatives(deps, LinkKind::Subtask);
    let y = relatives(deps, LinkKind::Depend);
    let z = relatives(deps, LinkKind::Relates);
    let a = kind_changes(LinkKind::Subtask, x, remote, types, table);
    let b = kind_changes(LinkKind::Depend, y, remote, types, table);
    let c = kind_changes(LinkKind::Relates, z, remote, types, table);
    parts_of_changes(deps, remote, types, table);
    kind_holds(LinkKind::Subtask, x, remote, types, table);
    kind_holds(LinkKind::Depend, y, remote, types, table);
    kind_holds(LinkKind::Relates, z, remote, types, table);
    let all = a + b + c;
    let n = a.len() + b.len();
    assert(forall|i: int| 0 <= i < a.len() ==> #[trigger] all[i] == a[i]);
    assert(forall|i: int| a.len() <= i < n ==> #[trigger] all[i] == b[i - a.len()]);
    assert(forall|i: int| n <= i < all.len() ==> #[trigger] all[i] == c[i - n]);
    if kind_changed(all[k]) == kind_changed(all[m]) {
        if m < a.len() {
            additions_come_first(LinkKind::Subtask, x, remote, types, table, k, m);
        } else if m < n {
            assert(k >= a.len()) by {
                if k < a.len() {
                    assert(kind_changed(a[k]) is Subtask);
                    assert(kind_changed(b[m - a.len()]) is Depend);
                }
            }
            additions_come_first(
                LinkKind::Depend,
                y,
                remote,
                types,
                table,
                k - a.len(),
                m - a.len(),
            );
        } else {
            assert(k >= n) by {
                assert(kind_changed(c[m - n]) is Relates);
                if k < a.len() {
                    assert(kind_changed(a[k]) is Subtask);
                } else if k < n {
                    assert(kind_changed(b[k - a.len()]) is Depend);
                }
            }
            additions_come_first(LinkKind::Relates, z, remote, types, table, k - n, m - n);
        }
    }
    if m < a.len() {
        assert(kind_changed(a[k]) is Subtask && kind_changed(a[m]) is Subtask);
    } else if m < n {
        assert(kind_changed(b[m - a.len()]) is Depend);
        if k < a.len() {
            assert(kind_changed(a[k]) is Subtask);
        } else {
            assert(kind_changed(b[k - a.len()]) is Depend);
        }
    } else {
        assert(kind_changed(c[m - n]) is Relates);
    }
}

proof fn additions_come_first(
    kind: LinkKind,
    ids: Seq<Seq<char>>,
    remote: RemoteIssueView,
    types: LinkTypesView,
    table: Seq<(Seq<char>, Seq<char>)>,
    k: int,
    m: int,
)
    requires
        0 <= k < m < kind_changes(kind, ids, remote, types, table).len(),
    ensures
        kind_changes(kind, ids, remote, types, table)[k] is Remove ==> kind_changes(
            kind,
            ids,
            remote,
            types,
            table,
        )[m] is Remove,
{
    let wanted = mirrors_of(ids, table);
    let present = present_under(remote.links, mirrored_link_id(types, kind));
    let added = links_to_add(kind, wanted, present);
    let removed = links_to_remove(kind, wanted, present);
    let all = kind_changes(kind, ids, remote, types, table);
    kind_of_change(kind, wanted, present);
    if k < added.len() {
        assert(all[k] == added[k]);
    } else {
        assert(all[m] == removed[m - added.len()]);
    }
}

} // verus!
