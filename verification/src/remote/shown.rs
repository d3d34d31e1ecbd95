//! What the rendering of a plan shows.

use crate::remote::diff;
use crate::remote::diff::{Direction, FieldChange, FieldChangeView};
use crate::remote::link_diff::{LinkChange, LinkChangeView};
use crate::remote::plan;
use crate::remote::plan::{
    Adoption, CommentPlan, CommentPlanView, DanglingRef, Directed, IssueFieldPlan,
    IssueFieldPlanView, IssueLinkPlan, PlanScope, Printed, ReconcilePlanView, RefusedAdoption,
    TombstonedPair, UnmappedLocal, UnmirroredLink,
};
use crate::remote::youtrack::links::LinkKind;
use crate::text;
use vstd::prelude::*;

verus! {

/// What one of the items says is in what all of them say.
proof fn told_shows<A>(s: Seq<A>, f: spec_fn(A) -> Seq<char>, i: int, needle: Seq<char>)
    requires
        0 <= i < s.len(),
        text::holds(f(s[i]), needle),
    ensures
        text::holds(text::told(s, f), needle),
    decreases s.len(),
{
    let rest = s.drop_last();
    let before = text::told(rest, f);
    let last = f(s.last());
    let none = Seq::<char>::empty();
    if i < rest.len() {
        assert(rest[i] == s[i]);
        told_shows(rest, f, i, needle);
        text::holds_within(none, before, last, needle);
        assert(none + before + last =~= before + last);
    } else {
        text::holds_within(before, last, none, needle);
        assert(before + last + none =~= before + last);
    }
}

/// The sections of a rendering, in their order.
spec fn sections(p: ReconcilePlanView, scope: PlanScope) -> Seq<Seq<char>> {
    seq![
        plan::creates_text(p, scope),
        plan::updates_text(p, scope),
        plan::links_text(p, scope),
        plan::comments_text(p, scope),
        plan::adoptions_text(p, scope),
        plan::refusals_text(p, scope),
        plan::tombstones_text(p, scope),
        plan::dangling_text(p),
        plan::unmapped_text(p, scope),
        plan::scope_text(p),
        plan::unmirrored_text(p),
        plan::closing_text(p, scope),
        plan::notes_text(p),
    ]
}

proof fn last_is_told(s: Seq<Seq<char>>, x: Seq<char>)
    ensures
        text::told(s.push(x), |t: Seq<char>| t) == text::told(s, |t: Seq<char>| t) + x,
{
    assert(s.push(x).drop_last() =~= s);
}

proof fn sections_make_the_text(p: ReconcilePlanView, scope: PlanScope)
    ensures
        plan::plan_text(p, scope) == text::told(sections(p, scope), |t: Seq<char>| t),
{
    let all = sections(p, scope);
    let none = Seq::<Seq<char>>::empty();
    let s1 = none.push(all[0]);
    let s2 = s1.push(all[1]);
    let s3 = s2.push(all[2]);
    let s4 = s3.push(all[3]);
    let s5 = s4.push(all[4]);
    let s6 = s5.push(all[5]);
    let s7 = s6.push(all[6]);
    let s8 = s7.push(all[7]);
    let s9 = s8.push(all[8]);
    let s10 = s9.push(all[9]);
    let s11 = s10.push(all[10]);
    let s12 = s11.push(all[11]);
    let s13 = s12.push(all[12]);
    assert(s13 =~= all);
    last_is_told(none, all[0]);
    assert(text::told(none, |t: Seq<char>| t) =~= Seq::empty());
    assert(text::told(s1, |t: Seq<char>| t) =~= all[0]);
    last_is_told(s1, all[1]);
    last_is_told(s2, all[2]);
    last_is_told(s3, all[3]);
    last_is_told(s4, all[4]);
    last_is_told(s5, all[5]);
    last_is_told(s6, all[6]);
    last_is_told(s7, all[7]);
    last_is_told(s8, all[8]);
    last_is_told(s9, all[9]);
    last_is_told(s10, all[10]);
    last_is_told(s11, all[11]);
    last_is_told(s12, all[12]);
}

/// What a section of a rendering shows, the rendering shows.
proof fn section_is_shown(p: ReconcilePlanView, scope: PlanScope, k: int, needle: Seq<char>)
    requires
        0 <= k < 13,
        text::holds(sections(p, scope)[k], needle),
    ensures
        text::holds(plan::plan_text(p, scope), needle),
{
    sections_make_the_text(p, scope);
    told_shows(sections(p, scope), |t: Seq<char>| t, k, needle);
}

/// What an entry under a heading says, the section says.
proof fn listed_under_heading(heading: Seq<char>, lines: Seq<char>, needle: Seq<char>)
    requires
        text::holds(lines, needle),
    ensures
        text::holds(heading + lines, needle),
{
    let none = Seq::<char>::empty();
    text::holds_within(heading, lines, none, needle);
    assert(heading + lines + none =~= heading + lines);
}

proof fn entry_is_listed<T: Printed>(s: Seq<T::V>, i: int, needle: Seq<char>)
    requires
        0 <= i < s.len(),
        text::holds(T::lines(s[i]), needle),
    ensures
        text::holds(plan::all_lines::<T>(s), needle),
{
    told_shows(s, |v: T::V| T::lines(v), i, needle);
}

/// The line of one pair.
pub open spec fn pair_shown(bead: Seq<char>, issue: Seq<char>) -> Seq<char> {
    "  "@ + bead + " → "@ + issue + "\n"@
}

/// The word for the way that a change goes.
pub open spec fn way_shown(way: Direction) -> Seq<char> {
    match way {
        Direction::Push => "push"@,
        Direction::Pull => "YouTrack wins"@,
    }
}

/// The line of one change of a field: what the bead says, then what the mirror
/// says, then which of them wins.
pub open spec fn change_shown(c: FieldChangeView) -> Seq<char> {
    "    "@ + diff::field_word(c.field) + ": "@ + plan::on_one_line(c.local) + " → "@
        + plan::on_one_line(c.remote) + " ["@ + way_shown(c.direction) + "]\n"@
}

/// The line of one change of a link.
pub open spec fn link_shown(c: LinkChangeView) -> Seq<char> {
    match c {
        LinkChangeView::Add { kind, target_readable } => "    + "@ + kind_shown(kind) + " "@
            + target_readable + "\n"@,
        LinkChangeView::Remove { kind, target_readable, .. } => "    - "@ + kind_shown(kind) + " "@
            + target_readable + "\n"@,
    }
}

/// The word for a kind of link.
pub open spec fn kind_shown(kind: LinkKind) -> Seq<char> {
    match kind {
        LinkKind::Subtask => "parent"@,
        LinkKind::Depend => "blocks"@,
        LinkKind::Relates => "relates"@,
    }
}

/// Whatever would be created, linked, marked as deleted or refused by a push
/// is shown, unless only a pull is asked for.
pub proof fn work_of_a_push_is_shown(p: ReconcilePlanView, scope: PlanScope, k: int, m: int)
    requires
        !(scope is Pull),
    ensures
        ({
            let shown = plan::plan_text(p, scope);
            &&& 0 <= k < p.creates.len() ==> text::holds(shown, "  "@ + p.creates[k] + "\n"@)
            &&& 0 <= k < p.link_changes.len() ==> text::holds(
                shown,
                pair_shown(p.link_changes[k].bead_id, p.link_changes[k].remote_id),
            )
            &&& 0 <= k < p.link_changes.len() && 0 <= m < p.link_changes[k].changes.len()
                ==> text::holds(shown, link_shown(p.link_changes[k].changes[m]))
            &&& 0 <= k < p.tombstoned.len() ==> text::holds(
                shown,
                pair_shown(p.tombstoned[k].bead_id, p.tombstoned[k].remote_id),
            )
            &&& 0 <= k < p.unmapped_local.len() ==> text::holds(
                shown,
                "  "@ + p.unmapped_local[k].bead_id + ": "@ + p.unmapped_local[k].field + " '"@
                    + p.unmapped_local[k].value + "' — add it to "@ + p.unmapped_local[k].map_key
                    + "\n"@,
            )
        }),
{
    if 0 <= k < p.creates.len() {
        let f = |id: Seq<char>| plan::id_line(id);
        let line = "  "@ + p.creates[k] + "\n"@;
        text::holds_itself(line);
        told_shows(p.creates, f, k, line);
        let heading = "create "@ + text::decimal(p.creates.len() as int) + " issue(s):\n"@;
        listed_under_heading(heading, text::told(p.creates, f), line);
        section_is_shown(p, scope, 0, line);
    }
    if 0 <= k < p.link_changes.len() {
        let v = p.link_changes[k];
        let head = pair_shown(v.bead_id, v.remote_id);
        let lines = plan::all_lines::<LinkChange>(v.changes);
        let none = Seq::<char>::empty();
        let heading = "link changes:\n"@;
        text::holds_itself(head);
        text::holds_within(none, head, lines, head);
        assert(none + head + lines =~= IssueLinkPlan::lines(v));
        entry_is_listed::<IssueLinkPlan>(p.link_changes, k, head);
        listed_under_heading(heading, plan::all_lines::<IssueLinkPlan>(p.link_changes), head);
        section_is_shown(p, scope, 2, head);
        if 0 <= m < v.changes.len() {
            let line = link_shown(v.changes[m]);
            link_line_is(v.changes[m]);
            text::holds_itself(line);
            entry_is_listed::<LinkChange>(v.changes, m, line);
            listed_under_heading(head, lines, line);
            entry_is_listed::<IssueLinkPlan>(p.link_changes, k, line);
            listed_under_heading(heading, plan::all_lines::<IssueLinkPlan>(p.link_changes), line);
            section_is_shown(p, scope, 2, line);
        }
    }
    if 0 <= k < p.tombstoned.len() {
        let line = pair_shown(p.tombstoned[k].bead_id, p.tombstoned[k].remote_id);
        text::holds_itself(line);
        entry_is_listed::<TombstonedPair>(p.tombstoned, k, line);
        listed_under_heading(
            "deleted beads still mirrored (the tombstone rule owns these; no field change is planned):\n"@,
            plan::all_lines::<TombstonedPair>(p.tombstoned),
            line,
        );
        section_is_shown(p, scope, 6, line);
    }
    if 0 <= k < p.unmapped_local.len() {
        let u = p.unmapped_local[k];
        let line = "  "@ + u.bead_id + ": "@ + u.field + " '"@ + u.value + "' — add it to "@
            + u.map_key + "\n"@;
        text::holds_itself(line);
        entry_is_listed::<UnmappedLocal>(p.unmapped_local, k, line);
        listed_under_heading(
            "unmapped local values (a push would refuse until remote.yaml covers them):\n"@,
            plan::all_lines::<UnmappedLocal>(p.unmapped_local),
            line,
        );
        section_is_shown(p, scope, 8, line);
    }
}

proof fn link_line_is(c: LinkChangeView)
    ensures
        LinkChange::lines(c) == link_shown(c),
{
    reveal_strlit("    ");
    reveal_strlit("+ ");
    reveal_strlit("- ");
    reveal_strlit("    + ");
    reveal_strlit("    - ");
    assert("    "@ + "+ "@ =~= "    + "@);
    assert("    "@ + "- "@ =~= "    - "@);
    match c {
        LinkChangeView::Add { kind, target_readable } => {
            assert(LinkChange::lines(c) =~= link_shown(c));
        },
        LinkChangeView::Remove { kind, target_readable, .. } => {
            assert(LinkChange::lines(c) =~= link_shown(c));
        },
    }
}

/// Whatever would be adopted or refused by a pull is shown, unless only a push
/// is asked for.
pub proof fn work_of_a_pull_is_shown(p: ReconcilePlanView, scope: PlanScope, k: int)
    requires
        !(scope is Push),
    ensures
        ({
            let shown = plan::plan_text(p, scope);
            &&& 0 <= k < p.adoptions.len() ==> text::holds(
                shown,
                "  "@ + p.adoptions[k].remote_id + "  "@ + plan::on_one_line(p.adoptions[k].summary)
                    + "\n"@,
            )
            &&& 0 <= k < p.refused_adoptions.len() ==> text::holds(
                shown,
                "  "@ + p.refused_adoptions[k].remote_id + "  "@ + p.refused_adoptions[k].reason
                    + "\n"@,
            )
        }),
{
    if 0 <= k < p.adoptions.len() {
        let a = p.adoptions[k];
        let line = "  "@ + a.remote_id + "  "@ + plan::on_one_line(a.summary) + "\n"@;
        text::holds_itself(line);
        entry_is_listed::<Adoption>(p.adoptions, k, line);
        listed_under_heading(
            "adoption candidates ("@ + text::decimal(p.adoptions.len() as int)
                + " issue(s) no bead claims):\n"@,
            plan::all_lines::<Adoption>(p.adoptions),
            line,
        );
        section_is_shown(p, scope, 4, line);
    }
    if 0 <= k < p.refused_adoptions.len() {
        let a = p.refused_adoptions[k];
        let line = "  "@ + a.remote_id + "  "@ + a.reason + "\n"@;
        text::holds_itself(line);
        entry_is_listed::<RefusedAdoption>(p.refused_adoptions, k, line);
        listed_under_heading(
            "refused adoptions (br cannot read these issues with this remote.yaml):\n"@,
            plan::all_lines::<RefusedAdoption>(p.refused_adoptions),
            line,
        );
        section_is_shown(p, scope, 5, line);
    }
}

/// References to issues that are gone, beads of other trackers, relations that
/// are not mirrored, and notes are shown whatever is asked for.
pub proof fn standing_facts_are_shown(p: ReconcilePlanView, scope: PlanScope, k: int)
    ensures
        ({
            let shown = plan::plan_text(p, scope);
            &&& 0 <= k < p.dangling.len() ==> text::holds(
                shown,
                pair_shown(p.dangling[k].bead_id, p.dangling[k].external_ref),
            )
            &&& 0 <= k < p.out_of_scope.len() ==> text::holds(
                shown,
                "  "@ + p.out_of_scope[k] + "\n"@,
            )
            &&& 0 <= k < p.unmirrored_links.len() ==> text::holds(
                shown,
                "  "@ + p.unmirrored_links[k].bead_id + " "@ + p.unmirrored_links[k].dep_type + " "@
                    + p.unmirrored_links[k].target_id + "\n"@,
            )
            &&& 0 <= k < p.notes.len() ==> text::holds(shown, p.notes[k] + "\n"@)
        }),
{
    if 0 <= k < p.dangling.len() {
        let line = pair_shown(p.dangling[k].bead_id, p.dangling[k].external_ref);
        text::holds_itself(line);
        entry_is_listed::<DanglingRef>(p.dangling, k, line);
        listed_under_heading(
            "dangling local refs (the issue named is gone; nothing was re-created):\n"@,
            plan::all_lines::<DanglingRef>(p.dangling),
            line,
        );
        section_is_shown(p, scope, 7, line);
    }
    if 0 <= k < p.out_of_scope.len() {
        let f = |id: Seq<char>| plan::id_line(id);
        let line = "  "@ + p.out_of_scope[k] + "\n"@;
        text::holds_itself(line);
        told_shows(p.out_of_scope, f, k, line);
        listed_under_heading(
            "out of scope ("@ + text::decimal(p.out_of_scope.len() as int)
                + " bead(s) whose external_ref names another tracker; untouched):\n"@,
            text::told(p.out_of_scope, f),
            line,
        );
        section_is_shown(p, scope, 9, line);
    }
    if 0 <= k < p.unmirrored_links.len() {
        let u = p.unmirrored_links[k];
        let line = "  "@ + u.bead_id + " "@ + u.dep_type + " "@ + u.target_id + "\n"@;
        text::holds_itself(line);
        entry_is_listed::<UnmirroredLink>(p.unmirrored_links, k, line);
        listed_under_heading(
            "unmirrored relations ("@ + text::decimal(p.unmirrored_links.len() as int)
                + " row(s) whose dependency type has no YouTrack link type; never mirrored):\n"@,
            plan::all_lines::<UnmirroredLink>(p.unmirrored_links),
            line,
        );
        section_is_shown(p, scope, 10, line);
    }
    if 0 <= k < p.notes.len() {
        let f = |n: Seq<char>| n + "\n"@;
        let line = p.notes[k] + "\n"@;
        text::holds_itself(line);
        told_shows(p.notes, f, k, line);
        section_is_shown(p, scope, 12, line);
    }
}

/// The way belongs to what is asked for.
pub open spec fn is_asked_for(scope: PlanScope, way: Direction) -> bool {
    match (scope, way) {
        (PlanScope::Both, _) => true,
        (PlanScope::Push, Direction::Push) => true,
        (PlanScope::Pull, Direction::Pull) => true,
        _ => false,
    }
}

/// Every change of a field that goes a way that is asked for is shown under
/// its pair, with both values and the winner.
pub proof fn asked_for_changes_are_shown(p: ReconcilePlanView, scope: PlanScope, k: int, m: int)
    requires
        0 <= k < p.field_changes.len(),
        0 <= m < p.field_changes[k].changes.len(),
        is_asked_for(scope, p.field_changes[k].changes[m].direction),
    ensures
        text::holds(
            plan::plan_text(p, scope),
            pair_shown(p.field_changes[k].bead_id, p.field_changes[k].remote_id),
        ),
        text::holds(plan::plan_text(p, scope), change_shown(p.field_changes[k].changes[m])),
{
    let v = p.field_changes[k];
    let kept = plan::covered::<FieldChange>(scope, v.changes);
    let entry = IssueFieldPlanView { changes: kept, ..v };
    let pairs = plan::pairs_in(scope, p);
    let (at, n) = change_is_kept(p, scope, k, m);
    let head = pair_shown(v.bead_id, v.remote_id);
    let line = change_shown(v.changes[m]);
    entry_shows_its_change(entry, n);
    entry_is_listed::<IssueFieldPlan>(pairs, at, head);
    entry_is_listed::<IssueFieldPlan>(pairs, at, line);
    update_is_shown(p, scope, head);
    update_is_shown(p, scope, line);
}

/// The place of the pair among those that are shown, and that of the change
/// among those of the pair.
proof fn change_is_kept(p: ReconcilePlanView, scope: PlanScope, k: int, m: int) -> (r: (int, int))
    requires
        0 <= k < p.field_changes.len(),
        0 <= m < p.field_changes[k].changes.len(),
        is_asked_for(scope, p.field_changes[k].changes[m].direction),
    ensures
        ({
            let v = p.field_changes[k];
            let kept = plan::covered::<FieldChange>(scope, v.changes);
            let pairs = plan::pairs_in(scope, p);
            &&& 0 <= r.0 < pairs.len() && pairs[r.0] == (IssueFieldPlanView { changes: kept, ..v })
            &&& 0 <= r.1 < kept.len() && kept[r.1] == v.changes[m]
        }),
{
    let v = p.field_changes[k];
    let c = v.changes[m];
    let f = |i: IssueFieldPlanView| plan::pair_in(scope, i);
    let g = |v: FieldChangeView|
        if plan::covers(scope, FieldChange::way(v)) {
            Some(v)
        } else {
            None
        };
    text::picked_holds(v.changes, g, m);
    let kept = plan::covered::<FieldChange>(scope, v.changes);
    assert(kept.contains(c));
    let n = choose|n: int| 0 <= n < kept.len() && kept[n] == c;
    let entry = IssueFieldPlanView { changes: kept, ..v };
    assert(f(p.field_changes[k]) == Some(entry));
    text::picked_holds(p.field_changes, f, k);
    let pairs = plan::pairs_in(scope, p);
    let at = choose|at: int| 0 <= at < pairs.len() && pairs[at] == entry;
    (at, n)
}

proof fn entry_shows_its_change(entry: IssueFieldPlanView, n: int)
    requires
        0 <= n < entry.changes.len(),
    ensures
        text::holds(IssueFieldPlan::lines(entry), pair_shown(entry.bead_id, entry.remote_id)),
        text::holds(IssueFieldPlan::lines(entry), change_shown(entry.changes[n])),
{
    let head = pair_shown(entry.bead_id, entry.remote_id);
    let lines = plan::all_lines::<FieldChange>(entry.changes);
    let none = Seq::<char>::empty();
    let line = change_shown(entry.changes[n]);
    text::holds_itself(head);
    text::holds_within(none, head, lines, head);
    assert(none + head + lines =~= head + lines);
    text::holds_itself(line);
    entry_is_listed::<FieldChange>(entry.changes, n, line);
    listed_under_heading(head, lines, line);
}

proof fn update_is_shown(p: ReconcilePlanView, scope: PlanScope, needle: Seq<char>)
    requires
        plan::pairs_in(scope, p).len() > 0,
        text::holds(plan::all_lines::<IssueFieldPlan>(plan::pairs_in(scope, p)), needle),
    ensures
        text::holds(plan::plan_text(p, scope), needle),
{
    let pairs = plan::pairs_in(scope, p);
    let heading = "update "@ + text::decimal(pairs.len() as int) + " issue(s):\n"@;
    listed_under_heading(heading, plan::all_lines::<IssueFieldPlan>(pairs), needle);
    section_is_shown(p, scope, 1, needle);
}

/// Comments that go a way that is asked for are shown with their number.
pub proof fn asked_for_comments_are_shown(p: ReconcilePlanView, scope: PlanScope, k: int)
    requires
        0 <= k < p.comment_changes.len(),
        is_asked_for(scope, p.comment_changes[k].direction),
    ensures
        text::holds(
            plan::plan_text(p, scope),
            "  "@ + p.comment_changes[k].bead_id + " → "@ + p.comment_changes[k].remote_id + ": "@
                + text::decimal(p.comment_changes[k].count as int) + " comment(s) ["@ + way_shown(
                p.comment_changes[k].direction,
            ) + "]\n"@,
        ),
{
    let c = p.comment_changes[k];
    let g = |v: CommentPlanView|
        if plan::covers(scope, CommentPlan::way(v)) {
            Some(v)
        } else {
            None
        };
    text::picked_holds(p.comment_changes, g, k);
    let kept = plan::comments_within(scope, p);
    assert(kept.contains(c));
    let n = choose|n: int| 0 <= n < kept.len() && kept[n] == c;
    let line = "  "@ + c.bead_id + " → "@ + c.remote_id + ": "@ + text::decimal(c.count as int)
        + " comment(s) ["@ + way_shown(c.direction) + "]\n"@;
    text::holds_itself(line);
    entry_is_listed::<CommentPlan>(kept, n, line);
    listed_under_heading("comments:\n"@, plan::all_lines::<CommentPlan>(kept), line);
    section_is_shown(p, scope, 3, line);
}

/// A plain value of at most sixty characters is shown as it is, a longer one
/// by its first sixty, and one of blanks alone as none.
pub proof fn plain_values_are_shown_as_they_are(s: Seq<char>)
    requires
        text::trimmed(s) == s,
        forall|i: int| 0 <= i < s.len() ==> !text::is_control(#[trigger] s[i]),
    ensures
        0 < s.len() <= 60 ==> plan::on_one_line(s) == s,
        s.len() > 60 ==> plan::on_one_line(s) == s.take(60) + "…"@,
        s.len() == 0 ==> plan::on_one_line(s) == "(none)"@,
{
    assert(plan::flattened(s) =~= s);
}

} // verus!
