//! What a printed plan holds, and what it does not.
//!
//! A plan prints strings that it did not make: titles, identifiers, reasons.
//! So what is said of the words of a rendering is said of plans none of whose
//! strings, as they are printed, holds these words.

use crate::remote::diff;
use crate::remote::diff::{Direction, Field, FieldChange, FieldChangeView};
use crate::remote::link_diff;
use crate::remote::link_diff::{LinkChange, LinkChangeView};
use crate::remote::plan;
use crate::remote::plan::{
    Adoption, AdoptionView, CommentPlan, CommentPlanView, DanglingRef, DanglingRefView, Directed,
    IssueFieldPlan, IssueFieldPlanView, IssueLinkPlan, IssueLinkPlanView, PlanScope, Printed,
    ReconcilePlanView, RefusedAdoption, RefusedAdoptionView, TombstonedPair, TombstonedPairView,
    UnmappedLocal, UnmappedLocalView, UnmirroredLink, UnmirroredLinkView,
};
use crate::text;
use vstd::prelude::*;

verus! {

// ---------------------------------------------------------------------------
// The strings of a plan, as they are printed
// ---------------------------------------------------------------------------

/// Neither identifier of a pair holds `n`.
pub open spec fn pair_lacks(bead_id: Seq<char>, remote_id: Seq<char>, n: Seq<char>) -> bool {
    !text::holds(bead_id, n) && !text::holds(remote_id, n)
}

/// Neither value of a change, on one line, holds `n`.
pub open spec fn change_lacks(c: FieldChangeView, n: Seq<char>) -> bool {
    !text::holds(plan::on_one_line(c.local), n) && !text::holds(plan::on_one_line(c.remote), n)
}

/// No string of a pair with differing fields holds `n`.
pub open spec fn fields_lack(i: IssueFieldPlanView, n: Seq<char>) -> bool {
    &&& pair_lacks(i.bead_id, i.remote_id, n)
    &&& forall|k: int| 0 <= k < i.changes.len() ==> change_lacks(#[trigger] i.changes[k], n)
}

/// The other end of a link does not hold `n`.
pub open spec fn link_lacks(c: LinkChangeView, n: Seq<char>) -> bool {
    match c {
        LinkChangeView::Add { kind: _, target_readable } => !text::holds(target_readable, n),
        LinkChangeView::Remove { kind: _, target_internal_id: _, target_readable } => !text::holds(
            target_readable,
            n,
        ),
    }
}

/// No string of a pair with differing links holds `n`.
pub open spec fn links_lack(i: IssueLinkPlanView, n: Seq<char>) -> bool {
    &&& pair_lacks(i.bead_id, i.remote_id, n)
    &&& forall|k: int| 0 <= k < i.changes.len() ==> link_lacks(#[trigger] i.changes[k], n)
}

/// No string of a line about comments holds `n`. A colon follows the issue.
pub open spec fn comment_lacks(c: CommentPlanView, n: Seq<char>) -> bool {
    pair_lacks(c.bead_id, c.remote_id + ":"@, n)
}

/// No string of an adoption holds `n`.
pub open spec fn adoption_lacks(a: AdoptionView, n: Seq<char>) -> bool {
    pair_lacks(a.remote_id, plan::on_one_line(a.summary), n)
}

/// No string of a refused adoption holds `n`.
pub open spec fn refusal_lacks(a: RefusedAdoptionView, n: Seq<char>) -> bool {
    pair_lacks(a.remote_id, a.reason, n)
}

/// No string of a deleted bead's pair holds `n`.
pub open spec fn tombstone_lacks(t: TombstonedPairView, n: Seq<char>) -> bool {
    pair_lacks(t.bead_id, t.remote_id, n)
}

/// No string of a reference to an issue that is gone holds `n`.
pub open spec fn dangling_lacks(d: DanglingRefView, n: Seq<char>) -> bool {
    pair_lacks(d.bead_id, d.external_ref, n)
}

/// No string of a value without a mapping holds `n`. A colon follows the bead.
pub open spec fn unmapped_lacks(u: UnmappedLocalView, n: Seq<char>) -> bool {
    pair_lacks(u.bead_id + ":"@, u.field, n) && pair_lacks(u.value, u.map_key, n)
}

/// A relation without a type on the mirror does not hold `n`: its three
/// strings are printed with nothing but a blank between them.
pub open spec fn unmirrored_lacks(u: UnmirroredLinkView, n: Seq<char>) -> bool {
    !text::holds(u.bead_id + " "@ + u.dep_type + " "@ + u.target_id, n)
}

/// None of the texts holds `n`.
pub open spec fn all_lack(s: Seq<Seq<char>>, n: Seq<char>) -> bool {
    forall|k: int| 0 <= k < s.len() ==> !text::holds(#[trigger] s[k], n)
}

/// No string that a push prints, and a pull does not, holds `n`.
pub open spec fn push_strings_lack(p: ReconcilePlanView, n: Seq<char>) -> bool {
    &&& all_lack(p.creates, n)
    &&& forall|k: int| 0 <= k < p.link_changes.len() ==> links_lack(#[trigger] p.link_changes[k], n)
    &&& forall|k: int|
        0 <= k < p.tombstoned.len() ==> tombstone_lacks(#[trigger] p.tombstoned[k], n)
    &&& forall|k: int|
        0 <= k < p.unmapped_local.len() ==> unmapped_lacks(#[trigger] p.unmapped_local[k], n)
}

/// No string that a pull prints, and a push does not, holds `n`.
pub open spec fn pull_strings_lack(p: ReconcilePlanView, n: Seq<char>) -> bool {
    &&& forall|k: int| 0 <= k < p.adoptions.len() ==> adoption_lacks(#[trigger] p.adoptions[k], n)
    &&& forall|k: int|
        0 <= k < p.refused_adoptions.len() ==> refusal_lacks(#[trigger] p.refused_adoptions[k], n)
}

/// No string that the plan prints in the scope holds `n`.
pub open spec fn strings_lack(p: ReconcilePlanView, scope: PlanScope, n: Seq<char>) -> bool {
    &&& scope is Pull || push_strings_lack(p, n)
    &&& scope is Push || pull_strings_lack(p, n)
    &&& forall|k: int|
        0 <= k < plan::pairs_in(scope, p).len() ==> fields_lack(
            #[trigger] plan::pairs_in(scope, p)[k],
            n,
        )
    &&& forall|k: int|
        0 <= k < plan::comments_within(scope, p).len() ==> comment_lacks(
            #[trigger] plan::comments_within(scope, p)[k],
            n,
        )
    &&& forall|k: int| 0 <= k < p.dangling.len() ==> dangling_lacks(#[trigger] p.dangling[k], n)
    &&& all_lack(p.out_of_scope, n)
    &&& forall|k: int|
        0 <= k < p.unmirrored_links.len() ==> unmirrored_lacks(#[trigger] p.unmirrored_links[k], n)
    &&& all_lack(p.notes, n)
}

// ---------------------------------------------------------------------------
// Phrases that no seam between two texts of a rendering can make
// ---------------------------------------------------------------------------

spec fn neighbours_fit(n: Seq<char>, k: int, scope: PlanScope) -> bool {
    let x = n[k];
    let y = n[k + 1];
    &&& !(x == ' ' && y == ' ')
    &&& (x == 't' || x == 's') && y == ' ' ==> scope is Pull
    &&& !(x == '(' && text::is_digit(y))
    &&& x == ' ' && text::is_digit(y) ==> scope is Pull && n[0] == 'c'
    &&& x == 'o' && y == ' ' ==> n[0] == 'n'
}

spec fn is_phrase(n: Seq<char>, scope: PlanScope) -> bool {
    &&& n.len() >= 2
    &&& n[0] != ' ' && n[0] != '+' && n[0] != '-' && !text::is_digit(n[0])
    &&& n.last() != ' '
    &&& n.contains(' ') || n.contains('[')
    &&& forall|k: int|
        0 <= k < n.len() ==> #[trigger] n[k] != '\n' && n[k] != '→' && n[k] != '\''
    &&& forall|k: int| 0 <= k < n.len() - 1 ==> #[trigger] n[k] != ':'
    &&& forall|k: int| 1 <= k < n.len() ==> #[trigger] n[k] != '['
    &&& forall|k: int| 0 <= k < n.len() - 1 ==> #[trigger] neighbours_fit(n, k, scope)
}

/// What is printed whatever the plan holds.
spec fn fixed_texts_lack(n: Seq<char>, scope: PlanScope) -> bool {
    &&& !text::holds("update "@, n)
    &&& !text::holds(" issue(s):\n"@, n)
    &&& !text::holds("comments:\n"@, n)
    &&& !text::holds(" comment(s) "@, n)
    &&& !text::holds("acceptance criteria:"@, n)
    &&& !text::holds("close reason:"@, n)
    &&& !text::holds("dangling local refs (the issue named is gone; nothing was re-created):\n"@, n)
    &&& !text::holds("out of scope ("@, n)
    &&& !text::holds(" bead(s) whose external_ref names another tracker; untouched):\n"@, n)
    &&& !text::holds("unmirrored relations ("@, n)
    &&& !text::holds(" row(s) whose dependency type has no YouTrack link type; never mirrored):\n"@, n)
    &&& scope is Pull || push_texts_lack(n)
    &&& scope is Push || pull_texts_lack(n)
}

spec fn push_texts_lack(n: Seq<char>) -> bool {
    &&& !text::holds("create "@, n)
    &&& !text::holds("link changes:\n"@, n)
    &&& !text::holds("deleted beads still mirrored (the tombstone rule owns these; no field change is planned):\n"@, n)
    &&& !text::holds("unmapped local values (a push would refuse until remote.yaml covers them):\n"@, n)
    &&& !text::holds("' — add it to"@, n)
    &&& !text::holds("[push]\n"@, n)
}

spec fn pull_texts_lack(n: Seq<char>) -> bool {
    &&& !text::holds("adoption candidates ("@, n)
    &&& !text::holds(" issue(s) no bead claims):\n"@, n)
    &&& !text::holds("refused adoptions (br cannot read these issues with this remote.yaml):\n"@, n)
    &&& !text::holds("[YouTrack wins]\n"@, n)
}

/// Two characters that a phrase does not have as neighbours.
spec fn are_apart(n: Seq<char>, scope: PlanScope, x: char, y: char) -> bool {
    ||| x == '→' || y == '→' || x == ':' || y == '[' || y == '\''
    ||| x == ' ' && y == ' '
    ||| (x == 't' || x == 's') && y == ' ' && !(scope is Pull)
    ||| x == '(' && text::is_digit(y)
    ||| x == ' ' && text::is_digit(y) && !(scope is Pull && n[0] == 'c')
    ||| x == 'o' && y == ' ' && n[0] != 'n'
}

/// A text between blanks and the like.
proof fn padded(a: Seq<char>, s: Seq<char>, b: Seq<char>, n: Seq<char>)
    requires
        n.len() > 0,
        !text::holds(s, n),
        forall|i: int| 0 <= i < a.len() ==> #[trigger] a[i] != n[0],
        forall|i: int| 0 <= i < b.len() ==> #[trigger] b[i] != n.last(),
    ensures
        !text::holds(a + s + b, n),
{
    text::lacks_behind(a, s, n);
    text::lacks_before(a + s, b, n);
}

/// Two texts one behind the other.
proof fn seam(a: Seq<char>, b: Seq<char>, n: Seq<char>, scope: PlanScope)
    requires
        is_phrase(n, scope),
        !text::holds(a, n),
        !text::holds(b, n),
        a.len() > 0,
        b.len() > 0,
        are_apart(n, scope, a.last(), b[0]),
    ensures
        !text::holds(a + b, n),
{
    let x = a.last();
    let y = b[0];
    if text::has_pair(n, x, y) {
        let k = choose|k: int| 0 <= k < n.len() - 1 && #[trigger] text::pair_at(n, k, x, y);
        assert(neighbours_fit(n, k, scope));
        assert(n[k] == x && n[k + 1] == y);
    }
    text::lacks_across(a, b, n);
}

// ---------------------------------------------------------------------------
// Lines
// ---------------------------------------------------------------------------

proof fn single_line(s: Seq<char>, n: Seq<char>, scope: PlanScope)
    requires
        is_phrase(n, scope),
        !text::holds(s, n),
    ensures
        !text::holds("  "@ + s + "\n"@, n),
        text::is_lines("  "@ + s + "\n"@),
{
    reveal_strlit("  ");
    reveal_strlit("\n");
    assert(n[n.len() - 1] != '\n');
    padded("  "@, s, "\n"@, n);
}

proof fn pair_line_lacks(a: Seq<char>, b: Seq<char>, n: Seq<char>, scope: PlanScope)
    requires
        is_phrase(n, scope),
        pair_lacks(a, b, n),
    ensures
        !text::holds(plan::pair_line(a, b), n),
        text::is_lines(plan::pair_line(a, b)),
{
    reveal_strlit("  ");
    reveal_strlit(" → ");
    reveal_strlit("\n");
    let arrow = seq!['→', ' '];
    let left = "  "@ + a + seq![' '];
    let right = arrow + b + "\n"@;
    assert(n[n.len() - 1] != '\n');
    assert(n[0] != '→');
    padded("  "@, a, seq![' '], n);
    padded(arrow, b, "\n"@, n);
    seam(left, right, n, scope);
    assert(left + right =~= plan::pair_line(a, b));
}

proof fn apart_line_lacks(a: Seq<char>, b: Seq<char>, n: Seq<char>, scope: PlanScope)
    requires
        is_phrase(n, scope),
        pair_lacks(a, b, n),
    ensures
        !text::holds("  "@ + a + "  "@ + b + "\n"@, n),
        text::is_lines("  "@ + a + "  "@ + b + "\n"@),
{
    reveal_strlit("  ");
    reveal_strlit("\n");
    let left = "  "@ + a + seq![' '];
    let right = seq![' '] + b + "\n"@;
    assert(n[n.len() - 1] != '\n');
    padded("  "@, a, seq![' '], n);
    padded(seq![' '], b, "\n"@, n);
    seam(left, right, n, scope);
    assert(left + right =~= "  "@ + a + "  "@ + b + "\n"@);
}

/// The marker of a direction, in its brackets.
spec fn marker_end(d: Direction) -> Seq<char> {
    "["@ + plan::marker_of(d) + "]\n"@
}

proof fn marker_lacks(d: Direction, n: Seq<char>, scope: PlanScope)
    requires
        fixed_texts_lack(n, scope),
        plan::covers(scope, d),
    ensures
        !text::holds(marker_end(d), n),
{
    reveal_strlit("[");
    reveal_strlit("]\n");
    match d {
        Direction::Push => {
            reveal_strlit("push");
            reveal_strlit("[push]\n");
            assert(marker_end(d) =~= "[push]\n"@);
        },
        Direction::Pull => {
            reveal_strlit("YouTrack wins");
            reveal_strlit("[YouTrack wins]\n");
            assert(marker_end(d) =~= "[YouTrack wins]\n"@);
        },
    }
}

proof fn word_lacks(f: Field, n: Seq<char>, scope: PlanScope)
    requires
        is_phrase(n, scope),
        fixed_texts_lack(n, scope),
    ensures
        !text::holds(diff::field_word(f) + ":"@, n),
{
    let s = diff::field_word(f) + ":"@;
    reveal_strlit(":");
    match f {
        Field::AcceptanceCriteria => {
            reveal_strlit("acceptance criteria");
            reveal_strlit("acceptance criteria:");
            assert(s =~= "acceptance criteria:"@);
        },
        Field::CloseReason => {
            reveal_strlit("close reason");
            reveal_strlit("close reason:");
            assert(s =~= "close reason:"@);
        },
        _ => {
            reveal_strlit("title");
            reveal_strlit("description");
            reveal_strlit("state");
            reveal_strlit("priority");
            reveal_strlit("type");
            reveal_strlit("design");
            reveal_strlit("notes");
            reveal_strlit("labels");
            assert(!s.contains(' ') && !s.contains('['));
            if n.contains(' ') {
                text::lacks_without(s, n, n.index_of(' '));
            } else {
                text::lacks_without(s, n, n.index_of('['));
            }
        },
    }
}

proof fn change_line_lacks(c: FieldChangeView, n: Seq<char>, scope: PlanScope)
    requires
        is_phrase(n, scope),
        fixed_texts_lack(n, scope),
        plan::covers(scope, c.direction),
        change_lacks(c, n),
    ensures
        !text::holds(FieldChange::lines(c), n),
        text::is_lines(FieldChange::lines(c)),
{
    reveal_strlit("    ");
    reveal_strlit(":");
    reveal_strlit(": ");
    reveal_strlit(" → ");
    reveal_strlit(" [");
    reveal_strlit("[");
    reveal_strlit("]\n");
    let word = diff::field_word(c.field);
    let local = plan::on_one_line(c.local);
    let remote = plan::on_one_line(c.remote);
    let blank = seq![' '];
    let arrow = seq!['→', ' '];
    assert(n[0] != '→');
    word_lacks(c.field, n, scope);
    text::lacks_behind("    "@, word + ":"@, n);
    let a = "    "@ + (word + ":"@);
    padded(blank, local, blank, n);
    let b = blank + local + blank;
    padded(arrow, remote, blank, n);
    let d = arrow + remote + blank;
    marker_lacks(c.direction, n, scope);
    let e = marker_end(c.direction);
    seam(a, b, n, scope);
    seam(a + b, d, n, scope);
    seam(a + b + d, e, n, scope);
    assert(a + b + d + e =~= FieldChange::lines(c));
}

proof fn link_line_lacks(c: LinkChangeView, n: Seq<char>, scope: PlanScope)
    requires
        !(scope is Pull),
        is_phrase(n, scope),
        link_lacks(c, n),
    ensures
        !text::holds(LinkChange::lines(c), n),
        text::is_lines(LinkChange::lines(c)),
{
    reveal_strlit("    ");
    reveal_strlit("+ ");
    reveal_strlit("- ");
    reveal_strlit(" ");
    reveal_strlit("\n");
    reveal_strlit("parent");
    reveal_strlit("blocks");
    reveal_strlit("relates");
    let (sign, kind, target) = match c {
        LinkChangeView::Add { kind, target_readable } => ("+ "@, kind, target_readable),
        LinkChangeView::Remove { kind, target_internal_id: _, target_readable } => (
            "- "@,
            kind,
            target_readable,
        ),
    };
    let word = link_diff::kind_text(kind);
    assert(!word.contains(' ') && !word.contains('['));
    if n.contains(' ') {
        text::lacks_without(word, n, n.index_of(' '));
    } else {
        text::lacks_without(word, n, n.index_of('['));
    }
    let start = "    "@ + sign;
    text::lacks_behind(start, word, n);
    assert(n[n.len() - 1] != '\n');
    padded(" "@, target, "\n"@, n);
    let a = start + word;
    let b = " "@ + target + "\n"@;
    seam(a, b, n, scope);
    assert(a + b =~= LinkChange::lines(c));
}

proof fn comment_line_lacks(c: CommentPlanView, n: Seq<char>, scope: PlanScope)
    requires
        is_phrase(n, scope),
        fixed_texts_lack(n, scope),
        plan::covers(scope, c.direction),
        comment_lacks(c, n),
    ensures
        !text::holds(CommentPlan::lines(c), n),
        text::is_lines(CommentPlan::lines(c)),
{
    reveal_strlit("  ");
    reveal_strlit(":");
    reveal_strlit(": ");
    reveal_strlit(" → ");
    reveal_strlit(" comment(s) [");
    reveal_strlit(" comment(s) ");
    reveal_strlit("[");
    reveal_strlit("]\n");
    let blank = seq![' '];
    let arrow = seq!['→', ' '];
    let count = text::decimal(c.count as int);
    assert(n[0] != '→');
    padded("  "@, c.bead_id, blank, n);
    let a = "  "@ + c.bead_id + blank;
    text::lacks_behind(arrow, c.remote_id + ":"@, n);
    let b = arrow + (c.remote_id + ":"@);
    text::decimal_is_digits(c.count as nat);
    assert forall|i: int| 0 <= i < (blank + count).len() implies #[trigger] (blank + count)[i]
        != n[0] by {
        if i > 0 {
            assert((blank + count)[i] == count[i - 1]);
        }
    }
    text::lacks_behind(blank + count, " comment(s) "@, n);
    let d = blank + count + " comment(s) "@;
    marker_lacks(c.direction, n, scope);
    let e = marker_end(c.direction);
    seam(a, b, n, scope);
    seam(a + b, d, n, scope);
    seam(a + b + d, e, n, scope);
    assert(a + b + d + e =~= CommentPlan::lines(c));
}

proof fn unmapped_line_lacks(u: UnmappedLocalView, n: Seq<char>, scope: PlanScope)
    requires
        is_phrase(n, scope),
        push_texts_lack(n),
        unmapped_lacks(u, n),
    ensures
        !text::holds(UnmappedLocal::lines(u), n),
        text::is_lines(UnmappedLocal::lines(u)),
{
    reveal_strlit("  ");
    reveal_strlit(":");
    reveal_strlit(": ");
    reveal_strlit(" '");
    reveal_strlit("' — add it to");
    reveal_strlit("' — add it to ");
    reveal_strlit("\n");
    let blank = seq![' '];
    let mark = seq!['\''];
    assert(n[0] != '\'');
    assert(n[n.len() - 1] != '\n');
    text::lacks_behind("  "@, u.bead_id + ":"@, n);
    let a = "  "@ + (u.bead_id + ":"@);
    padded(blank, u.field, blank, n);
    let b = blank + u.field + blank;
    text::lacks_behind(mark, u.value, n);
    let d = mark + u.value;
    padded(blank, u.map_key, "\n"@, n);
    let remedy = "' — add it to"@;
    let key = blank + u.map_key + "\n"@;
    if n[0] == 'n' {
        text::lacks_behind(remedy, key, n);
    } else {
        seam(remedy, key, n, scope);
    }
    let e = remedy + key;
    seam(a, b, n, scope);
    seam(a + b, d, n, scope);
    seam(a + b + d, e, n, scope);
    assert(a + b + d + e =~= UnmappedLocal::lines(u));
}

proof fn unmirrored_line_lacks(u: UnmirroredLinkView, n: Seq<char>, scope: PlanScope)
    requires
        is_phrase(n, scope),
        unmirrored_lacks(u, n),
    ensures
        !text::holds(UnmirroredLink::lines(u), n),
        text::is_lines(UnmirroredLink::lines(u)),
{
    let row = u.bead_id + " "@ + u.dep_type + " "@ + u.target_id;
    single_line(row, n, scope);
    assert("  "@ + row + "\n"@ =~= UnmirroredLink::lines(u));
}

/// A heading with a number in it.
proof fn heading_lacks(
    start: Seq<char>,
    count: nat,
    end: Seq<char>,
    n: Seq<char>,
    scope: PlanScope,
)
    requires
        is_phrase(n, scope),
        !text::holds(start, n),
        !text::holds(end, n),
        start.len() > 0,
        end.len() > 0,
        end.last() == '\n',
        start.last() == '(' || (start.last() == ' ' && !(scope is Pull && n[0] == 'c')) || (
        forall|i: int| 0 <= i < start.len() ==> #[trigger] start[i] != n[0]),
    ensures
        !text::holds(start + text::decimal(count as int) + end, n),
        text::is_lines(start + text::decimal(count as int) + end),
{
    let number = text::decimal(count as int);
    text::decimal_is_digits(count);
    text::lacks_behind(number, end, n);
    let rest = number + end;
    assert(rest[0] == number[0]);
    if start.last() == '(' || (start.last() == ' ' && !(scope is Pull && n[0] == 'c')) {
        seam(start, rest, n, scope);
    } else {
        text::lacks_behind(start, rest, n);
    }
    assert(start + rest =~= start + number + end);
}

// ---------------------------------------------------------------------------
// Sections
// ---------------------------------------------------------------------------

/// A section behind its heading.
proof fn section_lacks<A>(
    heading: Seq<char>,
    s: Seq<A>,
    f: spec_fn(A) -> Seq<char>,
    n: Seq<char>,
    scope: PlanScope,
)
    requires
        is_phrase(n, scope),
        !text::holds(heading, n),
        text::is_lines(heading),
        forall|i: int| 0 <= i < s.len() ==> !text::holds(f(#[trigger] s[i]), n),
        forall|i: int| 0 <= i < s.len() ==> text::is_lines(f(#[trigger] s[i])),
    ensures
        !text::holds(heading + text::told(s, f), n),
        text::is_lines(heading + text::told(s, f)),
{
    text::lacks_in_lines(s, f, n);
    text::lacks_between_lines(heading, text::told(s, f), n);
}

proof fn nothing_lacks(n: Seq<char>)
    requires
        n.len() > 0,
    ensures
        !text::holds(Seq::empty(), n),
{
    let none: Seq<char> = Seq::empty();
    if text::holds(none, n) {
        let i = choose|i: int| text::stands_at(none, n, i);
        assert(i + n.len() <= none.len());
    }
}

proof fn creates_lack(p: ReconcilePlanView, n: Seq<char>, scope: PlanScope)
    requires
        is_phrase(n, scope),
        fixed_texts_lack(n, scope),
        strings_lack(p, scope, n),
    ensures
        !text::holds(plan::creates_text(p, scope), n),
        text::is_lines(plan::creates_text(p, scope)),
{
    nothing_lacks(n);
    if !(scope is Pull) {
        reveal_strlit("create ");
        reveal_strlit(" issue(s):\n");
        heading_lacks("create "@, p.creates.len(), " issue(s):\n"@, n, scope);
        let heading = "create "@ + text::decimal(p.creates.len() as int) + " issue(s):\n"@;
        let f = |id: Seq<char>| plan::id_line(id);
        assert forall|i: int| 0 <= i < p.creates.len() implies !text::holds(
            f(#[trigger] p.creates[i]),
            n,
        ) && text::is_lines(f(p.creates[i])) by {
            single_line(p.creates[i], n, scope);
        }
        section_lacks(heading, p.creates, f, n, scope);
    }
}

proof fn covered_change(s: Seq<FieldChangeView>, scope: PlanScope, k: int)
    requires
        0 <= k < plan::covered::<FieldChange>(scope, s).len(),
    ensures
        plan::covers(scope, plan::covered::<FieldChange>(scope, s)[k].direction),
{
    let f = |v: FieldChangeView|
        if plan::covers(scope, FieldChange::way(v)) {
            Some(v)
        } else {
            None
        };
    assert(plan::covered::<FieldChange>(scope, s) == text::picked(s, f));
    text::picked_comes_from(s, f, k);
}

proof fn updates_lack(p: ReconcilePlanView, n: Seq<char>, scope: PlanScope)
    requires
        is_phrase(n, scope),
        fixed_texts_lack(n, scope),
        strings_lack(p, scope, n),
    ensures
        !text::holds(plan::updates_text(p, scope), n),
        text::is_lines(plan::updates_text(p, scope)),
{
    let pairs = plan::pairs_in(scope, p);
    nothing_lacks(n);
    reveal_strlit("update ");
    reveal_strlit(" issue(s):\n");
    heading_lacks("update "@, pairs.len(), " issue(s):\n"@, n, scope);
    let heading = "update "@ + text::decimal(pairs.len() as int) + " issue(s):\n"@;
    let f = |i: IssueFieldPlanView| IssueFieldPlan::lines(i);
    let one = |i: IssueFieldPlanView| plan::pair_in(scope, i);
    assert forall|i: int| 0 <= i < pairs.len() implies !text::holds(f(#[trigger] pairs[i]), n)
        && text::is_lines(f(pairs[i])) by {
        let pair = pairs[i];
        assert(fields_lack(pair, n));
        text::picked_comes_from(p.field_changes, one, i);
        let j = choose|j: int|
            0 <= j < p.field_changes.len() && one(#[trigger] p.field_changes[j]) == Some(pair);
        let whole = p.field_changes[j];
        assert(pair.changes == plan::covered::<FieldChange>(scope, whole.changes));
        let g = |c: FieldChangeView| FieldChange::lines(c);
        assert forall|k: int| 0 <= k < pair.changes.len() implies !text::holds(
            g(#[trigger] pair.changes[k]),
            n,
        ) && text::is_lines(g(pair.changes[k])) by {
            covered_change(whole.changes, scope, k);
            change_line_lacks(pair.changes[k], n, scope);
        }
        pair_line_lacks(pair.bead_id, pair.remote_id, n, scope);
        section_lacks(plan::pair_line(pair.bead_id, pair.remote_id), pair.changes, g, n, scope);
    }
    section_lacks(heading, pairs, f, n, scope);
}

proof fn links_section_lacks(p: ReconcilePlanView, n: Seq<char>, scope: PlanScope)
    requires
        is_phrase(n, scope),
        fixed_texts_lack(n, scope),
        strings_lack(p, scope, n),
    ensures
        !text::holds(plan::links_text(p, scope), n),
        text::is_lines(plan::links_text(p, scope)),
{
    nothing_lacks(n);
    if !(scope is Pull) {
        reveal_strlit("link changes:\n");
        let f = |i: IssueLinkPlanView| IssueLinkPlan::lines(i);
        assert forall|i: int| 0 <= i < p.link_changes.len() implies !text::holds(
            f(#[trigger] p.link_changes[i]),
            n,
        ) && text::is_lines(f(p.link_changes[i])) by {
            let pair = p.link_changes[i];
            assert(links_lack(pair, n));
            let g = |c: LinkChangeView| LinkChange::lines(c);
            assert forall|k: int| 0 <= k < pair.changes.len() implies !text::holds(
                g(#[trigger] pair.changes[k]),
                n,
            ) && text::is_lines(g(pair.changes[k])) by {
                link_line_lacks(pair.changes[k], n, scope);
            }
            pair_line_lacks(pair.bead_id, pair.remote_id, n, scope);
            section_lacks(
                plan::pair_line(pair.bead_id, pair.remote_id),
                pair.changes,
                g,
                n,
                scope,
            );
        }
        section_lacks("link changes:\n"@, p.link_changes, f, n, scope);
    }
}

proof fn comments_lack(p: ReconcilePlanView, n: Seq<char>, scope: PlanScope)
    requires
        is_phrase(n, scope),
        fixed_texts_lack(n, scope),
        strings_lack(p, scope, n),
    ensures
        !text::holds(plan::comments_text(p, scope), n),
        text::is_lines(plan::comments_text(p, scope)),
{
    let entries = plan::comments_within(scope, p);
    nothing_lacks(n);
    reveal_strlit("comments:\n");
    let f = |c: CommentPlanView| CommentPlan::lines(c);
    let one = |v: CommentPlanView|
        if plan::covers(scope, CommentPlan::way(v)) {
            Some(v)
        } else {
            None
        };
    assert(entries == text::picked(p.comment_changes, one));
    assert forall|i: int| 0 <= i < entries.len() implies !text::holds(f(#[trigger] entries[i]), n)
        && text::is_lines(f(entries[i])) by {
        assert(comment_lacks(entries[i], n));
        text::picked_comes_from(p.comment_changes, one, i);
        comment_line_lacks(entries[i], n, scope);
    }
    section_lacks("comments:\n"@, entries, f, n, scope);
}

proof fn adoptions_lack(p: ReconcilePlanView, n: Seq<char>, scope: PlanScope)
    requires
        is_phrase(n, scope),
        fixed_texts_lack(n, scope),
        strings_lack(p, scope, n),
    ensures
        !text::holds(plan::adoptions_text(p, scope), n),
        text::is_lines(plan::adoptions_text(p, scope)),
        !text::holds(plan::refusals_text(p, scope), n),
        text::is_lines(plan::refusals_text(p, scope)),
{
    nothing_lacks(n);
    if !(scope is Push) {
        reveal_strlit("adoption candidates (");
        reveal_strlit(" issue(s) no bead claims):\n");
        let start = "adoption candidates ("@;
        let end = " issue(s) no bead claims):\n"@;
        heading_lacks(start, p.adoptions.len(), end, n, scope);
        let heading = start + text::decimal(p.adoptions.len() as int) + end;
        let f = |a: AdoptionView| Adoption::lines(a);
        assert forall|i: int| 0 <= i < p.adoptions.len() implies !text::holds(
            f(#[trigger] p.adoptions[i]),
            n,
        ) && text::is_lines(f(p.adoptions[i])) by {
            let a = p.adoptions[i];
            assert(adoption_lacks(a, n));
            apart_line_lacks(a.remote_id, plan::on_one_line(a.summary), n, scope);
        }
        section_lacks(heading, p.adoptions, f, n, scope);

        reveal_strlit("refused adoptions (br cannot read these issues with this remote.yaml):\n");
        let g = |a: RefusedAdoptionView| RefusedAdoption::lines(a);
        assert forall|i: int| 0 <= i < p.refused_adoptions.len() implies !text::holds(
            g(#[trigger] p.refused_adoptions[i]),
            n,
        ) && text::is_lines(g(p.refused_adoptions[i])) by {
            let a = p.refused_adoptions[i];
            assert(refusal_lacks(a, n));
            apart_line_lacks(a.remote_id, a.reason, n, scope);
        }
        section_lacks(
            "refused adoptions (br cannot read these issues with this remote.yaml):\n"@,
            p.refused_adoptions,
            g,
            n,
            scope,
        );
    }
}

proof fn tombstones_lack(p: ReconcilePlanView, n: Seq<char>, scope: PlanScope)
    requires
        is_phrase(n, scope),
        fixed_texts_lack(n, scope),
        strings_lack(p, scope, n),
    ensures
        !text::holds(plan::tombstones_text(p, scope), n),
        text::is_lines(plan::tombstones_text(p, scope)),
        !text::holds(plan::dangling_text(p), n),
        text::is_lines(plan::dangling_text(p)),
{
    nothing_lacks(n);
    if !(scope is Pull) {
        reveal_strlit(
            "deleted beads still mirrored (the tombstone rule owns these; no field change is planned):\n",
        );
        let f = |t: TombstonedPairView| TombstonedPair::lines(t);
        assert forall|i: int| 0 <= i < p.tombstoned.len() implies !text::holds(
            f(#[trigger] p.tombstoned[i]),
            n,
        ) && text::is_lines(f(p.tombstoned[i])) by {
            let t = p.tombstoned[i];
            assert(tombstone_lacks(t, n));
            pair_line_lacks(t.bead_id, t.remote_id, n, scope);
        }
        section_lacks(
            "deleted beads still mirrored (the tombstone rule owns these; no field change is planned):\n"@,
            p.tombstoned,
            f,
            n,
            scope,
        );
    }
    reveal_strlit("dangling local refs (the issue named is gone; nothing was re-created):\n");
    let g = |d: DanglingRefView| DanglingRef::lines(d);
    assert forall|i: int| 0 <= i < p.dangling.len() implies !text::holds(
        g(#[trigger] p.dangling[i]),
        n,
    ) && text::is_lines(g(p.dangling[i])) by {
        let d = p.dangling[i];
        assert(dangling_lacks(d, n));
        pair_line_lacks(d.bead_id, d.external_ref, n, scope);
    }
    section_lacks(
        "dangling local refs (the issue named is gone; nothing was re-created):\n"@,
        p.dangling,
        g,
        n,
        scope,
    );
}

proof fn unmapped_section_lacks(p: ReconcilePlanView, n: Seq<char>, scope: PlanScope)
    requires
        is_phrase(n, scope),
        fixed_texts_lack(n, scope),
        strings_lack(p, scope, n),
    ensures
        !text::holds(plan::unmapped_text(p, scope), n),
        text::is_lines(plan::unmapped_text(p, scope)),
{
    nothing_lacks(n);
    if !(scope is Pull) {
        reveal_strlit(
            "unmapped local values (a push would refuse until remote.yaml covers them):\n",
        );
        let f = |u: UnmappedLocalView| UnmappedLocal::lines(u);
        assert forall|i: int| 0 <= i < p.unmapped_local.len() implies !text::holds(
            f(#[trigger] p.unmapped_local[i]),
            n,
        ) && text::is_lines(f(p.unmapped_local[i])) by {
            assert(unmapped_lacks(p.unmapped_local[i], n));
            unmapped_line_lacks(p.unmapped_local[i], n, scope);
        }
        section_lacks(
            "unmapped local values (a push would refuse until remote.yaml covers them):\n"@,
            p.unmapped_local,
            f,
            n,
            scope,
        );
    }
}

proof fn standing_lacks(p: ReconcilePlanView, n: Seq<char>, scope: PlanScope)
    requires
        is_phrase(n, scope),
        fixed_texts_lack(n, scope),
        strings_lack(p, scope, n),
    ensures
        !text::holds(plan::scope_text(p), n),
        text::is_lines(plan::scope_text(p)),
        !text::holds(plan::unmirrored_text(p), n),
        text::is_lines(plan::unmirrored_text(p)),
        !text::holds(plan::notes_text(p), n),
        text::is_lines(plan::notes_text(p)),
{
    nothing_lacks(n);
    reveal_strlit("out of scope (");
    reveal_strlit(" bead(s) whose external_ref names another tracker; untouched):\n");
    let start = "out of scope ("@;
    let end = " bead(s) whose external_ref names another tracker; untouched):\n"@;
    heading_lacks(start, p.out_of_scope.len(), end, n, scope);
    let heading = start + text::decimal(p.out_of_scope.len() as int) + end;
    let f = |id: Seq<char>| plan::id_line(id);
    assert forall|i: int| 0 <= i < p.out_of_scope.len() implies !text::holds(
        f(#[trigger] p.out_of_scope[i]),
        n,
    ) && text::is_lines(f(p.out_of_scope[i])) by {
        single_line(p.out_of_scope[i], n, scope);
    }
    section_lacks(heading, p.out_of_scope, f, n, scope);

    reveal_strlit("unmirrored relations (");
    reveal_strlit(
        " row(s) whose dependency type has no YouTrack link type; never mirrored):\n",
    );
    let start = "unmirrored relations ("@;
    let end = " row(s) whose dependency type has no YouTrack link type; never mirrored):\n"@;
    heading_lacks(start, p.unmirrored_links.len(), end, n, scope);
    let heading = start + text::decimal(p.unmirrored_links.len() as int) + end;
    let g = |u: UnmirroredLinkView| UnmirroredLink::lines(u);
    assert forall|i: int| 0 <= i < p.unmirrored_links.len() implies !text::holds(
        g(#[trigger] p.unmirrored_links[i]),
        n,
    ) && text::is_lines(g(p.unmirrored_links[i])) by {
        assert(unmirrored_lacks(p.unmirrored_links[i], n));
        unmirrored_line_lacks(p.unmirrored_links[i], n, scope);
    }
    section_lacks(heading, p.unmirrored_links, g, n, scope);

    reveal_strlit("\n");
    let h = |s: Seq<char>| s + "\n"@;
    assert forall|i: int| 0 <= i < p.notes.len() implies !text::holds(h(#[trigger] p.notes[i]), n)
        && text::is_lines(h(p.notes[i])) by {
        assert(n[n.len() - 1] != '\n');
        text::lacks_before(p.notes[i], "\n"@, n);
    }
    text::lacks_in_lines(p.notes, h, n);
}

/// Everything that a rendering prints before its closing line.
pub open spec fn work_text(p: ReconcilePlanView, scope: PlanScope) -> Seq<char> {
    plan::creates_text(p, scope) + plan::updates_text(p, scope) + plan::links_text(p, scope)
        + plan::comments_text(p, scope) + plan::adoptions_text(p, scope) + plan::refusals_text(
        p,
        scope,
    ) + plan::tombstones_text(p, scope) + plan::dangling_text(p) + plan::unmapped_text(p, scope)
        + plan::scope_text(p) + plan::unmirrored_text(p)
}

proof fn work_lacks(p: ReconcilePlanView, n: Seq<char>, scope: PlanScope)
    requires
        is_phrase(n, scope),
        fixed_texts_lack(n, scope),
        strings_lack(p, scope, n),
    ensures
        !text::holds(work_text(p, scope), n),
        text::is_lines(work_text(p, scope)),
        !text::holds(plan::notes_text(p), n),
        text::is_lines(plan::notes_text(p)),
{
    creates_lack(p, n, scope);
    updates_lack(p, n, scope);
    links_section_lacks(p, n, scope);
    comments_lack(p, n, scope);
    adoptions_lack(p, n, scope);
    tombstones_lack(p, n, scope);
    unmapped_section_lacks(p, n, scope);
    standing_lacks(p, n, scope);
    let a = plan::creates_text(p, scope);
    let b = a + plan::updates_text(p, scope);
    let c = b + plan::links_text(p, scope);
    let d = c + plan::comments_text(p, scope);
    let e = d + plan::adoptions_text(p, scope);
    let f = e + plan::refusals_text(p, scope);
    let g = f + plan::tombstones_text(p, scope);
    let h = g + plan::dangling_text(p);
    let i = h + plan::unmapped_text(p, scope);
    let j = i + plan::scope_text(p);
    text::lacks_between_lines(a, plan::updates_text(p, scope), n);
    text::lacks_between_lines(b, plan::links_text(p, scope), n);
    text::lacks_between_lines(c, plan::comments_text(p, scope), n);
    text::lacks_between_lines(d, plan::adoptions_text(p, scope), n);
    text::lacks_between_lines(e, plan::refusals_text(p, scope), n);
    text::lacks_between_lines(f, plan::tombstones_text(p, scope), n);
    text::lacks_between_lines(g, plan::dangling_text(p), n);
    text::lacks_between_lines(h, plan::unmapped_text(p, scope), n);
    text::lacks_between_lines(i, plan::scope_text(p), n);
    text::lacks_between_lines(j, plan::unmirrored_text(p), n);
}

proof fn text_lacks(p: ReconcilePlanView, n: Seq<char>, scope: PlanScope)
    requires
        is_phrase(n, scope),
        fixed_texts_lack(n, scope),
        strings_lack(p, scope, n),
        plan::nothing_pending(p, scope) ==> !text::holds(
            "the mirror already matches this workspace on everything br reconciles today; nothing to do.\n"@,
            n,
        ),
    ensures
        !text::holds(plan::plan_text(p, scope), n),
{
    reveal_strlit(
        "the mirror already matches this workspace on everything br reconciles today; nothing to do.\n",
    );
    let work = work_text(p, scope);
    let closing = plan::closing_text(p, scope);
    nothing_lacks(n);
    work_lacks(p, n, scope);
    text::lacks_between_lines(work, closing, n);
    text::lacks_between_lines(work + closing, plan::notes_text(p), n);
    assert(work + closing + plan::notes_text(p) =~= plan::plan_text(p, scope));
}

// ---------------------------------------------------------------------------
// The phrases
// ---------------------------------------------------------------------------

proof fn nothing_to_do_fits(scope: PlanScope)
    ensures
        is_phrase("nothing to do"@, scope),
        fixed_texts_lack("nothing to do"@, scope),
{
    let n = "nothing to do"@;
    reveal_strlit("nothing to do");
    assert(n[7] == ' ');
    assert(!text::holds("update "@, n)) by {
        reveal_strlit("update ");
        text::lacks_without_pair("update "@, n, 0);
    }
    assert(!text::holds(" issue(s):\n"@, n)) by {
        reveal_strlit(" issue(s):\n");
        text::lacks_without_pair(" issue(s):\n"@, n, 0);
    }
    assert(!text::holds("comments:\n"@, n)) by {
        reveal_strlit("comments:\n");
        text::lacks_without_pair("comments:\n"@, n, 3);
    }
    assert(!text::holds(" comment(s) "@, n)) by {
        reveal_strlit(" comment(s) ");
        text::lacks_without_pair(" comment(s) "@, n, 3);
    }
    assert(!text::holds("acceptance criteria:"@, n)) by {
        reveal_strlit("acceptance criteria:");
        text::lacks_without_pair("acceptance criteria:"@, n, 11);
    }
    assert(!text::holds("close reason:"@, n)) by {
        reveal_strlit("close reason:");
        text::lacks_without_pair("close reason:"@, n, 2);
    }
    assert(!text::holds("dangling local refs (the issue named is gone; nothing was re-created):\n"@, n)) by {
        reveal_strlit("dangling local refs (the issue named is gone; nothing was re-created):\n");
        text::lacks_without_pair("dangling local refs (the issue named is gone; nothing was re-created):\n"@, n, 8);
    }
    assert(!text::holds("out of scope ("@, n)) by {
        reveal_strlit("out of scope (");
        text::lacks_without_pair("out of scope ("@, n, 3);
    }
    assert(!text::holds(" bead(s) whose external_ref names another tracker; untouched):\n"@, n)) by {
        reveal_strlit(" bead(s) whose external_ref names another tracker; untouched):\n");
        text::lacks_without_pair(" bead(s) whose external_ref names another tracker; untouched):\n"@, n, 3);
    }
    assert(!text::holds("unmirrored relations ("@, n)) by {
        reveal_strlit("unmirrored relations (");
        text::lacks_without_pair("unmirrored relations ("@, n, 2);
    }
    assert(!text::holds(" row(s) whose dependency type has no YouTrack link type; never mirrored):\n"@, n)) by {
        reveal_strlit(" row(s) whose dependency type has no YouTrack link type; never mirrored):\n");
        text::lacks_without_pair(" row(s) whose dependency type has no YouTrack link type; never mirrored):\n"@, n, 2);
    }
    assert(!text::holds("create "@, n)) by {
        reveal_strlit("create ");
        text::lacks_without_pair("create "@, n, 0);
    }
    assert(!text::holds("link changes:\n"@, n)) by {
        reveal_strlit("link changes:\n");
        text::lacks_without_pair("link changes:\n"@, n, 1);
    }
    assert(!text::holds("deleted beads still mirrored (the tombstone rule owns these; no field change is planned):\n"@, n)) by {
        reveal_strlit("deleted beads still mirrored (the tombstone rule owns these; no field change is planned):\n");
        text::lacks_without_pair("deleted beads still mirrored (the tombstone rule owns these; no field change is planned):\n"@, n, 3);
    }
    assert(!text::holds("unmapped local values (a push would refuse until remote.yaml covers them):\n"@, n)) by {
        reveal_strlit("unmapped local values (a push would refuse until remote.yaml covers them):\n");
        text::lacks_without_pair("unmapped local values (a push would refuse until remote.yaml covers them):\n"@, n, 5);
    }
    assert(!text::holds("' — add it to"@, n)) by {
        reveal_strlit("' — add it to");
        text::lacks_without_pair("' — add it to"@, n, 5);
    }
    assert(!text::holds("[push]\n"@, n)) by {
        reveal_strlit("[push]\n");
        text::lacks_without_pair("[push]\n"@, n, 0);
    }
    assert(!text::holds("adoption candidates ("@, n)) by {
        reveal_strlit("adoption candidates (");
        text::lacks_without_pair("adoption candidates ("@, n, 2);
    }
    assert(!text::holds(" issue(s) no bead claims):\n"@, n)) by {
        reveal_strlit(" issue(s) no bead claims):\n");
        text::lacks_without_pair(" issue(s) no bead claims):\n"@, n, 2);
    }
    assert(!text::holds("refused adoptions (br cannot read these issues with this remote.yaml):\n"@, n)) by {
        reveal_strlit("refused adoptions (br cannot read these issues with this remote.yaml):\n");
        text::lacks_without_pair("refused adoptions (br cannot read these issues with this remote.yaml):\n"@, n, 5);
    }
    assert(!text::holds("[YouTrack wins]\n"@, n)) by {
        reveal_strlit("[YouTrack wins]\n");
        text::lacks_without_pair("[YouTrack wins]\n"@, n, 2);
    }
}

proof fn pull_marker_fits()
    ensures
        is_phrase("[YouTrack wins]"@, PlanScope::Push),
        fixed_texts_lack("[YouTrack wins]"@, PlanScope::Push),
        !text::holds("the mirror already matches this workspace on everything br reconciles today; nothing to do.\n"@, "[YouTrack wins]"@),
{
    let n = "[YouTrack wins]"@;
    reveal_strlit("[YouTrack wins]");
    assert(n[9] == ' ');
    assert(!text::holds("update "@, n)) by {
        reveal_strlit("update ");
        text::lacks_without_pair("update "@, n, 0);
    }
    assert(!text::holds(" issue(s):\n"@, n)) by {
        reveal_strlit(" issue(s):\n");
        text::lacks_without_pair(" issue(s):\n"@, n, 0);
    }
    assert(!text::holds("comments:\n"@, n)) by {
        reveal_strlit("comments:\n");
        text::lacks_without_pair("comments:\n"@, n, 0);
    }
    assert(!text::holds(" comment(s) "@, n)) by {
        reveal_strlit(" comment(s) ");
        text::lacks_without_pair(" comment(s) "@, n, 0);
    }
    assert(!text::holds("acceptance criteria:"@, n)) by {
        reveal_strlit("acceptance criteria:");
        text::lacks_without_pair("acceptance criteria:"@, n, 0);
    }
    assert(!text::holds("close reason:"@, n)) by {
        reveal_strlit("close reason:");
        text::lacks_without_pair("close reason:"@, n, 0);
    }
    assert(!text::holds("dangling local refs (the issue named is gone; nothing was re-created):\n"@, n)) by {
        reveal_strlit("dangling local refs (the issue named is gone; nothing was re-created):\n");
        text::lacks_without_pair("dangling local refs (the issue named is gone; nothing was re-created):\n"@, n, 0);
    }
    assert(!text::holds("out of scope ("@, n)) by {
        reveal_strlit("out of scope (");
        text::lacks_without_pair("out of scope ("@, n, 0);
    }
    assert(!text::holds(" bead(s) whose external_ref names another tracker; untouched):\n"@, n)) by {
        reveal_strlit(" bead(s) whose external_ref names another tracker; untouched):\n");
        text::lacks_without_pair(" bead(s) whose external_ref names another tracker; untouched):\n"@, n, 0);
    }
    assert(!text::holds("unmirrored relations ("@, n)) by {
        reveal_strlit("unmirrored relations (");
        text::lacks_without_pair("unmirrored relations ("@, n, 0);
    }
    assert(!text::holds(" row(s) whose dependency type has no YouTrack link type; never mirrored):\n"@, n)) by {
        reveal_strlit(" row(s) whose dependency type has no YouTrack link type; never mirrored):\n");
        text::lacks_without_pair(" row(s) whose dependency type has no YouTrack link type; never mirrored):\n"@, n, 0);
    }
    assert(!text::holds("create "@, n)) by {
        reveal_strlit("create ");
        text::lacks_without_pair("create "@, n, 0);
    }
    assert(!text::holds("link changes:\n"@, n)) by {
        reveal_strlit("link changes:\n");
        text::lacks_without_pair("link changes:\n"@, n, 0);
    }
    assert(!text::holds("deleted beads still mirrored (the tombstone rule owns these; no field change is planned):\n"@, n)) by {
        reveal_strlit("deleted beads still mirrored (the tombstone rule owns these; no field change is planned):\n");
        text::lacks_without_pair("deleted beads still mirrored (the tombstone rule owns these; no field change is planned):\n"@, n, 0);
    }
    assert(!text::holds("unmapped local values (a push would refuse until remote.yaml covers them):\n"@, n)) by {
        reveal_strlit("unmapped local values (a push would refuse until remote.yaml covers them):\n");
        text::lacks_without_pair("unmapped local values (a push would refuse until remote.yaml covers them):\n"@, n, 0);
    }
    assert(!text::holds("' — add it to"@, n)) by {
        reveal_strlit("' — add it to");
        text::lacks_without_pair("' — add it to"@, n, 0);
    }
    assert(!text::holds("[push]\n"@, n)) by {
        reveal_strlit("[push]\n");
        text::lacks_without_pair("[push]\n"@, n, 1);
    }
    assert(!text::holds("the mirror already matches this workspace on everything br reconciles today; nothing to do.\n"@, n)) by {
        reveal_strlit("the mirror already matches this workspace on everything br reconciles today; nothing to do.\n");
        text::lacks_without_pair("the mirror already matches this workspace on everything br reconciles today; nothing to do.\n"@, n, 0);
    }
}

proof fn adoption_heading_fits()
    ensures
        is_phrase("adoption candidates"@, PlanScope::Push),
        fixed_texts_lack("adoption candidates"@, PlanScope::Push),
        !text::holds("the mirror already matches this workspace on everything br reconciles today; nothing to do.\n"@, "adoption candidates"@),
{
    let n = "adoption candidates"@;
    reveal_strlit("adoption candidates");
    assert(n[8] == ' ');
    assert(!text::holds("update "@, n)) by {
        reveal_strlit("update ");
        text::lacks_without_pair("update "@, n, 5);
    }
    assert(!text::holds(" issue(s):\n"@, n)) by {
        reveal_strlit(" issue(s):\n");
        text::lacks_without_pair(" issue(s):\n"@, n, 0);
    }
    assert(!text::holds("comments:\n"@, n)) by {
        reveal_strlit("comments:\n");
        text::lacks_without_pair("comments:\n"@, n, 0);
    }
    assert(!text::holds(" comment(s) "@, n)) by {
        reveal_strlit(" comment(s) ");
        text::lacks_without_pair(" comment(s) "@, n, 0);
    }
    assert(!text::holds("acceptance criteria:"@, n)) by {
        reveal_strlit("acceptance criteria:");
        text::lacks_without_pair("acceptance criteria:"@, n, 1);
    }
    assert(!text::holds("close reason:"@, n)) by {
        reveal_strlit("close reason:");
        text::lacks_without_pair("close reason:"@, n, 3);
    }
    assert(!text::holds("dangling local refs (the issue named is gone; nothing was re-created):\n"@, n)) by {
        reveal_strlit("dangling local refs (the issue named is gone; nothing was re-created):\n");
        text::lacks_without_pair("dangling local refs (the issue named is gone; nothing was re-created):\n"@, n, 2);
    }
    assert(!text::holds("out of scope ("@, n)) by {
        reveal_strlit("out of scope (");
        text::lacks_without_pair("out of scope ("@, n, 0);
    }
    assert(!text::holds(" bead(s) whose external_ref names another tracker; untouched):\n"@, n)) by {
        reveal_strlit(" bead(s) whose external_ref names another tracker; untouched):\n");
        text::lacks_without_pair(" bead(s) whose external_ref names another tracker; untouched):\n"@, n, 12);
    }
    assert(!text::holds("unmirrored relations ("@, n)) by {
        reveal_strlit("unmirrored relations (");
        text::lacks_without_pair("unmirrored relations ("@, n, 3);
    }
    assert(!text::holds(" row(s) whose dependency type has no YouTrack link type; never mirrored):\n"@, n)) by {
        reveal_strlit(" row(s) whose dependency type has no YouTrack link type; never mirrored):\n");
        text::lacks_without_pair(" row(s) whose dependency type has no YouTrack link type; never mirrored):\n"@, n, 4);
    }
    assert(!text::holds("create "@, n)) by {
        reveal_strlit("create ");
        text::lacks_without_pair("create "@, n, 1);
    }
    assert(!text::holds("link changes:\n"@, n)) by {
        reveal_strlit("link changes:\n");
        text::lacks_without_pair("link changes:\n"@, n, 1);
    }
    assert(!text::holds("deleted beads still mirrored (the tombstone rule owns these; no field change is planned):\n"@, n)) by {
        reveal_strlit("deleted beads still mirrored (the tombstone rule owns these; no field change is planned):\n");
        text::lacks_without_pair("deleted beads still mirrored (the tombstone rule owns these; no field change is planned):\n"@, n, 9);
    }
    assert(!text::holds("unmapped local values (a push would refuse until remote.yaml covers them):\n"@, n)) by {
        reveal_strlit("unmapped local values (a push would refuse until remote.yaml covers them):\n");
        text::lacks_without_pair("unmapped local values (a push would refuse until remote.yaml covers them):\n"@, n, 12);
    }
    assert(!text::holds("' — add it to"@, n)) by {
        reveal_strlit("' — add it to");
        text::lacks_without_pair("' — add it to"@, n, 17);
    }
    assert(!text::holds("[push]\n"@, n)) by {
        reveal_strlit("[push]\n");
        text::lacks_without_pair("[push]\n"@, n, 0);
    }
    assert(!text::holds("the mirror already matches this workspace on everything br reconciles today; nothing to do.\n"@, n)) by {
        reveal_strlit("the mirror already matches this workspace on everything br reconciles today; nothing to do.\n");
        text::lacks_without_pair("the mirror already matches this workspace on everything br reconciles today; nothing to do.\n"@, n, 3);
    }
}

proof fn refusal_heading_fits()
    ensures
        is_phrase("refused adoptions"@, PlanScope::Push),
        fixed_texts_lack("refused adoptions"@, PlanScope::Push),
        !text::holds("the mirror already matches this workspace on everything br reconciles today; nothing to do.\n"@, "refused adoptions"@),
{
    let n = "refused adoptions"@;
    reveal_strlit("refused adoptions");
    assert(n[7] == ' ');
    assert(!text::holds("update "@, n)) by {
        reveal_strlit("update ");
        text::lacks_without_pair("update "@, n, 13);
    }
    assert(!text::holds(" issue(s):\n"@, n)) by {
        reveal_strlit(" issue(s):\n");
        text::lacks_without_pair(" issue(s):\n"@, n, 8);
    }
    assert(!text::holds("comments:\n"@, n)) by {
        reveal_strlit("comments:\n");
        text::lacks_without_pair("comments:\n"@, n, 2);
    }
    assert(!text::holds(" comment(s) "@, n)) by {
        reveal_strlit(" comment(s) ");
        text::lacks_without_pair(" comment(s) "@, n, 2);
    }
    assert(!text::holds("acceptance criteria:"@, n)) by {
        reveal_strlit("acceptance criteria:");
        text::lacks_without_pair("acceptance criteria:"@, n, 2);
    }
    assert(!text::holds("close reason:"@, n)) by {
        reveal_strlit("close reason:");
        text::lacks_without_pair("close reason:"@, n, 2);
    }
    assert(!text::holds("dangling local refs (the issue named is gone; nothing was re-created):\n"@, n)) by {
        reveal_strlit("dangling local refs (the issue named is gone; nothing was re-created):\n");
        text::lacks_without_pair("dangling local refs (the issue named is gone; nothing was re-created):\n"@, n, 2);
    }
    assert(!text::holds("out of scope ("@, n)) by {
        reveal_strlit("out of scope (");
        text::lacks_without_pair("out of scope ("@, n, 8);
    }
    assert(!text::holds(" bead(s) whose external_ref names another tracker; untouched):\n"@, n)) by {
        reveal_strlit(" bead(s) whose external_ref names another tracker; untouched):\n");
        text::lacks_without_pair(" bead(s) whose external_ref names another tracker; untouched):\n"@, n, 2);
    }
    assert(!text::holds("unmirrored relations ("@, n)) by {
        reveal_strlit("unmirrored relations (");
        text::lacks_without_pair("unmirrored relations ("@, n, 2);
    }
    assert(!text::holds(" row(s) whose dependency type has no YouTrack link type; never mirrored):\n"@, n)) by {
        reveal_strlit(" row(s) whose dependency type has no YouTrack link type; never mirrored):\n");
        text::lacks_without_pair(" row(s) whose dependency type has no YouTrack link type; never mirrored):\n"@, n, 2);
    }
    assert(!text::holds("create "@, n)) by {
        reveal_strlit("create ");
        text::lacks_without_pair("create "@, n, 2);
    }
    assert(!text::holds("link changes:\n"@, n)) by {
        reveal_strlit("link changes:\n");
        text::lacks_without_pair("link changes:\n"@, n, 2);
    }
    assert(!text::holds("deleted beads still mirrored (the tombstone rule owns these; no field change is planned):\n"@, n)) by {
        reveal_strlit("deleted beads still mirrored (the tombstone rule owns these; no field change is planned):\n");
        text::lacks_without_pair("deleted beads still mirrored (the tombstone rule owns these; no field change is planned):\n"@, n, 2);
    }
    assert(!text::holds("unmapped local values (a push would refuse until remote.yaml covers them):\n"@, n)) by {
        reveal_strlit("unmapped local values (a push would refuse until remote.yaml covers them):\n");
        text::lacks_without_pair("unmapped local values (a push would refuse until remote.yaml covers them):\n"@, n, 13);
    }
    assert(!text::holds("' — add it to"@, n)) by {
        reveal_strlit("' — add it to");
        text::lacks_without_pair("' — add it to"@, n, 0);
    }
    assert(!text::holds("[push]\n"@, n)) by {
        reveal_strlit("[push]\n");
        text::lacks_without_pair("[push]\n"@, n, 0);
    }
    assert(!text::holds("the mirror already matches this workspace on everything br reconciles today; nothing to do.\n"@, n)) by {
        reveal_strlit("the mirror already matches this workspace on everything br reconciles today; nothing to do.\n");
        text::lacks_without_pair("the mirror already matches this workspace on everything br reconciles today; nothing to do.\n"@, n, 2);
    }
}

proof fn push_marker_fits()
    ensures
        is_phrase("[push]"@, PlanScope::Pull),
        fixed_texts_lack("[push]"@, PlanScope::Pull),
        !text::holds("the mirror already matches this workspace on everything br reconciles today; nothing to do.\n"@, "[push]"@),
{
    let n = "[push]"@;
    reveal_strlit("[push]");
    assert(n[0] == '[');
    assert(!text::holds("update "@, n)) by {
        reveal_strlit("update ");
        text::lacks_without_pair("update "@, n, 3);
    }
    assert(!text::holds(" issue(s):\n"@, n)) by {
        reveal_strlit(" issue(s):\n");
        text::lacks_without_pair(" issue(s):\n"@, n, 0);
    }
    assert(!text::holds("comments:\n"@, n)) by {
        reveal_strlit("comments:\n");
        text::lacks_without_pair("comments:\n"@, n, 0);
    }
    assert(!text::holds(" comment(s) "@, n)) by {
        reveal_strlit(" comment(s) ");
        text::lacks_without_pair(" comment(s) "@, n, 0);
    }
    assert(!text::holds("acceptance criteria:"@, n)) by {
        reveal_strlit("acceptance criteria:");
        text::lacks_without_pair("acceptance criteria:"@, n, 2);
    }
    assert(!text::holds("close reason:"@, n)) by {
        reveal_strlit("close reason:");
        text::lacks_without_pair("close reason:"@, n, 0);
    }
    assert(!text::holds("dangling local refs (the issue named is gone; nothing was re-created):\n"@, n)) by {
        reveal_strlit("dangling local refs (the issue named is gone; nothing was re-created):\n");
        text::lacks_without_pair("dangling local refs (the issue named is gone; nothing was re-created):\n"@, n, 0);
    }
    assert(!text::holds("out of scope ("@, n)) by {
        reveal_strlit("out of scope (");
        text::lacks_without_pair("out of scope ("@, n, 4);
    }
    assert(!text::holds(" bead(s) whose external_ref names another tracker; untouched):\n"@, n)) by {
        reveal_strlit(" bead(s) whose external_ref names another tracker; untouched):\n");
        text::lacks_without_pair(" bead(s) whose external_ref names another tracker; untouched):\n"@, n, 0);
    }
    assert(!text::holds("unmirrored relations ("@, n)) by {
        reveal_strlit("unmirrored relations (");
        text::lacks_without_pair("unmirrored relations ("@, n, 0);
    }
    assert(!text::holds(" row(s) whose dependency type has no YouTrack link type; never mirrored):\n"@, n)) by {
        reveal_strlit(" row(s) whose dependency type has no YouTrack link type; never mirrored):\n");
        text::lacks_without_pair(" row(s) whose dependency type has no YouTrack link type; never mirrored):\n"@, n, 4);
    }
    assert(!text::holds("adoption candidates ("@, n)) by {
        reveal_strlit("adoption candidates (");
        text::lacks_without_pair("adoption candidates ("@, n, 4);
    }
    assert(!text::holds(" issue(s) no bead claims):\n"@, n)) by {
        reveal_strlit(" issue(s) no bead claims):\n");
        text::lacks_without_pair(" issue(s) no bead claims):\n"@, n, 0);
    }
    assert(!text::holds("refused adoptions (br cannot read these issues with this remote.yaml):\n"@, n)) by {
        reveal_strlit("refused adoptions (br cannot read these issues with this remote.yaml):\n");
        text::lacks_without_pair("refused adoptions (br cannot read these issues with this remote.yaml):\n"@, n, 0);
    }
    assert(!text::holds("[YouTrack wins]\n"@, n)) by {
        reveal_strlit("[YouTrack wins]\n");
        text::lacks_without_pair("[YouTrack wins]\n"@, n, 0);
    }
    assert(!text::holds("the mirror already matches this workspace on everything br reconciles today; nothing to do.\n"@, n)) by {
        reveal_strlit("the mirror already matches this workspace on everything br reconciles today; nothing to do.\n");
        text::lacks_without_pair("the mirror already matches this workspace on everything br reconciles today; nothing to do.\n"@, n, 0);
    }
}

proof fn links_heading_fits()
    ensures
        is_phrase("link changes:"@, PlanScope::Pull),
        fixed_texts_lack("link changes:"@, PlanScope::Pull),
        !text::holds("the mirror already matches this workspace on everything br reconciles today; nothing to do.\n"@, "link changes:"@),
{
    let n = "link changes:"@;
    reveal_strlit("link changes:");
    assert(n[4] == ' ');
    assert(!text::holds("update "@, n)) by {
        reveal_strlit("update ");
        text::lacks_without_pair("update "@, n, 0);
    }
    assert(!text::holds(" issue(s):\n"@, n)) by {
        reveal_strlit(" issue(s):\n");
        text::lacks_without_pair(" issue(s):\n"@, n, 2);
    }
    assert(!text::holds("comments:\n"@, n)) by {
        reveal_strlit("comments:\n");
        text::lacks_without_pair("comments:\n"@, n, 0);
    }
    assert(!text::holds(" comment(s) "@, n)) by {
        reveal_strlit(" comment(s) ");
        text::lacks_without_pair(" comment(s) "@, n, 0);
    }
    assert(!text::holds("acceptance criteria:"@, n)) by {
        reveal_strlit("acceptance criteria:");
        text::lacks_without_pair("acceptance criteria:"@, n, 2);
    }
    assert(!text::holds("close reason:"@, n)) by {
        reveal_strlit("close reason:");
        text::lacks_without_pair("close reason:"@, n, 0);
    }
    assert(!text::holds("dangling local refs (the issue named is gone; nothing was re-created):\n"@, n)) by {
        reveal_strlit("dangling local refs (the issue named is gone; nothing was re-created):\n");
        text::lacks_without_pair("dangling local refs (the issue named is gone; nothing was re-created):\n"@, n, 5);
    }
    assert(!text::holds("out of scope ("@, n)) by {
        reveal_strlit("out of scope (");
        text::lacks_without_pair("out of scope ("@, n, 0);
    }
    assert(!text::holds(" bead(s) whose external_ref names another tracker; untouched):\n"@, n)) by {
        reveal_strlit(" bead(s) whose external_ref names another tracker; untouched):\n");
        text::lacks_without_pair(" bead(s) whose external_ref names another tracker; untouched):\n"@, n, 0);
    }
    assert(!text::holds("unmirrored relations ("@, n)) by {
        reveal_strlit("unmirrored relations (");
        text::lacks_without_pair("unmirrored relations ("@, n, 5);
    }
    assert(!text::holds(" row(s) whose dependency type has no YouTrack link type; never mirrored):\n"@, n)) by {
        reveal_strlit(" row(s) whose dependency type has no YouTrack link type; never mirrored):\n");
        text::lacks_without_pair(" row(s) whose dependency type has no YouTrack link type; never mirrored):\n"@, n, 5);
    }
    assert(!text::holds("adoption candidates ("@, n)) by {
        reveal_strlit("adoption candidates (");
        text::lacks_without_pair("adoption candidates ("@, n, 5);
    }
    assert(!text::holds(" issue(s) no bead claims):\n"@, n)) by {
        reveal_strlit(" issue(s) no bead claims):\n");
        text::lacks_without_pair(" issue(s) no bead claims):\n"@, n, 2);
    }
    assert(!text::holds("refused adoptions (br cannot read these issues with this remote.yaml):\n"@, n)) by {
        reveal_strlit("refused adoptions (br cannot read these issues with this remote.yaml):\n");
        text::lacks_without_pair("refused adoptions (br cannot read these issues with this remote.yaml):\n"@, n, 2);
    }
    assert(!text::holds("[YouTrack wins]\n"@, n)) by {
        reveal_strlit("[YouTrack wins]\n");
        text::lacks_without_pair("[YouTrack wins]\n"@, n, 9);
    }
    assert(!text::holds("the mirror already matches this workspace on everything br reconciles today; nothing to do.\n"@, n)) by {
        reveal_strlit("the mirror already matches this workspace on everything br reconciles today; nothing to do.\n");
        text::lacks_without_pair("the mirror already matches this workspace on everything br reconciles today; nothing to do.\n"@, n, 11);
    }
}

proof fn tombstones_heading_fits()
    ensures
        is_phrase("deleted beads still mirrored"@, PlanScope::Pull),
        fixed_texts_lack("deleted beads still mirrored"@, PlanScope::Pull),
        !text::holds("the mirror already matches this workspace on everything br reconciles today; nothing to do.\n"@, "deleted beads still mirrored"@),
{
    let n = "deleted beads still mirrored"@;
    reveal_strlit("deleted beads still mirrored");
    assert(n[7] == ' ');
    assert(!text::holds("update "@, n)) by {
        reveal_strlit("update ");
        text::lacks_without_pair("update "@, n, 16);
    }
    assert(!text::holds(" issue(s):\n"@, n)) by {
        reveal_strlit(" issue(s):\n");
        text::lacks_without_pair(" issue(s):\n"@, n, 10);
    }
    assert(!text::holds("comments:\n"@, n)) by {
        reveal_strlit("comments:\n");
        text::lacks_without_pair("comments:\n"@, n, 6);
    }
    assert(!text::holds(" comment(s) "@, n)) by {
        reveal_strlit(" comment(s) ");
        text::lacks_without_pair(" comment(s) "@, n, 10);
    }
    assert(!text::holds("acceptance criteria:"@, n)) by {
        reveal_strlit("acceptance criteria:");
        text::lacks_without_pair("acceptance criteria:"@, n, 11);
    }
    assert(!text::holds("close reason:"@, n)) by {
        reveal_strlit("close reason:");
        text::lacks_without_pair("close reason:"@, n, 15);
    }
    assert(!text::holds("dangling local refs (the issue named is gone; nothing was re-created):\n"@, n)) by {
        reveal_strlit("dangling local refs (the issue named is gone; nothing was re-created):\n");
        text::lacks_without_pair("dangling local refs (the issue named is gone; nothing was re-created):\n"@, n, 20);
    }
    assert(!text::holds("out of scope ("@, n)) by {
        reveal_strlit("out of scope (");
        text::lacks_without_pair("out of scope ("@, n, 10);
    }
    assert(!text::holds(" bead(s) whose external_ref names another tracker; untouched):\n"@, n)) by {
        reveal_strlit(" bead(s) whose external_ref names another tracker; untouched):\n");
        text::lacks_without_pair(" bead(s) whose external_ref names another tracker; untouched):\n"@, n, 16);
    }
    assert(!text::holds("unmirrored relations ("@, n)) by {
        reveal_strlit("unmirrored relations (");
        text::lacks_without_pair("unmirrored relations ("@, n, 7);
    }
    assert(!text::holds(" row(s) whose dependency type has no YouTrack link type; never mirrored):\n"@, n)) by {
        reveal_strlit(" row(s) whose dependency type has no YouTrack link type; never mirrored):\n");
        text::lacks_without_pair(" row(s) whose dependency type has no YouTrack link type; never mirrored):\n"@, n, 17);
    }
    assert(!text::holds("adoption candidates ("@, n)) by {
        reveal_strlit("adoption candidates (");
        text::lacks_without_pair("adoption candidates ("@, n, 17);
    }
    assert(!text::holds(" issue(s) no bead claims):\n"@, n)) by {
        reveal_strlit(" issue(s) no bead claims):\n");
        text::lacks_without_pair(" issue(s) no bead claims):\n"@, n, 22);
    }
    assert(!text::holds("refused adoptions (br cannot read these issues with this remote.yaml):\n"@, n)) by {
        reveal_strlit("refused adoptions (br cannot read these issues with this remote.yaml):\n");
        text::lacks_without_pair("refused adoptions (br cannot read these issues with this remote.yaml):\n"@, n, 17);
    }
    assert(!text::holds("[YouTrack wins]\n"@, n)) by {
        reveal_strlit("[YouTrack wins]\n");
        text::lacks_without_pair("[YouTrack wins]\n"@, n, 0);
    }
    assert(!text::holds("the mirror already matches this workspace on everything br reconciles today; nothing to do.\n"@, n)) by {
        reveal_strlit("the mirror already matches this workspace on everything br reconciles today; nothing to do.\n");
        text::lacks_without_pair("the mirror already matches this workspace on everything br reconciles today; nothing to do.\n"@, n, 17);
    }
}

proof fn unmapped_heading_fits()
    ensures
        is_phrase("unmapped local values"@, PlanScope::Pull),
        fixed_texts_lack("unmapped local values"@, PlanScope::Pull),
        !text::holds("the mirror already matches this workspace on everything br reconciles today; nothing to do.\n"@, "unmapped local values"@),
{
    let n = "unmapped local values"@;
    reveal_strlit("unmapped local values");
    assert(n[8] == ' ');
    assert(!text::holds("update "@, n)) by {
        reveal_strlit("update ");
        text::lacks_without_pair("update "@, n, 1);
    }
    assert(!text::holds(" issue(s):\n"@, n)) by {
        reveal_strlit(" issue(s):\n");
        text::lacks_without_pair(" issue(s):\n"@, n, 1);
    }
    assert(!text::holds("comments:\n"@, n)) by {
        reveal_strlit("comments:\n");
        text::lacks_without_pair("comments:\n"@, n, 3);
    }
    assert(!text::holds(" comment(s) "@, n)) by {
        reveal_strlit(" comment(s) ");
        text::lacks_without_pair(" comment(s) "@, n, 3);
    }
    assert(!text::holds("acceptance criteria:"@, n)) by {
        reveal_strlit("acceptance criteria:");
        text::lacks_without_pair("acceptance criteria:"@, n, 9);
    }
    assert(!text::holds("close reason:"@, n)) by {
        reveal_strlit("close reason:");
        text::lacks_without_pair("close reason:"@, n, 4);
    }
    assert(!text::holds("dangling local refs (the issue named is gone; nothing was re-created):\n"@, n)) by {
        reveal_strlit("dangling local refs (the issue named is gone; nothing was re-created):\n");
        text::lacks_without_pair("dangling local refs (the issue named is gone; nothing was re-created):\n"@, n, 4);
    }
    assert(!text::holds("out of scope ("@, n)) by {
        reveal_strlit("out of scope (");
        text::lacks_without_pair("out of scope ("@, n, 1);
    }
    assert(!text::holds(" bead(s) whose external_ref names another tracker; untouched):\n"@, n)) by {
        reveal_strlit(" bead(s) whose external_ref names another tracker; untouched):\n");
        text::lacks_without_pair(" bead(s) whose external_ref names another tracker; untouched):\n"@, n, 4);
    }
    assert(!text::holds("unmirrored relations ("@, n)) by {
        reveal_strlit("unmirrored relations (");
        text::lacks_without_pair("unmirrored relations ("@, n, 4);
    }
    assert(!text::holds(" row(s) whose dependency type has no YouTrack link type; never mirrored):\n"@, n)) by {
        reveal_strlit(" row(s) whose dependency type has no YouTrack link type; never mirrored):\n");
        text::lacks_without_pair(" row(s) whose dependency type has no YouTrack link type; never mirrored):\n"@, n, 17);
    }
    assert(!text::holds("adoption candidates ("@, n)) by {
        reveal_strlit("adoption candidates (");
        text::lacks_without_pair("adoption candidates ("@, n, 17);
    }
    assert(!text::holds(" issue(s) no bead claims):\n"@, n)) by {
        reveal_strlit(" issue(s) no bead claims):\n");
        text::lacks_without_pair(" issue(s) no bead claims):\n"@, n, 4);
    }
    assert(!text::holds("refused adoptions (br cannot read these issues with this remote.yaml):\n"@, n)) by {
        reveal_strlit("refused adoptions (br cannot read these issues with this remote.yaml):\n");
        text::lacks_without_pair("refused adoptions (br cannot read these issues with this remote.yaml):\n"@, n, 4);
    }
    assert(!text::holds("[YouTrack wins]\n"@, n)) by {
        reveal_strlit("[YouTrack wins]\n");
        text::lacks_without_pair("[YouTrack wins]\n"@, n, 4);
    }
    assert(!text::holds("the mirror already matches this workspace on everything br reconciles today; nothing to do.\n"@, n)) by {
        reveal_strlit("the mirror already matches this workspace on everything br reconciles today; nothing to do.\n");
        text::lacks_without_pair("the mirror already matches this workspace on everything br reconciles today; nothing to do.\n"@, n, 4);
    }
}

/// The heading of the beads that a push creates, for a given number of them.
pub open spec fn creates_heading(count: nat) -> Seq<char> {
    "create "@ + text::decimal(count as int) + " issue(s):"@
}

proof fn creates_heading_is_phrase(count: nat)
    ensures
        is_phrase(creates_heading(count), PlanScope::Pull),
{
    reveal_strlit("create ");
    reveal_strlit(" issue(s):");
    let number = text::decimal(count as int);
    let n = creates_heading(count);
    text::decimal_is_digits(count);
    let end = 7 + number.len();
    assert(n[6] == ' ');
    assert forall|k: int| 0 <= k < n.len() implies (#[trigger] n[k] != '\n' && n[k] != '→' && n[k]
        != '\'' && (k < n.len() - 1 ==> n[k] != ':') && (k >= 1 ==> n[k] != '[')) by {
        if k < 7 {
            assert(n[k] == "create "@[k]);
        } else if k < end {
            assert(n[k] == number[k - 7]);
        } else {
            assert(n[k] == " issue(s):"@[k - end]);
        }
    }
    assert forall|k: int| 0 <= k < n.len() - 1 implies #[trigger] neighbours_fit(
        n,
        k,
        PlanScope::Pull,
    ) by {
        if k < 6 {
            assert(n[k] == "create "@[k] && n[k + 1] == "create "@[k + 1]);
        } else if k == 6 {
            assert(n[k] == ' ' && n[k + 1] == number[0]);
        } else if k < end - 1 {
            assert(n[k] == number[k - 7] && n[k + 1] == number[k - 6]);
        } else if k == end - 1 {
            assert(n[k] == number[k - 7] && n[k + 1] == ' ');
        } else {
            assert(n[k] == " issue(s):"@[k - end] && n[k + 1] == " issue(s):"@[k + 1 - end]);
        }
    }
}

proof fn creates_heading_fits(count: nat)
    ensures
        is_phrase(creates_heading(count), PlanScope::Pull),
        fixed_texts_lack(creates_heading(count), PlanScope::Pull),
        !text::holds(
            "the mirror already matches this workspace on everything br reconciles today; nothing to do.\n"@,
            creates_heading(count),
        ),
{
    creates_heading_is_phrase(count);
    let start = "create "@;
    let rest = text::decimal(count as int) + " issue(s):"@;
    let n = creates_heading(count);
    assert(start + rest =~= n);
    reveal_strlit("create ");
    assert(!text::holds("update "@, start)) by {
        reveal_strlit("update ");
        text::lacks_without_pair("update "@, start, 0);
    }
    text::lacks_longer("update "@, start, rest);
    assert(!text::holds(" issue(s):\n"@, start)) by {
        reveal_strlit(" issue(s):\n");
        text::lacks_without_pair(" issue(s):\n"@, start, 0);
    }
    text::lacks_longer(" issue(s):\n"@, start, rest);
    assert(!text::holds("comments:\n"@, start)) by {
        reveal_strlit("comments:\n");
        text::lacks_without_pair("comments:\n"@, start, 0);
    }
    text::lacks_longer("comments:\n"@, start, rest);
    assert(!text::holds(" comment(s) "@, start)) by {
        reveal_strlit(" comment(s) ");
        text::lacks_without_pair(" comment(s) "@, start, 0);
    }
    text::lacks_longer(" comment(s) "@, start, rest);
    assert(!text::holds("acceptance criteria:"@, start)) by {
        reveal_strlit("acceptance criteria:");
        text::lacks_without_pair("acceptance criteria:"@, start, 1);
    }
    text::lacks_longer("acceptance criteria:"@, start, rest);
    assert(!text::holds("close reason:"@, start)) by {
        reveal_strlit("close reason:");
        text::lacks_without_pair("close reason:"@, start, 3);
    }
    text::lacks_longer("close reason:"@, start, rest);
    assert(!text::holds("dangling local refs (the issue named is gone; nothing was re-created):\n"@, start)) by {
        reveal_strlit("dangling local refs (the issue named is gone; nothing was re-created):\n");
        text::lacks_without_three("dangling local refs (the issue named is gone; nothing was re-created):\n"@, start, 4);
    }
    text::lacks_longer("dangling local refs (the issue named is gone; nothing was re-created):\n"@, start, rest);
    assert(!text::holds("out of scope ("@, start)) by {
        reveal_strlit("out of scope (");
        text::lacks_without_pair("out of scope ("@, start, 0);
    }
    text::lacks_longer("out of scope ("@, start, rest);
    assert(!text::holds(" bead(s) whose external_ref names another tracker; untouched):\n"@, start)) by {
        reveal_strlit(" bead(s) whose external_ref names another tracker; untouched):\n");
        text::lacks_without_pair(" bead(s) whose external_ref names another tracker; untouched):\n"@, start, 0);
    }
    text::lacks_longer(" bead(s) whose external_ref names another tracker; untouched):\n"@, start, rest);
    assert(!text::holds("unmirrored relations ("@, start)) by {
        reveal_strlit("unmirrored relations (");
        text::lacks_without_pair("unmirrored relations ("@, start, 2);
    }
    text::lacks_longer("unmirrored relations ("@, start, rest);
    assert(!text::holds(" row(s) whose dependency type has no YouTrack link type; never mirrored):\n"@, start)) by {
        reveal_strlit(" row(s) whose dependency type has no YouTrack link type; never mirrored):\n");
        text::lacks_without_pair(" row(s) whose dependency type has no YouTrack link type; never mirrored):\n"@, start, 3);
    }
    text::lacks_longer(" row(s) whose dependency type has no YouTrack link type; never mirrored):\n"@, start, rest);
    assert(!text::holds("adoption candidates ("@, start)) by {
        reveal_strlit("adoption candidates (");
        text::lacks_without_pair("adoption candidates ("@, start, 0);
    }
    text::lacks_longer("adoption candidates ("@, start, rest);
    assert(!text::holds(" issue(s) no bead claims):\n"@, start)) by {
        reveal_strlit(" issue(s) no bead claims):\n");
        text::lacks_without_pair(" issue(s) no bead claims):\n"@, start, 0);
    }
    text::lacks_longer(" issue(s) no bead claims):\n"@, start, rest);
    assert(!text::holds("refused adoptions (br cannot read these issues with this remote.yaml):\n"@, start)) by {
        reveal_strlit("refused adoptions (br cannot read these issues with this remote.yaml):\n");
        text::lacks_without_pair("refused adoptions (br cannot read these issues with this remote.yaml):\n"@, start, 0);
    }
    text::lacks_longer("refused adoptions (br cannot read these issues with this remote.yaml):\n"@, start, rest);
    assert(!text::holds("[YouTrack wins]\n"@, start)) by {
        reveal_strlit("[YouTrack wins]\n");
        text::lacks_without_pair("[YouTrack wins]\n"@, start, 4);
    }
    text::lacks_longer("[YouTrack wins]\n"@, start, rest);
    assert(!text::holds("the mirror already matches this workspace on everything br reconciles today; nothing to do.\n"@, start)) by {
        reveal_strlit("the mirror already matches this workspace on everything br reconciles today; nothing to do.\n");
        text::lacks_without_pair("the mirror already matches this workspace on everything br reconciles today; nothing to do.\n"@, start, 0);
    }
    text::lacks_longer("the mirror already matches this workspace on everything br reconciles today; nothing to do.\n"@, start, rest);
}

// ---------------------------------------------------------------------------
// What holds of every rendering
// ---------------------------------------------------------------------------

/// A rendering says that there is nothing to do exactly where nothing of its
/// scope is pending, unless a string that it prints says so.
pub proof fn nothing_to_do_means_nothing_pending(p: ReconcilePlanView, scope: PlanScope)
    requires
        strings_lack(p, scope, "nothing to do"@),
    ensures
        text::holds(plan::plan_text(p, scope), "nothing to do"@) <==> plan::nothing_pending(
            p,
            scope,
        ),
{
    let n = "nothing to do"@;
    nothing_to_do_fits(scope);
    if plan::nothing_pending(p, scope) {
        reveal_strlit("nothing to do");
        reveal_strlit(
            "the mirror already matches this workspace on everything br reconciles today; nothing to do.\n",
        );
        let closing = plan::closing_text(p, scope);
        assert(text::stands_at(closing, n, 77));
        text::holds_within(work_text(p, scope), closing, plan::notes_text(p), n);
        assert(work_text(p, scope) + closing + plan::notes_text(p) =~= plan::plan_text(p, scope));
    } else {
        text_lacks(p, n, scope);
    }
}

/// A value on one line holds nothing that the value, its control characters
/// read as spaces, does not hold.
pub proof fn one_line_adds_nothing(s: Seq<char>, n: Seq<char>)
    requires
        n.len() > 0,
        n.last() != '…',
        !text::holds("(none)"@, n),
        !text::holds(plan::flattened(s), n),
    ensures
        !text::holds(plan::on_one_line(s), n),
{
    let flat = text::trimmed(plan::flattened(s));
    reveal_strlit("…");
    text::lacks_trimmed(plan::flattened(s), n);
    if flat.len() > 60 {
        text::lacks_in_part(flat, 0, 60, n);
        assert(flat.take(60) =~= flat.subrange(0, 60));
        text::lacks_before(flat.take(60), "…"@, n);
    }
}

/// A word that a text does not hold is not in it with its control characters
/// read as spaces either.
pub proof fn flattening_adds_no_word(s: Seq<char>, n: Seq<char>)
    requires
        !n.contains(' '),
        !text::holds(s, n),
    ensures
        !text::holds(plan::flattened(s), n),
{
    let flat = plan::flattened(s);
    if text::holds(flat, n) {
        let i = choose|i: int| text::stands_at(flat, n, i);
        assert forall|k: int| 0 <= k < n.len() implies s[i + k] == #[trigger] n[k] by {
            assert(flat[i + k] == n[k]);
            assert(n.contains(n[k]));
        }
        assert(text::stands_at(s, n, i));
    }
}

/// No string of the plan that can be printed holds `n`.
pub open spec fn stored_lack(p: ReconcilePlanView, n: Seq<char>) -> bool {
    &&& all_lack(p.creates, n)
    &&& forall|k: int, j: int|
        0 <= k < p.field_changes.len() && 0 <= j < p.field_changes[k].changes.len()
            ==> pair_lacks(
            (#[trigger] p.field_changes[k].changes[j]).local,
            p.field_changes[k].changes[j].remote,
            n,
        )
    &&& forall|k: int|
        0 <= k < p.field_changes.len() ==> pair_lacks(
            (#[trigger] p.field_changes[k]).bead_id,
            p.field_changes[k].remote_id,
            n,
        )
    &&& forall|k: int| 0 <= k < p.link_changes.len() ==> links_lack(#[trigger] p.link_changes[k], n)
    &&& forall|k: int|
        0 <= k < p.comment_changes.len() ==> pair_lacks(
            (#[trigger] p.comment_changes[k]).bead_id,
            p.comment_changes[k].remote_id,
            n,
        )
    &&& forall|k: int|
        0 <= k < p.adoptions.len() ==> pair_lacks(
            (#[trigger] p.adoptions[k]).remote_id,
            p.adoptions[k].summary,
            n,
        )
    &&& forall|k: int|
        0 <= k < p.refused_adoptions.len() ==> refusal_lacks(#[trigger] p.refused_adoptions[k], n)
    &&& forall|k: int|
        0 <= k < p.tombstoned.len() ==> tombstone_lacks(#[trigger] p.tombstoned[k], n)
    &&& forall|k: int| 0 <= k < p.dangling.len() ==> dangling_lacks(#[trigger] p.dangling[k], n)
    &&& forall|k: int|
        0 <= k < p.unmapped_local.len() ==> pair_lacks(
            (#[trigger] p.unmapped_local[k]).bead_id,
            p.unmapped_local[k].field,
            n,
        ) && pair_lacks(p.unmapped_local[k].value, p.unmapped_local[k].map_key, n)
    &&& all_lack(p.out_of_scope, n)
    &&& forall|k: int|
        0 <= k < p.unmirrored_links.len() ==> pair_lacks(
            (#[trigger] p.unmirrored_links[k]).bead_id,
            p.unmirrored_links[k].dep_type,
            n,
        ) && !text::holds(p.unmirrored_links[k].target_id, n)
    &&& all_lack(p.notes, n)
}

spec fn is_nothing(n: Seq<char>, longer: Seq<char>) -> bool {
    n == "nothing"@ && longer == "nothing to do"@
}

/// What does not hold the first word does not hold the words.
proof fn lacks_words(s: Seq<char>, n: Seq<char>, longer: Seq<char>)
    requires
        is_nothing(n, longer),
        !text::holds(s, n),
    ensures
        !text::holds(s, longer),
{
    reveal_strlit("nothing");
    reveal_strlit("nothing to do");
    reveal_strlit(" to do");
    assert(longer =~= n + " to do"@);
    text::lacks_longer(s, n, " to do"@);
}

proof fn one_line_lacks_words(s: Seq<char>, n: Seq<char>, longer: Seq<char>)
    requires
        is_nothing(n, longer),
        !text::holds(s, n),
    ensures
        !text::holds(plan::on_one_line(s), longer),
{
    reveal_strlit("nothing");
    reveal_strlit("(none)");
    flattening_adds_no_word(s, n);
    text::lacks_without_pair("(none)"@, n, 2);
    one_line_adds_nothing(s, n);
    lacks_words(plan::on_one_line(s), n, longer);
}

proof fn with_colon_lacks_words(s: Seq<char>, n: Seq<char>, longer: Seq<char>)
    requires
        is_nothing(n, longer),
        !text::holds(s, n),
    ensures
        !text::holds(s + ":"@, longer),
{
    reveal_strlit("nothing");
    reveal_strlit(":");
    text::lacks_before(s, ":"@, n);
    lacks_words(s + ":"@, n, longer);
}

proof fn row_lacks_words(u: UnmirroredLinkView, n: Seq<char>, longer: Seq<char>)
    requires
        is_nothing(n, longer),
        pair_lacks(u.bead_id, u.dep_type, n),
        !text::holds(u.target_id, n),
    ensures
        unmirrored_lacks(u, longer),
{
    reveal_strlit("nothing");
    reveal_strlit(" ");
    let a = u.bead_id + " "@;
    let b = u.dep_type + " "@;
    let c = a + b;
    text::lacks_before(u.bead_id, " "@, n);
    text::lacks_before(u.dep_type, " "@, n);
    assert(!text::has_pair(n, ' ', b[0]));
    text::lacks_across(a, b, n);
    if u.target_id.len() > 0 {
        assert(!text::has_pair(n, ' ', u.target_id[0]));
    }
    text::lacks_across(c, u.target_id, n);
    assert(c + u.target_id =~= u.bead_id + " "@ + u.dep_type + " "@ + u.target_id);
    lacks_words(c + u.target_id, n, longer);
}

proof fn stored_pairs_lack_words(
    p: ReconcilePlanView,
    scope: PlanScope,
    n: Seq<char>,
    longer: Seq<char>,
)
    requires
        is_nothing(n, longer),
        stored_lack(p, n),
    ensures
        forall|k: int|
            0 <= k < plan::pairs_in(scope, p).len() ==> fields_lack(
                #[trigger] plan::pairs_in(scope, p)[k],
                longer,
            ),
{
    let pairs = plan::pairs_in(scope, p);
    let one = |i: IssueFieldPlanView| plan::pair_in(scope, i);
    assert forall|k: int| 0 <= k < pairs.len() implies fields_lack(#[trigger] pairs[k], longer) by {
        let pair = pairs[k];
        text::picked_comes_from(p.field_changes, one, k);
        let j = choose|j: int|
            0 <= j < p.field_changes.len() && one(#[trigger] p.field_changes[j]) == Some(pair);
        let whole = p.field_changes[j];
        lacks_words(whole.bead_id, n, longer);
        lacks_words(whole.remote_id, n, longer);
        let f = |v: FieldChangeView|
            if plan::covers(scope, FieldChange::way(v)) {
                Some(v)
            } else {
                None
            };
        assert(pair.changes == text::picked(whole.changes, f));
        assert forall|m: int| 0 <= m < pair.changes.len() implies change_lacks(
            #[trigger] pair.changes[m],
            longer,
        ) by {
            text::picked_comes_from(whole.changes, f, m);
            let l = choose|l: int|
                0 <= l < whole.changes.len() && f(#[trigger] whole.changes[l]) == Some(
                    pair.changes[m],
                );
            assert(p.field_changes[j].changes[l] == pair.changes[m]);
            one_line_lacks_words(pair.changes[m].local, n, longer);
            one_line_lacks_words(pair.changes[m].remote, n, longer);
        }
    }
}

proof fn stored_comments_lack_words(
    p: ReconcilePlanView,
    scope: PlanScope,
    n: Seq<char>,
    longer: Seq<char>,
)
    requires
        is_nothing(n, longer),
        stored_lack(p, n),
    ensures
        forall|k: int|
            0 <= k < plan::comments_within(scope, p).len() ==> comment_lacks(
                #[trigger] plan::comments_within(scope, p)[k],
                longer,
            ),
{
    let entries = plan::comments_within(scope, p);
    let one = |v: CommentPlanView|
        if plan::covers(scope, CommentPlan::way(v)) {
            Some(v)
        } else {
            None
        };
    assert(entries == text::picked(p.comment_changes, one));
    assert forall|k: int| 0 <= k < entries.len() implies comment_lacks(
        #[trigger] entries[k],
        longer,
    ) by {
        text::picked_comes_from(p.comment_changes, one, k);
        let j = choose|j: int|
            0 <= j < p.comment_changes.len() && one(#[trigger] p.comment_changes[j]) == Some(
                entries[k],
            );
        lacks_words(entries[k].bead_id, n, longer);
        with_colon_lacks_words(entries[k].remote_id, n, longer);
    }
}

proof fn all_lack_words(s: Seq<Seq<char>>, n: Seq<char>, longer: Seq<char>)
    requires
        is_nothing(n, longer),
        all_lack(s, n),
    ensures
        all_lack(s, longer),
{
    assert forall|k: int| 0 <= k < s.len() implies !text::holds(#[trigger] s[k], longer) by {
        lacks_words(s[k], n, longer);
    }
}

proof fn push_strings_lack_words(p: ReconcilePlanView, n: Seq<char>, longer: Seq<char>)
    requires
        is_nothing(n, longer),
        stored_lack(p, n),
    ensures
        push_strings_lack(p, longer),
{
    all_lack_words(p.creates, n, longer);
    assert forall|k: int| 0 <= k < p.link_changes.len() implies links_lack(
        #[trigger] p.link_changes[k],
        longer,
    ) by {
        let pair = p.link_changes[k];
        assert(links_lack(pair, n));
        lacks_words(pair.bead_id, n, longer);
        lacks_words(pair.remote_id, n, longer);
        assert forall|m: int| 0 <= m < pair.changes.len() implies link_lacks(
            #[trigger] pair.changes[m],
            longer,
        ) by {
            assert(link_lacks(pair.changes[m], n));
            match pair.changes[m] {
                LinkChangeView::Add { kind: _, target_readable } => {
                    lacks_words(target_readable, n, longer);
                },
                LinkChangeView::Remove { kind: _, target_internal_id: _, target_readable } => {
                    lacks_words(target_readable, n, longer);
                },
            }
        }
    }
    assert forall|k: int| 0 <= k < p.tombstoned.len() implies tombstone_lacks(
        #[trigger] p.tombstoned[k],
        longer,
    ) by {
        lacks_words(p.tombstoned[k].bead_id, n, longer);
        lacks_words(p.tombstoned[k].remote_id, n, longer);
    }
    assert forall|k: int| 0 <= k < p.unmapped_local.len() implies unmapped_lacks(
        #[trigger] p.unmapped_local[k],
        longer,
    ) by {
        let u = p.unmapped_local[k];
        with_colon_lacks_words(u.bead_id, n, longer);
        lacks_words(u.field, n, longer);
        lacks_words(u.value, n, longer);
        lacks_words(u.map_key, n, longer);
    }
}

proof fn pull_strings_lack_words(p: ReconcilePlanView, n: Seq<char>, longer: Seq<char>)
    requires
        is_nothing(n, longer),
        stored_lack(p, n),
    ensures
        pull_strings_lack(p, longer),
{
    assert forall|k: int| 0 <= k < p.adoptions.len() implies adoption_lacks(
        #[trigger] p.adoptions[k],
        longer,
    ) by {
        lacks_words(p.adoptions[k].remote_id, n, longer);
        one_line_lacks_words(p.adoptions[k].summary, n, longer);
    }
    assert forall|k: int| 0 <= k < p.refused_adoptions.len() implies refusal_lacks(
        #[trigger] p.refused_adoptions[k],
        longer,
    ) by {
        lacks_words(p.refused_adoptions[k].remote_id, n, longer);
        lacks_words(p.refused_adoptions[k].reason, n, longer);
    }
}

/// Where no string of the plan holds the word "nothing", a rendering says
/// that there is nothing to do exactly where nothing of its scope is pending.
pub proof fn unsaid_nothing_means_nothing_pending(p: ReconcilePlanView, scope: PlanScope)
    requires
        stored_lack(p, "nothing"@),
    ensures
        text::holds(plan::plan_text(p, scope), "nothing to do"@) <==> plan::nothing_pending(
            p,
            scope,
        ),
{
    let n = "nothing"@;
    let longer = "nothing to do"@;
    push_strings_lack_words(p, n, longer);
    pull_strings_lack_words(p, n, longer);
    stored_pairs_lack_words(p, scope, n, longer);
    stored_comments_lack_words(p, scope, n, longer);
    all_lack_words(p.out_of_scope, n, longer);
    all_lack_words(p.notes, n, longer);
    assert forall|k: int| 0 <= k < p.dangling.len() implies dangling_lacks(
        #[trigger] p.dangling[k],
        longer,
    ) by {
        lacks_words(p.dangling[k].bead_id, n, longer);
        lacks_words(p.dangling[k].external_ref, n, longer);
    }
    assert forall|k: int| 0 <= k < p.unmirrored_links.len() implies unmirrored_lacks(
        #[trigger] p.unmirrored_links[k],
        longer,
    ) by {
        row_lacks_words(p.unmirrored_links[k], n, longer);
    }
    nothing_to_do_means_nothing_pending(p, scope);
}

/// What a push prints shows nothing of what only a pull does, unless a string
/// that it prints does.
pub proof fn push_text_shows_no_pull(p: ReconcilePlanView)
    ensures
        strings_lack(p, PlanScope::Push, "[YouTrack wins]"@) ==> !text::holds(
            plan::plan_text(p, PlanScope::Push),
            "[YouTrack wins]"@,
        ),
        strings_lack(p, PlanScope::Push, "adoption candidates"@) ==> !text::holds(
            plan::plan_text(p, PlanScope::Push),
            "adoption candidates"@,
        ),
        strings_lack(p, PlanScope::Push, "refused adoptions"@) ==> !text::holds(
            plan::plan_text(p, PlanScope::Push),
            "refused adoptions"@,
        ),
{
    pull_marker_fits();
    adoption_heading_fits();
    refusal_heading_fits();
    if strings_lack(p, PlanScope::Push, "[YouTrack wins]"@) {
        text_lacks(p, "[YouTrack wins]"@, PlanScope::Push);
    }
    if strings_lack(p, PlanScope::Push, "adoption candidates"@) {
        text_lacks(p, "adoption candidates"@, PlanScope::Push);
    }
    if strings_lack(p, PlanScope::Push, "refused adoptions"@) {
        text_lacks(p, "refused adoptions"@, PlanScope::Push);
    }
}

/// What a pull prints shows nothing of what only a push does, unless a string
/// that it prints does.
pub proof fn pull_text_shows_no_push(p: ReconcilePlanView, count: nat)
    ensures
        strings_lack(p, PlanScope::Pull, "[push]"@) ==> !text::holds(
            plan::plan_text(p, PlanScope::Pull),
            "[push]"@,
        ),
        strings_lack(p, PlanScope::Pull, creates_heading(count)) ==> !text::holds(
            plan::plan_text(p, PlanScope::Pull),
            creates_heading(count),
        ),
        strings_lack(p, PlanScope::Pull, "link changes:"@) ==> !text::holds(
            plan::plan_text(p, PlanScope::Pull),
            "link changes:"@,
        ),
        strings_lack(p, PlanScope::Pull, "deleted beads still mirrored"@) ==> !text::holds(
            plan::plan_text(p, PlanScope::Pull),
            "deleted beads still mirrored"@,
        ),
        strings_lack(p, PlanScope::Pull, "unmapped local values"@) ==> !text::holds(
            plan::plan_text(p, PlanScope::Pull),
            "unmapped local values"@,
        ),
{
    push_marker_fits();
    creates_heading_fits(count);
    links_heading_fits();
    tombstones_heading_fits();
    unmapped_heading_fits();
    if strings_lack(p, PlanScope::Pull, "[push]"@) {
        text_lacks(p, "[push]"@, PlanScope::Pull);
    }
    if strings_lack(p, PlanScope::Pull, creates_heading(count)) {
        text_lacks(p, creates_heading(count), PlanScope::Pull);
    }
    if strings_lack(p, PlanScope::Pull, "link changes:"@) {
        text_lacks(p, "link changes:"@, PlanScope::Pull);
    }
    if strings_lack(p, PlanScope::Pull, "deleted beads still mirrored"@) {
        text_lacks(p, "deleted beads still mirrored"@, PlanScope::Pull);
    }
    if strings_lack(p, PlanScope::Pull, "unmapped local values"@) {
        text_lacks(p, "unmapped local values"@, PlanScope::Pull);
    }
}

/// What belongs to no direction is printed in every scope, in the same words
/// and in the same order: the references to issues that are gone, the beads
/// of other trackers, the relations that are not mirrored, and the notes.
pub proof fn standing_sections_are_in_every_scope(p: ReconcilePlanView, scope: PlanScope)
    ensures
        ({
            let work = plan::creates_text(p, scope) + plan::updates_text(p, scope)
                + plan::links_text(p, scope) + plan::comments_text(p, scope)
                + plan::adoptions_text(p, scope) + plan::refusals_text(p, scope)
                + plan::tombstones_text(p, scope);
            plan::plan_text(p, scope) == work + plan::dangling_text(p) + plan::unmapped_text(
                p,
                scope,
            ) + (plan::scope_text(p) + plan::unmirrored_text(p)) + plan::closing_text(p, scope)
                + plan::notes_text(p)
        }),
{
    let front = plan::creates_text(p, scope) + plan::updates_text(p, scope) + plan::links_text(
        p,
        scope,
    ) + plan::comments_text(p, scope) + plan::adoptions_text(p, scope) + plan::refusals_text(
        p,
        scope,
    ) + plan::tombstones_text(p, scope) + plan::dangling_text(p) + plan::unmapped_text(p, scope);
    assert(front + (plan::scope_text(p) + plan::unmirrored_text(p)) =~= front + plan::scope_text(p)
        + plan::unmirrored_text(p));
}

} // verus!
