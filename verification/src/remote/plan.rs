//! Everything that a run would do, worked out without doing any of it.

use crate::model;
use crate::model::{Dependency, DependencyType, DependencyTypeView, DependencyView, Issue, Status};
use crate::order;
use crate::order::{rank_texts, sort_distinct, stable_sort, Rank, Ranked};
use crate::remote::comments::{RemoteComment, RemoteCommentView};
use crate::remote::config;
use crate::remote::config::{map_get, RemoteConfig, RemoteConfigView};
use crate::remote::diff;
use crate::remote::diff::{diff_pair, Direction, FieldChange, FieldChangeView};
use crate::remote::link_diff;
use crate::remote::link_diff::{
    diff_links, kind_name, BeadLinks, BeadLinksView, LinkChange, LinkChangeView,
};
use crate::remote::model::{
    RemoteIssue, RemoteIssueView, RemoteSnapshot, UnmappableIssue, UnmappableIssueView,
};
use crate::remote::reconcile;
use crate::remote::reconcile::{pair_workspace, PairedPair, PairedPairView};
use crate::remote::youtrack::links::{LinkTypes, LinkTypesView};
use crate::text;
use crate::text::{add_pair, chars_of, copy_optional, decimal_of, holds_text, same_text, trim};
use vstd::prelude::*;
use vstd::string::*;

verus! {

broadcast use vstd::string::group_string_axioms;

/// What is said where a plan holds no comments.
pub const COMMENT_COUNT_GATE: &'static str =
    "note: comments are compared only where the local and remote comment counts differ, so an edit to a comment that has already crossed is not detected.";

/// One pair's differing fields.
#[derive(Debug, Clone, PartialEq, Eq)]
pub struct IssueFieldPlan {
    pub bead_id: String,
    pub remote_id: String,
    pub changes: Vec<FieldChange>,
}

/// What contracts say of a [`IssueFieldPlan`].
pub struct IssueFieldPlanView {
    pub bead_id: Seq<char>,
    pub remote_id: Seq<char>,
    pub changes: Seq<FieldChangeView>,
}

impl View for IssueFieldPlan {
    type V = IssueFieldPlanView;

    open spec fn view(&self) -> IssueFieldPlanView {
        IssueFieldPlanView {
            bead_id: self.bead_id@,
            remote_id: self.remote_id@,
            changes: text::views(self.changes@),
        }
    }
}

/// One pair's links to add and to take away.
#[derive(Debug, Clone, PartialEq, Eq)]
pub struct IssueLinkPlan {
    pub bead_id: String,
    pub remote_id: String,
    pub changes: Vec<LinkChange>,
}

/// What contracts say of a [`IssueLinkPlan`].
pub struct IssueLinkPlanView {
    pub bead_id: Seq<char>,
    pub remote_id: Seq<char>,
    pub changes: Seq<LinkChangeView>,
}

impl View for IssueLinkPlan {
    type V = IssueLinkPlanView;

    open spec fn view(&self) -> IssueLinkPlanView {
        IssueLinkPlanView {
            bead_id: self.bead_id@,
            remote_id: self.remote_id@,
            changes: text::views(self.changes@),
        }
    }
}

/// An issue that no bead names, with the bead that it names itself.
#[derive(Debug, Clone, PartialEq, Eq)]
pub struct Adoption {
    pub remote_id: String,
    pub summary: String,
    pub beads_id: Option<String>,
}

/// What contracts say of a [`Adoption`].
pub struct AdoptionView {
    pub remote_id: Seq<char>,
    pub summary: Seq<char>,
    pub beads_id: Option<Seq<char>>,
}

impl View for Adoption {
    type V = AdoptionView;

    open spec fn view(&self) -> AdoptionView {
        AdoptionView {
            remote_id: self.remote_id@,
            summary: self.summary@,
            beads_id: text::seen(self.beads_id),
        }
    }
}

/// An issue that cannot be read, and so is not adopted.
#[derive(Debug, Clone, PartialEq, Eq)]
pub struct RefusedAdoption {
    pub remote_id: String,
    pub reason: String,
}

/// What contracts say of a [`RefusedAdoption`].
pub struct RefusedAdoptionView {
    pub remote_id: Seq<char>,
    pub reason: Seq<char>,
}

impl View for RefusedAdoption {
    type V = RefusedAdoptionView;

    open spec fn view(&self) -> RefusedAdoptionView {
        RefusedAdoptionView {
            remote_id: self.remote_id@,
            reason: self.reason@,
        }
    }
}

/// A dependency that the mirror has no link type for.
#[derive(Debug, Clone, PartialEq, Eq)]
pub struct UnmirroredLink {
    pub bead_id: String,
    pub dep_type: String,
    pub target_id: String,
}

/// What contracts say of a [`UnmirroredLink`].
pub struct UnmirroredLinkView {
    pub bead_id: Seq<char>,
    pub dep_type: Seq<char>,
    pub target_id: Seq<char>,
}

impl View for UnmirroredLink {
    type V = UnmirroredLinkView;

    open spec fn view(&self) -> UnmirroredLinkView {
        UnmirroredLinkView {
            bead_id: self.bead_id@,
            dep_type: self.dep_type@,
            target_id: self.target_id@,
        }
    }
}

/// A deleted bead whose issue is still there. It is named and not compared.
#[derive(Debug, Clone, PartialEq, Eq)]
pub struct TombstonedPair {
    pub bead_id: String,
    pub remote_id: String,
}

/// What contracts say of a [`TombstonedPair`].
pub struct TombstonedPairView {
    pub bead_id: Seq<char>,
    pub remote_id: Seq<char>,
}

impl View for TombstonedPair {
    type V = TombstonedPairView;

    open spec fn view(&self) -> TombstonedPairView {
        TombstonedPairView {
            bead_id: self.bead_id@,
            remote_id: self.remote_id@,
        }
    }
}

/// A bead whose reference names an issue that is gone.
#[derive(Debug, Clone, PartialEq, Eq)]
pub struct DanglingRef {
    pub bead_id: String,
    pub external_ref: String,
}

/// What contracts say of a [`DanglingRef`].
pub struct DanglingRefView {
    pub bead_id: Seq<char>,
    pub external_ref: Seq<char>,
}

impl View for DanglingRef {
    type V = DanglingRefView;

    open spec fn view(&self) -> DanglingRefView {
        DanglingRefView {
            bead_id: self.bead_id@,
            external_ref: self.external_ref@,
        }
    }
}

/// A bead's value that no map covers.
#[derive(Debug, Clone, PartialEq, Eq)]
pub struct UnmappedLocal {
    pub bead_id: String,
    pub field: String,
    pub value: String,
    pub map_key: String,
}

/// What contracts say of a [`UnmappedLocal`].
pub struct UnmappedLocalView {
    pub bead_id: Seq<char>,
    pub field: Seq<char>,
    pub value: Seq<char>,
    pub map_key: Seq<char>,
}

impl View for UnmappedLocal {
    type V = UnmappedLocalView;

    open spec fn view(&self) -> UnmappedLocalView {
        UnmappedLocalView {
            bead_id: self.bead_id@,
            field: self.field@,
            value: self.value@,
            map_key: self.map_key@,
        }
    }
}

/// How many comments of one pair move, and which way.
#[derive(Debug, Clone, PartialEq, Eq)]
pub struct CommentPlan {
    pub bead_id: String,
    pub remote_id: String,
    pub direction: Direction,
    pub count: usize,
}

/// What contracts say of a [`CommentPlan`].
pub struct CommentPlanView {
    pub bead_id: Seq<char>,
    pub remote_id: Seq<char>,
    pub direction: Direction,
    pub count: usize,
}

impl View for CommentPlan {
    type V = CommentPlanView;

    open spec fn view(&self) -> CommentPlanView {
        CommentPlanView {
            bead_id: self.bead_id@,
            remote_id: self.remote_id@,
            direction: self.direction,
            count: self.count,
        }
    }
}

/// The comments of one pair that go out and that come in.
#[derive(Debug, Clone, PartialEq, Eq)]
pub struct CommentWork {
    pub bead_id: String,
    pub remote_id: String,
    pub to_push: Vec<String>,
    pub to_pull: Vec<RemoteComment>,
}

/// What contracts say of a [`CommentWork`].
pub struct CommentWorkView {
    pub bead_id: Seq<char>,
    pub remote_id: Seq<char>,
    pub to_push: Seq<Seq<char>>,
    pub to_pull: Seq<RemoteCommentView>,
}

impl View for CommentWork {
    type V = CommentWorkView;

    open spec fn view(&self) -> CommentWorkView {
        CommentWorkView {
            bead_id: self.bead_id@,
            remote_id: self.remote_id@,
            to_push: text::views(self.to_push@),
            to_pull: text::views(self.to_pull@),
        }
    }
}

impl Default for CommentWork {
    /// Nothing to do, between nobody.
    fn default() -> (r: CommentWork)
        ensures
            r@ == (CommentWorkView {
                bead_id: Seq::empty(),
                remote_id: Seq::empty(),
                to_push: Seq::empty(),
                to_pull: Seq::empty(),
            }),
    {
        let r = CommentWork {
            bead_id: String::new(),
            remote_id: String::new(),
            to_push: Vec::new(),
            to_pull: Vec::new(),
        };
        assert(r@.bead_id =~= Seq::empty());
        assert(r@.remote_id =~= Seq::empty());
        assert(r@.to_push =~= Seq::empty());
        assert(r@.to_pull =~= Seq::empty());
        r
    }
}

/// Which half of a plan is looked at.
#[derive(Debug, Clone, Copy, PartialEq, Eq, Structural)]
pub enum PlanScope {
    /// Everything.
    Both,
    /// What a push would do.
    Push,
    /// What a pull would do.
    Pull,
}

/// Whether a change that is settled this way belongs to the scope.
pub open spec fn covers(scope: PlanScope, direction: Direction) -> bool {
    scope is Both || (scope is Push && direction is Push) || (scope is Pull && direction is Pull)
}

impl PlanScope {
    /// Whether a change that is settled this way belongs to the scope.
    pub fn covers(self, direction: Direction) -> (r: bool)
        ensures
            r == covers(self, direction),
    {
        match (self, direction) {
            (PlanScope::Both, _) => true,
            (PlanScope::Push, Direction::Push) => true,
            (PlanScope::Pull, Direction::Pull) => true,
            _ => false,
        }
    }

    /// Whether the work of a push belongs to the scope.
    pub fn shows_push(self) -> (r: bool)
        ensures
            r == (self is Both || self is Push),
    {
        matches!(self, PlanScope::Both | PlanScope::Push)
    }

    /// Whether the work of a pull belongs to the scope.
    pub fn shows_pull(self) -> (r: bool)
        ensures
            r == (self is Both || self is Pull),
    {
        matches!(self, PlanScope::Both | PlanScope::Pull)
    }
}

/// Everything that a run would do.
#[derive(Debug, Clone, PartialEq, Eq)]
pub struct ReconcilePlan {
    pub field_changes: Vec<IssueFieldPlan>,
    pub link_changes: Vec<IssueLinkPlan>,
    pub creates: Vec<String>,
    pub adoptions: Vec<Adoption>,
    pub refused_adoptions: Vec<RefusedAdoption>,
    pub dangling: Vec<DanglingRef>,
    pub out_of_scope: Vec<String>,
    pub comment_changes: Vec<CommentPlan>,
    pub unmapped_local: Vec<UnmappedLocal>,
    pub tombstoned: Vec<TombstonedPair>,
    pub unmirrored_links: Vec<UnmirroredLink>,
    pub notes: Vec<String>,
}

/// What contracts say of a [`ReconcilePlan`].
pub struct ReconcilePlanView {
    pub field_changes: Seq<IssueFieldPlanView>,
    pub link_changes: Seq<IssueLinkPlanView>,
    pub creates: Seq<Seq<char>>,
    pub adoptions: Seq<AdoptionView>,
    pub refused_adoptions: Seq<RefusedAdoptionView>,
    pub dangling: Seq<DanglingRefView>,
    pub out_of_scope: Seq<Seq<char>>,
    pub comment_changes: Seq<CommentPlanView>,
    pub unmapped_local: Seq<UnmappedLocalView>,
    pub tombstoned: Seq<TombstonedPairView>,
    pub unmirrored_links: Seq<UnmirroredLinkView>,
    pub notes: Seq<Seq<char>>,
}

impl View for ReconcilePlan {
    type V = ReconcilePlanView;

    open spec fn view(&self) -> ReconcilePlanView {
        ReconcilePlanView {
            field_changes: text::views(self.field_changes@),
            link_changes: text::views(self.link_changes@),
            creates: text::views(self.creates@),
            adoptions: text::views(self.adoptions@),
            refused_adoptions: text::views(self.refused_adoptions@),
            dangling: text::views(self.dangling@),
            out_of_scope: text::views(self.out_of_scope@),
            comment_changes: text::views(self.comment_changes@),
            unmapped_local: text::views(self.unmapped_local@),
            tombstoned: text::views(self.tombstoned@),
            unmirrored_links: text::views(self.unmirrored_links@),
            notes: text::views(self.notes@),
        }
    }
}

impl Default for ReconcilePlan {
    /// A plan of nothing.
    fn default() -> (r: ReconcilePlan)
        ensures
            r.field_changes@.len() == 0,
            r.link_changes@.len() == 0,
            r.creates@.len() == 0,
            r.adoptions@.len() == 0,
            r.refused_adoptions@.len() == 0,
            r.dangling@.len() == 0,
            r.out_of_scope@.len() == 0,
            r.comment_changes@.len() == 0,
            r.unmapped_local@.len() == 0,
            r.tombstoned@.len() == 0,
            r.unmirrored_links@.len() == 0,
            r.notes@.len() == 0,
    {
        ReconcilePlan {
            field_changes: Vec::new(),
            link_changes: Vec::new(),
            creates: Vec::new(),
            adoptions: Vec::new(),
            refused_adoptions: Vec::new(),
            dangling: Vec::new(),
            out_of_scope: Vec::new(),
            comment_changes: Vec::new(),
            unmapped_local: Vec::new(),
            tombstoned: Vec::new(),
            unmirrored_links: Vec::new(),
            notes: Vec::new(),
        }
    }
}

// ---------------------------------------------------------------------------
// Is anything left to do?
// ---------------------------------------------------------------------------

/// An entry that moves one way.
pub trait Directed: View + Sized {
    /// The way that the entry moves.
    spec fn way(v: Self::V) -> Direction;

    fn direction(&self) -> (r: Direction)
        ensures
            r == Self::way(self@),
    ;
}

impl Directed for FieldChange {
    open spec fn way(v: FieldChangeView) -> Direction {
        v.direction
    }

    fn direction(&self) -> (r: Direction) {
        self.direction
    }
}

impl Directed for CommentPlan {
    open spec fn way(v: CommentPlanView) -> Direction {
        v.direction
    }

    fn direction(&self) -> (r: Direction) {
        self.direction
    }
}

/// The entries that belong to the scope.
pub open spec fn covered<T: Directed>(scope: PlanScope, s: Seq<T::V>) -> Seq<T::V> {
    text::picked(
        s,
        |v: T::V|
            if covers(scope, T::way(v)) {
                Some(v)
            } else {
                None
            },
    )
}

/// One pair with its changes that belong to the scope, where there are any.
pub open spec fn pair_in(scope: PlanScope, p: IssueFieldPlanView) -> Option<IssueFieldPlanView> {
    if covered::<FieldChange>(scope, p.changes).len() == 0 {
        None
    } else {
        Some(IssueFieldPlanView { changes: covered::<FieldChange>(scope, p.changes), ..p })
    }
}

/// The pairs with changes that belong to the scope.
pub open spec fn pairs_in(scope: PlanScope, p: ReconcilePlanView) -> Seq<IssueFieldPlanView> {
    text::picked(p.field_changes, |i: IssueFieldPlanView| pair_in(scope, i))
}

/// The comments that belong to the scope.
pub open spec fn comments_within(scope: PlanScope, p: ReconcilePlanView) -> Seq<CommentPlanView> {
    covered::<CommentPlan>(scope, p.comment_changes)
}

/// Whether nothing of the scope is pending. References into other trackers
/// and links without a type on the mirror are no pending work.
pub open spec fn nothing_pending(p: ReconcilePlanView, scope: PlanScope) -> bool {
    &&& scope is Pull || (p.creates.len() == 0 && p.link_changes.len() == 0 && p.tombstoned.len()
        == 0 && p.unmapped_local.len() == 0)
    &&& scope is Push || (p.adoptions.len() == 0 && p.refused_adoptions.len() == 0)
    &&& pairs_in(scope, p).len() == 0
    &&& comments_within(scope, p).len() == 0
    &&& p.dangling.len() == 0
}

// ---------------------------------------------------------------------------
// The plan in words
// ---------------------------------------------------------------------------

/// A text with a space in place of each control character.
pub open spec fn flattened(s: Seq<char>) -> Seq<char> {
    s.map_values(
        |c: char|
            if text::is_control(c) {
                ' '
            } else {
                c
            },
    )
}

/// A value on one line: control characters count as spaces, nothing at all is
/// called so, and no more than sixty characters are shown.
pub open spec fn on_one_line(s: Seq<char>) -> Seq<char> {
    let flat = text::trimmed(flattened(s));
    if flat.len() == 0 {
        "(none)"@
    } else if flat.len() <= 60 {
        flat
    } else {
        flat.take(60) + "…"@
    }
}

/// How the direction of a change is printed.
pub open spec fn marker_of(d: Direction) -> Seq<char> {
    match d {
        Direction::Push => "push"@,
        Direction::Pull => "YouTrack wins"@,
    }
}

/// An entry that a plan prints.
pub trait Printed: View + Sized {
    /// The entry in words.
    spec fn lines(v: Self::V) -> Seq<char>;

    fn print(&self, out: &mut String)
        ensures
            final(out)@ == old(out)@ + Self::lines(self@),
    ;
}

/// The entries in words, one after the other.
pub open spec fn all_lines<T: Printed>(s: Seq<T::V>) -> Seq<char> {
    text::told(s, |v: T::V| T::lines(v))
}

/// One pair, by its two identifiers.
pub open spec fn pair_line(bead_id: Seq<char>, remote_id: Seq<char>) -> Seq<char> {
    "  "@ + bead_id + " → "@ + remote_id + "\n"@
}

/// An identifier on a line of its own.
pub open spec fn id_line(id: Seq<char>) -> Seq<char> {
    "  "@ + id + "\n"@
}

/// One change of a link.
pub open spec fn link_change_text(c: LinkChangeView) -> Seq<char> {
    match c {
        LinkChangeView::Add { kind, target_readable } => "+ "@ + link_diff::kind_text(kind) + " "@
            + target_readable,
        LinkChangeView::Remove { kind, target_internal_id: _, target_readable } => "- "@
            + link_diff::kind_text(kind) + " "@ + target_readable,
    }
}

impl Printed for FieldChange {
    open spec fn lines(c: FieldChangeView) -> Seq<char> {
        "    "@ + diff::field_word(c.field) + ": "@ + on_one_line(c.local) + " → "@ + on_one_line(
            c.remote,
        ) + " ["@ + marker_of(c.direction) + "]\n"@
    }

    fn print(&self, out: &mut String) {
        let local = one_line(self.local.as_str());
        let remote = one_line(self.remote.as_str());
        let mut line = "    ".to_owned();
        line.append(self.field.as_str());
        line.append(": ");
        line.append(local.as_str());
        line.append(" → ");
        line.append(remote.as_str());
        line.append(" [");
        line.append(marker(self.direction));
        line.append("]\n");
        out.append(line.as_str());
    }
}

impl Printed for LinkChange {
    open spec fn lines(c: LinkChangeView) -> Seq<char> {
        "    "@ + link_change_text(c) + "\n"@
    }

    fn print(&self, out: &mut String) {
        let change = render_link_change(self);
        let mut line = "    ".to_owned();
        line.append(change.as_str());
        line.append("\n");
        out.append(line.as_str());
    }
}

impl Printed for IssueFieldPlan {
    open spec fn lines(i: IssueFieldPlanView) -> Seq<char> {
        pair_line(i.bead_id, i.remote_id) + all_lines::<FieldChange>(i.changes)
    }

    fn print(&self, out: &mut String) {
        let ghost start = out@;
        print_pair(out, self.bead_id.as_str(), self.remote_id.as_str());
        print_all(out, &self.changes);
        assert(out@ =~= start + Self::lines(self@));
    }
}

impl Printed for IssueLinkPlan {
    open spec fn lines(i: IssueLinkPlanView) -> Seq<char> {
        pair_line(i.bead_id, i.remote_id) + all_lines::<LinkChange>(i.changes)
    }

    fn print(&self, out: &mut String) {
        let ghost start = out@;
        print_pair(out, self.bead_id.as_str(), self.remote_id.as_str());
        print_all(out, &self.changes);
        assert(out@ =~= start + Self::lines(self@));
    }
}

impl Printed for CommentPlan {
    open spec fn lines(c: CommentPlanView) -> Seq<char> {
        "  "@ + c.bead_id + " → "@ + c.remote_id + ": "@ + text::decimal(c.count as int)
            + " comment(s) ["@ + marker_of(c.direction) + "]\n"@
    }

    fn print(&self, out: &mut String) {
        let count = decimal_of(self.count as u64);
        let mut line = "  ".to_owned();
        line.append(self.bead_id.as_str());
        line.append(" → ");
        line.append(self.remote_id.as_str());
        line.append(": ");
        line.append(count.as_str());
        line.append(" comment(s) [");
        line.append(marker(self.direction));
        line.append("]\n");
        out.append(line.as_str());
    }
}

impl Printed for Adoption {
    open spec fn lines(a: AdoptionView) -> Seq<char> {
        "  "@ + a.remote_id + "  "@ + on_one_line(a.summary) + "\n"@
    }

    fn print(&self, out: &mut String) {
        let summary = one_line(self.summary.as_str());
        let mut line = "  ".to_owned();
        line.append(self.remote_id.as_str());
        line.append("  ");
        line.append(summary.as_str());
        line.append("\n");
        out.append(line.as_str());
    }
}

impl Printed for RefusedAdoption {
    open spec fn lines(a: RefusedAdoptionView) -> Seq<char> {
        "  "@ + a.remote_id + "  "@ + a.reason + "\n"@
    }

    fn print(&self, out: &mut String) {
        let mut line = "  ".to_owned();
        line.append(self.remote_id.as_str());
        line.append("  ");
        line.append(self.reason.as_str());
        line.append("\n");
        out.append(line.as_str());
    }
}

impl Printed for TombstonedPair {
    open spec fn lines(t: TombstonedPairView) -> Seq<char> {
        pair_line(t.bead_id, t.remote_id)
    }

    fn print(&self, out: &mut String) {
        print_pair(out, self.bead_id.as_str(), self.remote_id.as_str());
    }
}

impl Printed for DanglingRef {
    open spec fn lines(d: DanglingRefView) -> Seq<char> {
        pair_line(d.bead_id, d.external_ref)
    }

    fn print(&self, out: &mut String) {
        print_pair(out, self.bead_id.as_str(), self.external_ref.as_str());
    }
}

impl Printed for UnmappedLocal {
    open spec fn lines(u: UnmappedLocalView) -> Seq<char> {
        "  "@ + u.bead_id + ": "@ + u.field + " '"@ + u.value + "' — add it to "@ + u.map_key
            + "\n"@
    }

    fn print(&self, out: &mut String) {
        let mut line = "  ".to_owned();
        line.append(self.bead_id.as_str());
        line.append(": ");
        line.append(self.field.as_str());
        line.append(" '");
        line.append(self.value.as_str());
        line.append("' — add it to ");
        line.append(self.map_key.as_str());
        line.append("\n");
        out.append(line.as_str());
    }
}

impl Printed for UnmirroredLink {
    open spec fn lines(u: UnmirroredLinkView) -> Seq<char> {
        "  "@ + u.bead_id + " "@ + u.dep_type + " "@ + u.target_id + "\n"@
    }

    fn print(&self, out: &mut String) {
        let mut line = "  ".to_owned();
        line.append(self.bead_id.as_str());
        line.append(" ");
        line.append(self.dep_type.as_str());
        line.append(" ");
        line.append(self.target_id.as_str());
        line.append("\n");
        out.append(line.as_str());
    }
}

pub open spec fn creates_text(p: ReconcilePlanView, scope: PlanScope) -> Seq<char> {
    if scope is Pull || p.creates.len() == 0 {
        Seq::empty()
    } else {
        "create "@ + text::decimal(p.creates.len() as int) + " issue(s):\n"@ + text::told(
            p.creates,
            |id: Seq<char>| id_line(id),
        )
    }
}

pub open spec fn updates_text(p: ReconcilePlanView, scope: PlanScope) -> Seq<char> {
    if pairs_in(scope, p).len() == 0 {
        Seq::empty()
    } else {
        "update "@ + text::decimal(pairs_in(scope, p).len() as int) + " issue(s):\n"@ + all_lines::<
            IssueFieldPlan,
        >(pairs_in(scope, p))
    }
}

pub open spec fn links_text(p: ReconcilePlanView, scope: PlanScope) -> Seq<char> {
    if scope is Pull || p.link_changes.len() == 0 {
        Seq::empty()
    } else {
        "link changes:\n"@ + all_lines::<IssueLinkPlan>(p.link_changes)
    }
}

pub open spec fn comments_text(p: ReconcilePlanView, scope: PlanScope) -> Seq<char> {
    if comments_within(scope, p).len() == 0 {
        Seq::empty()
    } else {
        "comments:\n"@ + all_lines::<CommentPlan>(comments_within(scope, p))
    }
}

pub open spec fn adoptions_text(p: ReconcilePlanView, scope: PlanScope) -> Seq<char> {
    if scope is Push || p.adoptions.len() == 0 {
        Seq::empty()
    } else {
        "adoption candidates ("@ + text::decimal(p.adoptions.len() as int)
            + " issue(s) no bead claims):\n"@ + all_lines::<Adoption>(p.adoptions)
    }
}

pub open spec fn refusals_text(p: ReconcilePlanView, scope: PlanScope) -> Seq<char> {
    if scope is Push || p.refused_adoptions.len() == 0 {
        Seq::empty()
    } else {
        "refused adoptions (br cannot read these issues with this remote.yaml):\n"@ + all_lines::<
            RefusedAdoption,
        >(p.refused_adoptions)
    }
}

pub open spec fn tombstones_text(p: ReconcilePlanView, scope: PlanScope) -> Seq<char> {
    if scope is Pull || p.tombstoned.len() == 0 {
        Seq::empty()
    } else {
        "deleted beads still mirrored (the tombstone rule owns these; no field change is planned):\n"@
            + all_lines::<TombstonedPair>(p.tombstoned)
    }
}

pub open spec fn dangling_text(p: ReconcilePlanView) -> Seq<char> {
    if p.dangling.len() == 0 {
        Seq::empty()
    } else {
        "dangling local refs (the issue named is gone; nothing was re-created):\n"@ + all_lines::<
            DanglingRef,
        >(p.dangling)
    }
}

pub open spec fn unmapped_text(p: ReconcilePlanView, scope: PlanScope) -> Seq<char> {
    if scope is Pull || p.unmapped_local.len() == 0 {
        Seq::empty()
    } else {
        "unmapped local values (a push would refuse until remote.yaml covers them):\n"@
            + all_lines::<UnmappedLocal>(p.unmapped_local)
    }
}

pub open spec fn scope_text(p: ReconcilePlanView) -> Seq<char> {
    if p.out_of_scope.len() == 0 {
        Seq::empty()
    } else {
        "out of scope ("@ + text::decimal(p.out_of_scope.len() as int)
            + " bead(s) whose external_ref names another tracker; untouched):\n"@ + text::told(
            p.out_of_scope,
            |id: Seq<char>| id_line(id),
        )
    }
}

pub open spec fn unmirrored_text(p: ReconcilePlanView) -> Seq<char> {
    if p.unmirrored_links.len() == 0 {
        Seq::empty()
    } else {
        "unmirrored relations ("@ + text::decimal(p.unmirrored_links.len() as int)
            + " row(s) whose dependency type has no YouTrack link type; never mirrored):\n"@
            + all_lines::<UnmirroredLink>(p.unmirrored_links)
    }
}

pub open spec fn closing_text(p: ReconcilePlanView, scope: PlanScope) -> Seq<char> {
    if nothing_pending(p, scope) {
        "the mirror already matches this workspace on everything br reconciles today; nothing to do.\n"@
    } else {
        Seq::empty()
    }
}

pub open spec fn notes_text(p: ReconcilePlanView) -> Seq<char> {
    text::told(p.notes, |n: Seq<char>| n + "\n"@)
}

/// The part of a plan that belongs to the scope, in words.
pub open spec fn plan_text(p: ReconcilePlanView, scope: PlanScope) -> Seq<char> {
    creates_text(p, scope) + updates_text(p, scope) + links_text(p, scope) + comments_text(p, scope)
        + adoptions_text(p, scope) + refusals_text(p, scope) + tombstones_text(p, scope)
        + dangling_text(p) + unmapped_text(p, scope) + scope_text(p) + unmirrored_text(p)
        + closing_text(p, scope) + notes_text(p)
}

fn one_line(value: &str) -> (r: String)
    ensures
        r@ == on_one_line(value@),
{
    let chars = chars_of(value);
    let ghost flat = value@.map_values(
        |c: char|
            if text::is_control(c) {
                ' '
            } else {
                c
            },
    );
    let mut flattened = String::new();
    let mut i: usize = 0;
    while i < chars.len()
        invariant
            i <= chars@.len(),
            chars@ == value@,
            flat == value@.map_values(
                |c: char|
                    if text::is_control(c) {
                        ' '
                    } else {
                        c
                    },
            ),
            flattened@ == flat.take(i as int),
        decreases chars@.len() - i,
    {
        let c = chars[i];
        let n: u32 = c as u32;
        if n < 0x20 || (0x7f <= n && n <= 0x9f) {
            flattened.push(' ');
        } else {
            flattened.push(c);
        }
        i += 1;
        assert(flat.take(i as int) =~= flat.take(i - 1).push(flat[i - 1]));
    }
    assert(flat.take(i as int) =~= flat);
    let trimmed = trim(flattened.as_str());
    if trimmed.is_empty() {
        return "(none)".to_owned();
    }
    if trimmed.unicode_len() <= 60 {
        return trimmed.to_owned();
    }
    let head = trimmed.substring_char(0, 60);
    assert(head@ =~= trimmed@.take(60));
    let mut out = head.to_owned();
    out.append("…");
    out
}

fn marker(direction: Direction) -> (r: &'static str)
    ensures
        r@ == marker_of(direction),
{
    match direction {
        Direction::Push => "push",
        Direction::Pull => "YouTrack wins",
    }
}

/// One change of a link, as it is printed.
pub fn render_link_change(change: &LinkChange) -> (r: String)
    ensures
        r@ == link_change_text(change@),
{
    match change {
        LinkChange::Add { kind, target_readable } => {
            let mut out = "+ ".to_owned();
            out.append(kind_name(*kind));
            out.append(" ");
            out.append(target_readable.as_str());
            out
        },
        LinkChange::Remove { kind, target_readable, .. } => {
            let mut out = "- ".to_owned();
            out.append(kind_name(*kind));
            out.append(" ");
            out.append(target_readable.as_str());
            out
        },
    }
}

fn print_pair(out: &mut String, bead_id: &str, remote_id: &str)
    ensures
        final(out)@ == old(out)@ + pair_line(bead_id@, remote_id@),
{
    let mut line = "  ".to_owned();
    line.append(bead_id);
    line.append(" → ");
    line.append(remote_id);
    line.append("\n");
    out.append(line.as_str());
}

fn print_all<T: Printed>(out: &mut String, items: &Vec<T>)
    ensures
        final(out)@ == old(out)@ + all_lines::<T>(text::views(items@)),
{
    let ghost start = out@;
    let ghost all = text::views(items@);
    let ghost f = |v: T::V| T::lines(v);
    let mut i: usize = 0;
    proof {
        text::told_ends(all, f, start);
    }
    while i < items.len()
        invariant
            i <= items@.len(),
            all == text::views(items@),
            f == (|v: T::V| T::lines(v)),
            out@ == start + text::told(all.take(i as int), f),
        decreases items@.len() - i,
    {
        proof {
            text::told_step(all, f, i as int, start);
        }
        items[i].print(out);
        i += 1;
    }
    proof {
        text::told_ends(all, f, start);
    }
}

fn print_ids(out: &mut String, ids: &Vec<String>)
    ensures
        final(out)@ == old(out)@ + text::told(text::views(ids@), |id: Seq<char>| id_line(id)),
{
    let ghost start = out@;
    let ghost all = text::views(ids@);
    let ghost f = |id: Seq<char>| id_line(id);
    let mut i: usize = 0;
    proof {
        text::told_ends(all, f, start);
    }
    while i < ids.len()
        invariant
            i <= ids@.len(),
            all == text::views(ids@),
            f == (|id: Seq<char>| id_line(id)),
            out@ == start + text::told(all.take(i as int), f),
        decreases ids@.len() - i,
    {
        proof {
            text::told_step(all, f, i as int, start);
        }
        let mut line = "  ".to_owned();
        line.append(ids[i].as_str());
        line.append("\n");
        out.append(line.as_str());
        i += 1;
    }
    proof {
        text::told_ends(all, f, start);
    }
}

fn print_notes(out: &mut String, notes: &Vec<String>)
    ensures
        final(out)@ == old(out)@ + text::told(text::views(notes@), |n: Seq<char>| n + "\n"@),
{
    let ghost start = out@;
    let ghost all = text::views(notes@);
    let ghost f = |n: Seq<char>| n + "\n"@;
    let mut i: usize = 0;
    proof {
        text::told_ends(all, f, start);
    }
    while i < notes.len()
        invariant
            i <= notes@.len(),
            all == text::views(notes@),
            f == (|n: Seq<char>| n + "\n"@),
            out@ == start + text::told(all.take(i as int), f),
        decreases notes@.len() - i,
    {
        proof {
            text::told_step(all, f, i as int, start);
        }
        let mut line = notes[i].clone();
        line.append("\n");
        out.append(line.as_str());
        i += 1;
    }
    proof {
        text::told_ends(all, f, start);
    }
}

/// What is told of the picked items can be told item by item.
proof fn told_picked<A, B>(s: Seq<A>, f: spec_fn(A) -> Option<B>, g: spec_fn(B) -> Seq<char>)
    ensures
        text::told(text::picked(s, f), g) == text::told(s, told_of(f, g)),
    decreases s.len(),
{
    if s.len() > 0 {
        told_picked(s.drop_last(), f, g);
        let rest = text::picked(s.drop_last(), f);
        match f(s.last()) {
            Some(b) => {
                assert(rest.push(b).drop_last() =~= rest);
            },
            None => {
                assert(text::told(rest, g) + Seq::<char>::empty() =~= text::told(rest, g));
            },
        }
    }
}

spec fn told_of<A, B>(f: spec_fn(A) -> Option<B>, g: spec_fn(B) -> Seq<char>) -> spec_fn(A) -> Seq<
    char,
> {
    |a: A|
        match f(a) {
            Some(b) => g(b),
            None => Seq::empty(),
        }
}

fn any_covered<T: Directed>(items: &Vec<T>, scope: PlanScope) -> (r: bool)
    ensures
        r == (covered::<T>(scope, text::views(items@)).len() > 0),
{
    let ghost all = text::views(items@);
    let ghost f = |v: T::V|
        if covers(scope, T::way(v)) {
            Some(v)
        } else {
            None
        };
    let mut i: usize = 0;
    while i < items.len()
        invariant
            i <= items@.len(),
            all == text::views(items@),
            f == (|v: T::V|
                if covers(scope, T::way(v)) {
                    Some(v)
                } else {
                    None
                }),
            forall|k: int| 0 <= k < i ==> f(#[trigger] all[k]) is None,
        decreases items@.len() - i,
    {
        if scope.covers(items[i].direction()) {
            proof {
                assert(f(all[i as int]) is Some);
                text::picked_holds(all, f, i as int);
            }
            return true;
        }
        assert(f(all[i as int]) is None);
        i += 1;
    }
    proof {
        text::picked_nothing(all, f);
    }
    false
}

fn print_covered<T: Directed + Printed>(out: &mut String, items: &Vec<T>, scope: PlanScope)
    ensures
        final(out)@ == old(out)@ + all_lines::<T>(covered::<T>(scope, text::views(items@))),
{
    let ghost start = out@;
    let ghost all = text::views(items@);
    let ghost f = |v: T::V|
        if covers(scope, T::way(v)) {
            Some(v)
        } else {
            None
        };
    let ghost g = |v: T::V| T::lines(v);
    let ghost h = told_of(f, g);
    let mut i: usize = 0;
    proof {
        text::told_ends(all, h, start);
    }
    while i < items.len()
        invariant
            i <= items@.len(),
            all == text::views(items@),
            f == (|v: T::V|
                if covers(scope, T::way(v)) {
                    Some(v)
                } else {
                    None
                }),
            g == (|v: T::V| T::lines(v)),
            h == told_of(f, g),
            out@ == start + text::told(all.take(i as int), h),
        decreases items@.len() - i,
    {
        proof {
            text::told_step(all, h, i as int, start);
        }
        let ghost before = out@;
        if scope.covers(items[i].direction()) {
            items[i].print(out);
        } else {
            assert(before + Seq::<char>::empty() =~= before);
        }
        i += 1;
    }
    proof {
        text::told_ends(all, h, start);
        told_picked(all, f, g);
    }
}

impl ReconcilePlan {
    /// Whether nothing is pending either way.
    pub fn is_empty(&self) -> (r: bool)
        ensures
            r == nothing_pending(self@, PlanScope::Both),
    {
        self.is_empty_for(PlanScope::Both)
    }

    /// Whether nothing of the scope is pending.
    pub fn is_empty_for(&self, scope: PlanScope) -> (r: bool)
        ensures
            r == nothing_pending(self@, scope),
    {
        let push_work = scope.shows_push() && !(self.creates.len() == 0 && self.link_changes.len()
            == 0 && self.tombstoned.len() == 0 && self.unmapped_local.len() == 0);
        let pull_work = scope.shows_pull() && !(self.adoptions.len() == 0
            && self.refused_adoptions.len() == 0);
        let updates = self.count_updates(scope);
        let comments = any_covered(&self.comment_changes, scope);
        !(push_work || pull_work || updates > 0 || comments || self.dangling.len() != 0)
    }

    fn count_updates(&self, scope: PlanScope) -> (r: usize)
        ensures
            r == pairs_in(scope, self@).len(),
    {
        let ghost all = text::views(self.field_changes@);
        let ghost f = |i: IssueFieldPlanView| pair_in(scope, i);
        let mut count: usize = 0;
        let mut i: usize = 0;
        while i < self.field_changes.len()
            invariant
                i <= self.field_changes@.len(),
                all == text::views(self.field_changes@),
                f == (|i: IssueFieldPlanView| pair_in(scope, i)),
                count == text::picked(all.take(i as int), f).len(),
                count <= i,
            decreases self.field_changes@.len() - i,
        {
            proof {
                text::picked_step(all, f, i as int);
                assert(all[i as int] == self.field_changes@[i as int]@);
            }
            if any_covered(&self.field_changes[i].changes, scope) {
                count += 1;
            }
            i += 1;
        }
        assert(all.take(i as int) =~= all);
        count
    }

    fn print_creates(&self, out: &mut String, scope: PlanScope)
        ensures
            final(out)@ == old(out)@ + creates_text(self@, scope),
    {
        let ghost start = out@;
        if scope.shows_push() && self.creates.len() != 0 {
            let count = decimal_of(self.creates.len() as u64);
            let mut head = "create ".to_owned();
            head.append(count.as_str());
            head.append(" issue(s):\n");
            out.append(head.as_str());
            print_ids(out, &self.creates);
        }
        assert(out@ =~= start + creates_text(self@, scope));
    }

    #[verifier::loop_isolation(false)]
    fn print_updates(&self, out: &mut String, scope: PlanScope)
        ensures
            final(out)@ == old(out)@ + updates_text(self@, scope),
    {
        let ghost start = out@;
        let updates = self.count_updates(scope);
        if updates == 0 {
            assert(out@ =~= start + updates_text(self@, scope));
            return;
        }
        let count = decimal_of(updates as u64);
        let mut head = "update ".to_owned();
        head.append(count.as_str());
        head.append(" issue(s):\n");
        out.append(head.as_str());
        let ghost headed = out@;
        let ghost all = text::views(self.field_changes@);
        let ghost f = |i: IssueFieldPlanView| pair_in(scope, i);
        let ghost g = |v: IssueFieldPlanView| <IssueFieldPlan as Printed>::lines(v);
        let ghost h = told_of(f, g);
        let mut i: usize = 0;
        proof {
            text::told_ends(all, h, headed);
        }
        while i < self.field_changes.len()
            invariant
                i <= self.field_changes@.len(),
                out@ == headed + text::told(all.take(i as int), h),
            decreases self.field_changes@.len() - i,
        {
            proof {
                text::told_step(all, h, i as int, headed);
            }
            let issue = &self.field_changes[i];
            let ghost before = out@;
            assert(all[i as int] == issue@);
            if any_covered(&issue.changes, scope) {
                print_pair(out, issue.bead_id.as_str(), issue.remote_id.as_str());
                print_covered(out, &issue.changes, scope);
                assert(out@ =~= before + h(issue@));
            } else {
                assert(out@ =~= before + h(issue@));
            }
            i += 1;
        }
        proof {
            text::told_ends(all, h, headed);
            told_picked(all, f, g);
            assert(out@ =~= start + updates_text(self@, scope));
        }
    }

    fn print_links(&self, out: &mut String, scope: PlanScope)
        ensures
            final(out)@ == old(out)@ + links_text(self@, scope),
    {
        let ghost start = out@;
        if scope.shows_push() && self.link_changes.len() != 0 {
            let head = "link changes:\n".to_owned();
            out.append(head.as_str());
            print_all(out, &self.link_changes);
        }
        assert(out@ =~= start + links_text(self@, scope));
    }

    fn print_comments(&self, out: &mut String, scope: PlanScope)
        ensures
            final(out)@ == old(out)@ + comments_text(self@, scope),
    {
        let ghost start = out@;
        if any_covered(&self.comment_changes, scope) {
            let head = "comments:\n".to_owned();
            out.append(head.as_str());
            print_covered(out, &self.comment_changes, scope);
        }
        assert(out@ =~= start + comments_text(self@, scope));
    }

    fn print_adoptions(&self, out: &mut String, scope: PlanScope)
        ensures
            final(out)@ == old(out)@ + adoptions_text(self@, scope),
    {
        let ghost start = out@;
        if scope.shows_pull() && self.adoptions.len() != 0 {
            let count = decimal_of(self.adoptions.len() as u64);
            let mut head = "adoption candidates (".to_owned();
            head.append(count.as_str());
            head.append(" issue(s) no bead claims):\n");
            out.append(head.as_str());
            print_all(out, &self.adoptions);
        }
        assert(out@ =~= start + adoptions_text(self@, scope));
    }

    fn print_refusals(&self, out: &mut String, scope: PlanScope)
        ensures
            final(out)@ == old(out)@ + refusals_text(self@, scope),
    {
        let ghost start = out@;
        if scope.shows_pull() && self.refused_adoptions.len() != 0 {
            let head =
                "refused adoptions (br cannot read these issues with this remote.yaml):\n".to_owned();
            out.append(head.as_str());
            print_all(out, &self.refused_adoptions);
        }
        assert(out@ =~= start + refusals_text(self@, scope));
    }

    fn print_tombstones(&self, out: &mut String, scope: PlanScope)
        ensures
            final(out)@ == old(out)@ + tombstones_text(self@, scope),
    {
        let ghost start = out@;
        if scope.shows_push() && self.tombstoned.len() != 0 {
            let head =
                "deleted beads still mirrored (the tombstone rule owns these; no field change is planned):\n".to_owned();
            out.append(head.as_str());
            print_all(out, &self.tombstoned);
        }
        assert(out@ =~= start + tombstones_text(self@, scope));
    }

    fn print_dangling(&self, out: &mut String)
        ensures
            final(out)@ == old(out)@ + dangling_text(self@),
    {
        let ghost start = out@;
        if self.dangling.len() != 0 {
            let head =
                "dangling local refs (the issue named is gone; nothing was re-created):\n".to_owned();
            out.append(head.as_str());
            print_all(out, &self.dangling);
        }
        assert(out@ =~= start + dangling_text(self@));
    }

    fn print_unmapped(&self, out: &mut String, scope: PlanScope)
        ensures
            final(out)@ == old(out)@ + unmapped_text(self@, scope),
    {
        let ghost start = out@;
        if scope.shows_push() && self.unmapped_local.len() != 0 {
            let head =
                "unmapped local values (a push would refuse until remote.yaml covers them):\n".to_owned();
            out.append(head.as_str());
            print_all(out, &self.unmapped_local);
        }
        assert(out@ =~= start + unmapped_text(self@, scope));
    }

    fn print_out_of_scope(&self, out: &mut String)
        ensures
            final(out)@ == old(out)@ + scope_text(self@),
    {
        let ghost start = out@;
        if self.out_of_scope.len() != 0 {
            let count = decimal_of(self.out_of_scope.len() as u64);
            let mut head = "out of scope (".to_owned();
            head.append(count.as_str());
            head.append(" bead(s) whose external_ref names another tracker; untouched):\n");
            out.append(head.as_str());
            print_ids(out, &self.out_of_scope);
        }
        assert(out@ =~= start + scope_text(self@));
    }

    fn print_unmirrored(&self, out: &mut String)
        ensures
            final(out)@ == old(out)@ + unmirrored_text(self@),
    {
        let ghost start = out@;
        if self.unmirrored_links.len() != 0 {
            let count = decimal_of(self.unmirrored_links.len() as u64);
            let mut head = "unmirrored relations (".to_owned();
            head.append(count.as_str());
            head.append(" row(s) whose dependency type has no YouTrack link type; never mirrored):\n");
            out.append(head.as_str());
            print_all(out, &self.unmirrored_links);
        }
        assert(out@ =~= start + unmirrored_text(self@));
    }

    /// The whole plan in words.
    pub fn render(&self) -> (r: String)
        ensures
            r@ == plan_text(self@, PlanScope::Both),
    {
        self.render_scoped(PlanScope::Both)
    }

    /// The part of the plan that belongs to the scope, in words. Wherever the
    /// mirror's value wins, the line says so.
    pub fn render_scoped(&self, scope: PlanScope) -> (r: String)
        ensures
            r@ == plan_text(self@, scope),
    {
        let mut out = String::new();
        self.print_creates(&mut out, scope);
        assert(out@ =~= creates_text(self@, scope));
        self.print_updates(&mut out, scope);
        self.print_links(&mut out, scope);
        self.print_comments(&mut out, scope);
        self.print_adoptions(&mut out, scope);
        self.print_refusals(&mut out, scope);
        self.print_tombstones(&mut out, scope);
        self.print_dangling(&mut out);
        self.print_unmapped(&mut out, scope);
        self.print_out_of_scope(&mut out);
        self.print_unmirrored(&mut out);
        let ghost body = out@;
        if self.is_empty_for(scope) {
            out.append(
                "the mirror already matches this workspace on everything br reconciles today; nothing to do.\n",
            );
        }
        assert(out@ =~= body + closing_text(self@, scope));
        print_notes(&mut out, &self.notes);
        out
    }
}

// ---------------------------------------------------------------------------
// Relations of the beads
// ---------------------------------------------------------------------------

/// The dependencies of all beads, one after the other.
pub open spec fn all_rows(beads: Seq<Issue>) -> Seq<DependencyView> {
    text::told(beads, |b: Issue| text::views(b.dependencies@))
}

/// The parent that the last row about `id` gives it.
pub open spec fn parent_of(rows: Seq<DependencyView>, id: Seq<char>) -> Option<Seq<char>>
    decreases rows.len(),
{
    if rows.len() == 0 {
        None
    } else if rows.last().dep_type is ParentChild && rows.last().issue_id == id {
        Some(rows.last().depends_on_id)
    } else {
        parent_of(rows.drop_last(), id)
    }
}

/// The bead that `id` blocks by this row, if it does. The blocker owns the
/// link.
pub open spec fn blocked_by(row: DependencyView, id: Seq<char>) -> Seq<Seq<char>> {
    if row.dep_type is Blocks && row.depends_on_id == id {
        seq![row.issue_id]
    } else {
        Seq::empty()
    }
}

/// A relation without a direction counts for both of its ends.
pub open spec fn related_by(row: DependencyView, id: Seq<char>) -> Seq<Seq<char>> {
    if !(row.dep_type is Related || row.dep_type is RelatesTo) {
        Seq::empty()
    } else {
        (if row.issue_id == id {
            seq![row.depends_on_id]
        } else {
            Seq::empty()
        }) + (if row.depends_on_id == id {
            seq![row.issue_id]
        } else {
            Seq::empty()
        })
    }
}

/// The relations of the bead `id`.
pub open spec fn links_of(rows: Seq<DependencyView>, id: Seq<char>) -> BeadLinksView {
    BeadLinksView {
        parent: parent_of(rows, id),
        blocks: order::distinct_sorted(text::told(rows, |d: DependencyView| blocked_by(d, id))),
        related: order::distinct_sorted(text::told(rows, |d: DependencyView| related_by(d, id))),
    }
}

/// What is reported of a row whose type the mirror has no link for.
pub open spec fn unmirrored_row(d: DependencyView) -> Option<UnmirroredLinkView> {
    match d.dep_type {
        DependencyTypeView::ParentChild
        | DependencyTypeView::Blocks
        | DependencyTypeView::Related
        | DependencyTypeView::RelatesTo => None,
        other => Some(
            UnmirroredLinkView {
                bead_id: d.issue_id,
                dep_type: model::dependency_type_name(other),
                target_id: d.depends_on_id,
            },
        ),
    }
}

/// The rows whose type the mirror has no link for, by bead and target.
pub open spec fn unmirrored_rows(rows: Seq<DependencyView>) -> Seq<UnmirroredLinkView> {
    order::stable_sorted(
        text::picked(rows, |d: DependencyView| unmirrored_row(d)),
        |a: UnmirroredLinkView, b: UnmirroredLinkView| UnmirroredLink::at_most(a, b),
    )
}

/// How two such rows stand to each other.
pub open spec fn unmirrored_rank(a: UnmirroredLinkView, b: UnmirroredLinkView) -> Rank {
    order::refined(
        order::text_rank(a.bead_id, b.bead_id),
        order::text_rank(a.target_id, b.target_id),
    )
}

proof fn unmirrored_rank_facts(
    a: UnmirroredLinkView,
    b: UnmirroredLinkView,
    c: UnmirroredLinkView,
)
    ensures
        unmirrored_rank(b, a) == order::turned(unmirrored_rank(a, b)),
        order::consistent(unmirrored_rank(a, b), unmirrored_rank(b, c), unmirrored_rank(a, c)),
{
    order::text_rank_facts(a.bead_id, b.bead_id, c.bead_id);
    order::text_rank_facts(a.target_id, b.target_id, c.target_id);
    order::refined_consistent(
        order::text_rank(a.bead_id, b.bead_id),
        order::text_rank(b.bead_id, c.bead_id),
        order::text_rank(a.bead_id, c.bead_id),
        order::text_rank(a.target_id, b.target_id),
        order::text_rank(b.target_id, c.target_id),
        order::text_rank(a.target_id, c.target_id),
    );
}

impl Ranked for UnmirroredLink {
    open spec fn at_most(a: UnmirroredLinkView, b: UnmirroredLinkView) -> bool {
        !(unmirrored_rank(a, b) is After)
    }

    proof fn at_most_total(a: UnmirroredLinkView, b: UnmirroredLinkView) {
        unmirrored_rank_facts(a, b, a);
    }

    proof fn at_most_transitive(
        a: UnmirroredLinkView,
        b: UnmirroredLinkView,
        c: UnmirroredLinkView,
    ) {
        unmirrored_rank_facts(a, b, c);
    }

    fn is_at_most(&self, other: &UnmirroredLink) -> (r: bool) {
        let rank = rank_texts(self.bead_id.as_str(), other.bead_id.as_str()).refine(
            rank_texts(self.target_id.as_str(), other.target_id.as_str()),
        );
        !matches!(rank, Rank::After)
    }
}

fn rows_of<'a>(beads: &'a Vec<Issue>) -> (r: Vec<&'a Dependency>)
    ensures
        text::views(r@) == all_rows(beads@),
{
    let ghost f = |b: Issue| text::views(b.dependencies@);
    let ghost none: Seq<DependencyView> = Seq::empty();
    let mut out: Vec<&'a Dependency> = Vec::new();
    let mut i: usize = 0;
    proof {
        text::told_ends(beads@, f, none);
        assert(text::views(out@) =~= none + text::told(beads@.take(0), f));
    }
    while i < beads.len()
        invariant
            i <= beads@.len(),
            f == (|b: Issue| text::views(b.dependencies@)),
            none == Seq::<DependencyView>::empty(),
            text::views(out@) == none + text::told(beads@.take(i as int), f),
        decreases beads@.len() - i,
    {
        let deps = &beads[i].dependencies;
        let ghost before = text::views(out@);
        let ghost own = text::views(deps@);
        let mut k: usize = 0;
        assert(text::views(out@) =~= before + own.take(0));
        while k < deps.len()
            invariant
                k <= deps@.len(),
                own == text::views(deps@),
                text::views(out@) == before + own.take(k as int),
            decreases deps@.len() - k,
        {
            let row: &'a Dependency = &deps[k];
            proof {
                text::views_push(out@, row);
                assert(before + own.take(k + 1) =~= (before + own.take(k as int)).push(row@));
            }
            out.push(row);
            k += 1;
        }
        proof {
            assert(own.take(k as int) =~= own);
            text::told_step(beads@, f, i as int, none);
        }
        i += 1;
    }
    proof {
        text::told_ends(beads@, f, none);
        assert(none + text::told(beads@, f) =~= text::told(beads@, f));
    }
    out
}

/// The relations of the bead `id`, from the rows of all beads.
pub fn bead_links(rows: &Vec<&Dependency>, id: &str) -> (r: BeadLinks)
    ensures
        r@ == links_of(text::views(rows@), id@),
{
    let ghost all = text::views(rows@);
    let ghost fb = |d: DependencyView| blocked_by(d, id@);
    let ghost fr = |d: DependencyView| related_by(d, id@);
    let ghost none: Seq<Seq<char>> = Seq::empty();
    let mut parent: Option<String> = None;
    let mut blocks: Vec<String> = Vec::new();
    let mut related: Vec<String> = Vec::new();
    let mut i: usize = 0;
    proof {
        text::told_ends(all, fb, none);
        text::told_ends(all, fr, none);
        assert(text::views(blocks@) =~= none);
        assert(text::views(related@) =~= none);
    }
    while i < rows.len()
        invariant
            i <= rows@.len(),
            all == text::views(rows@),
            fb == (|d: DependencyView| blocked_by(d, id@)),
            fr == (|d: DependencyView| related_by(d, id@)),
            none == Seq::<Seq<char>>::empty(),
            text::seen(parent) == parent_of(all.take(i as int), id@),
            text::views(blocks@) == none + text::told(all.take(i as int), fb),
            text::views(related@) == none + text::told(all.take(i as int), fr),
        decreases rows@.len() - i,
    {
        let row = rows[i];
        let ghost b0 = text::views(blocks@);
        let ghost r0 = text::views(related@);
        proof {
            assert(all.take(i + 1).drop_last() =~= all.take(i as int));
            assert(all.take(i + 1).last() == row@);
            text::told_step(all, fb, i as int, none);
            text::told_step(all, fr, i as int, none);
        }
        match row.dep_type {
            DependencyType::ParentChild => {
                if same_text(row.issue_id.as_str(), id) {
                    parent = Some(row.depends_on_id.clone());
                }
            },
            DependencyType::Blocks => {
                if same_text(row.depends_on_id.as_str(), id) {
                    let one = row.issue_id.clone();
                    proof {
                        text::views_push(blocks@, one);
                    }
                    blocks.push(one);
                }
            },
            DependencyType::Related | DependencyType::RelatesTo => {
                if same_text(row.issue_id.as_str(), id) {
                    let one = row.depends_on_id.clone();
                    proof {
                        text::views_push(related@, one);
                    }
                    related.push(one);
                }
                if same_text(row.depends_on_id.as_str(), id) {
                    let one = row.issue_id.clone();
                    proof {
                        text::views_push(related@, one);
                    }
                    related.push(one);
                }
            },
            _ => {},
        }
        assert(text::views(blocks@) =~= b0 + blocked_by(row@, id@));
        assert(text::views(related@) =~= r0 + related_by(row@, id@));
        i += 1;
    }
    proof {
        text::told_ends(all, fb, none);
        text::told_ends(all, fr, none);
        assert(none + text::told(all, fb) =~= text::told(all, fb));
        assert(none + text::told(all, fr) =~= text::told(all, fr));
    }
    BeadLinks { parent, blocks: sort_distinct(&blocks), related: sort_distinct(&related) }
}

fn unmirrored_links(rows: &Vec<&Dependency>) -> (r: Vec<UnmirroredLink>)
    ensures
        text::views(r@) == unmirrored_rows(text::views(rows@)),
{
    let ghost all = text::views(rows@);
    let ghost f = |d: DependencyView| unmirrored_row(d);
    let mut found: Vec<UnmirroredLink> = Vec::new();
    let mut i: usize = 0;
    assert(text::views(found@) =~= text::picked(all.take(0), f));
    while i < rows.len()
        invariant
            i <= rows@.len(),
            all == text::views(rows@),
            f == (|d: DependencyView| unmirrored_row(d)),
            text::views(found@) == text::picked(all.take(i as int), f),
        decreases rows@.len() - i,
    {
        let row = rows[i];
        proof {
            text::picked_step(all, f, i as int);
        }
        match row.dep_type {
            DependencyType::ParentChild
            | DependencyType::Blocks
            | DependencyType::Related
            | DependencyType::RelatesTo => {},
            _ => {
                let one = UnmirroredLink {
                    bead_id: row.issue_id.clone(),
                    dep_type: row.dep_type.to_string(),
                    target_id: row.depends_on_id.clone(),
                };
                proof {
                    text::views_push(found@, one);
                }
                found.push(one);
            },
        }
        i += 1;
    }
    assert(all.take(i as int) =~= all);
    let sorted = stable_sort(&found);
    let ghost want = text::views(sorted@);
    let mut out: Vec<UnmirroredLink> = Vec::new();
    let mut k: usize = 0;
    assert(text::views(out@) =~= want.take(0));
    while k < sorted.len()
        invariant
            k <= sorted@.len(),
            want == text::views(sorted@),
            text::views(out@) == want.take(k as int),
        decreases sorted@.len() - k,
    {
        let one = UnmirroredLink {
            bead_id: sorted[k].bead_id.clone(),
            dep_type: sorted[k].dep_type.clone(),
            target_id: sorted[k].target_id.clone(),
        };
        proof {
            text::views_push(out@, one);
            assert(want.take(k + 1) =~= want.take(k as int).push(one@));
        }
        out.push(one);
        k += 1;
    }
    assert(want.take(k as int) =~= want);
    out
}

// ---------------------------------------------------------------------------
// The plan
// ---------------------------------------------------------------------------

/// What the plan shows of one pair's comments: nothing of a way that nothing
/// moves.
pub open spec fn sections_of(w: CommentWorkView) -> Seq<CommentPlanView> {
    (if w.to_push.len() > 0 {
        seq![
            CommentPlanView {
                bead_id: w.bead_id,
                remote_id: w.remote_id,
                direction: Direction::Push,
                count: w.to_push.len() as usize,
            },
        ]
    } else {
        Seq::empty()
    }) + (if w.to_pull.len() > 0 {
        seq![
            CommentPlanView {
                bead_id: w.bead_id,
                remote_id: w.remote_id,
                direction: Direction::Pull,
                count: w.to_pull.len() as usize,
            },
        ]
    } else {
        Seq::empty()
    })
}

pub open spec fn comment_sections_of(work: Seq<CommentWorkView>) -> Seq<CommentPlanView> {
    text::told(work, |w: CommentWorkView| sections_of(w))
}

/// The last bead called `id`.
pub open spec fn bead_called(beads: Seq<Issue>, id: Seq<char>) -> Option<Issue>
    decreases beads.len(),
{
    if beads.len() == 0 {
        None
    } else if beads.last().id@ == id {
        Some(beads.last())
    } else {
        bead_called(beads.drop_last(), id)
    }
}

/// The values of one bead that no map covers. A deleted bead, and one of
/// another tracker, is never written, so nothing of it is missing.
pub open spec fn unmapped_of(
    cfg: RemoteConfigView,
    ignored: Seq<Seq<char>>,
    bead: Issue,
) -> Seq<UnmappedLocalView> {
    if ignored.contains(bead.id@) || bead.status@ is Tombstone {
        Seq::empty()
    } else {
        (if config::value_under(cfg.type_map, model::issue_type_name(bead.issue_type@)) is None {
            seq![
                UnmappedLocalView {
                    bead_id: bead.id@,
                    field: "issue_type"@,
                    value: model::issue_type_name(bead.issue_type@),
                    map_key: "type_map"@,
                },
            ]
        } else {
            Seq::empty()
        }) + (if config::value_under(cfg.status_map, model::status_name(bead.status@)) is None {
            seq![
                UnmappedLocalView {
                    bead_id: bead.id@,
                    field: "status"@,
                    value: model::status_name(bead.status@),
                    map_key: "status_map"@,
                },
            ]
        } else {
            Seq::empty()
        })
    }
}

pub open spec fn unmapped_values(
    cfg: RemoteConfigView,
    ignored: Seq<Seq<char>>,
    beads: Seq<Issue>,
) -> Seq<UnmappedLocalView> {
    text::told(beads, |b: Issue| unmapped_of(cfg, ignored, b))
}

/// The readable identifiers of the paired issues, by bead.
pub open spec fn mirror_ids(paired: Seq<PairedPairView>) -> Seq<(Seq<char>, Seq<char>)> {
    paired.map_values(|p: PairedPairView| (p.bead_id, p.remote.id_readable))
}

/// The bead of a pair, where it has been deleted.
pub open spec fn tombstoned_pair(beads: Seq<Issue>, p: PairedPairView) -> Option<
    TombstonedPairView,
> {
    match bead_called(beads, p.bead_id) {
        Some(b) if b.status@ is Tombstone => Some(
            TombstonedPairView { bead_id: p.bead_id, remote_id: p.remote.id_readable },
        ),
        _ => None,
    }
}

/// The differing fields of a pair whose bead has not been deleted.
pub open spec fn field_plan(beads: Seq<Issue>, p: PairedPairView) -> Option<IssueFieldPlanView> {
    match bead_called(beads, p.bead_id) {
        Some(b) if !(b.status@ is Tombstone) && diff::changes_of(b, p.remote).len() > 0 => Some(
            IssueFieldPlanView {
                bead_id: p.bead_id,
                remote_id: p.remote.id_readable,
                changes: diff::changes_of(b, p.remote),
            },
        ),
        _ => None,
    }
}

/// The links to write for a pair.
pub open spec fn pair_link_changes(
    beads: Seq<Issue>,
    types: LinkTypesView,
    table: Seq<(Seq<char>, Seq<char>)>,
    p: PairedPairView,
) -> Seq<LinkChangeView> {
    link_diff::link_changes(links_of(all_rows(beads), p.bead_id), p.remote, types, table)
}

/// The differing links of a pair whose bead has not been deleted.
pub open spec fn link_plan(
    beads: Seq<Issue>,
    types: LinkTypesView,
    table: Seq<(Seq<char>, Seq<char>)>,
    p: PairedPairView,
) -> Option<IssueLinkPlanView> {
    match bead_called(beads, p.bead_id) {
        Some(b) if !(b.status@ is Tombstone) && pair_link_changes(beads, types, table, p).len()
            > 0 => Some(
            IssueLinkPlanView {
                bead_id: p.bead_id,
                remote_id: p.remote.id_readable,
                changes: pair_link_changes(beads, types, table, p),
            },
        ),
        _ => None,
    }
}

/// The reference of the bead `id`, or nothing.
pub open spec fn reference_of(beads: Seq<Issue>, id: Seq<char>) -> Seq<char> {
    match bead_called(beads, id) {
        Some(b) => match text::seen(b.external_ref) {
            Some(r) => r,
            None => Seq::empty(),
        },
        None => Seq::empty(),
    }
}

/// A bead whose issue is gone. One whose issue could not be read is not among
/// them.
pub open spec fn dangling_of(
    beads: Seq<Issue>,
    unmappable: Seq<UnmappableIssueView>,
    id: Seq<char>,
) -> Option<DanglingRefView> {
    if unreadable_ids(unmappable).contains(reference_of(beads, id)) {
        None
    } else {
        Some(DanglingRefView { bead_id: id, external_ref: reference_of(beads, id) })
    }
}

pub open spec fn unreadable_ids(unmappable: Seq<UnmappableIssueView>) -> Seq<Seq<char>> {
    unmappable.map_values(|u: UnmappableIssueView| u.id_readable)
}

/// What is offered for adoption of an issue that no bead names.
pub open spec fn adoption_of(i: RemoteIssueView) -> AdoptionView {
    AdoptionView { remote_id: i.id_readable, summary: i.summary, beads_id: i.fields.beads_id }
}

/// What is said of an issue that could not be read.
pub open spec fn refusal_of(u: UnmappableIssueView) -> RefusedAdoptionView {
    RefusedAdoptionView { remote_id: u.id_readable, reason: u.reason }
}

/// Everything that a run would do.
pub open spec fn plan_of(
    cfg: RemoteConfigView,
    beads: Seq<Issue>,
    issues: Seq<RemoteIssueView>,
    unmappable: Seq<UnmappableIssueView>,
    types: LinkTypesView,
    comments: Seq<CommentWorkView>,
) -> ReconcilePlanView {
    let pairing = reconcile::pairing_of(cfg, beads, issues);
    let table = mirror_ids(pairing.paired);
    ReconcilePlanView {
        field_changes: text::picked(pairing.paired, |p: PairedPairView| field_plan(beads, p)),
        link_changes: text::picked(
            pairing.paired,
            |p: PairedPairView| link_plan(beads, types, table, p),
        ),
        creates: pairing.unpaired_local,
        adoptions: pairing.unpaired_remote.map_values(|i: RemoteIssueView| adoption_of(i)),
        refused_adoptions: unmappable.map_values(|u: UnmappableIssueView| refusal_of(u)),
        dangling: text::picked(
            pairing.dangling_local,
            |id: Seq<char>| dangling_of(beads, unmappable, id),
        ),
        out_of_scope: pairing.out_of_scope,
        comment_changes: comment_sections_of(comments),
        unmapped_local: unmapped_values(cfg, pairing.out_of_scope, beads),
        tombstoned: text::picked(pairing.paired, |p: PairedPairView| tombstoned_pair(beads, p)),
        unmirrored_links: unmirrored_rows(all_rows(beads)),
        notes: if comment_sections_of(comments).len() == 0 {
            seq![COMMENT_COUNT_GATE@]
        } else {
            Seq::empty()
        },
    }
}

/// What the plan shows of the comments that move.
pub fn comment_sections(comments: &Vec<CommentWork>) -> (r: Vec<CommentPlan>)
    ensures
        text::views(r@) == comment_sections_of(text::views(comments@)),
{
    let ghost all = text::views(comments@);
    let ghost f = |w: CommentWorkView| sections_of(w);
    let ghost none: Seq<CommentPlanView> = Seq::empty();
    let mut out: Vec<CommentPlan> = Vec::new();
    let mut i: usize = 0;
    proof {
        text::told_ends(all, f, none);
        assert(text::views(out@) =~= none);
    }
    while i < comments.len()
        invariant
            i <= comments@.len(),
            all == text::views(comments@),
            f == (|w: CommentWorkView| sections_of(w)),
            none == Seq::<CommentPlanView>::empty(),
            text::views(out@) == none + text::told(all.take(i as int), f),
        decreases comments@.len() - i,
    {
        let work = &comments[i];
        let ghost before = text::views(out@);
        proof {
            text::told_step(all, f, i as int, none);
            assert(all[i as int] == work@);
            assert(work@.to_push.len() == work.to_push@.len());
            assert(work@.to_pull.len() == work.to_pull@.len());
        }
        if work.to_push.len() > 0 {
            let one = CommentPlan {
                bead_id: work.bead_id.clone(),
                remote_id: work.remote_id.clone(),
                direction: Direction::Push,
                count: work.to_push.len(),
            };
            proof {
                text::views_push(out@, one);
            }
            out.push(one);
        }
        if work.to_pull.len() > 0 {
            let one = CommentPlan {
                bead_id: work.bead_id.clone(),
                remote_id: work.remote_id.clone(),
                direction: Direction::Pull,
                count: work.to_pull.len(),
            };
            proof {
                text::views_push(out@, one);
            }
            out.push(one);
        }
        assert(text::views(out@) =~= before + sections_of(work@));
        i += 1;
    }
    proof {
        text::told_ends(all, f, none);
        assert(none + text::told(all, f) =~= text::told(all, f));
    }
    out
}

/// The values that no map covers, so that a push would refuse them.
pub fn unmapped_local(cfg: &RemoteConfig, beads: &Vec<Issue>, ignored: &Vec<String>) -> (r: Vec<
    UnmappedLocal,
>)
    ensures
        text::views(r@) == unmapped_values(cfg@, text::views(ignored@), beads@),
{
    let ghost f = |b: Issue| unmapped_of(cfg@, text::views(ignored@), b);
    let ghost none: Seq<UnmappedLocalView> = Seq::empty();
    let mut out: Vec<UnmappedLocal> = Vec::new();
    let mut i: usize = 0;
    proof {
        text::told_ends(beads@, f, none);
        assert(text::views(out@) =~= none);
    }
    while i < beads.len()
        invariant
            i <= beads@.len(),
            f == (|b: Issue| unmapped_of(cfg@, text::views(ignored@), b)),
            none == Seq::<UnmappedLocalView>::empty(),
            text::views(out@) == none + text::told(beads@.take(i as int), f),
        decreases beads@.len() - i,
    {
        let bead = &beads[i];
        let ghost before = text::views(out@);
        proof {
            text::told_step(beads@, f, i as int, none);
        }
        let skipped = holds_text(ignored, bead.id.as_str()) || matches!(
            bead.status,
            Status::Tombstone
        );
        if !skipped {
            let issue_type = bead.issue_type.as_str();
            if map_get(&cfg.type_map, issue_type).is_none() {
                let one = UnmappedLocal {
                    bead_id: bead.id.clone(),
                    field: "issue_type".to_owned(),
                    value: issue_type.to_owned(),
                    map_key: "type_map".to_owned(),
                };
                proof {
                    text::views_push(out@, one);
                }
                out.push(one);
            }
            let status = bead.status.as_str();
            if map_get(&cfg.status_map, status).is_none() {
                let one = UnmappedLocal {
                    bead_id: bead.id.clone(),
                    field: "status".to_owned(),
                    value: status.to_owned(),
                    map_key: "status_map".to_owned(),
                };
                proof {
                    text::views_push(out@, one);
                }
                out.push(one);
            }
        }
        assert(text::views(out@) =~= before + unmapped_of(cfg@, text::views(ignored@), *bead));
        i += 1;
    }
    proof {
        text::told_ends(beads@, f, none);
        assert(none + text::told(beads@, f) =~= text::told(beads@, f));
    }
    out
}

/// The last bead called `id`.
pub fn find_bead<'a>(beads: &'a Vec<Issue>, id: &str) -> (r: Option<&'a Issue>)
    ensures
        (match r {
            Some(b) => Some(*b),
            None => None,
        }) == bead_called(beads@, id@),
{
    let mut i: usize = beads.len();
    assert(beads@.take(i as int) =~= beads@);
    while i > 0
        invariant
            i <= beads@.len(),
            bead_called(beads@, id@) == bead_called(beads@.take(i as int), id@),
        decreases i,
    {
        assert(beads@.take(i as int).drop_last() =~= beads@.take(i - 1));
        if same_text(beads[i - 1].id.as_str(), id) {
            return Some(&beads[i - 1]);
        }
        i -= 1;
    }
    None
}

fn mirror_table(paired: &Vec<PairedPair>) -> (r: Vec<(String, String)>)
    ensures
        text::pairs(r@) == mirror_ids(text::views(paired@)),
{
    let ghost want = mirror_ids(text::views(paired@));
    let mut out: Vec<(String, String)> = Vec::new();
    let mut i: usize = 0;
    assert(text::pairs(out@) =~= want.take(0));
    while i < paired.len()
        invariant
            i <= paired@.len(),
            want == mirror_ids(text::views(paired@)),
            text::pairs(out@) == want.take(i as int),
        decreases paired@.len() - i,
    {
        add_pair(&mut out, paired[i].bead_id.clone(), paired[i].remote.id_readable.clone());
        assert(want.take(i + 1) =~= want.take(i as int).push(want[i as int]));
        i += 1;
    }
    assert(want.take(i as int) =~= want);
    out
}

fn adoptions(issues: &Vec<RemoteIssue>) -> (r: Vec<Adoption>)
    ensures
        text::views(r@) == text::views(issues@).map_values(|i: RemoteIssueView| adoption_of(i)),
{
    let ghost want = text::views(issues@).map_values(|i: RemoteIssueView| adoption_of(i));
    let mut out: Vec<Adoption> = Vec::new();
    let mut i: usize = 0;
    assert(text::views(out@) =~= want.take(0));
    while i < issues.len()
        invariant
            i <= issues@.len(),
            want == text::views(issues@).map_values(|i: RemoteIssueView| adoption_of(i)),
            text::views(out@) == want.take(i as int),
        decreases issues@.len() - i,
    {
        let issue = &issues[i];
        let one = Adoption {
            remote_id: issue.id_readable.clone(),
            summary: issue.summary.clone(),
            beads_id: copy_optional(&issue.fields.beads_id),
        };
        proof {
            text::views_push(out@, one);
            assert(want.take(i + 1) =~= want.take(i as int).push(one@));
        }
        out.push(one);
        i += 1;
    }
    assert(want.take(i as int) =~= want);
    out
}

fn refusals(unmappable: &Vec<UnmappableIssue>) -> (r: Vec<RefusedAdoption>)
    ensures
        text::views(r@) == text::views(unmappable@).map_values(
            |u: UnmappableIssueView| refusal_of(u),
        ),
{
    let ghost want = text::views(unmappable@).map_values(|u: UnmappableIssueView| refusal_of(u));
    let mut out: Vec<RefusedAdoption> = Vec::new();
    let mut i: usize = 0;
    assert(text::views(out@) =~= want.take(0));
    while i < unmappable.len()
        invariant
            i <= unmappable@.len(),
            want == text::views(unmappable@).map_values(|u: UnmappableIssueView| refusal_of(u)),
            text::views(out@) == want.take(i as int),
        decreases unmappable@.len() - i,
    {
        let one = RefusedAdoption {
            remote_id: unmappable[i].id_readable.clone(),
            reason: unmappable[i].reason.clone(),
        };
        proof {
            text::views_push(out@, one);
            assert(want.take(i + 1) =~= want.take(i as int).push(one@));
        }
        out.push(one);
        i += 1;
    }
    assert(want.take(i as int) =~= want);
    out
}

fn is_unreadable(unmappable: &Vec<UnmappableIssue>, id: &str) -> (r: bool)
    ensures
        r == unreadable_ids(text::views(unmappable@)).contains(id@),
{
    let ghost ids = unreadable_ids(text::views(unmappable@));
    let mut i: usize = 0;
    while i < unmappable.len()
        invariant
            i <= unmappable@.len(),
            ids == unreadable_ids(text::views(unmappable@)),
            forall|k: int| 0 <= k < i ==> #[trigger] ids[k] != id@,
        decreases unmappable@.len() - i,
    {
        if same_text(unmappable[i].id_readable.as_str(), id) {
            assert(ids[i as int] == id@);
            return true;
        }
        i += 1;
    }
    false
}

fn dangling_refs(beads: &Vec<Issue>, unmappable: &Vec<UnmappableIssue>, ids: &Vec<String>) -> (r:
    Vec<DanglingRef>)
    ensures
        text::views(r@) == text::picked(
            text::views(ids@),
            |id: Seq<char>| dangling_of(beads@, text::views(unmappable@), id),
        ),
{
    let ghost all = text::views(ids@);
    let ghost f = |id: Seq<char>| dangling_of(beads@, text::views(unmappable@), id);
    let mut out: Vec<DanglingRef> = Vec::new();
    let mut i: usize = 0;
    assert(text::views(out@) =~= text::picked(all.take(0), f));
    while i < ids.len()
        invariant
            i <= ids@.len(),
            all == text::views(ids@),
            f == (|id: Seq<char>| dangling_of(beads@, text::views(unmappable@), id)),
            text::views(out@) == text::picked(all.take(i as int), f),
        decreases ids@.len() - i,
    {
        proof {
            text::picked_step(all, f, i as int);
        }
        let external_ref = match find_bead(beads, ids[i].as_str()) {
            Some(bead) => match &bead.external_ref {
                Some(reference) => reference.clone(),
                None => String::new(),
            },
            None => String::new(),
        };
        assert(external_ref@ =~= reference_of(beads@, all[i as int]));
        if !is_unreadable(unmappable, external_ref.as_str()) {
            let one = DanglingRef { bead_id: ids[i].clone(), external_ref };
            proof {
                text::views_push(out@, one);
            }
            out.push(one);
        }
        i += 1;
    }
    assert(all.take(i as int) =~= all);
    out
}

/// Works out everything that a run would do, from the workspace and one
/// fetched snapshot of the mirror. The comments that move have been found
/// already.
#[verifier::loop_isolation(false)]
pub fn build_plan(
    cfg: &RemoteConfig,
    beads: &Vec<Issue>,
    snapshot: RemoteSnapshot,
    types: &LinkTypes,
    comments: &Vec<CommentWork>,
) -> (r: ReconcilePlan)
    ensures
        r@ == plan_of(
            cfg@,
            beads@,
            text::views(snapshot.issues@),
            text::views(snapshot.unmappable@),
            types@,
            text::views(comments@),
        ),
{
    let unmappable = snapshot.unmappable;
    let pairing = pair_workspace(cfg, beads, snapshot.issues);
    let rows = rows_of(beads);
    let table = mirror_table(&pairing.paired);
    let ghost paired = text::views(pairing.paired@);
    let ghost ft = |p: PairedPairView| tombstoned_pair(beads@, p);
    let ghost ff = |p: PairedPairView| field_plan(beads@, p);
    let ghost fl = |p: PairedPairView| link_plan(beads@, types@, mirror_ids(paired), p);
    let mut tombstoned: Vec<TombstonedPair> = Vec::new();
    let mut field_changes: Vec<IssueFieldPlan> = Vec::new();
    let mut link_changes: Vec<IssueLinkPlan> = Vec::new();
    let mut i: usize = 0;
    assert(text::views(tombstoned@) =~= text::picked(paired.take(0), ft));
    assert(text::views(field_changes@) =~= text::picked(paired.take(0), ff));
    assert(text::views(link_changes@) =~= text::picked(paired.take(0), fl));
    while i < pairing.paired.len()
        invariant
            i <= pairing.paired@.len(),
            text::views(tombstoned@) == text::picked(paired.take(i as int), ft),
            text::views(field_changes@) == text::picked(paired.take(i as int), ff),
            text::views(link_changes@) == text::picked(paired.take(i as int), fl),
        decreases pairing.paired@.len() - i,
    {
        let pair = &pairing.paired[i];
        proof {
            text::picked_step(paired, ft, i as int);
            text::picked_step(paired, ff, i as int);
            text::picked_step(paired, fl, i as int);
            assert(paired[i as int] == pair@);
        }
        if let Some(bead) = find_bead(beads, pair.bead_id.as_str()) {
            if matches!(bead.status, Status::Tombstone) {
                let one = TombstonedPair {
                    bead_id: pair.bead_id.clone(),
                    remote_id: pair.remote.id_readable.clone(),
                };
                proof {
                    text::views_push(tombstoned@, one);
                }
                tombstoned.push(one);
            } else {
                let changes = diff_pair(cfg, bead, &pair.remote);
                assert(text::views(changes@).len() == changes@.len());
                if changes.len() > 0 {
                    let one = IssueFieldPlan {
                        bead_id: pair.bead_id.clone(),
                        remote_id: pair.remote.id_readable.clone(),
                        changes,
                    };
                    proof {
                        text::views_push(field_changes@, one);
                    }
                    field_changes.push(one);
                }
                let links = bead_links(&rows, pair.bead_id.as_str());
                let changes = diff_links(&links, &pair.remote, types, &table);
                assert(text::views(changes@).len() == changes@.len());
                if changes.len() > 0 {
                    let one = IssueLinkPlan {
                        bead_id: pair.bead_id.clone(),
                        remote_id: pair.remote.id_readable.clone(),
                        changes,
                    };
                    proof {
                        text::views_push(link_changes@, one);
                    }
                    link_changes.push(one);
                }
            }
        }
        i += 1;
    }
    assert(paired.take(i as int) =~= paired);
    let comment_changes = comment_sections(comments);
    let mut notes: Vec<String> = Vec::new();
    if comment_changes.len() == 0 {
        notes.push(COMMENT_COUNT_GATE.to_owned());
    }
    assert(text::views(comment_changes@).len() == comment_changes@.len());
    let unmapped_local = unmapped_local(cfg, beads, &pairing.out_of_scope);
    let adoptions = adoptions(&pairing.unpaired_remote);
    let dangling = dangling_refs(beads, &unmappable, &pairing.dangling_local);
    let plan = ReconcilePlan {
        field_changes,
        link_changes,
        creates: pairing.unpaired_local,
        adoptions,
        refused_adoptions: refusals(&unmappable),
        dangling,
        out_of_scope: pairing.out_of_scope,
        comment_changes,
        unmapped_local,
        tombstoned,
        unmirrored_links: unmirrored_links(&rows),
        notes,
    };
    proof {
        assert(plan@.notes =~= (if comment_sections_of(text::views(comments@)).len() == 0 {
            seq![COMMENT_COUNT_GATE@]
        } else {
            Seq::empty()
        }));
    }
    plan
}

// ---------------------------------------------------------------------------
// What holds of every plan
// ---------------------------------------------------------------------------

proof fn covered_splits<T: Directed>(s: Seq<T::V>)
    ensures
        covered::<T>(PlanScope::Both, s).len() == covered::<T>(PlanScope::Push, s).len()
            + covered::<T>(PlanScope::Pull, s).len(),
    decreases s.len(),
{
    if s.len() > 0 {
        covered_splits::<T>(s.drop_last());
        match T::way(s.last()) {
            Direction::Push => {},
            Direction::Pull => {},
        }
    }
}

proof fn pairs_split(s: Seq<IssueFieldPlanView>)
    ensures
        (text::picked(s, |i: IssueFieldPlanView| pair_in(PlanScope::Both, i)).len() == 0) <==> (
        text::picked(s, |i: IssueFieldPlanView| pair_in(PlanScope::Push, i)).len() == 0
            && text::picked(s, |i: IssueFieldPlanView| pair_in(PlanScope::Pull, i)).len() == 0),
    decreases s.len(),
{
    if s.len() > 0 {
        pairs_split(s.drop_last());
        covered_splits::<FieldChange>(s.last().changes);
    }
}

/// Nothing is pending exactly where nothing is pending in either direction.
pub proof fn scopes_cover_everything(p: ReconcilePlanView)
    ensures
        nothing_pending(p, PlanScope::Both) <==> nothing_pending(p, PlanScope::Push)
            && nothing_pending(p, PlanScope::Pull),
{
    pairs_split(p.field_changes);
    covered_splits::<CommentPlan>(p.comment_changes);
}

/// Where nothing of the scope is pending, only the standing facts are
/// printed, then the closing line, then the notes.
pub proof fn quiet_plan_says_so(p: ReconcilePlanView, scope: PlanScope)
    requires
        nothing_pending(p, scope),
    ensures
        plan_text(p, scope) == scope_text(p) + unmirrored_text(p)
            + "the mirror already matches this workspace on everything br reconciles today; nothing to do.\n"@
            + notes_text(p),
{
    let none = Seq::<char>::empty();
    assert(none + none + none + none + none + none + none + none + none + scope_text(p)
        =~= scope_text(p));
}

/// A deleted bead is never compared with its issue, and neither are its links.
pub proof fn tombstones_are_not_compared(
    cfg: RemoteConfigView,
    beads: Seq<Issue>,
    issues: Seq<RemoteIssueView>,
    unmappable: Seq<UnmappableIssueView>,
    types: LinkTypesView,
    comments: Seq<CommentWorkView>,
    k: int,
)
    ensures
        ({
            let plan = plan_of(cfg, beads, issues, unmappable, types, comments);
            &&& 0 <= k < plan.field_changes.len() ==> (bead_called(
                beads,
                plan.field_changes[k].bead_id,
            ) matches Some(b) && !(b.status@ is Tombstone))
            &&& 0 <= k < plan.link_changes.len() ==> (bead_called(
                beads,
                plan.link_changes[k].bead_id,
            ) matches Some(b) && !(b.status@ is Tombstone))
        }),
{
    let plan = plan_of(cfg, beads, issues, unmappable, types, comments);
    let paired = reconcile::pairing_of(cfg, beads, issues).paired;
    if 0 <= k < plan.field_changes.len() {
        text::picked_comes_from(paired, |p: PairedPairView| field_plan(beads, p), k);
    }
    if 0 <= k < plan.link_changes.len() {
        text::picked_comes_from(
            paired,
            |p: PairedPairView| link_plan(beads, types, mirror_ids(paired), p),
            k,
        );
    }
}

/// Everything that the plan compares differs: no pair is listed without a
/// change.
pub proof fn listed_pairs_differ(
    cfg: RemoteConfigView,
    beads: Seq<Issue>,
    issues: Seq<RemoteIssueView>,
    unmappable: Seq<UnmappableIssueView>,
    types: LinkTypesView,
    comments: Seq<CommentWorkView>,
    k: int,
)
    ensures
        ({
            let plan = plan_of(cfg, beads, issues, unmappable, types, comments);
            &&& 0 <= k < plan.field_changes.len() ==> plan.field_changes[k].changes.len() > 0
            &&& 0 <= k < plan.link_changes.len() ==> plan.link_changes[k].changes.len() > 0
        }),
{
    let plan = plan_of(cfg, beads, issues, unmappable, types, comments);
    let paired = reconcile::pairing_of(cfg, beads, issues).paired;
    if 0 <= k < plan.field_changes.len() {
        text::picked_comes_from(paired, |p: PairedPairView| field_plan(beads, p), k);
    }
    if 0 <= k < plan.link_changes.len() {
        text::picked_comes_from(
            paired,
            |p: PairedPairView| link_plan(beads, types, mirror_ids(paired), p),
            k,
        );
    }
}

} // verus!
