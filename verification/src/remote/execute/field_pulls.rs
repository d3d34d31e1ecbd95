//! What beads take over from the mirror.

use crate::model::{Priority, Status, StatusView};
use crate::remote::diff;
use crate::remote::diff::{Direction, Field, FieldChange, FieldChangeView};
use crate::remote::execute::reading::reconcile;
use crate::remote::execute::REMOTE_ACTOR;
use crate::remote::model::{RemoteIssue, RemoteIssueView};
use crate::remote::plan;
use crate::remote::plan::{IssueFieldPlanView, ReconcilePlan};
use crate::remote::reconcile;
use crate::text;
use crate::text::same_text;
use vstd::prelude::*;
use vstd::string::*;

verus! {

broadcast use vstd::string::group_string_axioms;

/// What a bead takes over from the mirror, and in whose name.
#[derive(Debug, Clone, PartialEq, Eq)]
pub struct FieldPull {
    pub bead_id: String,
    pub actor: &'static str,
    pub status: Option<Status>,
    pub priority: Option<Priority>,
}

/// What contracts say of a [`FieldPull`].
pub struct FieldPullView {
    pub bead_id: Seq<char>,
    pub actor: Seq<char>,
    pub status: Option<StatusView>,
    pub priority: Option<Priority>,
}

impl View for FieldPull {
    type V = FieldPullView;

    open spec fn view(&self) -> FieldPullView {
        FieldPullView {
            bead_id: self.bead_id@,
            actor: self.actor@,
            status: text::seen(self.status),
            priority: self.priority,
        }
    }
}

/// A value that the mirror wins, in a report.
pub open spec fn pull_text(bead_id: Seq<char>, c: FieldChangeView) -> Seq<char> {
    bead_id + ": "@ + diff::field_word(c.field) + " "@ + c.local + " → "@ + c.remote
}

/// The changes of a pair that the mirror wins.
pub open spec fn pulls_of(p: IssueFieldPlanView) -> Seq<FieldChangeView> {
    plan::covered::<FieldChange>(plan::PlanScope::Pull, p.changes)
}

/// One of the changes is about the field.
pub open spec fn is_about(changes: Seq<FieldChangeView>, field: Field) -> bool
    decreases changes.len(),
{
    if changes.len() == 0 {
        false
    } else {
        changes.last().field == field || is_about(changes.drop_last(), field)
    }
}

/// The lines about the fields that can come back.
pub open spec fn pull_lines(bead_id: Seq<char>, changes: Seq<FieldChangeView>) -> Seq<Seq<char>> {
    text::picked(
        changes,
        |c: FieldChangeView|
            if c.field is State || c.field is Priority {
                Some(pull_text(bead_id, c))
            } else {
                None
            },
    )
}

/// What a bead takes over from its issue. The value comes from what was
/// fetched, not from how the plan writes it.
pub open spec fn field_pull(p: IssueFieldPlanView, remote: Seq<RemoteIssueView>) -> Option<
    FieldPullView,
> {
    match reconcile::last_called(remote, p.remote_id) {
        Some(place) if pulls_of(p).len() > 0 => Some(
            FieldPullView {
                bead_id: p.bead_id,
                actor: REMOTE_ACTOR@,
                status: if is_about(pulls_of(p), Field::State) {
                    Some(remote[place].fields.status)
                } else {
                    None
                },
                priority: if is_about(pulls_of(p), Field::Priority) {
                    Some(remote[place].fields.priority)
                } else {
                    None
                },
            },
        ),
        _ => None,
    }
}

/// The lines about one pair.
pub open spec fn field_pull_lines(p: IssueFieldPlanView, remote: Seq<RemoteIssueView>) -> Seq<
    Seq<char>,
> {
    match field_pull(p, remote) {
        Some(_) => pull_lines(p.bead_id, pulls_of(p)),
        None => Seq::empty(),
    }
}

fn find_issue<'a>(remote: &'a Vec<RemoteIssue>, id: &str) -> (r: Option<&'a RemoteIssue>)
    ensures
        text::seen(r) == (match reconcile::last_called(text::views(remote@), id@) {
            Some(place) => Some(text::views(remote@)[place]),
            None => None,
        }),
{
    let ghost all = text::views(remote@);
    let mut i: usize = remote.len();
    assert(all.take(i as int) =~= all);
    while i > 0
        invariant
            i <= remote@.len(),
            all == text::views(remote@),
            reconcile::last_called(all, id@) == reconcile::last_called(all.take(i as int), id@),
        decreases i,
    {
        assert(all.take(i as int).drop_last() =~= all.take(i - 1));
        assert(all.take(i as int).last() == remote@[i - 1]@);
        if same_text(remote[i - 1].id_readable.as_str(), id) {
            return Some(&remote[i - 1]);
        }
        i -= 1;
    }
    None
}

/// What one pair takes over, with the lines about it.
fn pull_one(p: &plan::IssueFieldPlan, mirror: &RemoteIssue) -> (r: (FieldPull, Vec<String>, bool))
    ensures
        r.2 == (pulls_of(p@).len() > 0),
        r.0@ == (FieldPullView {
            bead_id: p@.bead_id,
            actor: REMOTE_ACTOR@,
            status: if is_about(pulls_of(p@), Field::State) {
                Some(mirror@.fields.status)
            } else {
                None
            },
            priority: if is_about(pulls_of(p@), Field::Priority) {
                Some(mirror@.fields.priority)
            } else {
                None
            },
        }),
        text::views(r.1@) == pull_lines(p@.bead_id, pulls_of(p@)),
{
    let ghost all = text::views(p.changes@);
    let ghost f = |v: FieldChangeView|
        if plan::covers(plan::PlanScope::Pull, <FieldChange as plan::Directed>::way(v)) {
            Some(v)
        } else {
            None
        };
    let ghost g = |c: FieldChangeView|
        if c.field is State || c.field is Priority {
            Some(pull_text(p@.bead_id, c))
        } else {
            None
        };
    let mut pull = FieldPull {
        bead_id: p.bead_id.clone(),
        actor: REMOTE_ACTOR,
        status: None,
        priority: None,
    };
    let mut lines: Vec<String> = Vec::new();
    let mut any = false;
    let mut i: usize = 0;
    assert(text::views(lines@) =~= text::picked(text::picked(all.take(0), f), g));
    while i < p.changes.len()
        invariant
            i <= p.changes@.len(),
            all == text::views(p.changes@),
            f == (|v: FieldChangeView|
                if plan::covers(plan::PlanScope::Pull, <FieldChange as plan::Directed>::way(v)) {
                    Some(v)
                } else {
                    None
                }),
            g == (|c: FieldChangeView|
                if c.field is State || c.field is Priority {
                    Some(pull_text(p@.bead_id, c))
                } else {
                    None
                }),
            any == (text::picked(all.take(i as int), f).len() > 0),
            pull.bead_id@ == p.bead_id@,
            pull.actor@ == REMOTE_ACTOR@,
            text::seen(pull.status) == (if is_about(
                text::picked(all.take(i as int), f),
                Field::State,
            ) {
                Some(mirror@.fields.status)
            } else {
                None
            }),
            pull.priority == (if is_about(
                text::picked(all.take(i as int), f),
                Field::Priority,
            ) {
                Some(mirror@.fields.priority)
            } else {
                None
            }),
            text::views(lines@) == text::picked(text::picked(all.take(i as int), f), g),
        decreases p.changes@.len() - i,
    {
        let change = &p.changes[i];
        let ghost had = text::picked(all.take(i as int), f);
        proof {
            text::picked_step(all, f, i as int);
            assert(all[i as int] == change@);
        }
        if matches!(change.direction, Direction::Pull) {
            any = true;
            assert(had.push(change@).drop_last() =~= had);
            let comes_back = match change.field {
                Field::State => {
                    pull.status = Some(mirror.fields.status.copy());
                    true
                },
                Field::Priority => {
                    pull.priority = Some(mirror.fields.priority);
                    true
                },
                _ => false,
            };
            if comes_back {
                let mut line = p.bead_id.clone();
                line.append(": ");
                line.append(change.field.as_str());
                line.append(" ");
                line.append(change.local.as_str());
                line.append(" → ");
                line.append(change.remote.as_str());
                proof {
                    text::views_push(lines@, line);
                }
                lines.push(line);
            }
        }
        i += 1;
    }
    assert(all.take(i as int) =~= all);
    (pull, lines, any)
}

/// What the beads take over from the mirror, with the lines about it.
pub fn apply_field_pulls(plan: &ReconcilePlan, remote: &Vec<RemoteIssue>) -> (r: (
    Vec<FieldPull>,
    Vec<String>,
))
    ensures
        text::views(r.0@) == text::picked(
            plan@.field_changes,
            |p: IssueFieldPlanView| field_pull(p, text::views(remote@)),
        ),
        text::views(r.1@) == text::told(
            plan@.field_changes,
            |p: IssueFieldPlanView| field_pull_lines(p, text::views(remote@)),
        ),
{
    let ghost all = text::views(plan.field_changes@);
    let ghost issues = text::views(remote@);
    let ghost f = |p: IssueFieldPlanView| field_pull(p, issues);
    let ghost g = |p: IssueFieldPlanView| field_pull_lines(p, issues);
    let ghost none: Seq<Seq<char>> = Seq::empty();
    let mut pulls: Vec<FieldPull> = Vec::new();
    let mut lines: Vec<String> = Vec::new();
    let mut i: usize = 0;
    proof {
        assert(text::views(pulls@) =~= text::picked(all.take(0), f));
        text::told_ends(all, g, none);
        assert(text::views(lines@) =~= none);
    }
    while i < plan.field_changes.len()
        invariant
            i <= plan.field_changes@.len(),
            all == text::views(plan.field_changes@),
            issues == text::views(remote@),
            f == (|p: IssueFieldPlanView| field_pull(p, issues)),
            g == (|p: IssueFieldPlanView| field_pull_lines(p, issues)),
            none == Seq::<Seq<char>>::empty(),
            text::views(pulls@) == text::picked(all.take(i as int), f),
            text::views(lines@) == none + text::told(all.take(i as int), g),
        decreases plan.field_changes@.len() - i,
    {
        let p = &plan.field_changes[i];
        let ghost before = text::views(lines@);
        proof {
            text::picked_step(all, f, i as int);
            text::told_step(all, g, i as int, none);
            assert(all[i as int] == p@);
        }
        let mut own: Vec<String> = Vec::new();
        assert(text::views(own@) =~= none);
        if let Some(mirror) = find_issue(remote, p.remote_id.as_str()) {
            let (pull, list, any) = pull_one(p, mirror);
            if any {
                proof {
                    text::views_push(pulls@, pull);
                }
                pulls.push(pull);
                own = list;
            }
        }
        assert(text::views(own@) =~= field_pull_lines(p@, issues));
        add_all(&mut lines, &own);
        i += 1;
    }
    proof {
        assert(all.take(i as int) =~= all);
        assert(none + text::told(all, g) =~= text::told(all, g));
    }
    (pulls, lines)
}

fn add_all(list: &mut Vec<String>, more: &Vec<String>)
    ensures
        text::views(final(list)@) == text::views(old(list)@) + text::views(more@),
{
    let ghost start = text::views(list@);
    let ghost all = text::views(more@);
    let mut i: usize = 0;
    assert(start + all.take(0) =~= start);
    while i < more.len()
        invariant
            i <= more@.len(),
            all == text::views(more@),
            text::views(list@) == start + all.take(i as int),
        decreases more@.len() - i,
    {
        let one = more[i].clone();
        proof {
            text::views_push(list@, one);
            assert((start + all.take(i as int)).push(one@) =~= start + all.take(i + 1));
        }
        list.push(one);
        i += 1;
    }
    assert(all.take(i as int) =~= all);
}

} // verus!
