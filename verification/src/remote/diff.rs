//! Which fields differ between a bead and its mirror, and which side wins.
//!
//! Values are compared first: a field whose values agree is never written,
//! whatever the clocks say. Only the state and the priority can come back
//! from the mirror; in everything else the bead wins.

use crate::model;
use crate::model::{Issue, Priority};
use crate::order;
use crate::order::sort_distinct;
use crate::remote::config::RemoteConfig;
use crate::remote::model::{RemoteIssue, RemoteIssueView};
use crate::remote::youtrack::mapping;
use crate::text;
use crate::text::{join, trim};
use crate::time;
use crate::time::Timestamp;
use vstd::prelude::*;
use vstd::string::*;

verus! {

broadcast use vstd::string::group_string_axioms;

/// One mirrored field.
#[derive(Debug, Clone, Copy, PartialEq, Eq, Structural)]
pub enum Field {
    Title,
    Description,
    State,
    Priority,
    Type,
    Design,
    AcceptanceCriteria,
    Notes,
    CloseReason,
    Labels,
}

/// The name that a field is printed under.
pub open spec fn field_word(f: Field) -> Seq<char> {
    match f {
        Field::Title => "title"@,
        Field::Description => "description"@,
        Field::State => "state"@,
        Field::Priority => "priority"@,
        Field::Type => "type"@,
        Field::Design => "design"@,
        Field::AcceptanceCriteria => "acceptance criteria"@,
        Field::Notes => "notes"@,
        Field::CloseReason => "close reason"@,
        Field::Labels => "labels"@,
    }
}

impl Field {
    /// The name that this field is printed under.
    pub fn as_str(self) -> (r: &'static str)
        ensures
            r@ == field_word(self),
    {
        match self {
            Field::Title => "title",
            Field::Description => "description",
            Field::State => "state",
            Field::Priority => "priority",
            Field::Type => "type",
            Field::Design => "design",
            Field::AcceptanceCriteria => "acceptance criteria",
            Field::Notes => "notes",
            Field::CloseReason => "close reason",
            Field::Labels => "labels",
        }
    }
}

/// Which way a difference is settled.
#[derive(Debug, Clone, Copy, PartialEq, Eq, Structural)]
pub enum Direction {
    /// The bead wins: its value is written to the mirror.
    Push,
    /// The mirror wins.
    Pull,
}

/// The fields that an edit of the mirror can come back through.
pub const RETURNABLE_FIELDS: [Field; 2] = [Field::State, Field::Priority];

/// One field that differs, and which way that is settled.
#[derive(Debug, Clone, PartialEq, Eq)]
pub struct FieldChange {
    pub field: Field,
    pub direction: Direction,
    pub local: String,
    pub remote: String,
}

/// What contracts say of a [`FieldChange`].
pub struct FieldChangeView {
    pub field: Field,
    pub direction: Direction,
    pub local: Seq<char>,
    pub remote: Seq<char>,
}

impl View for FieldChange {
    type V = FieldChangeView;

    open spec fn view(&self) -> FieldChangeView {
        FieldChangeView {
            field: self.field,
            direction: self.direction,
            local: self.local@,
            remote: self.remote@,
        }
    }
}

/// Prose that is absent reads as no characters.
pub open spec fn prose_text(s: Option<Seq<char>>) -> Seq<char> {
    match s {
        Some(s) => s,
        None => Seq::empty(),
    }
}

/// Labels as one text: in order, each once.
pub open spec fn label_text(labels: Seq<Seq<char>>) -> Seq<char> {
    text::joined(order::distinct_sorted(labels), ", "@)
}

/// What a bead says of a field, as a text.
pub open spec fn local_text(bead: Issue, field: Field) -> Seq<char> {
    match field {
        Field::Title => text::trimmed(bead.title@),
        Field::Description => prose_text(text::seen(bead.description)),
        Field::State => model::status_name(bead.status@),
        Field::Priority => "P"@ + text::decimal(bead.priority.0 as int),
        Field::Type => model::issue_type_name(bead.issue_type@),
        Field::Design => prose_text(text::seen(bead.design)),
        Field::AcceptanceCriteria => prose_text(text::seen(bead.acceptance_criteria)),
        Field::Notes => prose_text(text::seen(bead.notes)),
        Field::CloseReason => prose_text(text::seen(bead.close_reason)),
        Field::Labels => label_text(text::views(bead.labels@)),
    }
}

/// What the mirror says of a field, as a text.
pub open spec fn remote_text(remote: RemoteIssueView, field: Field) -> Seq<char> {
    match field {
        Field::Title => text::trimmed(remote.summary),
        Field::Description => prose_text(remote.description),
        Field::State => model::status_name(remote.fields.status),
        Field::Priority => "P"@ + text::decimal(remote.fields.priority.0 as int),
        Field::Type => model::issue_type_name(remote.fields.issue_type),
        Field::Design => prose_text(remote.fields.design),
        Field::AcceptanceCriteria => prose_text(remote.fields.acceptance_criteria),
        Field::Notes => prose_text(remote.fields.notes),
        Field::CloseReason => prose_text(remote.fields.close_reason),
        Field::Labels => label_text(remote.labels),
    }
}

/// Whether an edit of the mirror can come back through the field.
pub open spec fn comes_back(field: Field) -> bool {
    field is State || field is Priority
}

/// The side that wins where a field differs: the mirror only in a field that
/// comes back, and only where it was changed later, by the millisecond.
pub open spec fn winner(field: Field, bead_updated: Timestamp, remote_updated: Timestamp) -> Direction {
    if comes_back(field) && time::millis(remote_updated) > time::millis(bead_updated) {
        Direction::Pull
    } else {
        Direction::Push
    }
}

/// The change that a field asks for, where its values differ.
pub open spec fn change_of(bead: Issue, remote: RemoteIssueView, field: Field) -> Option<
    FieldChangeView,
> {
    if local_text(bead, field) == remote_text(remote, field) {
        None
    } else {
        Some(
            FieldChangeView {
                field,
                direction: winner(field, bead.updated_at, remote.updated),
                local: local_text(bead, field),
                remote: remote_text(remote, field),
            },
        )
    }
}

/// The fields in the order in which they are compared.
pub open spec fn compared_fields() -> Seq<Field> {
    seq![
        Field::Title,
        Field::Description,
        Field::Type,
        Field::State,
        Field::Priority,
        Field::Design,
        Field::AcceptanceCriteria,
        Field::Notes,
        Field::CloseReason,
        Field::Labels,
    ]
}

/// The changes that a pair asks for.
pub open spec fn changes_of(bead: Issue, remote: RemoteIssueView) -> Seq<FieldChangeView> {
    text::picked(compared_fields(), |f: Field| change_of(bead, remote, f))
}

fn prose(value: &Option<String>) -> (r: String)
    ensures
        r@ == prose_text(text::seen(*value)),
{
    match value {
        Some(s) => s.clone(),
        None => String::new(),
    }
}

fn label_list(labels: &Vec<String>) -> (r: String)
    ensures
        r@ == label_text(text::views(labels@)),
{
    join(&sort_distinct(labels), ", ")
}

fn is_returnable(field: Field) -> (r: bool)
    ensures
        r == comes_back(field),
{
    RETURNABLE_FIELDS[0] == field || RETURNABLE_FIELDS[1] == field
}

/// The side that wins where a field differs.
pub fn direction_for(field: Field, bead: &Issue, remote: &RemoteIssue) -> (r: Direction)
    ensures
        r == winner(field, bead.updated_at, remote.updated),
{
    if is_returnable(field) {
        if remote.updated.timestamp_millis() > bead.updated_at.timestamp_millis() {
            Direction::Pull
        } else {
            Direction::Push
        }
    } else {
        Direction::Push
    }
}

/// Adds a change where the two values differ.
fn compare(
    changes: &mut Vec<FieldChange>,
    bead: &Issue,
    remote: &RemoteIssue,
    field: Field,
    local: String,
    remote_value: String,
)
    requires
        local@ == local_text(*bead, field),
        remote_value@ == remote_text(remote@, field),
    ensures
        text::views(final(changes)@) == (match change_of(*bead, remote@, field) {
            Some(c) => text::views(old(changes)@).push(c),
            None => text::views(old(changes)@),
        }),
{
    if local == remote_value {
        return;
    }
    let one = FieldChange {
        field,
        direction: direction_for(field, bead, remote),
        local,
        remote: remote_value,
    };
    proof {
        text::views_push(changes@, one);
    }
    changes.push(one);
}

/// Compares a bead with its mirror, field by field.
///
/// The configuration is not needed: the mirror's values have been led back
/// through its maps already, so an edit of the maps is no difference.
pub fn diff_pair(cfg: &RemoteConfig, bead: &Issue, remote: &RemoteIssue) -> (r: Vec<FieldChange>)
    ensures
        text::views(r@) == changes_of(*bead, remote@),
{
    let mut changes: Vec<FieldChange> = Vec::new();
    let ghost all = compared_fields();
    let ghost f = |f: Field| change_of(*bead, remote@, f);
    assert(text::views(changes@) =~= text::picked(all.take(0), f));
    compare(
        &mut changes,
        bead,
        remote,
        Field::Title,
        trim(bead.title.as_str()).to_owned(),
        trim(remote.summary.as_str()).to_owned(),
    );
    proof {
        text::picked_step(all, f, 0);
    }
    compare(
        &mut changes,
        bead,
        remote,
        Field::Description,
        prose(&bead.description),
        prose(&remote.description),
    );
    proof {
        text::picked_step(all, f, 1);
    }
    compare(
        &mut changes,
        bead,
        remote,
        Field::Type,
        bead.issue_type.to_string(),
        remote.fields.issue_type.to_string(),
    );
    proof {
        text::picked_step(all, f, 2);
    }
    compare(
        &mut changes,
        bead,
        remote,
        Field::State,
        bead.status.to_string(),
        remote.fields.status.to_string(),
    );
    proof {
        text::picked_step(all, f, 3);
    }
    compare(
        &mut changes,
        bead,
        remote,
        Field::Priority,
        bead.priority.to_string(),
        remote.fields.priority.to_string(),
    );
    proof {
        text::picked_step(all, f, 4);
    }
    compare(
        &mut changes,
        bead,
        remote,
        Field::Design,
        prose(&bead.design),
        prose(&remote.fields.design),
    );
    proof {
        text::picked_step(all, f, 5);
    }
    compare(
        &mut changes,
        bead,
        remote,
        Field::AcceptanceCriteria,
        prose(&bead.acceptance_criteria),
        prose(&remote.fields.acceptance_criteria),
    );
    proof {
        text::picked_step(all, f, 6);
    }
    compare(
        &mut changes,
        bead,
        remote,
        Field::Notes,
        prose(&bead.notes),
        prose(&remote.fields.notes),
    );
    proof {
        text::picked_step(all, f, 7);
    }
    compare(
        &mut changes,
        bead,
        remote,
        Field::CloseReason,
        prose(&bead.close_reason),
        prose(&remote.fields.close_reason),
    );
    proof {
        text::picked_step(all, f, 8);
    }
    compare(
        &mut changes,
        bead,
        remote,
        Field::Labels,
        label_list(&bead.labels),
        label_list(&remote.labels),
    );
    proof {
        text::picked_step(all, f, 9);
        assert(all.take(10) =~= all);
    }
    changes
}

/// A change is only ever asked for where the values differ. The mirror wins
/// only in the state and the priority, and only where it was changed later.
pub proof fn changes_are_real(bead: Issue, remote: RemoteIssueView, k: int)
    requires
        0 <= k < changes_of(bead, remote).len(),
    ensures
        ({
            let c = changes_of(bead, remote)[k];
            &&& c.local == local_text(bead, c.field)
            &&& c.remote == remote_text(remote, c.field)
            &&& c.local != c.remote
            &&& c.direction is Pull ==> comes_back(c.field) && time::millis(remote.updated)
                > time::millis(bead.updated_at)
        }),
{
    text::picked_comes_from(compared_fields(), |f: Field| change_of(bead, remote, f), k);
}

/// Where the two sides agree in every field nothing is written, whatever the
/// clocks say.
pub proof fn agreement_needs_no_change(bead: Issue, remote: RemoteIssueView)
    requires
        forall|f: Field| #[trigger] local_text(bead, f) == remote_text(remote, f),
    ensures
        changes_of(bead, remote).len() == 0,
{
    if changes_of(bead, remote).len() > 0 {
        changes_are_real(bead, remote, 0);
        let c = changes_of(bead, remote)[0];
        assert(local_text(bead, c.field) == remote_text(remote, c.field));
    }
}

/// Every field whose values differ is among the changes.
pub proof fn every_difference_is_found(bead: Issue, remote: RemoteIssueView, field: Field)
    requires
        local_text(bead, field) != remote_text(remote, field),
    ensures
        changes_of(bead, remote).contains(change_of(bead, remote, field)->0),
{
    let all = compared_fields();
    let i: int = match field {
        Field::Title => 0,
        Field::Description => 1,
        Field::Type => 2,
        Field::State => 3,
        Field::Priority => 4,
        Field::Design => 5,
        Field::AcceptanceCriteria => 6,
        Field::Notes => 7,
        Field::CloseReason => 8,
        Field::Labels => 9,
    };
    assert(all[i] == field);
    text::picked_holds(all, |f: Field| change_of(bead, remote, f), i);
}

/// An issue that says what its bead says, and bears the bead's labels, needs
/// no change: what was created is not pushed again.
pub proof fn created_issue_needs_no_change(bead: Issue, remote: RemoteIssueView)
    requires
        remote.fields == mapping::agreed_fields(bead),
        remote.summary == bead.title@,
        remote.description == text::seen(bead.description),
        remote.labels.to_set() == text::views(bead.labels@).to_set(),
    ensures
        changes_of(bead, remote).len() == 0,
{
    let labels = text::views(bead.labels@);
    order::distinct_sorted_facts(labels);
    order::distinct_sorted_facts(remote.labels);
    order::rising_list_is_unique(
        order::distinct_sorted(labels),
        order::distinct_sorted(remote.labels),
    );
    agreement_needs_no_change(bead, remote);
}

/// What an optional text says, where absent means empty.
pub open spec fn or_empty(prose: Option<String>) -> Seq<char> {
    match prose {
        Some(s) => s@,
        None => Seq::empty(),
    }
}

/// Where the two texts differ, the changes hold one of the field, with these
/// texts, and no other of it; where they agree, they hold none.
pub open spec fn tells(
    changes: Seq<FieldChangeView>,
    field: Field,
    local: Seq<char>,
    remote: Seq<char>,
) -> bool {
    if local == remote {
        forall|k: int| 0 <= k < changes.len() ==> (#[trigger] changes[k]).field != field
    } else {
        exists|k: int|
            #![trigger changes[k]]
            0 <= k < changes.len() && changes[k].field == field && changes[k].local == local
                && changes[k].remote == remote && (forall|m: int|
                0 <= m < changes.len() && (#[trigger] changes[m]).field == field ==> m == k)
    }
}

/// The place of a field among the changes of a pair.
pub open spec fn place_of(field: Field) -> int {
    match field {
        Field::Title => 0,
        Field::Description => 1,
        Field::Type => 2,
        Field::State => 3,
        Field::Priority => 4,
        Field::Design => 5,
        Field::AcceptanceCriteria => 6,
        Field::Notes => 7,
        Field::CloseReason => 8,
        Field::Labels => 9,
    }
}

/// The changes of a pair are listed by field: title, description, type, state,
/// priority, design, acceptance criteria, notes, close reason, labels.
pub proof fn changes_are_listed_by_field(bead: Issue, remote: RemoteIssueView, k: int, m: int)
    requires
        0 <= k < m < changes_of(bead, remote).len(),
    ensures
        place_of(changes_of(bead, remote)[k].field) < place_of(changes_of(bead, remote)[m].field),
{
    let f = |f: Field| change_of(bead, remote, f);
    let all = compared_fields();
    text::picked_in_order(all, f, k, m);
    let (i, j) = choose|i: int, j: int|
        0 <= i < j < all.len() && f(#[trigger] all[i]) == Some(changes_of(bead, remote)[k]) && f(
            #[trigger] all[j],
        ) == Some(changes_of(bead, remote)[m]);
    assert(place_of(all[i]) == i && place_of(all[j]) == j);
}

/// What is told of a field, over the texts of the two sides.
pub proof fn field_is_told(bead: Issue, remote: RemoteIssueView, field: Field)
    ensures
        tells(
            changes_of(bead, remote),
            field,
            local_text(bead, field),
            remote_text(remote, field),
        ),
{
    let changes = changes_of(bead, remote);
    let local = local_text(bead, field);
    let other = remote_text(remote, field);
    if local == other {
        assert forall|k: int| 0 <= k < changes.len() implies (#[trigger] changes[k]).field
            != field by {
            changes_are_real(bead, remote, k);
        }
    } else {
        every_difference_is_found(bead, remote, field);
        let k = choose|k: int|
            0 <= k < changes.len() && changes[k] == change_of(bead, remote, field)->0;
        assert forall|m: int| 0 <= m < changes.len() && (#[trigger] changes[m]).field
            == field implies m == k by {
            if m < k {
                changes_are_listed_by_field(bead, remote, m, k);
            } else if k < m {
                changes_are_listed_by_field(bead, remote, k, m);
            }
        }
        assert(changes[k].field == field);
    }
}

/// Every field of a bead is compared with the same field of its mirror, and
/// with no other. Titles are compared without the blanks at their ends, prose
/// that is absent counts as empty, and labels are compared in order and each
/// once. A difference is told once, with what either side says.
pub proof fn each_field_is_compared_with_its_own(bead: Issue, remote: RemoteIssue)
    ensures
        ({
            let changes = changes_of(bead, remote@);
            &&& tells(
                changes,
                Field::Title,
                text::trimmed(bead.title@),
                text::trimmed(remote.summary@),
            )
            &&& tells(
                changes,
                Field::Description,
                or_empty(bead.description),
                or_empty(remote.description),
            )
            &&& tells(
                changes,
                Field::Type,
                model::issue_type_name(bead.issue_type@),
                model::issue_type_name(remote.fields.issue_type@),
            )
            &&& tells(
                changes,
                Field::State,
                model::status_name(bead.status@),
                model::status_name(remote.fields.status@),
            )
            &&& tells(
                changes,
                Field::Priority,
                "P"@ + text::decimal(bead.priority.0 as int),
                "P"@ + text::decimal(remote.fields.priority.0 as int),
            )
            &&& tells(
                changes,
                Field::Design,
                or_empty(bead.design),
                or_empty(remote.fields.design),
            )
            &&& tells(
                changes,
                Field::AcceptanceCriteria,
                or_empty(bead.acceptance_criteria),
                or_empty(remote.fields.acceptance_criteria),
            )
            &&& tells(changes, Field::Notes, or_empty(bead.notes), or_empty(remote.fields.notes))
            &&& tells(
                changes,
                Field::CloseReason,
                or_empty(bead.close_reason),
                or_empty(remote.fields.close_reason),
            )
            &&& tells(
                changes,
                Field::Labels,
                text::joined(order::distinct_sorted(text::views(bead.labels@)), ", "@),
                text::joined(order::distinct_sorted(text::views(remote.labels@)), ", "@),
            )
        }),
{
    field_is_told(bead, remote@, Field::Title);
    field_is_told(bead, remote@, Field::Description);
    field_is_told(bead, remote@, Field::Type);
    field_is_told(bead, remote@, Field::State);
    field_is_told(bead, remote@, Field::Priority);
    field_is_told(bead, remote@, Field::Design);
    field_is_told(bead, remote@, Field::AcceptanceCriteria);
    field_is_told(bead, remote@, Field::Notes);
    field_is_told(bead, remote@, Field::CloseReason);
    field_is_told(bead, remote@, Field::Labels);
}

/// Where there is no change the bead and its mirror say the same in every
/// field. A custom status or type may bear the name of a known one; between
/// known ones the name decides.
pub proof fn no_change_means_agreement(bead: Issue, remote: RemoteIssue)
    requires
        changes_of(bead, remote@).len() == 0,
    ensures
        text::trimmed(bead.title@) == text::trimmed(remote.summary@),
        or_empty(bead.description) == or_empty(remote.description),
        model::issue_type_name(bead.issue_type@) == model::issue_type_name(
            remote.fields.issue_type@,
        ),
        !(bead.issue_type@ is Custom) && !(remote.fields.issue_type@ is Custom)
            ==> bead.issue_type@ == remote.fields.issue_type@,
        model::status_name(bead.status@) == model::status_name(remote.fields.status@),
        !(bead.status@ is Custom) && !(remote.fields.status@ is Custom) ==> bead.status@
            == remote.fields.status@,
        bead.priority == remote.fields.priority,
        or_empty(bead.design) == or_empty(remote.fields.design),
        or_empty(bead.acceptance_criteria) == or_empty(remote.fields.acceptance_criteria),
        or_empty(bead.notes) == or_empty(remote.fields.notes),
        or_empty(bead.close_reason) == or_empty(remote.fields.close_reason),
{
    each_field_is_compared_with_its_own(bead, remote);
    let a = bead.priority.0 as int;
    let b = remote.fields.priority.0 as int;
    names_tell_priorities_apart(bead.priority, remote.fields.priority);
    if !(bead.issue_type@ is Custom) && !(remote.fields.issue_type@ is Custom) {
        model::issue_type_reads_back(bead.issue_type@);
        model::issue_type_reads_back(remote.fields.issue_type@);
    }
    if !(bead.status@ is Custom) && !(remote.fields.status@ is Custom) {
        model::status_reads_back(bead.status@);
        model::status_reads_back(remote.fields.status@);
    }
}

/// Two priorities never print alike.
pub proof fn names_tell_priorities_apart(a: Priority, b: Priority)
    ensures
        "P"@ + text::decimal(a.0 as int) == "P"@ + text::decimal(b.0 as int) ==> a == b,
{
    let x = text::decimal(a.0 as int);
    let y = text::decimal(b.0 as int);
    if "P"@ + x == "P"@ + y {
        reveal_strlit("P");
        assert(("P"@ + x).skip(1) =~= x);
        assert(("P"@ + y).skip(1) =~= y);
        text::decimal_reads_back(a.0 as int);
        text::decimal_reads_back(b.0 as int);
    }
}

/// The mirror wins a difference exactly where the field is the state or the
/// priority and the mirror was changed later, counted in whole milliseconds.
/// The bead wins every other difference.
pub proof fn later_edit_wins_state_and_priority(bead: Issue, remote: RemoteIssue, k: int)
    requires
        0 <= k < changes_of(bead, remote@).len(),
    ensures
        changes_of(bead, remote@)[k].direction == (if (changes_of(bead, remote@)[k].field is State
            || changes_of(bead, remote@)[k].field is Priority) && remote.updated.secs * 1000
            + remote.updated.nanos / 1_000_000 > bead.updated_at.secs * 1000 + bead.updated_at.nanos
            / 1_000_000 {
            Direction::Pull
        } else {
            Direction::Push
        }),
{
    text::picked_comes_from(compared_fields(), |f: Field| change_of(bead, remote@, f), k);
}

} // verus!
