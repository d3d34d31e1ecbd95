//! Sort specifications with several keys.
//!
//! A [`SortSpec`] is read once from what the user typed; whoever orders
//! issues reads [`SortSpec::resolved`], so no two of them can disagree.

use crate::error::{BeadsError, BeadsErrorView};
use crate::text;
use crate::text::{same_text, split, trim};
use vstd::prelude::*;
use vstd::string::*;

verus! {

broadcast use vstd::string::group_string_axioms;

/// A column the result set can be ordered by.
#[derive(Debug, Clone, Copy, PartialEq, Eq, Hash, Structural)]
pub enum SortField {
    Priority,
    Status,
    Type,
    Assignee,
    CreatedAt,
    UpdatedAt,
    Title,
    /// The key that [`SortSpec::resolved`] puts last. It cannot be asked for.
    Id,
}

/// Ascending or descending.
#[derive(Debug, Clone, Copy, PartialEq, Eq, Hash, Structural)]
pub enum SortDirection {
    Asc,
    Desc,
}

/// The direction that a field takes where none is given.
pub open spec fn usual_direction(f: SortField) -> SortDirection {
    if f is CreatedAt || f is UpdatedAt {
        SortDirection::Desc
    } else {
        SortDirection::Asc
    }
}

pub open spec fn opposite(d: SortDirection) -> SortDirection {
    match d {
        SortDirection::Asc => SortDirection::Desc,
        SortDirection::Desc => SortDirection::Asc,
    }
}

/// The field that a name stands for.
pub open spec fn sort_field_named(name: Seq<char>) -> Option<SortField> {
    if name == "priority"@ {
        Some(SortField::Priority)
    } else if name == "status"@ {
        Some(SortField::Status)
    } else if name == "type"@ {
        Some(SortField::Type)
    } else if name == "assignee"@ {
        Some(SortField::Assignee)
    } else if name == "created_at"@ || name == "created"@ {
        Some(SortField::CreatedAt)
    } else if name == "updated_at"@ || name == "updated"@ {
        Some(SortField::UpdatedAt)
    } else if name == "title"@ {
        Some(SortField::Title)
    } else {
        None
    }
}

impl SortField {
    /// The direction that a field takes where none is given.
    pub fn natural_direction(self) -> (r: SortDirection)
        ensures
            r == usual_direction(self),
    {
        match self {
            SortField::CreatedAt | SortField::UpdatedAt => SortDirection::Desc,
            _ => SortDirection::Asc,
        }
    }

    /// The field that a name stands for.
    pub fn parse(name: &str) -> (r: Option<SortField>)
        ensures
            r == sort_field_named(name@),
    {
        if same_text(name, "priority") {
            Some(SortField::Priority)
        } else if same_text(name, "status") {
            Some(SortField::Status)
        } else if same_text(name, "type") {
            Some(SortField::Type)
        } else if same_text(name, "assignee") {
            Some(SortField::Assignee)
        } else if same_text(name, "created_at") || same_text(name, "created") {
            Some(SortField::CreatedAt)
        } else if same_text(name, "updated_at") || same_text(name, "updated") {
            Some(SortField::UpdatedAt)
        } else if same_text(name, "title") {
            Some(SortField::Title)
        } else {
            None
        }
    }
}

impl SortDirection {
    /// The other direction.
    pub fn flipped(self) -> (r: SortDirection)
        ensures
            r == opposite(self),
    {
        match self {
            SortDirection::Asc => SortDirection::Desc,
            SortDirection::Desc => SortDirection::Asc,
        }
    }

    /// The keyword of a query.
    pub fn sql(self) -> (r: &'static str)
        ensures
            r@ == (match self {
                SortDirection::Asc => "ASC"@,
                SortDirection::Desc => "DESC"@,
            }),
    {
        match self {
            SortDirection::Asc => "ASC",
            SortDirection::Desc => "DESC",
        }
    }
}

/// Flipping twice changes nothing, flipping once always does.
pub proof fn flipping_twice(d: SortDirection)
    ensures
        opposite(opposite(d)) == d,
        opposite(d) != d,
{
}

/// A field paired with a concrete direction.
#[derive(Debug, Clone, Copy, PartialEq, Eq, Structural)]
pub struct SortKey {
    pub field: SortField,
    pub direction: SortDirection,
}

/// One segment as it was typed; `direction` is `None` where it was left out.
#[derive(Debug, Clone, Copy, PartialEq, Eq, Structural)]
pub struct ParsedKey {
    pub field: SortField,
    pub direction: Option<SortDirection>,
}

/// A sort specification as it was typed.
#[derive(Debug, Clone, PartialEq, Eq)]
pub struct SortSpec {
    keys: Vec<ParsedKey>,
}

impl View for SortSpec {
    type V = Seq<ParsedKey>;

    closed spec fn view(&self) -> Seq<ParsedKey> {
        self.keys@
    }
}

/// The refusal of a sort specification.
pub open spec fn sort_refusal(reason: Seq<char>) -> BeadsErrorView {
    BeadsErrorView::Validation { field: "sort"@, reason }
}

/// The direction that a leading `-` or `+` asks for, and the name behind it.
pub open spec fn signed_name(word: Seq<char>) -> (Option<SortDirection>, Seq<char>) {
    if word.len() > 0 && word[0] == '-' {
        (Some(SortDirection::Desc), word.drop_first())
    } else if word.len() > 0 && word[0] == '+' {
        (Some(SortDirection::Asc), word.drop_first())
    } else {
        (None, word)
    }
}

pub open spec fn has_key(keys: Seq<ParsedKey>, field: SortField) -> bool {
    exists|i: int| 0 <= i < keys.len() && (#[trigger] keys[i]).field == field
}

/// The keys that the segments between the commas ask for, up to the first
/// one that is refused.
pub open spec fn keys_written(segments: Seq<Seq<char>>, input: Seq<char>) -> Result<
    Seq<ParsedKey>,
    BeadsErrorView,
>
    decreases segments.len(),
{
    if segments.len() == 0 {
        Ok(Seq::empty())
    } else {
        match keys_written(segments.drop_last(), input) {
            Err(e) => Err(e),
            Ok(keys) => {
                let word = text::trimmed(segments.last());
                let (direction, name) = signed_name(word);
                if word.len() == 0 {
                    Err(
                        sort_refusal(
                            "empty sort key in '"@ + input + "' — check for a stray comma"@,
                        ),
                    )
                } else {
                    match sort_field_named(name) {
                        None => Err(sort_refusal("invalid sort field '"@ + name + "'"@)),
                        Some(field) => if has_key(keys, field) {
                            Err(
                                sort_refusal(
                                    "duplicate sort field '"@ + name + "' in '"@ + input + "'"@,
                                ),
                            )
                        } else {
                            Ok(keys.push(ParsedKey { field, direction }))
                        },
                    }
                }
            },
        }
    }
}

/// What a typed sort specification means.
pub open spec fn sort_written(input: Seq<char>) -> Result<Seq<ParsedKey>, BeadsErrorView> {
    if text::trimmed(input).len() == 0 {
        Err(sort_refusal("sort spec is empty"@))
    } else {
        keys_written(text::split_on(input, ','), input)
    }
}

/// What contracts say of a specification that was granted or refused.
pub open spec fn sort_outcome(r: Result<SortSpec, BeadsError>) -> Result<
    Seq<ParsedKey>,
    BeadsErrorView,
> {
    match r {
        Ok(spec) => Ok(spec@),
        Err(e) => Err(e@),
    }
}

/// A single bare `priority`, which is ordered by age among equals.
pub open spec fn lone_priority(keys: Seq<ParsedKey>) -> bool {
    keys.len() == 1 && keys[0].field is Priority && keys[0].direction is None
}

/// The keys that the user asked for, with a direction each.
pub open spec fn directed(keys: Seq<ParsedKey>) -> Seq<SortKey> {
    if lone_priority(keys) {
        seq![
            SortKey { field: SortField::Priority, direction: SortDirection::Asc },
            SortKey { field: SortField::CreatedAt, direction: SortDirection::Desc },
        ]
    } else {
        keys.map_values(
            |k: ParsedKey|
                SortKey {
                    field: k.field,
                    direction: match k.direction {
                        Some(d) => d,
                        None => usual_direction(k.field),
                    },
                },
        )
    }
}

pub open spec fn reversed(keys: Seq<SortKey>) -> Seq<SortKey> {
    keys.map_values(
        |k: SortKey| SortKey { field: k.field, direction: opposite(k.direction) },
    )
}

/// The effective order: the keys in their directions, turned round where
/// `reverse` is asked for, and the rising identifier as the last word.
pub open spec fn effective(keys: Seq<ParsedKey>, reverse: bool) -> Seq<SortKey> {
    (if reverse {
        reversed(directed(keys))
    } else {
        directed(keys)
    }).push(SortKey { field: SortField::Id, direction: SortDirection::Asc })
}

fn invalid(reason: String) -> (r: BeadsError)
    ensures
        r@ == sort_refusal(reason@),
{
    BeadsError::Validation { field: "sort".to_owned(), reason }
}

proof fn keys_refused_early(segments: Seq<Seq<char>>, input: Seq<char>, k: int)
    requires
        0 <= k <= segments.len(),
        keys_written(segments.take(k), input) is Err,
    ensures
        keys_written(segments, input) == keys_written(segments.take(k), input),
    decreases segments.len(),
{
    if k == segments.len() {
        assert(segments.take(k) =~= segments);
    } else {
        assert(segments.drop_last().take(k) =~= segments.take(k));
        keys_refused_early(segments.drop_last(), input, k);
    }
}

impl SortSpec {
    /// The effective ordering: directions filled in, a lone `priority`
    /// followed by age, `reverse` folded in, and the identifier appended.
    pub fn resolved(&self, reverse: bool) -> (r: Vec<SortKey>)
        ensures
            r@ == effective(self@, reverse),
    {
        let mut keys: Vec<SortKey> = Vec::new();
        if self.is_legacy_priority() {
            keys.push(SortKey { field: SortField::Priority, direction: SortDirection::Asc });
            keys.push(SortKey { field: SortField::CreatedAt, direction: SortDirection::Desc });
            assert(keys@ =~= directed(self@));
        } else {
            let mut i: usize = 0;
            while i < self.keys.len()
                invariant
                    i <= self.keys@.len(),
                    !lone_priority(self@),
                    keys@ == directed(self@).take(i as int),
                decreases self.keys@.len() - i,
            {
                let parsed = self.keys[i];
                let direction = match parsed.direction {
                    Some(direction) => direction,
                    None => parsed.field.natural_direction(),
                };
                keys.push(SortKey { field: parsed.field, direction });
                i += 1;
                assert(directed(self@).take(i as int) =~= directed(self@).take(i - 1).push(
                    directed(self@)[i - 1],
                ));
            }
            assert(keys@ =~= directed(self@));
        }
        if reverse {
            let mut turned: Vec<SortKey> = Vec::new();
            let mut i: usize = 0;
            let ghost all = reversed(keys@);
            while i < keys.len()
                invariant
                    i <= keys@.len(),
                    all == reversed(keys@),
                    turned@ == all.take(i as int),
                decreases keys@.len() - i,
            {
                turned.push(
                    SortKey { field: keys[i].field, direction: keys[i].direction.flipped() },
                );
                i += 1;
                assert(all.take(i as int) =~= all.take(i - 1).push(all[i - 1]));
            }
            assert(turned@ =~= all);
            keys = turned;
        }
        keys.push(SortKey { field: SortField::Id, direction: SortDirection::Asc });
        keys
    }

    /// Whether the specification is a single bare `priority`, which keeps the
    /// order by age among equals.
    pub fn is_legacy_priority(&self) -> (r: bool)
        ensures
            r == lone_priority(self@),
    {
        self.keys.len() == 1 && self.keys[0].field == SortField::Priority
            && self.keys[0].direction.is_none()
    }

    /// Reads a specification: names of fields between commas, each with a
    /// leading `-` or `+` or none, and white space around them.
    pub fn from_str(input: &str) -> (r: Result<SortSpec, BeadsError>)
        ensures
            sort_outcome(r) == sort_written(input@),
    {
        if trim(input).is_empty() {
            return Err(invalid("sort spec is empty".to_owned()));
        }
        let segments = split(input, ',');
        let ghost cut = text::split_on(input@, ',');
        let mut keys: Vec<ParsedKey> = Vec::new();
        let mut i: usize = 0;
        assert(keys@ =~= Seq::empty());
        while i < segments.len()
            invariant
                i <= segments@.len(),
                text::views(segments@) == cut,
                cut == text::split_on(input@, ','),
                text::trimmed(input@).len() > 0,
                keys_written(cut.take(i as int), input@) == Ok::<Seq<ParsedKey>, BeadsErrorView>(
                    keys@,
                ),
            decreases segments@.len() - i,
        {
            let segment = trim(segments[i].as_str());
            assert(cut[i as int] == segments@[i as int]@);
            assert(cut.take(i + 1).drop_last() =~= cut.take(i as int));
            assert(cut.take(i + 1).last() == cut[i as int]);
            if segment.is_empty() {
                let mut reason = "empty sort key in '".to_owned();
                reason.append(input);
                reason.append("' — check for a stray comma");
                proof {
                    keys_refused_early(cut, input@, i + 1);
                }
                return Err(invalid(reason));
            }
            let len = segment.unicode_len();
            let first = segment.get_char(0);
            let tail = segment.substring_char(1, len);
            assert(tail@ =~= segment@.drop_first());
            let (direction, name) = if first == '-' {
                (Some(SortDirection::Desc), tail)
            } else if first == '+' {
                (Some(SortDirection::Asc), tail)
            } else {
                (None, segment)
            };
            let field = match SortField::parse(name) {
                Some(field) => field,
                None => {
                    let mut reason = "invalid sort field '".to_owned();
                    reason.append(name);
                    reason.append("'");
                    proof {
                        keys_refused_early(cut, input@, i + 1);
                    }
                    return Err(invalid(reason));
                },
            };
            let mut k: usize = 0;
            while k < keys.len()
                invariant
                    k <= keys@.len(),
                    i < segments@.len(),
                    i < cut.len(),
                    forall|j: int| 0 <= j < k ==> (#[trigger] keys@[j]).field != field,
                    cut == text::split_on(input@, ','),
                    text::trimmed(input@).len() > 0,
                    cut.take(i + 1).drop_last() == cut.take(i as int),
                    cut.take(i + 1).last() == cut[i as int],
                    segment@ == text::trimmed(cut[i as int]),
                    segment@.len() > 0,
                    signed_name(segment@) == (direction, name@),
                    sort_field_named(name@) == Some(field),
                    keys_written(cut.take(i as int), input@) == Ok::<
                        Seq<ParsedKey>,
                        BeadsErrorView,
                    >(keys@),
                decreases keys@.len() - k,
            {
                if keys[k].field == field {
                    let mut reason = "duplicate sort field '".to_owned();
                    reason.append(name);
                    reason.append("' in '");
                    reason.append(input);
                    reason.append("'");
                    proof {
                        assert(has_key(keys@, field));
                        keys_refused_early(cut, input@, i + 1);
                    }
                    return Err(invalid(reason));
                }
                k += 1;
            }
            assert(!has_key(keys@, field));
            keys.push(ParsedKey { field, direction });
            i += 1;
        }
        assert(cut.take(i as int) =~= cut);
        Ok(SortSpec { keys })
    }
}

impl std::str::FromStr for SortSpec {
    type Err = BeadsError;

    fn from_str(input: &str) -> Result<SortSpec, BeadsError> {
        SortSpec::from_str(input)
    }
}

/// A specification that was granted never names a field twice, and never asks
/// for the identifier.
pub proof fn granted_keys_differ(segments: Seq<Seq<char>>, input: Seq<char>)
    requires
        keys_written(segments, input) is Ok,
    ensures
        ({
            let keys = keys_written(segments, input)->Ok_0;
            &&& keys.len() == segments.len()
            &&& forall|i: int, j: int|
                0 <= i < j < keys.len() ==> (#[trigger] keys[i]).field != (
                #[trigger] keys[j]).field
            &&& forall|i: int| 0 <= i < keys.len() ==> !((#[trigger] keys[i]).field is Id)
        }),
    decreases segments.len(),
{
    if segments.len() > 0 {
        granted_keys_differ(segments.drop_last(), input);
        let before = keys_written(segments.drop_last(), input)->Ok_0;
        let after = keys_written(segments, input)->Ok_0;
        assert forall|i: int, j: int| 0 <= i < j < after.len() implies (
        #[trigger] after[i]).field != (#[trigger] after[j]).field by {
            if j == after.len() - 1 {
                assert(!has_key(before, after[j].field));
                assert(before[i] == after[i]);
            } else {
                assert(before[i].field != before[j].field);
            }
        }
        assert forall|i: int| 0 <= i < after.len() implies !((#[trigger] after[i]).field is Id) by {
            if i < before.len() {
                assert(!(before[i].field is Id));
            }
        }
    }
}

/// The effective order always ends with the rising identifier, and asking for
/// the reverse turns every other key round and leaves that one alone.
pub proof fn effective_order_ends_with_id(keys: Seq<ParsedKey>)
    ensures
        forall|reverse: bool|
            #[trigger] effective(keys, reverse).len() == directed(keys).len() + 1 && effective(
                keys,
                reverse,
            ).last() == (SortKey { field: SortField::Id, direction: SortDirection::Asc }),
        forall|i: int|
            0 <= i < directed(keys).len() ==> (#[trigger] effective(keys, true)[i]).field
                == effective(keys, false)[i].field && effective(keys, true)[i].direction
                == opposite(effective(keys, false)[i].direction),
{
}

/// A granted specification has one key for each piece between the commas, in
/// their order: the field that the piece names behind its sign and without the
/// blanks around it, falling where the sign is `-`, rising where it is `+`, and
/// in no direction of its own where there is none.
pub proof fn each_piece_gives_its_key(input: Seq<char>, i: int)
    requires
        sort_written(input) matches Ok(keys) && 0 <= i < keys.len(),
    ensures
        ({
            let keys = sort_written(input)->Ok_0;
            let word = text::trimmed(text::split_on(input, ',')[i]);
            &&& keys.len() == text::split_on(input, ',').len()
            &&& word.len() > 0
            &&& word[0] == '-' ==> keys[i].direction == Some(SortDirection::Desc) && names_field(
                word.drop_first(),
                keys[i].field,
            )
            &&& word[0] == '+' ==> keys[i].direction == Some(SortDirection::Asc) && names_field(
                word.drop_first(),
                keys[i].field,
            )
            &&& word[0] != '-' && word[0] != '+' ==> keys[i].direction is None && names_field(
                word,
                keys[i].field,
            )
        }),
{
    let segments = text::split_on(input, ',');
    granted_keys_differ(segments, input);
    piece_gives_key(segments, input, i);
}

/// The name is one of those that the field goes by.
pub open spec fn names_field(name: Seq<char>, field: SortField) -> bool {
    match field {
        SortField::Priority => name == "priority"@,
        SortField::Status => name == "status"@,
        SortField::Type => name == "type"@,
        SortField::Assignee => name == "assignee"@,
        SortField::CreatedAt => name == "created_at"@ || name == "created"@,
        SortField::UpdatedAt => name == "updated_at"@ || name == "updated"@,
        SortField::Title => name == "title"@,
        SortField::Id => false,
    }
}

proof fn piece_gives_key(segments: Seq<Seq<char>>, input: Seq<char>, i: int)
    requires
        keys_written(segments, input) matches Ok(keys) && 0 <= i < keys.len() == segments.len(),
    ensures
        ({
            let keys = keys_written(segments, input)->Ok_0;
            let word = text::trimmed(segments[i]);
            &&& word.len() > 0
            &&& signed_name(word).0 == keys[i].direction
            &&& sort_field_named(signed_name(word).1) == Some(keys[i].field)
        }),
    decreases segments.len(),
{
    if i < segments.len() - 1 {
        let front = segments.drop_last();
        granted_keys_differ(front, input);
        piece_gives_key(front, input, i);
        assert(front[i] == segments[i]);
        assert(keys_written(segments, input)->Ok_0[i] == keys_written(front, input)->Ok_0[i]);
    } else {
        granted_keys_differ(segments.drop_last(), input);
    }
}

/// A specification is refused exactly where it is blank, or where one of its
/// pieces is blank, names no field, or names a field that an earlier one names.
pub proof fn good_specifications_are_granted(input: Seq<char>)
    ensures
        sort_written(input) is Ok <==> text::trimmed(input).len() > 0 && (forall|i: int|
            0 <= i < text::split_on(input, ',').len() ==> #[trigger] piece_field(
                text::split_on(input, ','),
                i,
            ) is Some) && (forall|i: int, j: int|
            0 <= i < j < text::split_on(input, ',').len() ==> #[trigger] piece_field(
                text::split_on(input, ','),
                i,
            ) != #[trigger] piece_field(text::split_on(input, ','), j)),
{
    pieces_decide(text::split_on(input, ','), input);
}

/// The field that a piece names.
pub open spec fn piece_field(segments: Seq<Seq<char>>, i: int) -> Option<SortField> {
    let word = text::trimmed(segments[i]);
    if word.len() == 0 {
        None
    } else if word[0] == '-' || word[0] == '+' {
        sort_field_named(word.drop_first())
    } else {
        sort_field_named(word)
    }
}

proof fn pieces_decide(segments: Seq<Seq<char>>, input: Seq<char>)
    ensures
        keys_written(segments, input) is Ok <==> (forall|i: int|
            0 <= i < segments.len() ==> #[trigger] piece_field(segments, i) is Some) && (forall|
            i: int,
            j: int,
        |
            0 <= i < j < segments.len() ==> #[trigger] piece_field(segments, i)
                != #[trigger] piece_field(segments, j)),
    decreases segments.len(),
{
    if segments.len() > 0 {
        let front = segments.drop_last();
        let n = front.len() as int;
        pieces_decide(front, input);
        assert forall|i: int| 0 <= i < n implies #[trigger] piece_field(front, i) == piece_field(
            segments,
            i,
        ) by {
            assert(front[i] == segments[i]);
        }
        if keys_written(front, input) is Ok {
            let keys = keys_written(front, input)->Ok_0;
            granted_keys_differ(front, input);
            assert forall|i: int| 0 <= i < n implies #[trigger] piece_field(segments, i) == Some(
                keys[i].field,
            ) by {
                piece_gives_key(front, input, i);
                assert(piece_field(front, i) == piece_field(segments, i));
            }
            assert(piece_field(segments, n) == sort_field_named(
                signed_name(text::trimmed(segments[n])).1,
            ) || text::trimmed(segments[n]).len() == 0);
            if keys_written(segments, input) is Ok {
                assert forall|i: int, j: int| 0 <= i < j < segments.len() implies
                    #[trigger] piece_field(segments, i) != #[trigger] piece_field(segments, j) by {
                    if j < n {
                        assert(keys[i].field != keys[j].field);
                    } else {
                        assert(keys[i].field != piece_field(segments, n)->0);
                    }
                }
            } else if piece_field(segments, n) is Some {
                let field = piece_field(segments, n)->0;
                assert(has_key(keys, field));
                let i = choose|i: int| 0 <= i < keys.len() && (#[trigger] keys[i]).field == field;
                assert(piece_field(segments, i) == piece_field(segments, n));
            }
        } else {
            if (forall|i: int| 0 <= i < segments.len() ==> #[trigger] piece_field(segments, i)
                is Some) && (forall|i: int, j: int|
                0 <= i < j < segments.len() ==> #[trigger] piece_field(segments, i)
                    != #[trigger] piece_field(segments, j)) {
                assert forall|i: int| 0 <= i < n implies #[trigger] piece_field(front, i)
                    is Some by {
                    assert(piece_field(segments, i) is Some);
                }
                assert forall|i: int, j: int| 0 <= i < j < n implies #[trigger] piece_field(
                    front,
                    i,
                ) != #[trigger] piece_field(front, j) by {
                    assert(piece_field(segments, i) != piece_field(segments, j));
                }
            }
        }
    }
}

/// Every key of a specification is kept in its place, in the direction that it
/// asks for, or else in the field's usual one: the newest first for the two
/// dates, rising for everything else. A bare `priority` on its own is ordered
/// by age among equals, the newest first. The identifier, rising, decides last.
/// Asking for the reverse turns all of this round but the identifier.
pub proof fn keys_are_kept_in_order(keys: Seq<ParsedKey>, i: int)
    ensures
        !(keys.len() == 1 && keys[0].field is Priority && keys[0].direction is None) ==> effective(
            keys,
            false,
        ).len() == keys.len() + 1 && (0 <= i < keys.len() ==> effective(keys, false)[i].field
            == keys[i].field && effective(keys, false)[i].direction == (match keys[i].direction {
            Some(d) => d,
            None => if keys[i].field is CreatedAt || keys[i].field is UpdatedAt {
                SortDirection::Desc
            } else {
                SortDirection::Asc
            },
        }) && effective(keys, true)[i].field == keys[i].field && effective(
            keys,
            true,
        )[i].direction != effective(keys, false)[i].direction),
        keys.len() == 1 && keys[0].field is Priority && keys[0].direction is None ==> effective(
            keys,
            false,
        ) == seq![
            SortKey { field: SortField::Priority, direction: SortDirection::Asc },
            SortKey { field: SortField::CreatedAt, direction: SortDirection::Desc },
            SortKey { field: SortField::Id, direction: SortDirection::Asc },
        ] && effective(keys, true) == seq![
            SortKey { field: SortField::Priority, direction: SortDirection::Desc },
            SortKey { field: SortField::CreatedAt, direction: SortDirection::Asc },
            SortKey { field: SortField::Id, direction: SortDirection::Asc },
        ],
        effective(keys, false).last() == (SortKey {
            field: SortField::Id,
            direction: SortDirection::Asc,
        }),
        effective(keys, true).last() == (SortKey {
            field: SortField::Id,
            direction: SortDirection::Asc,
        }),
{
    if keys.len() == 1 && keys[0].field is Priority && keys[0].direction is None {
        assert(effective(keys, false) =~= seq![
            SortKey { field: SortField::Priority, direction: SortDirection::Asc },
            SortKey { field: SortField::CreatedAt, direction: SortDirection::Desc },
            SortKey { field: SortField::Id, direction: SortDirection::Asc },
        ]);
        assert(effective(keys, true) =~= seq![
            SortKey { field: SortField::Priority, direction: SortDirection::Desc },
            SortKey { field: SortField::CreatedAt, direction: SortDirection::Asc },
            SortKey { field: SortField::Id, direction: SortDirection::Asc },
        ]);
    }
}

} // verus!
