//! Which fields a search matches its query against.
//!
//! A [`SearchScope`] is read once from what the user typed and then rendered
//! into the one predicate that every search path shares.

use crate::error::{BeadsError, BeadsErrorView};
use crate::text;
use crate::text::{ascii_lowercase, join, same_text, split, trim};
use vstd::prelude::*;
use vstd::string::*;

verus! {

broadcast use vstd::string::group_string_axioms;

/// A column the query text is matched against.
#[derive(Debug, Clone, Copy, PartialEq, Eq, Hash, Structural)]
pub enum SearchField {
    Id,
    Title,
    Description,
    Design,
    AcceptanceCriteria,
    Notes,
}

/// Every field, in the order in which a scope lists them.
pub open spec fn all_fields() -> Seq<SearchField> {
    seq![
        SearchField::Id,
        SearchField::Title,
        SearchField::Description,
        SearchField::Design,
        SearchField::AcceptanceCriteria,
        SearchField::Notes,
    ]
}

/// The place of a field in that order.
pub open spec fn place(f: SearchField) -> int {
    match f {
        SearchField::Id => 0,
        SearchField::Title => 1,
        SearchField::Description => 2,
        SearchField::Design => 3,
        SearchField::AcceptanceCriteria => 4,
        SearchField::Notes => 5,
    }
}

pub open spec fn field_name(f: SearchField) -> Seq<char> {
    match f {
        SearchField::Id => "id"@,
        SearchField::Title => "title"@,
        SearchField::Description => "description"@,
        SearchField::Design => "design"@,
        SearchField::AcceptanceCriteria => "acceptance_criteria"@,
        SearchField::Notes => "notes"@,
    }
}

pub open spec fn field_column(f: SearchField) -> Seq<char> {
    match f {
        SearchField::Id => "id"@,
        SearchField::Title => "title"@,
        SearchField::Description => "description"@,
        SearchField::Design => "design"@,
        SearchField::AcceptanceCriteria => "acceptance_criteria"@,
        SearchField::Notes => "notes"@,
    }
}

pub open spec fn field_heading(f: SearchField) -> Seq<char> {
    match f {
        SearchField::Id => "id"@,
        SearchField::Title => "title"@,
        SearchField::Description => "description"@,
        SearchField::Design => "design"@,
        SearchField::AcceptanceCriteria => "acceptance criteria"@,
        SearchField::Notes => "notes"@,
    }
}

/// The field that a lowercase name or alias stands for.
pub open spec fn field_named(name: Seq<char>) -> Option<SearchField> {
    if name == "desc"@ {
        Some(SearchField::Description)
    } else if name == "ac"@ || name == "acceptance-criteria"@ || name == "criteria"@ {
        Some(SearchField::AcceptanceCriteria)
    } else if name == "id"@ {
        Some(SearchField::Id)
    } else if name == "title"@ {
        Some(SearchField::Title)
    } else if name == "description"@ {
        Some(SearchField::Description)
    } else if name == "design"@ {
        Some(SearchField::Design)
    } else if name == "acceptance_criteria"@ {
        Some(SearchField::AcceptanceCriteria)
    } else if name == "notes"@ {
        Some(SearchField::Notes)
    } else {
        None
    }
}

impl SearchField {
    /// Every matchable field: the default search scope.
    pub const ALL: [SearchField; 6] = [
        SearchField::Id,
        SearchField::Title,
        SearchField::Description,
        SearchField::Design,
        SearchField::AcceptanceCriteria,
        SearchField::Notes,
    ];

    /// The canonical spelling, i.e. the non-alias name.
    pub fn canonical_name(self) -> (r: &'static str)
        ensures
            r@ == field_name(self),
    {
        match self {
            SearchField::Id => "id",
            SearchField::Title => "title",
            SearchField::Description => "description",
            SearchField::Design => "design",
            SearchField::AcceptanceCriteria => "acceptance_criteria",
            SearchField::Notes => "notes",
        }
    }

    /// The column of the issue table that this field reads.
    pub fn column(self) -> (r: &'static str)
        ensures
            r@ == field_column(self),
    {
        match self {
            SearchField::Id => "id",
            SearchField::Title => "title",
            SearchField::Description => "description",
            SearchField::Design => "design",
            SearchField::AcceptanceCriteria => "acceptance_criteria",
            SearchField::Notes => "notes",
        }
    }

    /// The heading that this field is shown under.
    pub fn heading(self) -> (r: &'static str)
        ensures
            r@ == field_heading(self),
    {
        match self {
            SearchField::Id => "id",
            SearchField::Title => "title",
            SearchField::Description => "description",
            SearchField::Design => "design",
            SearchField::AcceptanceCriteria => "acceptance criteria",
            SearchField::Notes => "notes",
        }
    }

    /// The canonical name, as an owned text.
    pub fn to_string(&self) -> (r: String)
        ensures
            r@ == field_name(*self),
    {
        self.canonical_name().to_owned()
    }

    /// The field that a lowercase name or alias stands for.
    #[verifier::loop_isolation(false)]
    pub fn parse(name: &str) -> (r: Option<SearchField>)
        ensures
            r == field_named(name@),
    {
        if same_text(name, "desc") {
            return Some(SearchField::Description);
        }
        if same_text(name, "ac") || same_text(name, "acceptance-criteria") || same_text(
            name,
            "criteria",
        ) {
            return Some(SearchField::AcceptanceCriteria);
        }
        let mut i: usize = 0;
        while i < 6
            invariant
                i <= 6,
                forall|j: int| 0 <= j < i ==> name@ != field_name(#[trigger] all_fields()[j]),
            decreases 6 - i,
        {
            let field = SearchField::ALL[i];
            assert(field == all_fields()[i as int]);
            if same_text(field.canonical_name(), name) {
                proof {
                    reveal_field_names();
                    assert(field_name(SearchField::Id) == "id"@);
                    assert(field_name(SearchField::Title) == "title"@);
                    assert(field_name(SearchField::Description) == "description"@);
                    assert(field_name(SearchField::Design) == "design"@);
                    assert(field_name(SearchField::AcceptanceCriteria) == "acceptance_criteria"@);
                    assert(field_name(SearchField::Notes) == "notes"@);
                }
                return Some(field);
            }
            i += 1;
        }
        proof {
            assert(name@ != field_name(all_fields()[0]));
            assert(name@ != field_name(all_fields()[1]));
            assert(name@ != field_name(all_fields()[2]));
            assert(name@ != field_name(all_fields()[3]));
            assert(name@ != field_name(all_fields()[4]));
            assert(name@ != field_name(all_fields()[5]));
        }
        None
    }
}

/// No two fields share a name.
pub proof fn reveal_field_names()
    ensures
        forall|a: SearchField, b: SearchField| #[trigger]
            field_name(a) == #[trigger] field_name(b) ==> a == b,
{
    reveal_strlit("id");
    reveal_strlit("title");
    reveal_strlit("description");
    reveal_strlit("design");
    reveal_strlit("acceptance_criteria");
    reveal_strlit("notes");
    assert forall|a: SearchField, b: SearchField| #[trigger]
        field_name(a) == #[trigger] field_name(b) implies a == b by {
        assert(field_name(a).len() == field_name(b).len());
        assert(field_name(a)[0] == field_name(b)[0]);
    }
}

/// The set of fields one search matches against. It is never empty, and lists
/// each field once, in the order of [`SearchField::ALL`].
#[derive(Debug, PartialEq, Eq)]
pub struct SearchScope(Vec<SearchField>);

impl View for SearchScope {
    type V = Seq<SearchField>;

    closed spec fn view(&self) -> Seq<SearchField> {
        self.0@
    }
}

/// Each field once, in the order of [`SearchField::ALL`].
pub open spec fn scope_ordered(s: Seq<SearchField>) -> bool {
    forall|i: int, j: int| 0 <= i < j < s.len() ==> place(#[trigger] s[i]) < place(#[trigger] s[j])
}

/// The fields that satisfy `p`, in order.
pub open spec fn fields_where(p: spec_fn(SearchField) -> bool) -> Seq<SearchField> {
    all_fields().filter(p)
}

/// What one segment between commas asks for.
pub open spec fn segment_meaning(
    segment: Seq<char>,
    input: Seq<char>,
) -> Result<SearchField, BeadsErrorView> {
    let word = text::trimmed(segment);
    if word.len() == 0 {
        Err(
            refusal(
                "empty field in '"@ + input + "' — check for a stray comma"@,
            ),
        )
    } else {
        match field_named(text::ascii_lowered(word)) {
            Some(field) => Ok(field),
            None => Err(
                refusal(
                    "unknown search field '"@ + word + "'. Valid fields: "@
                        + "id, title, description, design, acceptance_criteria, notes"@,
                ),
            ),
        }
    }
}

/// The refusal of a search scope.
pub open spec fn refusal(reason: Seq<char>) -> BeadsErrorView {
    BeadsErrorView::Validation { field: "--in"@, reason }
}

/// The first segment's refusal among those that are refused.
pub open spec fn first_refusal(
    segments: Seq<Seq<char>>,
    input: Seq<char>,
) -> Option<BeadsErrorView>
    decreases segments.len(),
{
    if segments.len() == 0 {
        None
    } else {
        match first_refusal(segments.drop_last(), input) {
            Some(e) => Some(e),
            None => match segment_meaning(segments.last(), input) {
                Ok(_) => None,
                Err(e) => Some(e),
            },
        }
    }
}

/// Some segment asks for the field.
pub open spec fn asked(segments: Seq<Seq<char>>, input: Seq<char>, f: SearchField) -> bool {
    exists|i: int|
        0 <= i < segments.len() && #[trigger] segment_meaning(segments[i], input) == Ok::<
            SearchField,
            BeadsErrorView,
        >(f)
}

/// What a typed scope means: a list of names between commas, of which the
/// first bad one is refused.
pub open spec fn scope_written(input: Seq<char>) -> Result<Seq<SearchField>, BeadsErrorView> {
    if text::trimmed(input).len() == 0 {
        Err(refusal("search scope is empty"@))
    } else {
        let segments = text::split_on(input, ',');
        match first_refusal(segments, input) {
            Some(e) => Err(e),
            None => Ok(fields_where(|f: SearchField| asked(segments, input, f))),
        }
    }
}

/// What contracts say of a scope that was granted or refused.
pub open spec fn scope_outcome(r: Result<SearchScope, BeadsError>) -> Result<
    Seq<SearchField>,
    BeadsErrorView,
> {
    match r {
        Ok(scope) => Ok(scope@),
        Err(e) => Err(e@),
    }
}

/// One clause of the predicate.
pub open spec fn clause(f: SearchField) -> Seq<char> {
    "instr(lower("@ + field_column(f) + "), ?) > 0"@
}

/// The predicate that matches a text in any of the fields.
pub open spec fn predicate(fields: Seq<SearchField>) -> Seq<char> {
    "("@ + text::joined(fields.map_values(|f: SearchField| clause(f)), " OR "@) + ")"@
}

fn invalid(reason: String) -> (r: BeadsError)
    ensures
        r@ == refusal(reason@),
{
    BeadsError::Validation { field: "--in".to_owned(), reason }
}

proof fn filter_step(p: spec_fn(SearchField) -> bool, k: int)
    requires
        0 <= k < 6,
    ensures
        all_fields().take(k + 1).filter(p) == (if p(all_fields()[k]) {
            all_fields().take(k).filter(p).push(all_fields()[k])
        } else {
            all_fields().take(k).filter(p)
        }),
{
    reveal(Seq::filter);
    assert(all_fields().take(k + 1).drop_last() =~= all_fields().take(k));
}

proof fn filter_ordered(p: spec_fn(SearchField) -> bool, k: int)
    requires
        0 <= k <= 6,
    ensures
        scope_ordered(all_fields().take(k).filter(p)),
        forall|i: int|
            0 <= i < all_fields().take(k).filter(p).len() ==> place(
                #[trigger] all_fields().take(k).filter(p)[i],
            ) < k,
        forall|f: SearchField|
            place(f) < k && p(f) ==> #[trigger] all_fields().take(k).filter(p).contains(f),
    decreases k,
{
    if k == 0 {
        reveal(Seq::filter);
        assert(all_fields().take(0).filter(p) =~= Seq::empty());
    } else {
        filter_ordered(p, k - 1);
        filter_step(p, k - 1);
        let before = all_fields().take(k - 1).filter(p);
        let after = all_fields().take(k).filter(p);
        assert forall|f: SearchField| place(f) < k && p(f) implies #[trigger] after.contains(f) by {
            if place(f) == k - 1 {
                assert(all_fields()[k - 1] == f);
                assert(after[after.len() - 1] == f);
            } else {
                assert(before.contains(f));
                let i = choose|i: int| 0 <= i < before.len() && before[i] == f;
                assert(after[i] == f);
            }
        }
    }
}

impl SearchScope {
    #[verifier::type_invariant]
    spec fn well_formed(self) -> bool {
        self.0@.len() > 0 && scope_ordered(self.0@)
    }

    /// Every field: what a search without a scope uses.
    pub fn default_scope() -> (r: SearchScope)
        ensures
            r@ == all_fields(),
    {
        let mut fields: Vec<SearchField> = Vec::new();
        let mut i: usize = 0;
        while i < 6
            invariant
                i <= 6,
                fields@ == all_fields().take(i as int),
            decreases 6 - i,
        {
            fields.push(SearchField::ALL[i]);
            i += 1;
            assert(all_fields().take(i as int) =~= all_fields().take(i - 1).push(
                all_fields()[i - 1],
            ));
        }
        assert(all_fields().take(6) =~= all_fields());
        SearchScope(fields)
    }

    /// The fields to match, each once, in the order of [`SearchField::ALL`].
    pub fn fields(&self) -> (r: &[SearchField])
        ensures
            r@ == self@,
            r@.len() > 0,
            scope_ordered(r@),
    {
        proof {
            use_type_invariant(self);
        }
        self.0.as_slice()
    }

    /// The `WHERE` fragment matching the query text, with one `?` placeholder
    /// per field. The text bound to it must be lowercase already.
    pub fn match_sql(&self) -> (r: String)
        ensures
            r@ == predicate(self@),
    {
        let mut clauses: Vec<String> = Vec::new();
        let mut i: usize = 0;
        let ghost all = self.0@.map_values(|f: SearchField| clause(f));
        while i < self.0.len()
            invariant
                i <= self.0@.len(),
                all == self.0@.map_values(|f: SearchField| clause(f)),
                text::views(clauses@) == all.take(i as int),
            decreases self.0@.len() - i,
        {
            let mut one = "instr(lower(".to_owned();
            one.append(self.0[i].column());
            one.append("), ?) > 0");
            proof {
                text::views_push(clauses@, one);
            }
            clauses.push(one);
            i += 1;
            assert(all.take(i as int) =~= all.take(i - 1).push(all[i - 1]));
        }
        assert(all.take(i as int) =~= all);
        let mut out = "(".to_owned();
        out.append(join(&clauses, " OR ").as_str());
        out.append(")");
        out
    }

    /// How many `?` placeholders [`SearchScope::match_sql`] emits: how many
    /// times the query text is to be bound.
    pub fn placeholder_count(&self) -> (r: usize)
        ensures
            r == self@.len(),
            r == text::count_of(predicate(self@), '?'),
    {
        proof {
            one_placeholder_per_field(self@);
        }
        self.0.len()
    }

    /// Reads a scope: names or aliases of fields between commas, in any ASCII
    /// letter case and with white space around them.
    pub fn from_str(input: &str) -> (r: Result<SearchScope, BeadsError>)
        ensures
            scope_outcome(r) == scope_written(input@),
    {
        if trim(input).is_empty() {
            return Err(invalid("search scope is empty".to_owned()));
        }
        let segments = split(input, ',');
        let ghost cut = text::split_on(input@, ',');
        let mut fields: Vec<SearchField> = Vec::new();
        let mut i: usize = 0;
        while i < segments.len()
            invariant
                i <= segments@.len(),
                text::views(segments@) == cut,
                first_refusal(cut.take(i as int), input@) is None,
                forall|f: SearchField|
                    fields@.contains(f) <==> #[trigger] asked(cut.take(i as int), input@, f),
                i > 0 ==> fields@.len() > 0,
                text::trimmed(input@).len() > 0,
                cut == text::split_on(input@, ','),
            decreases segments@.len() - i,
        {
            let segment = trim(segments[i].as_str());
            assert(cut[i as int] == segments@[i as int]@);
            assert(cut.take(i + 1).drop_last() =~= cut.take(i as int));
            assert(cut.take(i + 1).last() == cut[i as int]);
            let ghost refused = segment_meaning(cut[i as int], input@);
            if segment.is_empty() {
                let mut reason = "empty field in '".to_owned();
                reason.append(input);
                reason.append("' — check for a stray comma");
                proof {
                    refusal_stands(cut, input@, i + 1);
                }
                return Err(invalid(reason));
            }
            let field = match SearchField::parse(ascii_lowercase(segment).as_str()) {
                Some(field) => field,
                None => {
                    let mut reason = "unknown search field '".to_owned();
                    reason.append(segment);
                    reason.append("'. Valid fields: ");
                    reason.append("id, title, description, design, acceptance_criteria, notes");
                    proof {
                        refusal_stands(cut, input@, i + 1);
                    }
                    return Err(invalid(reason));
                },
            };
            let ghost before = fields@;
            if !holds_field(&fields, field) {
                fields.push(field);
            }
            proof {
                assert(fields@.contains(field)) by {
                    if !before.contains(field) {
                        assert(fields@[fields@.len() - 1] == field);
                    }
                }
                assert forall|f: SearchField|
                    fields@.contains(f) <==> #[trigger] asked(cut.take(i + 1), input@, f) by {
                    let now = cut.take(i + 1);
                    let was = cut.take(i as int);
                    if asked(was, input@, f) {
                        let k = choose|k: int|
                            0 <= k < was.len() && #[trigger] segment_meaning(was[k], input@) == Ok::<
                                SearchField,
                                BeadsErrorView,
                            >(f);
                        assert(now[k] == was[k]);
                        assert(before.contains(f));
                        let m = choose|m: int| 0 <= m < before.len() && before[m] == f;
                        assert(fields@[m] == f);
                    }
                    if asked(now, input@, f) {
                        let k = choose|k: int|
                            0 <= k < now.len() && #[trigger] segment_meaning(now[k], input@) == Ok::<
                                SearchField,
                                BeadsErrorView,
                            >(f);
                        if k < i {
                            assert(was[k] == now[k]);
                            assert(asked(was, input@, f));
                        }
                    }
                    if fields@.contains(f) && !before.contains(f) {
                        assert(f == field);
                        assert(segment_meaning(now[i as int], input@) == Ok::<
                            SearchField,
                            BeadsErrorView,
                        >(f));
                    }
                    if f == field {
                        assert(segment_meaning(now[i as int], input@) == Ok::<
                            SearchField,
                            BeadsErrorView,
                        >(f));
                    }
                }
            }
            i += 1;
        }
        assert(cut.take(i as int) =~= cut);
        let ghost p = |f: SearchField| asked(cut, input@, f);
        let mut ordered: Vec<SearchField> = Vec::new();
        let mut k: usize = 0;
        proof {
            filter_ordered(p, 0);
            reveal(Seq::filter);
            assert(all_fields().take(0).filter(p) =~= Seq::empty());
        }
        while k < 6
            invariant
                k <= 6,
                p == (|f: SearchField| asked(cut, input@, f)),
                ordered@ == all_fields().take(k as int).filter(p),
                forall|f: SearchField| fields@.contains(f) <==> #[trigger] asked(cut, input@, f),
            decreases 6 - k,
        {
            let field = SearchField::ALL[k];
            assert(field == all_fields()[k as int]);
            proof {
                filter_step(p, k as int);
                assert(asked(cut, input@, field) == fields@.contains(field));
            }
            if holds_field(&fields, field) {
                ordered.push(field);
            }
            k += 1;
        }
        proof {
            filter_ordered(p, 6);
            assert(all_fields().take(6) =~= all_fields());
            let f = fields@[0];
            assert(fields@.contains(f));
            assert(asked(cut, input@, f));
            assert(ordered@.contains(f));
        }
        Ok(SearchScope(ordered))
    }
}

proof fn refusal_stands(cut: Seq<Seq<char>>, input: Seq<char>, k: int)
    requires
        0 < k <= cut.len(),
        first_refusal(cut.take(k), input) is Some,
    ensures
        first_refusal(cut, input) == first_refusal(cut.take(k), input),
    decreases cut.len(),
{
    if k == cut.len() {
        assert(cut.take(k) =~= cut);
    } else {
        assert(cut.drop_last().take(k) =~= cut.take(k));
        refusal_stands(cut.drop_last(), input, k);
    }
}

fn holds_field(list: &Vec<SearchField>, field: SearchField) -> (r: bool)
    ensures
        r == list@.contains(field),
{
    let mut i: usize = 0;
    while i < list.len()
        invariant
            i <= list@.len(),
            forall|j: int| 0 <= j < i ==> list@[j] != field,
        decreases list@.len() - i,
    {
        if list[i] == field {
            return true;
        }
        i += 1;
    }
    false
}

/// How a scope is spelled does not count: two that are granted and ask for the
/// same fields, in any order and however often, are the same scope, which
/// lists each field once and in the order of [`SearchField::ALL`].
pub proof fn spelling_does_not_count(a: Seq<char>, b: Seq<char>)
    requires
        scope_written(a) is Ok,
        scope_written(b) is Ok,
        forall|f: SearchField|
            #[trigger] asked(text::split_on(a, ','), a, f) == asked(text::split_on(b, ','), b, f),
    ensures
        scope_written(a) == scope_written(b),
        scope_ordered(scope_written(a)->Ok_0),
        forall|f: SearchField|
            scope_written(a)->Ok_0.contains(f) <== #[trigger] asked(text::split_on(a, ','), a, f),
{
    let p = |f: SearchField| asked(text::split_on(a, ','), a, f);
    let q = |f: SearchField| asked(text::split_on(b, ','), b, f);
    assert forall|f: SearchField| #[trigger] p(f) == q(f) by {
        assert(asked(text::split_on(a, ','), a, f) == asked(text::split_on(b, ','), b, f));
    }
    assert(p =~= q);
    filter_ordered(p, 6);
    assert(all_fields().take(6) =~= all_fields());
    assert forall|f: SearchField| #[trigger]
        asked(text::split_on(a, ','), a, f) implies scope_written(a)->Ok_0.contains(f) by {
        assert(p(f));
        assert(place(f) < 6);
        assert(all_fields().take(6).filter(p).contains(f));
    }
}

/// The predicate holds exactly one placeholder for each field.
pub proof fn one_placeholder_per_field(fields: Seq<SearchField>)
    ensures
        text::count_of(predicate(fields), '?') == fields.len(),
{
    let clauses = fields.map_values(|f: SearchField| clause(f));
    let middle = text::joined(clauses, " OR "@);
    reveal_strlit("(");
    reveal_strlit(")");
    reveal_strlit(" OR ");
    reveal_with_fuel(text::count_of, 5);
    assert(text::count_of("("@, '?') == 0);
    assert(text::count_of(")"@, '?') == 0);
    assert(text::count_of(" OR "@, '?') == 0);
    assert forall|i: int| 0 <= i < clauses.len() implies text::count_of(
        #[trigger] clauses[i],
        '?',
    ) == 1 by {
        clause_has_one(fields[i]);
    }
    text::count_of_joined(clauses, " OR "@, '?', 1);
    text::count_of_sum("("@, middle, '?');
    text::count_of_sum("("@ + middle, ")"@, '?');
}

proof fn clause_has_one(f: SearchField)
    ensures
        text::count_of(clause(f), '?') == 1,
{
    let a = "instr(lower("@;
    let b = field_column(f);
    let c = "), ?) > 0"@;
    text::count_of_sum(a, b, '?');
    text::count_of_sum(a + b, c, '?');
    reveal_strlit("instr(lower(");
    reveal_strlit("), ?) > 0");
    reveal_strlit("id");
    reveal_strlit("title");
    reveal_strlit("description");
    reveal_strlit("design");
    reveal_strlit("acceptance_criteria");
    reveal_strlit("notes");
    text::count_of_absent(a, '?');
    text::count_of_absent(b, '?');
    text::count_of_absent(c.take(3), '?');
    text::count_of_absent(c.skip(4), '?');
    assert(c =~= c.take(3) + seq!['?'] + c.skip(4));
    text::count_of_sum(c.take(3), seq!['?'], '?');
    text::count_of_sum(c.take(3) + seq!['?'], c.skip(4), '?');
    reveal_with_fuel(text::count_of, 2);
    assert(text::count_of(seq!['?'], '?') == 1);
}

impl Clone for SearchScope {
    fn clone(&self) -> (r: SearchScope)
        ensures
            r@ == self@,
    {
        let mut fields: Vec<SearchField> = Vec::new();
        let mut i: usize = 0;
        while i < self.0.len()
            invariant
                i <= self.0@.len(),
                fields@ == self.0@.take(i as int),
            decreases self.0@.len() - i,
        {
            fields.push(self.0[i]);
            i += 1;
            assert(self.0@.take(i as int) =~= self.0@.take(i - 1).push(self.0@[i - 1]));
        }
        assert(self.0@.take(i as int) =~= self.0@);
        proof {
            use_type_invariant(self);
        }
        SearchScope(fields)
    }
}

impl Default for SearchScope {
    fn default() -> (r: SearchScope)
        ensures
            r@ == all_fields(),
    {
        SearchScope::default_scope()
    }
}

impl std::str::FromStr for SearchScope {
    type Err = BeadsError;

    fn from_str(input: &str) -> Result<SearchScope, BeadsError> {
        SearchScope::from_str(input)
    }
}

/// The word names the field, in any case of letters, by its own name or by
/// another that it goes by.
pub open spec fn calls(word: Seq<char>, field: SearchField) -> bool {
    let name = text::ascii_lowered(word);
    match field {
        SearchField::Id => name == "id"@,
        SearchField::Title => name == "title"@,
        SearchField::Description => name == "description"@ || name == "desc"@,
        SearchField::Design => name == "design"@,
        SearchField::AcceptanceCriteria => name == "acceptance_criteria"@ || name
            == "acceptance-criteria"@ || name == "criteria"@ || name == "ac"@,
        SearchField::Notes => name == "notes"@,
    }
}

/// The word names some field.
pub open spec fn calls_some(word: Seq<char>) -> bool {
    exists|f: SearchField| #[trigger] calls(word, f)
}

/// A granted scope holds exactly the fields that its pieces between the commas
/// name, each once, and in the order of the fields. A scope is refused exactly
/// where it is blank or where a piece of it names no field.
pub proof fn scope_holds_the_fields_it_names(input: Seq<char>)
    ensures
        scope_written(input) is Ok <==> text::trimmed(input).len() > 0 && forall|i: int|
            0 <= i < text::split_on(input, ',').len() ==> calls_some(
                text::trimmed(#[trigger] text::split_on(input, ',')[i]),
            ),
        scope_written(input) matches Ok(fields) ==> {
            &&& forall|f: SearchField| #[trigger]
                fields.contains(f) <==> exists|i: int|
                    0 <= i < text::split_on(input, ',').len() && calls(
                        text::trimmed(#[trigger] text::split_on(input, ',')[i]),
                        f,
                    )
            &&& forall|i: int, j: int|
                0 <= i < j < fields.len() ==> place(#[trigger] fields[i]) < place(
                    #[trigger] fields[j],
                )
        },
{
    let segments = text::split_on(input, ',');
    let p = |f: SearchField| asked(segments, input, f);
    alias_names_differ();
    filter_ordered(p, 6);
    assert(all_fields().take(6) =~= all_fields());
    refusals_are_found(segments, input);
    assert forall|i: int| 0 <= i < segments.len() implies (segment_meaning(
        #[trigger] segments[i],
        input,
    ) is Ok <==> calls_some(text::trimmed(segments[i]))) by {
        named_is_called(segments[i], input);
        if let Ok(f) = segment_meaning(segments[i], input) {
            assert(calls(text::trimmed(segments[i]), f));
        }
    }
    if scope_written(input) is Ok {
        let fields = scope_written(input)->Ok_0;
        assert forall|f: SearchField| #[trigger] fields.contains(f) <==> exists|i: int|
            0 <= i < segments.len() && calls(text::trimmed(#[trigger] segments[i]), f) by {
            if fields.contains(f) {
                kept_is_asked(p, f);
                let i = choose|i: int|
                    0 <= i < segments.len() && #[trigger] segment_meaning(segments[i], input)
                        == Ok::<SearchField, BeadsErrorView>(f);
                named_is_called(segments[i], input);
                assert(calls(text::trimmed(segments[i]), f));
            }
            if exists|i: int|
                0 <= i < segments.len() && calls(text::trimmed(#[trigger] segments[i]), f) {
                let i = choose|i: int|
                    0 <= i < segments.len() && calls(text::trimmed(#[trigger] segments[i]), f);
                named_is_called(segments[i], input);
                assert(segment_meaning(segments[i], input) == Ok::<SearchField, BeadsErrorView>(f));
                assert(p(f));
                assert(place(f) < 6);
                assert(all_fields().take(6).filter(p).contains(f));
            }
        }
    }
}

proof fn kept_is_asked(p: spec_fn(SearchField) -> bool, f: SearchField)
    requires
        all_fields().filter(p).contains(f),
    ensures
        p(f),
{
    assert(all_fields().filter(p).contains(f));
}

proof fn refusals_are_found(segments: Seq<Seq<char>>, input: Seq<char>)
    ensures
        first_refusal(segments, input) is None <==> forall|i: int|
            0 <= i < segments.len() ==> segment_meaning(#[trigger] segments[i], input) is Ok,
    decreases segments.len(),
{
    if segments.len() > 0 {
        let front = segments.drop_last();
        refusals_are_found(front, input);
        if first_refusal(segments, input) is None {
            assert forall|i: int| 0 <= i < segments.len() implies segment_meaning(
                #[trigger] segments[i],
                input,
            ) is Ok by {
                if i < front.len() {
                    assert(front[i] == segments[i]);
                }
            }
        } else if forall|i: int|
            0 <= i < segments.len() ==> segment_meaning(#[trigger] segments[i], input) is Ok {
            assert forall|i: int| 0 <= i < front.len() implies segment_meaning(
                #[trigger] front[i],
                input,
            ) is Ok by {
                assert(front[i] == segments[i]);
            }
            assert(segment_meaning(segments[segments.len() - 1], input) is Ok);
        }
    }
}

proof fn alias_names_differ()
    ensures
        forall|word: Seq<char>, a: SearchField, b: SearchField| #[trigger]
            calls(word, a) && #[trigger] calls(word, b) ==> a == b,
{
    reveal_strlit("id");
    reveal_strlit("title");
    reveal_strlit("description");
    reveal_strlit("desc");
    reveal_strlit("design");
    reveal_strlit("acceptance_criteria");
    reveal_strlit("acceptance-criteria");
    reveal_strlit("criteria");
    reveal_strlit("ac");
    reveal_strlit("notes");
    assert("id"@[0] == 'i' && "title"@[0] == 't' && "description"@[0] == 'd' && "desc"@[0] == 'd');
    assert("design"@[0] == 'd' && "acceptance_criteria"@[0] == 'a' && "acceptance-criteria"@[0]
        == 'a');
    assert("criteria"@[0] == 'c' && "ac"@[0] == 'a' && "notes"@[0] == 'n');
    assert("design"@.len() == 6 && "description"@.len() == 11 && "desc"@.len() == 4);
}

proof fn named_is_called(segment: Seq<char>, input: Seq<char>)
    ensures
        forall|f: SearchField|
            segment_meaning(segment, input) == Ok::<SearchField, BeadsErrorView>(f)
                <==> #[trigger] calls(text::trimmed(segment), f),
{
    alias_names_differ();
    let word = text::trimmed(segment);
    let name = text::ascii_lowered(word);
    reveal_strlit("id");
    reveal_strlit("title");
    reveal_strlit("description");
    reveal_strlit("desc");
    reveal_strlit("design");
    reveal_strlit("acceptance_criteria");
    reveal_strlit("acceptance-criteria");
    reveal_strlit("criteria");
    reveal_strlit("ac");
    reveal_strlit("notes");
    assert(name.len() == word.len());
    match field_named(name) {
        Some(f) => {
            assert(calls(word, f));
        },
        None => {},
    }
}

/// The predicate asks for the text in every field of the scope, by the name of
/// the field's column and in small letters.
pub proof fn predicate_asks_every_field(fields: Seq<SearchField>, i: int)
    requires
        0 <= i < fields.len(),
    ensures
        text::holds(
            predicate(fields),
            "instr(lower("@ + field_name(fields[i]) + "), ?) > 0"@,
        ),
{
    let parts = fields.map_values(|f: SearchField| clause(f));
    let all = text::joined(parts, " OR "@);
    text::joined_holds(parts, " OR "@, i);
    assert(parts[i] == "instr(lower("@ + field_name(fields[i]) + "), ?) > 0"@);
    text::holds_within("("@, all, ")"@, parts[i]);
}

} // verus!
