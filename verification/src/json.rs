//! JSON values, and how they are read from a text and written as one.

use crate::order;
use crate::order::sort_distinct;
use crate::text;
use crate::text::same_text;
use vstd::prelude::*;

verus! {

/// A JSON value.
#[derive(Debug, PartialEq, Eq)]
pub enum Json {
    Null,
    Bool(bool),
    /// A whole number that is written without a fraction or an exponent and
    /// fits in 64 bits, with or without a sign.
    Int(i128),
    /// Any other number, printed anew: `1.50` is held as `1.5`, and a whole
    /// number beyond 64 bits as the nearest that can be had, `1e20` say.
    Decimal(String),
    Text(String),
    Array(Vec<Json>),
    /// Names and values. A name that occurs twice means its first value.
    Object(Vec<(String, Json)>),
}

/// What contracts say of a [`Json`].
pub enum JsonView {
    Null,
    Bool(bool),
    Int(int),
    Decimal(Seq<char>),
    Text(Seq<char>),
    Array(Seq<JsonView>),
    Object(Seq<(Seq<char>, JsonView)>),
}

/// The view of a value, part by part.
pub open spec fn tree(j: Json) -> JsonView
    decreases j,
{
    match j {
        Json::Null => JsonView::Null,
        Json::Bool(b) => JsonView::Bool(b),
        Json::Int(n) => JsonView::Int(n as int),
        Json::Decimal(s) => JsonView::Decimal(s@),
        Json::Text(s) => JsonView::Text(s@),
        Json::Array(items) => JsonView::Array(
            Seq::new(
                items@.len(),
                |i: int|
                    if 0 <= i < items@.len() {
                        tree(items@[i])
                    } else {
                        JsonView::Null
                    },
            ),
        ),
        Json::Object(entries) => JsonView::Object(
            Seq::new(
                entries@.len(),
                |i: int|
                    if 0 <= i < entries@.len() {
                        (entries@[i].0@, tree(entries@[i].1))
                    } else {
                        (Seq::empty(), JsonView::Null)
                    },
            ),
        ),
    }
}

impl View for Json {
    type V = JsonView;

    open spec fn view(&self) -> JsonView {
        tree(*self)
    }
}

/// The view of a list of names and values.
pub open spec fn entries_view(entries: Seq<(String, Json)>) -> Seq<(Seq<char>, JsonView)> {
    entries.map_values(|e: (String, Json)| (e.0@, e.1@))
}

/// An array is the list of its items.
pub broadcast proof fn array_view(items: Vec<Json>)
    ensures
        #[trigger] tree(Json::Array(items)) == JsonView::Array(text::views(items@)),
{
    assert(tree(Json::Array(items))->Array_0 =~= text::views(items@));
}

/// An object is the list of its entries.
pub broadcast proof fn object_view(entries: Vec<(String, Json)>)
    ensures
        #[trigger] tree(Json::Object(entries)) == JsonView::Object(entries_view(entries@)),
{
    assert(tree(Json::Object(entries))->Object_0 =~= entries_view(entries@));
}

// ---------------------------------------------------------------------------
// Reading a text
// ---------------------------------------------------------------------------

#[verifier::external_type_specification]
#[verifier::external_body]
pub struct ExValue(serde_json::Value);

/// The tree of values that a `serde_json::Value` holds.
pub uninterp spec fn held(v: serde_json::Value) -> JsonView;

/// What `serde_json::from_str` makes of a text: the value that it writes, or
/// the complaint, in words, that it is not JSON.
pub uninterp spec fn json_reading(s: Seq<char>) -> Result<JsonView, Seq<char>>;

/// One level of a value: its kind, and what it holds directly.
pub enum Layer {
    Null,
    Bool(bool),
    Number(Option<i128>, String),
    Text(String),
    Array(Vec<serde_json::Value>),
    Object(Vec<(String, serde_json::Value)>),
}

/// The tree below one level.
pub open spec fn layer_view(l: Layer) -> JsonView {
    match l {
        Layer::Null => JsonView::Null,
        Layer::Bool(b) => JsonView::Bool(b),
        Layer::Number(Some(n), _) => JsonView::Int(n as int),
        Layer::Number(None, s) => JsonView::Decimal(s@),
        Layer::Text(s) => JsonView::Text(s@),
        Layer::Array(items) => JsonView::Array(
            items@.map_values(|v: serde_json::Value| held(v)),
        ),
        Layer::Object(entries) => JsonView::Object(
            entries@.map_values(|e: (String, serde_json::Value)| (e.0@, held(e.1))),
        ),
    }
}

/// `serde_json::from_str::<serde_json::Value>`: the value that the text
/// writes, or the words of the error where the text is not JSON. The result
/// depends on the text alone.
#[verifier::external_body]
fn parse_value(s: &str) -> (r: Result<serde_json::Value, String>)
    ensures
        (match r {
            Ok(v) => Ok(held(v)),
            Err(e) => Err(e@),
        }) == json_reading(s@),
{
    serde_json::from_str::<serde_json::Value>(s).map_err(|e| e.to_string())
}

/// The variants of `serde_json::Value`, with what each holds: the numbers
/// without fraction or exponent by `Number::as_i128`, other numbers by their
/// printed text, and the entries of an object in the order of its map.
#[verifier::external_body]
fn open_value(v: serde_json::Value) -> (r: Layer)
    ensures
        layer_view(r) == held(v),
{
    match v {
        serde_json::Value::Null => Layer::Null,
        serde_json::Value::Bool(b) => Layer::Bool(b),
        serde_json::Value::Number(n) => Layer::Number(n.as_i128(), n.to_string()),
        serde_json::Value::String(s) => Layer::Text(s),
        serde_json::Value::Array(items) => Layer::Array(items),
        serde_json::Value::Object(map) => Layer::Object(map.into_iter().collect()),
    }
}

/// The JSON value that an outside one holds.
fn json_of(v: serde_json::Value) -> (r: Json)
    ensures
        r@ == held(v),
    decreases held(v),
{
    broadcast use array_view, object_view;

    match open_value(v) {
        Layer::Null => Json::Null,
        Layer::Bool(b) => Json::Bool(b),
        Layer::Number(Some(n), _) => Json::Int(n),
        Layer::Number(None, s) => Json::Decimal(s),
        Layer::Text(s) => Json::Text(s),
        Layer::Array(mut items) => {
            let ghost all = held(v)->Array_0;
            let mut back: Vec<Json> = Vec::new();
            while items.len() > 0
                invariant
                    held(v) == JsonView::Array(all),
                    items@.len() + back@.len() == all.len(),
                    items@.map_values(|x: serde_json::Value| held(x)) == all.take(
                        items@.len() as int,
                    ),
                    forall|i: int| 0 <= i < back@.len() ==> (#[trigger] back@[i])@ == all[all.len()
                        - 1 - i],
                decreases items@.len(),
            {
                let ghost n = items@.len();
                let last = items.pop().unwrap();
                assert(held(last) == all[n - 1]) by {
                    assert(all.take(n as int)[n - 1] == held(last));
                }
                assert(items@.map_values(|x: serde_json::Value| held(x)) =~= all.take(n - 1)) by {
                    assert forall|k: int| 0 <= k < n - 1 implies held(items@[k]) == all[k] by {
                        assert(all.take(n as int)[k] == held(items@[k]));
                    }
                }
                assert(decreases_to!(held(v) => held(v)->Array_0));
                assert(decreases_to!(all => all[n - 1]));
                back.push(json_of(last));
            }
            let mut out: Vec<Json> = Vec::new();
            while back.len() > 0
                invariant
                    back@.len() + out@.len() == all.len(),
                    text::views(out@) == all.take(out@.len() as int),
                    forall|i: int| 0 <= i < back@.len() ==> (#[trigger] back@[i])@ == all[all.len()
                        - 1 - i],
                decreases back@.len(),
            {
                let next = back.pop().unwrap();
                proof {
                    text::views_push(out@, next);
                    assert(all.take(out@.len() as int + 1) =~= all.take(out@.len() as int).push(next@));
                }
                out.push(next);
            }
            assert(all.take(out@.len() as int) =~= all);
            Json::Array(out)
        },
        Layer::Object(mut entries) => {
            let ghost all = held(v)->Object_0;
            let mut back: Vec<(String, Json)> = Vec::new();
            while entries.len() > 0
                invariant
                    held(v) == JsonView::Object(all),
                    entries@.len() + back@.len() == all.len(),
                    entries@.map_values(|e: (String, serde_json::Value)| (e.0@, held(e.1)))
                        == all.take(entries@.len() as int),
                    forall|i: int|
                        0 <= i < back@.len() ==> ((#[trigger] back@[i]).0@, back@[i].1@) == all[
                        all.len() - 1 - i],
                decreases entries@.len(),
            {
                let ghost n = entries@.len();
                let (key, value) = entries.pop().unwrap();
                assert((key@, held(value)) == all[n - 1]) by {
                    assert(all.take(n as int)[n - 1] == (key@, held(value)));
                }
                assert(entries@.map_values(|e: (String, serde_json::Value)| (e.0@, held(e.1)))
                    =~= all.take(n - 1)) by {
                    assert forall|k: int| 0 <= k < n - 1 implies (
                        entries@[k].0@,
                        held(entries@[k].1),
                    ) == all[k] by {
                        assert(all.take(n as int)[k] == (entries@[k].0@, held(entries@[k].1)));
                    }
                }
                assert(decreases_to!(held(v) => held(v)->Object_0));
                assert(decreases_to!(all => all[n - 1]));
                assert(decreases_to!(all[n - 1] => all[n - 1].1));
                back.push((key, json_of(value)));
            }
            let mut out: Vec<(String, Json)> = Vec::new();
            while back.len() > 0
                invariant
                    back@.len() + out@.len() == all.len(),
                    entries_view(out@) == all.take(out@.len() as int),
                    forall|i: int|
                        0 <= i < back@.len() ==> ((#[trigger] back@[i]).0@, back@[i].1@) == all[
                        all.len() - 1 - i],
                decreases back@.len(),
            {
                let next = back.pop().unwrap();
                proof {
                    assert(entries_view(out@.push(next)) =~= entries_view(out@).push(
                        (next.0@, next.1@),
                    ));
                    assert(all.take(out@.len() as int + 1) =~= all.take(out@.len() as int).push(
                        (next.0@, next.1@),
                    ));
                }
                out.push(next);
            }
            assert(all.take(out@.len() as int) =~= all);
            Json::Object(out)
        },
    }
}

/// The JSON value that a text writes, or the complaint that it is not JSON.
pub fn read_json(s: &str) -> (r: Result<Json, String>)
    ensures
        (match r {
            Ok(j) => Ok(j@),
            Err(e) => Err(e@),
        }) == json_reading(s@),
{
    match parse_value(s) {
        Ok(v) => Ok(json_of(v)),
        Err(e) => Err(e),
    }
}

// ---------------------------------------------------------------------------
// Writing a text
// ---------------------------------------------------------------------------

/// What `serde_json::to_string` makes of a `serde_json::Value` that holds this
/// tree: the text, or the complaint, in words, that there is none.
pub uninterp spec fn json_writing(v: JsonView) -> Result<Seq<char>, Seq<char>>;

/// What `str::parse::<serde_json::Number>` makes of a text: the number that it
/// writes, if it writes one.
pub uninterp spec fn number_reading(s: Seq<char>) -> Option<JsonView>;

/// One level of a value that is to be written.
pub enum Part {
    Null,
    Bool(bool),
    Whole(i128),
    Text(String),
    Array(Vec<serde_json::Value>),
    Object(Vec<(String, serde_json::Value)>),
}

/// The tree below one level, where there is a value for it: a whole number
/// has to fit in 64 bits, with or without a sign.
pub open spec fn part_view(p: Part) -> Option<JsonView> {
    match p {
        Part::Null => Some(JsonView::Null),
        Part::Bool(b) => Some(JsonView::Bool(b)),
        Part::Whole(n) => if i64::MIN <= n <= u64::MAX {
            Some(JsonView::Int(n as int))
        } else {
            None
        },
        Part::Text(s) => Some(JsonView::Text(s@)),
        Part::Array(items) => Some(
            JsonView::Array(items@.map_values(|v: serde_json::Value| held(v))),
        ),
        Part::Object(entries) => Some(
            JsonView::Object(
                entries@.map_values(|e: (String, serde_json::Value)| (e.0@, held(e.1))),
            ),
        ),
    }
}

/// What an outside value holds, where there is one.
pub open spec fn held_in(v: Option<serde_json::Value>) -> Option<JsonView> {
    match v {
        Some(v) => Some(held(v)),
        None => None,
    }
}

/// The variants of `serde_json::Value`, made of what each holds: a number by
/// `Number::from_i128`, which knows the whole numbers of 64 bits, and an
/// object by collecting its entries into a map. A map is walked in the order
/// of its names, so entries that come in that order, each once, stay as they
/// are.
#[verifier::external_body]
fn make_value(p: Part) -> (r: Option<serde_json::Value>)
    requires
        p matches Part::Object(entries) ==> order::strictly_rising(
            entries@.map_values(|e: (String, serde_json::Value)| e.0@),
        ),
    ensures
        held_in(r) == part_view(p),
{
    Some(match p {
        Part::Null => serde_json::Value::Null,
        Part::Bool(b) => serde_json::Value::Bool(b),
        Part::Whole(n) => serde_json::Value::Number(serde_json::Number::from_i128(n)?),
        Part::Text(s) => serde_json::Value::String(s),
        Part::Array(items) => serde_json::Value::Array(items),
        Part::Object(entries) => serde_json::Value::Object(entries.into_iter().collect()),
    })
}

/// `str::parse::<serde_json::Number>`: the number that the text writes, if it
/// writes one. The result depends on the text alone.
#[verifier::external_body]
fn parse_number(s: &str) -> (r: Option<serde_json::Value>)
    ensures
        held_in(r) == number_reading(s@),
{
    s.parse::<serde_json::Number>().ok().map(serde_json::Value::Number)
}

/// `serde_json::to_string`: the text that writes the value, or the words of
/// the error where there is none. The result depends on what the value holds
/// alone.
#[verifier::external_body]
fn print_value(v: &serde_json::Value) -> (r: Result<String, String>)
    ensures
        (match r {
            Ok(s) => Ok(s@),
            Err(e) => Err(e@),
        }) == json_writing(held(*v)),
{
    serde_json::to_string(v).map_err(|e| e.to_string())
}

/// The value of the first entry with this name.
pub open spec fn first_part(parts: Seq<(Seq<char>, Option<JsonView>)>, name: Seq<char>) -> Option<
    JsonView,
>
    decreases parts.len(),
{
    if parts.len() == 0 {
        None
    } else if parts[0].0 == name {
        parts[0].1
    } else {
        first_part(parts.drop_first(), name)
    }
}

/// An array of these parts, where each of them can be had.
pub open spec fn gathered(parts: Seq<Option<JsonView>>) -> Option<JsonView> {
    if forall|i: int| 0 <= i < parts.len() ==> (#[trigger] parts[i]) is Some {
        Some(JsonView::Array(parts.map_values(|p: Option<JsonView>| p->0)))
    } else {
        None
    }
}

/// The names of the entries, in order and each once.
pub open spec fn names_of(parts: Seq<(Seq<char>, Option<JsonView>)>) -> Seq<Seq<char>> {
    order::distinct_sorted(parts.map_values(|p: (Seq<char>, Option<JsonView>)| p.0))
}

/// An object of these parts in the order of their names, where each of them
/// can be had.
pub open spec fn assembled(parts: Seq<(Seq<char>, Option<JsonView>)>) -> Option<JsonView> {
    let names = names_of(parts);
    if forall|i: int| 0 <= i < names.len() ==> first_part(parts, #[trigger] names[i]) is Some {
        Some(
            JsonView::Object(names.map_values(|n: Seq<char>| (n, first_part(parts, n)->0))),
        )
    } else {
        None
    }
}

/// A value as it is written: the entries of each object in the order of their
/// names, each once. There is none where it holds a number that cannot be
/// written.
pub open spec fn arranged(j: JsonView) -> Option<JsonView>
    decreases j,
{
    match j {
        JsonView::Null => Some(j),
        JsonView::Bool(_) => Some(j),
        JsonView::Int(n) => if i64::MIN <= n <= u64::MAX {
            Some(j)
        } else {
            None
        },
        JsonView::Decimal(s) => number_reading(s),
        JsonView::Text(_) => Some(j),
        JsonView::Array(items) => gathered(arranged_items(items)),
        JsonView::Object(entries) => assembled(arranged_entries(entries)),
    }
}

/// The items of an array as they are written.
pub open spec fn arranged_items(items: Seq<JsonView>) -> Seq<Option<JsonView>>
    decreases items,
{
    Seq::new(
        items.len(),
        |i: int|
            if 0 <= i < items.len() {
                arranged(items[i])
            } else {
                None
            },
    )
}

/// The entries of an object with their values as they are written.
pub open spec fn arranged_entries(entries: Seq<(Seq<char>, JsonView)>) -> Seq<
    (Seq<char>, Option<JsonView>),
>
    decreases entries,
{
    Seq::new(
        entries.len(),
        |i: int|
            if 0 <= i < entries.len() {
                (entries[i].0, arranged(entries[i].1))
            } else {
                (Seq::empty(), None)
            },
    )
}

/// The text that writes a value, or the complaint that there is none.
pub open spec fn written(j: JsonView) -> Result<Seq<char>, Seq<char>> {
    match arranged(j) {
        Some(v) => json_writing(v),
        None => Err("number out of range"@),
    }
}

proof fn first_part_at(parts: Seq<(Seq<char>, Option<JsonView>)>, name: Seq<char>, k: int)
    requires
        0 <= k < parts.len(),
        parts[k].0 == name,
        forall|i: int| 0 <= i < k ==> (#[trigger] parts[i]).0 != name,
    ensures
        first_part(parts, name) == parts[k].1,
    decreases k,
{
    if k > 0 {
        assert(parts[0].0 != name);
        let rest = parts.drop_first();
        assert forall|i: int| 0 <= i < k - 1 implies (#[trigger] rest[i]).0 != name by {
            assert(rest[i] == parts[i + 1]);
        }
        first_part_at(rest, name, k - 1);
    }
}

fn entry_names(entries: &Vec<(String, Json)>) -> (r: Vec<String>)
    ensures
        text::views(r@) == entries@.map_values(|e: (String, Json)| e.0@),
{
    let ghost want = entries@.map_values(|e: (String, Json)| e.0@);
    let mut out: Vec<String> = Vec::new();
    let mut i: usize = 0;
    assert(text::views(out@) =~= want.take(0));
    while i < entries.len()
        invariant
            i <= entries@.len(),
            want == entries@.map_values(|e: (String, Json)| e.0@),
            text::views(out@) == want.take(i as int),
        decreases entries@.len() - i,
    {
        let one = entries[i].0.clone();
        proof {
            text::views_push(out@, one);
            assert(want.take(i + 1) =~= want.take(i as int).push(want[i as int]));
        }
        out.push(one);
        i += 1;
    }
    assert(want.take(i as int) =~= want);
    out
}

fn place_of(entries: &Vec<(String, Json)>, name: &str) -> (r: usize)
    requires
        exists|i: int| 0 <= i < entries@.len() && (#[trigger] entries@[i]).0@ == name@,
    ensures
        r < entries@.len(),
        entries@[r as int].0@ == name@,
        forall|i: int| 0 <= i < r ==> (#[trigger] entries@[i]).0@ != name@,
{
    let len: usize = entries.len();
    let mut i: usize = 0;
    while !same_text(entries[i].0.as_str(), name)
        invariant
            i < entries@.len(),
            len == entries@.len(),
            exists|k: int| i <= k < entries@.len() && (#[trigger] entries@[k]).0@ == name@,
            forall|k: int| 0 <= k < i ==> (#[trigger] entries@[k]).0@ != name@,
        decreases entries@.len() - i,
    {
        i += 1;
    }
    i
}

/// The outside value that holds a JSON value as it is written.
fn value_of(j: &Json) -> (r: Option<serde_json::Value>)
    ensures
        held_in(r) == arranged(j@),
    decreases *j,
{
    broadcast use array_view, object_view;

    match j {
        Json::Null => make_value(Part::Null),
        Json::Bool(b) => make_value(Part::Bool(*b)),
        Json::Int(n) => make_value(Part::Whole(*n)),
        Json::Decimal(s) => parse_number(s.as_str()),
        Json::Text(s) => make_value(Part::Text(s.clone())),
        Json::Array(items) => {
            let ghost views = text::views(items@);
            let ghost parts = arranged_items(views);
            assert(arranged(j@) == gathered(parts));
            let mut out: Vec<serde_json::Value> = Vec::new();
            let mut i: usize = 0;
            while i < items.len()
                invariant
                    i <= items@.len(),
                    out@.len() == i,
                    *j == Json::Array(*items),
                    views == text::views(items@),
                    parts == arranged_items(views),
                    arranged(j@) == gathered(parts),
                    forall|k: int|
                        0 <= k < i ==> (#[trigger] parts[k]) == Some(held(out@[k])),
                decreases items@.len() - i,
            {
                assert(decreases_to!(*j => j->Array_0));
                assert(decreases_to!(*items => items@));
                assert(decreases_to!(items@ => items@[i as int]));
                assert(parts[i as int] == arranged(items@[i as int]@));
                match value_of(&items[i]) {
                    Some(v) => {
                        out.push(v);
                    },
                    None => {
                        assert(parts[i as int] is None);
                        return None;
                    },
                }
                i += 1;
            }
            assert(parts.map_values(|p: Option<JsonView>| p->0) =~= out@.map_values(
                |v: serde_json::Value| held(v),
            ));
            make_value(Part::Array(out))
        },
        Json::Object(entries) => {
            let ghost views = entries_view(entries@);
            let ghost parts = arranged_entries(views);
            let names = sort_distinct(&entry_names(entries));
            let ghost all = text::views(names@);
            proof {
                assert(arranged(j@) == assembled(parts));
                let given = entries@.map_values(|e: (String, Json)| e.0@);
                assert(parts.map_values(|p: (Seq<char>, Option<JsonView>)| p.0) =~= given);
                order::distinct_sorted_facts(given);
                assert(all == names_of(parts));
                assert forall|i: int| 0 <= i < names@.len() implies exists|k: int|
                    0 <= k < entries@.len() && (#[trigger] entries@[k]).0@
                        == #[trigger] names@[i]@ by {
                    assert(all[i] == names@[i]@);
                    assert(all.to_set().contains(all[i]));
                    assert(given.to_set().contains(all[i]));
                    let k = choose|k: int| 0 <= k < given.len() && given[k] == all[i];
                    assert(entries@[k].0@ == names@[i]@);
                }
            }
            let mut out: Vec<(String, serde_json::Value)> = Vec::new();
            let mut i: usize = 0;
            while i < names.len()
                invariant
                    i <= names@.len(),
                    out@.len() == i,
                    *j == Json::Object(*entries),
                    views == entries_view(entries@),
                    parts == arranged_entries(views),
                    all == text::views(names@),
                    all == names_of(parts),
                    arranged(j@) == assembled(parts),
                    forall|i: int|
                        0 <= i < names@.len() ==> exists|k: int|
                            0 <= k < entries@.len() && (#[trigger] entries@[k]).0@
                                == #[trigger] names@[i]@,
                    forall|k: int|
                        0 <= k < i ==> (#[trigger] out@[k]).0@ == all[k] && first_part(
                            parts,
                            all[k],
                        ) == Some(held(out@[k].1)),
                decreases names@.len() - i,
            {
                let k = place_of(entries, names[i].as_str());
                assert(decreases_to!(*j => j->Object_0));
                assert(decreases_to!(*entries => entries@));
                assert(decreases_to!(entries@ => entries@[k as int]));
                assert(decreases_to!(entries@[k as int] => entries@[k as int].1));
                proof {
                    assert(all[i as int] == names@[i as int]@);
                    assert forall|m: int| 0 <= m < k implies (#[trigger] parts[m]).0
                        != all[i as int] by {
                        assert(entries@[m].0@ != names@[i as int]@);
                    }
                    first_part_at(parts, all[i as int], k as int);
                    assert(parts[k as int].1 == arranged(entries@[k as int].1@));
                }
                match value_of(&entries[k].1) {
                    Some(v) => {
                        out.push((names[i].clone(), v));
                    },
                    None => {
                        assert(first_part(parts, all[i as int]) is None);
                        return None;
                    },
                }
                i += 1;
            }
            proof {
                order::distinct_sorted_facts(
                    parts.map_values(|p: (Seq<char>, Option<JsonView>)| p.0),
                );
                assert(out@.map_values(|e: (String, serde_json::Value)| e.0@) =~= all);
                assert(all.map_values(|n: Seq<char>| (n, first_part(parts, n)->0))
                    =~= out@.map_values(|e: (String, serde_json::Value)| (e.0@, held(e.1)))) by {
                    assert forall|k: int| 0 <= k < all.len() implies (
                        all[k],
                        first_part(parts, all[k])->0,
                    ) == (#[trigger] out@[k].0@, held(out@[k].1)) by {
                        assert(out@[k].0@ == all[k]);
                    }
                }
                assert forall|k: int| 0 <= k < all.len() implies first_part(
                    parts,
                    #[trigger] all[k],
                ) is Some by {
                    assert(out@[k].0@ == all[k]);
                }
            }
            make_value(Part::Object(out))
        },
    }
}

/// The text that writes a value, or the complaint that there is none.
pub fn write_json(j: &Json) -> (r: Result<String, String>)
    ensures
        (match r {
            Ok(s) => Ok(s@),
            Err(e) => Err(e@),
        }) == written(j@),
{
    match value_of(j) {
        Some(v) => print_value(&v),
        None => Err("number out of range".to_owned()),
    }
}

// ---------------------------------------------------------------------------
// Looking inside
// ---------------------------------------------------------------------------

/// The first value under `key`.
pub open spec fn lookup(entries: Seq<(Seq<char>, JsonView)>, key: Seq<char>) -> Option<JsonView>
    decreases entries.len(),
{
    if entries.len() == 0 {
        None
    } else if entries[0].0 == key {
        Some(entries[0].1)
    } else {
        lookup(entries.drop_first(), key)
    }
}

/// The value under `key`, where there is an object that has one.
pub open spec fn member(j: JsonView, key: Seq<char>) -> Option<JsonView> {
    match j {
        JsonView::Object(entries) => lookup(entries, key),
        _ => None,
    }
}

/// The text that a value is.
pub open spec fn text_in(j: JsonView) -> Option<Seq<char>> {
    match j {
        JsonView::Text(s) => Some(s),
        _ => None,
    }
}

/// The text under `key`.
pub open spec fn text_at(j: JsonView, key: Seq<char>) -> Option<Seq<char>> {
    match member(j, key) {
        Some(v) => text_in(v),
        None => None,
    }
}

/// The text under `key`, or no characters at all.
pub open spec fn text_or_empty(j: JsonView, key: Seq<char>) -> Seq<char> {
    match text_at(j, key) {
        Some(s) => s,
        None => Seq::empty(),
    }
}

/// The items of an array; none for anything else.
pub open spec fn items_of(j: Option<JsonView>) -> Seq<JsonView> {
    match j {
        Some(JsonView::Array(items)) => items,
        _ => Seq::empty(),
    }
}

/// The number under `key`, where it is one that a signed word holds.
pub open spec fn number_at(j: JsonView, key: Seq<char>) -> Option<int> {
    match member(j, key) {
        Some(JsonView::Int(n)) if i64::MIN <= n <= i64::MAX => Some(n),
        _ => None,
    }
}

/// The text under `inner` in the value under `outer`.
pub open spec fn nested_text(j: JsonView, outer: Seq<char>, inner: Seq<char>) -> Option<Seq<char>> {
    match member(j, outer) {
        Some(v) => text_at(v, inner),
        None => None,
    }
}

/// The first of the items that has the text `value` under `key`.
pub open spec fn first_with(items: Seq<JsonView>, key: Seq<char>, value: Seq<char>) -> Option<
    JsonView,
>
    decreases items.len(),
{
    if items.len() == 0 {
        None
    } else if text_at(items[0], key) == Some(value) {
        Some(items[0])
    } else {
        first_with(items.drop_first(), key, value)
    }
}

/// The kind of a value, in words.
pub open spec fn kind_word(j: JsonView) -> Seq<char> {
    match j {
        JsonView::Null => "null"@,
        JsonView::Bool(_) => "boolean"@,
        JsonView::Int(_) => "number"@,
        JsonView::Decimal(_) => "number"@,
        JsonView::Text(_) => "string"@,
        JsonView::Object(_) => "object"@,
        JsonView::Array(_) => "array"@,
    }
}

impl Json {
    /// The value under `key`, where this is an object that has one.
    pub fn get(&self, key: &str) -> (r: Option<&Json>)
        ensures
            text::seen(r) == member(self@, key@),
    {
        broadcast use object_view;

        match self {
            Json::Object(entries) => {
                let ghost all = entries_view(entries@);
                assert(self@ == tree(*self));
                assert(self@ == JsonView::Object(all));
                let mut i: usize = 0;
                assert(all.skip(0) =~= all);
                while i < entries.len()
                    invariant
                        i <= entries@.len(),
                        all == entries_view(entries@),
                        self@ == JsonView::Object(all),
                        lookup(all, key@) == lookup(all.skip(i as int), key@),
                    decreases entries@.len() - i,
                {
                    assert(all.skip(i as int).drop_first() =~= all.skip(i + 1));
                    if same_text(entries[i].0.as_str(), key) {
                        return Some(&entries[i].1);
                    }
                    i += 1;
                }
                None
            },
            _ => None,
        }
    }

    /// The text that this value is.
    pub fn as_str(&self) -> (r: Option<&str>)
        ensures
            text::seen(r) == text_in(self@),
    {
        match self {
            Json::Text(s) => Some(s.as_str()),
            _ => None,
        }
    }

    /// The text under `key`.
    pub fn text_at(&self, key: &str) -> (r: Option<&str>)
        ensures
            text::seen(r) == text_at(self@, key@),
    {
        match self.get(key) {
            Some(v) => v.as_str(),
            None => None,
        }
    }

    /// The text under `key`, or no characters at all.
    pub fn text_or_empty(&self, key: &str) -> (r: &str)
        ensures
            r@ == text_or_empty(self@, key@),
    {
        match self.text_at(key) {
            Some(s) => s,
            None => {
                proof {
                    reveal_strlit("");
                    assert(""@ =~= Seq::empty());
                }
                ""
            },
        }
    }

    /// The items of an array.
    pub fn as_array(&self) -> (r: Option<&Vec<Json>>)
        ensures
            r is Some <==> self@ is Array,
            r matches Some(items) ==> self@ == JsonView::Array(text::views(items@)),
    {
        broadcast use array_view;

        match self {
            Json::Array(items) => Some(items),
            _ => None,
        }
    }

    /// The items of the array under `key`; none where there is no array.
    pub fn items_at(&self, key: &str) -> (r: &[Json])
        ensures
            text::views(r@) == items_of(member(self@, key@)),
    {
        match self.get(key) {
            Some(v) => v.items(),
            None => {
                let none: &[Json] = &[];
                assert(text::views(none@) =~= Seq::empty());
                none
            },
        }
    }

    /// The items of an array; none for anything else.
    pub fn items(&self) -> (r: &[Json])
        ensures
            text::views(r@) == items_of(Some(self@)),
    {
        match self.as_array() {
            Some(items) => items.as_slice(),
            None => {
                let none: &[Json] = &[];
                assert(text::views(none@) =~= Seq::empty());
                none
            },
        }
    }

    /// The text under `inner` in the value under `outer`.
    pub fn nested_text(&self, outer: &str, inner: &str) -> (r: Option<&str>)
        ensures
            text::seen(r) == nested_text(self@, outer@, inner@),
    {
        match self.get(outer) {
            Some(v) => v.text_at(inner),
            None => None,
        }
    }

    /// The number that this value is, where a signed word holds it.
    pub fn as_i64(&self) -> (r: Option<i64>)
        ensures
            r == (match self@ {
                JsonView::Int(n) if i64::MIN <= n <= i64::MAX => Some(n as i64),
                _ => None,
            }),
    {
        match self {
            Json::Int(n) => {
                if i64::MIN as i128 <= *n && *n <= i64::MAX as i128 {
                    Some(*n as i64)
                } else {
                    None
                }
            },
            _ => None,
        }
    }

    /// The truth value that this value is.
    pub fn as_bool(&self) -> (r: Option<bool>)
        ensures
            r == (match self@ {
                JsonView::Bool(b) => Some(b),
                _ => None,
            }),
    {
        match self {
            Json::Bool(b) => Some(*b),
            _ => None,
        }
    }

    /// The kind of this value, in words.
    pub fn kind(&self) -> (r: &'static str)
        ensures
            r@ == kind_word(self@),
    {
        match self {
            Json::Null => "null",
            Json::Bool(_) => "boolean",
            Json::Int(_) => "number",
            Json::Decimal(_) => "number",
            Json::Text(_) => "string",
            Json::Object(_) => "object",
            Json::Array(_) => "array",
        }
    }

    /// An equal value.
    pub fn copy(&self) -> (r: Json)
        ensures
            r@ == self@,
        decreases *self,
    {
        broadcast use array_view, object_view;

        match self {
            Json::Null => Json::Null,
            Json::Bool(b) => Json::Bool(*b),
            Json::Int(n) => Json::Int(*n),
            Json::Decimal(s) => Json::Decimal(s.clone()),
            Json::Text(s) => Json::Text(s.clone()),
            Json::Array(items) => {
                let mut out: Vec<Json> = Vec::new();
                let mut i: usize = 0;
                while i < items.len()
                    invariant
                        i <= items@.len(),
                        text::views(out@) == text::views(items@).take(i as int),
                        *self == Json::Array(*items),
                    decreases items@.len() - i,
                {
                    assert(decreases_to!(*self => self->Array_0));
                    assert(decreases_to!(*items => items@));
                    assert(decreases_to!(items@ => items@[i as int]));
                    let one = items[i].copy();
                    proof {
                        text::views_push(out@, one);
                    }
                    out.push(one);
                    i += 1;
                    assert(text::views(items@).take(i as int) =~= text::views(items@).take(
                        i - 1,
                    ).push(text::views(items@)[i - 1]));
                }
                assert(text::views(items@).take(i as int) =~= text::views(items@));
                Json::Array(out)
            },
            Json::Object(entries) => {
                let mut out: Vec<(String, Json)> = Vec::new();
                let mut i: usize = 0;
                let ghost all = entries_view(entries@);
                while i < entries.len()
                    invariant
                        i <= entries@.len(),
                        all == entries_view(entries@),
                        entries_view(out@) == all.take(i as int),
                        *self == Json::Object(*entries),
                    decreases entries@.len() - i,
                {
                    assert(decreases_to!(*self => self->Object_0));
                    assert(decreases_to!(*entries => entries@));
                    assert(decreases_to!(entries@ => entries@[i as int]));
                    assert(decreases_to!(entries@[i as int] => entries@[i as int].1));
                    let one = (entries[i].0.clone(), entries[i].1.copy());
                    assert(entries_view(out@.push(one)) =~= entries_view(out@).push(all[i as int]));
                    out.push(one);
                    i += 1;
                    assert(all.take(i as int) =~= all.take(i - 1).push(all[i - 1]));
                }
                assert(all.take(i as int) =~= all);
                Json::Object(out)
            },
        }
    }
}

/// The first of the items that has the text `value` under `key`.
pub fn find_with<'a>(items: &'a [Json], key: &str, value: &str) -> (r: Option<&'a Json>)
    ensures
        text::seen(r) == first_with(text::views(items@), key@, value@),
{
    let ghost all = text::views(items@);
    let mut i: usize = 0;
    assert(all.skip(0) =~= all);
    while i < items.len()
        invariant
            i <= items@.len(),
            all == text::views(items@),
            first_with(all, key@, value@) == first_with(all.skip(i as int), key@, value@),
        decreases items@.len() - i,
    {
        assert(all.skip(i as int).drop_first() =~= all.skip(i + 1));
        assert(all.skip(i as int)[0] == items@[i as int]@);
        if let Some(found) = items[i].text_at(key) {
            if same_text(found, value) {
                return Some(&items[i]);
            }
        }
        i += 1;
    }
    None
}

/// An entry of an object.
pub fn entry(key: &str, value: Json) -> (r: (String, Json))
    ensures
        r.0@ == key@,
        r.1@ == value@,
{
    (key.to_owned(), value)
}

/// A text as a value.
pub fn text_value(s: &str) -> (r: Json)
    ensures
        r@ == JsonView::Text(s@),
{
    Json::Text(s.to_owned())
}

/// An object of one entry.
pub fn object_1(a: (String, Json)) -> (r: Json)
    ensures
        r@ == JsonView::Object(seq![(a.0@, a.1@)]),
{
    broadcast use object_view;

    let list = vec![a];
    assert(entries_view(list@) =~= seq![(a.0@, a.1@)]);
    Json::Object(list)
}

/// An object of two entries.
pub fn object_2(a: (String, Json), b: (String, Json)) -> (r: Json)
    ensures
        r@ == JsonView::Object(seq![(a.0@, a.1@), (b.0@, b.1@)]),
{
    broadcast use object_view;

    let list = vec![a, b];
    assert(entries_view(list@) =~= seq![(a.0@, a.1@), (b.0@, b.1@)]);
    Json::Object(list)
}

/// An object of three entries.
pub fn object_3(a: (String, Json), b: (String, Json), c: (String, Json)) -> (r: Json)
    ensures
        r@ == JsonView::Object(seq![(a.0@, a.1@), (b.0@, b.1@), (c.0@, c.1@)]),
{
    broadcast use object_view;

    let list = vec![a, b, c];
    assert(entries_view(list@) =~= seq![(a.0@, a.1@), (b.0@, b.1@), (c.0@, c.1@)]);
    Json::Object(list)
}

impl Clone for Json {
    fn clone(&self) -> (r: Json)
        ensures
            r@ == self@,
    {
        self.copy()
    }
}

/// An object gives for a name what its first entry of that name says, and
/// nothing where it has none; anything else gives nothing.
pub proof fn members_are_found_by_name(j: JsonView, key: Seq<char>)
    ensures
        !(j is Object) ==> member(j, key) is None,
        j matches JsonView::Object(entries) ==> (member(j, key) is None <==> forall|i: int|
            0 <= i < entries.len() ==> (#[trigger] entries[i]).0 != key),
        j matches JsonView::Object(entries) ==> (member(j, key) matches Some(v) ==> exists|i: int|
            0 <= i < entries.len() && #[trigger] entries[i] == (key, v) && forall|k: int|
                0 <= k < i ==> (#[trigger] entries[k]).0 != key),
{
    if let JsonView::Object(entries) = j {
        first_entry_is_found(entries, key);
    }
}

proof fn first_entry_is_found(entries: Seq<(Seq<char>, JsonView)>, key: Seq<char>)
    ensures
        lookup(entries, key) is None <==> forall|i: int|
            0 <= i < entries.len() ==> (#[trigger] entries[i]).0 != key,
        lookup(entries, key) matches Some(v) ==> exists|i: int|
            0 <= i < entries.len() && #[trigger] entries[i] == (key, v) && forall|k: int|
                0 <= k < i ==> (#[trigger] entries[k]).0 != key,
    decreases entries.len(),
{
    if entries.len() > 0 && entries[0].0 != key {
        let rest = entries.drop_first();
        first_entry_is_found(rest, key);
        if let Some(v) = lookup(entries, key) {
            let i = choose|i: int|
                0 <= i < rest.len() && #[trigger] rest[i] == (key, v) && forall|k: int|
                    0 <= k < i ==> (#[trigger] rest[k]).0 != key;
            assert(entries[i + 1] == (key, v));
            assert forall|k: int| 0 <= k < i + 1 implies (#[trigger] entries[k]).0 != key by {
                if k > 0 {
                    assert(rest[k - 1] == entries[k]);
                }
            }
        } else {
            assert forall|i: int| 0 <= i < entries.len() implies (#[trigger] entries[i]).0
                != key by {
                if i > 0 {
                    assert(rest[i - 1] == entries[i]);
                }
            }
        }
    } else if entries.len() > 0 {
        assert(entries[0] == (key, entries[0].1));
    }
}

/// The item says this text under the key.
pub open spec fn says(item: JsonView, key: Seq<char>, value: Seq<char>) -> bool {
    member(item, key) == Some(JsonView::Text(value))
}

/// Of several items the first one that says the text counts, and none does
/// where no item says it.
pub proof fn first_item_that_says_it(items: Seq<JsonView>, key: Seq<char>, value: Seq<char>)
    ensures
        first_with(items, key, value) is None <==> forall|i: int|
            0 <= i < items.len() ==> !says(#[trigger] items[i], key, value),
        first_with(items, key, value) matches Some(v) ==> exists|i: int|
            0 <= i < items.len() && #[trigger] items[i] == v && says(v, key, value) && forall|
                k: int,
            |
                0 <= k < i ==> !says(#[trigger] items[k], key, value),
    decreases items.len(),
{
    if items.len() > 0 && !says(items[0], key, value) {
        let rest = items.drop_first();
        first_item_that_says_it(rest, key, value);
        if let Some(v) = first_with(items, key, value) {
            let i = choose|i: int|
                0 <= i < rest.len() && #[trigger] rest[i] == v && says(v, key, value) && forall|
                    k: int,
                |
                    0 <= k < i ==> !says(#[trigger] rest[k], key, value);
            assert(items[i + 1] == v);
            assert forall|k: int| 0 <= k < i + 1 implies !says(#[trigger] items[k], key, value) by {
                if k > 0 {
                    assert(rest[k - 1] == items[k]);
                }
            }
        } else {
            assert forall|i: int| 0 <= i < items.len() implies !says(
                #[trigger] items[i],
                key,
                value,
            ) by {
                if i > 0 {
                    assert(rest[i - 1] == items[i]);
                }
            }
        }
    } else if items.len() > 0 {
        assert(items[0] == items[0]);
    }
}

/// What is written of an object gives for every name what is written of the
/// value that the object gives for it, and nothing where it gives nothing.
pub proof fn writing_keeps_the_members(j: JsonView, key: Seq<char>)
    requires
        j is Object,
        arranged(j) is Some,
    ensures
        arranged(j)->0 is Object,
        member(arranged(j)->0, key) == (match member(j, key) {
            Some(v) => arranged(v),
            None => None,
        }),
        order::strictly_rising(
            arranged(j)->0->Object_0.map_values(|e: (Seq<char>, JsonView)| e.0),
        ),
{
    let entries = j->Object_0;
    let parts = arranged_entries(entries);
    let names = names_of(parts);
    let keys = parts.map_values(|p: (Seq<char>, Option<JsonView>)| p.0);
    let made = arranged(j)->0->Object_0;
    order::distinct_sorted_facts(keys);
    assert(made.map_values(|e: (Seq<char>, JsonView)| e.0) =~= names);
    first_of_parts(entries, key);
    first_entry_is_found(made, key);
    first_entry_is_found(entries, key);
    assert(names.contains(key) == keys.contains(key)) by {
        assert(names.to_set().contains(key) == names.contains(key));
        assert(keys.to_set().contains(key) == keys.contains(key));
    }
    if names.contains(key) {
        let i = choose|i: int| 0 <= i < names.len() && names[i] == key;
        assert(made[i].0 == key);
        let k = choose|k: int| 0 <= k < keys.len() && keys[k] == key;
        assert(entries[k].0 == key);
        let v = lookup(made, key)->0;
        let m = choose|m: int|
            0 <= m < made.len() && #[trigger] made[m] == (key, v) && forall|q: int|
                0 <= q < m ==> (#[trigger] made[q]).0 != key;
        assert(names[m] == key);
        assert(made[m].1 == first_part(parts, names[m])->0);
        assert(first_part(parts, names[m]) is Some);
    } else {
        assert forall|i: int| 0 <= i < made.len() implies (#[trigger] made[i]).0 != key by {
            assert(names[i] == made[i].0);
        }
        assert forall|i: int| 0 <= i < entries.len() implies (#[trigger] entries[i]).0 != key by {
            assert(keys[i] == entries[i].0);
        }
    }
}

proof fn first_of_parts(entries: Seq<(Seq<char>, JsonView)>, key: Seq<char>)
    ensures
        first_part(arranged_entries(entries), key) == (match lookup(entries, key) {
            Some(v) => arranged(v),
            None => None,
        }),
    decreases entries.len(),
{
    if entries.len() > 0 {
        let parts = arranged_entries(entries);
        assert(parts[0] == (entries[0].0, arranged(entries[0].1)));
        first_of_parts(entries.drop_first(), key);
        assert(parts.drop_first() =~= arranged_entries(entries.drop_first()));
    }
}

/// The items of an array are written one for one and in order.
pub proof fn writing_keeps_the_items(j: JsonView, k: int)
    requires
        j is Array,
        arranged(j) is Some,
    ensures
        arranged(j)->0 is Array,
        arranged(j)->0->Array_0.len() == j->Array_0.len(),
        0 <= k < j->Array_0.len() ==> Some(arranged(j)->0->Array_0[k]) == arranged(j->Array_0[k]),
{
    let parts = arranged_items(j->Array_0);
    if 0 <= k < parts.len() {
        assert(parts[k] is Some);
    }
}

} // verus!
