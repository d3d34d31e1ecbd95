//! Stable sorting, and sorted lists without repeats.

use crate::text;
use crate::text::{comes_before, same_text};
use vstd::prelude::*;

verus! {

/// How one value stands to another.
#[derive(Clone, Copy, Debug, PartialEq, Eq, Structural)]
pub enum Rank {
    Before,
    Same,
    After,
}

/// How the second value stands to the first.
pub open spec fn turned(r: Rank) -> Rank {
    match r {
        Rank::Before => Rank::After,
        Rank::Same => Rank::Same,
        Rank::After => Rank::Before,
    }
}

/// What `first` decides, or `second` where `first` leaves it open.
pub open spec fn refined(first: Rank, second: Rank) -> Rank {
    if first is Same {
        second
    } else {
        first
    }
}

/// The three ranks of a first to a second, a second to a third and a first to
/// a third value do not contradict one another.
pub open spec fn consistent(ab: Rank, bc: Rank, ac: Rank) -> bool {
    &&& ab is Same ==> ac == bc
    &&& bc is Same ==> ac == ab
    &&& ab is Before && bc is Before ==> ac is Before
    &&& ab is After && bc is After ==> ac is After
}

pub proof fn refined_consistent(
    ab: Rank,
    bc: Rank,
    ac: Rank,
    ab2: Rank,
    bc2: Rank,
    ac2: Rank,
)
    requires
        consistent(ab, bc, ac),
        consistent(ab2, bc2, ac2),
    ensures
        consistent(refined(ab, ab2), refined(bc, bc2), refined(ac, ac2)),
{
}

impl Rank {
    /// What this rank decides, or `next` where it leaves it open.
    pub fn refine(self, next: Rank) -> (r: Rank)
        ensures
            r == refined(self, next),
    {
        match self {
            Rank::Same => next,
            _ => self,
        }
    }
}

pub open spec fn text_rank(a: Seq<char>, b: Seq<char>) -> Rank {
    if text::before(a, b) {
        Rank::Before
    } else if text::before(b, a) {
        Rank::After
    } else {
        Rank::Same
    }
}

/// Texts rank the same only where they are the same text.
pub proof fn text_rank_facts(a: Seq<char>, b: Seq<char>, c: Seq<char>)
    ensures
        text_rank(a, b) is Same <==> a == b,
        text_rank(b, a) == turned(text_rank(a, b)),
        consistent(text_rank(a, b), text_rank(b, c), text_rank(a, c)),
{
    text::order_total(a, b);
    text::order_total(b, c);
    text::order_total(a, c);
    if text::before(a, b) && text::before(b, c) {
        text::before_transitive(a, b, c);
    }
    if text::before(c, b) && text::before(b, a) {
        text::before_transitive(c, b, a);
    }
}

pub fn rank_texts(a: &str, b: &str) -> (r: Rank)
    ensures
        r == text_rank(a@, b@),
{
    if comes_before(a, b) {
        Rank::Before
    } else if comes_before(b, a) {
        Rank::After
    } else {
        Rank::Same
    }
}

/// Absent texts rank before present ones.
pub open spec fn optional_rank(a: Option<Seq<char>>, b: Option<Seq<char>>) -> Rank {
    match (a, b) {
        (None, None) => Rank::Same,
        (None, Some(_)) => Rank::Before,
        (Some(_), None) => Rank::After,
        (Some(x), Some(y)) => text_rank(x, y),
    }
}

pub proof fn optional_rank_facts(
    a: Option<Seq<char>>,
    b: Option<Seq<char>>,
    c: Option<Seq<char>>,
)
    ensures
        optional_rank(a, b) is Same <==> a == b,
        optional_rank(b, a) == turned(optional_rank(a, b)),
        consistent(optional_rank(a, b), optional_rank(b, c), optional_rank(a, c)),
{
    if a is Some && b is Some {
        text_rank_facts(a->0, b->0, if c is Some {
            c->0
        } else {
            Seq::empty()
        });
    }
}

pub fn rank_optionals(a: &Option<String>, b: &Option<String>) -> (r: Rank)
    ensures
        r == optional_rank(text::seen(*a), text::seen(*b)),
{
    match (a, b) {
        (None, None) => Rank::Same,
        (None, Some(_)) => Rank::Before,
        (Some(_), None) => Rank::After,
        (Some(x), Some(y)) => rank_texts(x.as_str(), y.as_str()),
    }
}

pub open spec fn number_rank(a: int, b: int) -> Rank {
    if a < b {
        Rank::Before
    } else if a == b {
        Rank::Same
    } else {
        Rank::After
    }
}

pub fn rank_numbers(a: i64, b: i64) -> (r: Rank)
    ensures
        r == number_rank(a as int, b as int),
{
    if a < b {
        Rank::Before
    } else if a == b {
        Rank::Same
    } else {
        Rank::After
    }
}

/// A type whose values can be put in order by their views.
pub trait Ranked: View + Sized {
    /// `a` stands no later than `b`.
    spec fn at_most(a: Self::V, b: Self::V) -> bool;

    proof fn at_most_total(a: Self::V, b: Self::V)
        ensures
            Self::at_most(a, b) || Self::at_most(b, a),
    ;

    proof fn at_most_transitive(a: Self::V, b: Self::V, c: Self::V)
        requires
            Self::at_most(a, b),
            Self::at_most(b, c),
        ensures
            Self::at_most(a, c),
    ;

    fn is_at_most(&self, other: &Self) -> (r: bool)
        ensures
            r == Self::at_most(self@, other@),
    ;
}

impl Ranked for String {
    open spec fn at_most(a: Seq<char>, b: Seq<char>) -> bool {
        text::at_most(a, b)
    }

    proof fn at_most_total(a: Seq<char>, b: Seq<char>) {
        text::order_total(a, b);
    }

    proof fn at_most_transitive(a: Seq<char>, b: Seq<char>, c: Seq<char>) {
        text::at_most_transitive(a, b, c);
    }

    fn is_at_most(&self, other: &String) -> (r: bool) {
        !comes_before(other.as_str(), self.as_str())
    }
}

/// `s` with `x` put in behind everything that stands no later than it,
/// looking from the end.
pub open spec fn inserted<V>(s: Seq<V>, x: V, le: spec_fn(V, V) -> bool) -> Seq<V>
    decreases s.len(),
{
    if s.len() == 0 || le(s.last(), x) {
        s.push(x)
    } else {
        inserted(s.drop_last(), x, le).push(s.last())
    }
}

/// The stable sort of `s`: items that tie keep the order they had.
pub open spec fn stable_sorted<V>(s: Seq<V>, le: spec_fn(V, V) -> bool) -> Seq<V>
    decreases s.len(),
{
    if s.len() == 0 {
        s
    } else {
        inserted(stable_sorted(s.drop_last(), le), s.last(), le)
    }
}

/// No item stands later than one behind it.
pub open spec fn in_order<V>(s: Seq<V>, le: spec_fn(V, V) -> bool) -> bool {
    forall|i: int, j: int| 0 <= i < j < s.len() ==> le(#[trigger] s[i], #[trigger] s[j])
}

/// `le` orders everything, ties allowed.
pub open spec fn ranks_all<V>(le: spec_fn(V, V) -> bool) -> bool {
    &&& forall|a: V, b: V| #[trigger] le(a, b) || le(b, a)
    &&& forall|a: V, b: V, c: V| #[trigger] le(a, b) && #[trigger] le(b, c) ==> le(a, c)
}

pub proof fn inserted_keeps_items<V>(s: Seq<V>, x: V, le: spec_fn(V, V) -> bool)
    ensures
        inserted(s, x, le).to_multiset() == s.to_multiset().insert(x),
        inserted(s, x, le).len() == s.len() + 1,
    decreases s.len(),
{
    broadcast use vstd::seq_lib::group_to_multiset_ensures;

    if s.len() == 0 || le(s.last(), x) {
    } else {
        inserted_keeps_items(s.drop_last(), x, le);
        assert(s.drop_last().push(s.last()) =~= s);
        assert(inserted(s, x, le).to_multiset() =~= s.to_multiset().insert(x));
    }
}

/// The stable sort holds the items it was given, each as often.
pub proof fn stable_sorted_keeps_items<V>(s: Seq<V>, le: spec_fn(V, V) -> bool)
    ensures
        stable_sorted(s, le).to_multiset() == s.to_multiset(),
        stable_sorted(s, le).len() == s.len(),
    decreases s.len(),
{
    broadcast use vstd::seq_lib::group_to_multiset_ensures;

    if s.len() > 0 {
        stable_sorted_keeps_items(s.drop_last(), le);
        inserted_keeps_items(stable_sorted(s.drop_last(), le), s.last(), le);
        assert(s.drop_last().push(s.last()) =~= s);
    }
}

proof fn inserted_in_order<V>(s: Seq<V>, x: V, le: spec_fn(V, V) -> bool)
    requires
        in_order(s, le),
        ranks_all(le),
    ensures
        in_order(inserted(s, x, le), le),
        forall|y: V|
            (forall|i: int| 0 <= i < s.len() ==> le(#[trigger] s[i], y)) && le(x, y)
                ==> #[trigger] bounds(inserted(s, x, le), y, le),
    decreases s.len(),
{
    if s.len() == 0 || le(s.last(), x) {
        let r = s.push(x);
        assert forall|i: int, j: int| 0 <= i < j < r.len() implies le(
            #[trigger] r[i],
            #[trigger] r[j],
        ) by {
            if j == s.len() {
                if i < s.len() - 1 {
                    assert(le(s[i], s.last()));
                }
            } else {
                assert(le(s[i], s[j]));
            }
        }
    } else {
        let front = s.drop_last();
        assert forall|i: int, j: int| 0 <= i < j < front.len() implies le(
            #[trigger] front[i],
            #[trigger] front[j],
        ) by {
            assert(le(s[i], s[j]));
        }
        inserted_in_order(front, x, le);
        inserted_keeps_items(front, x, le);
        let r = inserted(front, x, le);
        assert(le(x, s.last()));
        assert forall|i: int| 0 <= i < front.len() implies le(#[trigger] front[i], s.last()) by {
            assert(le(s[i], s[s.len() - 1]));
        }
        assert(bounds(r, s.last(), le));
        assert forall|y: V|
            (forall|i: int| 0 <= i < s.len() ==> le(#[trigger] s[i], y)) && le(x, y) implies (
        #[trigger] bounds(inserted(s, x, le), y, le)) by {
            assert forall|i: int| 0 <= i < front.len() implies le(#[trigger] front[i], y) by {
                assert(le(s[i], y));
            }
            assert(bounds(r, y, le));
            assert(le(s[s.len() - 1], y));
        }
    }
}

/// Every item of `s` stands no later than `y`.
pub open spec fn bounds<V>(s: Seq<V>, y: V, le: spec_fn(V, V) -> bool) -> bool {
    forall|i: int| 0 <= i < s.len() ==> le(#[trigger] s[i], y)
}

/// The stable sort is in order.
pub proof fn stable_sorted_in_order<V>(s: Seq<V>, le: spec_fn(V, V) -> bool)
    requires
        ranks_all(le),
    ensures
        in_order(stable_sorted(s, le), le),
    decreases s.len(),
{
    if s.len() > 0 {
        stable_sorted_in_order(s.drop_last(), le);
        inserted_in_order(stable_sorted(s.drop_last(), le), s.last(), le);
    }
}

/// Two lists that hold the same items sort alike, where only equal items tie.
pub proof fn stable_sorted_of_same_items<V>(s: Seq<V>, t: Seq<V>, le: spec_fn(V, V) -> bool)
    requires
        ranks_all(le),
        s.to_multiset() == t.to_multiset(),
        forall|i: int, j: int|
            0 <= i < s.len() && 0 <= j < s.len() && le(#[trigger] s[i], #[trigger] s[j]) && le(
                s[j],
                s[i],
            ) ==> s[i] == s[j],
    ensures
        stable_sorted(s, le) == stable_sorted(t, le),
{
    stable_sorted_in_order(s, le);
    stable_sorted_in_order(t, le);
    stable_sorted_keeps_items(s, le);
    stable_sorted_keeps_items(t, le);
    let a = stable_sorted(s, le);
    assert forall|i: int| 0 <= i < a.len() implies s.contains(#[trigger] a[i]) by {
        broadcast use vstd::seq_lib::group_to_multiset_ensures;

        assert(a.contains(a[i]));
        assert(a.to_multiset().contains(a[i]));
    }
    ordered_unique(a, stable_sorted(t, le), s, le);
}

proof fn ordered_unique<V>(a: Seq<V>, b: Seq<V>, pool: Seq<V>, le: spec_fn(V, V) -> bool)
    requires
        in_order(a, le),
        in_order(b, le),
        a.to_multiset() == b.to_multiset(),
        forall|i: int| 0 <= i < a.len() ==> pool.contains(#[trigger] a[i]),
        forall|i: int, j: int|
            0 <= i < pool.len() && 0 <= j < pool.len() && le(
                #[trigger] pool[i],
                #[trigger] pool[j],
            ) && le(pool[j], pool[i]) ==> pool[i] == pool[j],
    ensures
        a == b,
    decreases a.len(),
{
    broadcast use vstd::seq_lib::group_to_multiset_ensures;

    assert(a.to_multiset().len() == a.len());
    assert(b.to_multiset().len() == b.len());
    if a.len() == 0 {
        assert(a =~= b);
    } else {
        let x = a.last();
        let y = b.last();
        assert(a.contains(x)) by {
            assert(a[a.len() - 1] == x);
        }
        assert(b.contains(y)) by {
            assert(b[b.len() - 1] == y);
        }
        assert(a.to_multiset().contains(x));
        assert(b.to_multiset().contains(y));
        assert(b.contains(x));
        assert(a.contains(y));
        let i = choose|i: int| 0 <= i < b.len() && b[i] == x;
        let j = choose|j: int| 0 <= j < a.len() && a[j] == y;
        if x != y {
            assert(le(b[i], b[b.len() - 1]));
            assert(le(a[j], a[a.len() - 1]));
            assert(le(x, y) && le(y, x));
            assert(pool.contains(a[a.len() - 1]));
            assert(pool.contains(a[j]));
            let p = choose|p: int| 0 <= p < pool.len() && pool[p] == x;
            let q = choose|q: int| 0 <= q < pool.len() && pool[q] == y;
            assert(pool[p] == pool[q]);
        }
        let a2 = a.drop_last();
        let b2 = b.drop_last();
        assert(a2.push(x) =~= a);
        assert(b2.push(x) =~= b);
        assert(a2.to_multiset() =~= a.to_multiset().remove(x));
        assert(b2.to_multiset() =~= b.to_multiset().remove(x));
        assert forall|i: int| 0 <= i < a2.len() implies pool.contains(#[trigger] a2[i]) by {
            assert(pool.contains(a[i]));
        }
        assert forall|i: int, j: int| 0 <= i < j < a2.len() implies le(
            #[trigger] a2[i],
            #[trigger] a2[j],
        ) by {
            assert(le(a[i], a[j]));
        }
        assert forall|i: int, j: int| 0 <= i < j < b2.len() implies le(
            #[trigger] b2[i],
            #[trigger] b2[j],
        ) by {
            assert(le(b[i], b[j]));
        }
        ordered_unique(a2, b2, pool, le);
    }
}

/// Puts references to the items of a list in order, keeping ties as they were.
pub fn stable_sort<T: Ranked>(items: &Vec<T>) -> (out: Vec<&T>)
    ensures
        text::views(out@) == stable_sorted(text::views(items@), |a: T::V, b: T::V| T::at_most(a, b)),
{
    let ghost le = |a: T::V, b: T::V| T::at_most(a, b);
    let mut out: Vec<&T> = Vec::new();
    let mut i: usize = 0;
    assert(text::views(out@) =~= text::views(items@).take(0));
    assert(text::views(items@).take(0) =~= stable_sorted(text::views(items@).take(0), le));
    while i < items.len()
        invariant
            i <= items@.len(),
            le == (|a: T::V, b: T::V| T::at_most(a, b)),
            text::views(out@) == stable_sorted(text::views(items@).take(i as int), le),
        decreases items@.len() - i,
    {
        let ghost sorted = text::views(out@);
        let ghost x = items@[i as int]@;
        let mut at: usize = out.len();
        assert(sorted.skip(at as int) =~= Seq::empty());
        assert(sorted.take(at as int) =~= sorted);
        assert(inserted(sorted, x, le) =~= inserted(sorted.take(at as int), x, le) + sorted.skip(
            at as int,
        ));
        while at > 0 && !out[at - 1].is_at_most(&items[i])
            invariant
                at <= out@.len(),
                i < items@.len(),
                x == items@[i as int]@,
                sorted == text::views(out@),
                le == (|a: T::V, b: T::V| T::at_most(a, b)),
                inserted(sorted, x, le) == inserted(sorted.take(at as int), x, le) + sorted.skip(
                    at as int,
                ),
            decreases at,
        {
            assert(sorted.take(at as int).drop_last() =~= sorted.take(at - 1));
            assert(sorted.take(at as int).last() == out@[at - 1]@);
            let ghost front = inserted(sorted.take(at - 1), x, le);
            assert(front.push(sorted[at - 1]) + sorted.skip(at as int) =~= front + sorted.skip(
                at - 1,
            ));
            at -= 1;
        }
        proof {
            if at > 0 {
                assert(sorted.take(at as int).last() == out@[at - 1]@);
            }
            assert(inserted(sorted.take(at as int), x, le) == sorted.take(at as int).push(x));
        }
        out.insert(at, &items[i]);
        assert(text::views(out@) =~= sorted.take(at as int).push(x) + sorted.skip(at as int));
        i += 1;
        assert(text::views(items@).take(i as int).drop_last() =~= text::views(items@).take(i - 1));
    }
    assert(text::views(items@).take(i as int) =~= text::views(items@));
    out
}

// ---------------------------------------------------------------------------
// Sorted texts without repeats
// ---------------------------------------------------------------------------

/// Each text comes before the next.
pub open spec fn strictly_rising(s: Seq<Seq<char>>) -> bool {
    forall|i: int, j: int| 0 <= i < j < s.len() ==> text::before(#[trigger] s[i], #[trigger] s[j])
}

/// The rising list `s` with `x` in its place, or `s` itself where it holds
/// `x` already.
pub open spec fn with_text(s: Seq<Seq<char>>, x: Seq<char>) -> Seq<Seq<char>>
    decreases s.len(),
{
    if s.len() == 0 || text::before(s.last(), x) {
        s.push(x)
    } else if s.last() == x {
        s
    } else {
        with_text(s.drop_last(), x).push(s.last())
    }
}

/// The texts of `s` in rising order, each once.
pub open spec fn distinct_sorted(s: Seq<Seq<char>>) -> Seq<Seq<char>>
    decreases s.len(),
{
    if s.len() == 0 {
        s
    } else {
        with_text(distinct_sorted(s.drop_last()), s.last())
    }
}

proof fn with_text_facts(s: Seq<Seq<char>>, x: Seq<char>)
    requires
        strictly_rising(s),
    ensures
        strictly_rising(with_text(s, x)),
        with_text(s, x).to_set() == s.to_set().insert(x),
        forall|y: Seq<char>|
            (forall|i: int| 0 <= i < s.len() ==> text::before(#[trigger] s[i], y)) && text::before(
                x,
                y,
            ) ==> #[trigger] all_before(with_text(s, x), y),
    decreases s.len(),
{
    if s.len() == 0 || text::before(s.last(), x) {
        let r = s.push(x);
        assert forall|i: int, j: int| 0 <= i < j < r.len() implies text::before(
            #[trigger] r[i],
            #[trigger] r[j],
        ) by {
            if j == s.len() {
                if i < s.len() - 1 {
                    assert(text::before(s[i], s[s.len() - 1]));
                    text::before_transitive(s[i], s.last(), x);
                }
            } else {
                assert(text::before(s[i], s[j]));
            }
        }
        assert(r.to_set() =~= s.to_set().insert(x)) by {
            assert forall|t: Seq<char>| r.to_set().contains(t) == s.to_set().insert(x).contains(
                t,
            ) by {
                if s.contains(t) {
                    let k = choose|k: int| 0 <= k < s.len() && s[k] == t;
                    assert(r[k] == t);
                }
                assert(r[s.len() as int] == x);
            }
        }
    } else if s.last() == x {
        assert(s.to_set() =~= s.to_set().insert(x)) by {
            assert(s[s.len() - 1] == x);
            assert(s.contains(x));
        }
    } else {
        let front = s.drop_last();
        let top = s.last();
        assert forall|i: int, j: int| 0 <= i < j < front.len() implies text::before(
            #[trigger] front[i],
            #[trigger] front[j],
        ) by {
            assert(text::before(s[i], s[j]));
        }
        with_text_facts(front, x);
        let r = with_text(front, x);
        text::order_total(top, x);
        assert forall|i: int| 0 <= i < front.len() implies text::before(#[trigger] front[i], top) by {
            assert(text::before(s[i], s[s.len() - 1]));
        }
        assert(all_before(r, top));
        assert forall|y: Seq<char>|
            (forall|i: int| 0 <= i < s.len() ==> text::before(#[trigger] s[i], y)) && text::before(
                x,
                y,
            ) implies #[trigger] all_before(with_text(s, x), y) by {
            assert forall|i: int| 0 <= i < front.len() implies text::before(
                #[trigger] front[i],
                y,
            ) by {
                assert(text::before(s[i], y));
            }
            assert(all_before(r, y));
            assert(text::before(s[s.len() - 1], y));
        }
        assert(r.push(top).to_set() =~= s.to_set().insert(x)) by {
            assert forall|t: Seq<char>|
                r.push(top).to_set().contains(t) == s.to_set().insert(x).contains(t) by {
                if r.push(top).contains(t) {
                    let k = choose|k: int| 0 <= k < r.push(top).len() && r.push(top)[k] == t;
                    if k < r.len() {
                        assert(r[k] == t);
                        assert(r.to_set().contains(t));
                        if front.contains(t) {
                            let m = choose|m: int| 0 <= m < front.len() && front[m] == t;
                            assert(s[m] == t);
                        }
                    } else {
                        assert(s[s.len() - 1] == t);
                    }
                }
                if s.contains(t) || t == x {
                    if t == top {
                        assert(r.push(top)[r.len() as int] == t);
                    } else if t == x {
                        assert(r.to_set().contains(x));
                        let k = choose|k: int| 0 <= k < r.len() && r[k] == x;
                        assert(r.push(top)[k] == x);
                    } else {
                        let m = choose|m: int| 0 <= m < s.len() && s[m] == t;
                        assert(front[m] == t);
                        assert(front.to_set().contains(t));
                        assert(r.to_set().contains(t));
                        let k = choose|k: int| 0 <= k < r.len() && r[k] == t;
                        assert(r.push(top)[k] == t);
                    }
                }
            }
        }
    }
}

/// Every text of `s` comes before `y`.
pub open spec fn all_before(s: Seq<Seq<char>>, y: Seq<char>) -> bool {
    forall|i: int| 0 <= i < s.len() ==> text::before(#[trigger] s[i], y)
}

/// The sorted list of distinct texts rises strictly and holds exactly the
/// texts it was made from.
pub proof fn distinct_sorted_facts(s: Seq<Seq<char>>)
    ensures
        strictly_rising(distinct_sorted(s)),
        distinct_sorted(s).to_set() == s.to_set(),
    decreases s.len(),
{
    if s.len() > 0 {
        distinct_sorted_facts(s.drop_last());
        with_text_facts(distinct_sorted(s.drop_last()), s.last());
        assert(s.drop_last().to_set().insert(s.last()) =~= s.to_set()) by {
            assert forall|t: Seq<char>|
                s.drop_last().to_set().insert(s.last()).contains(t) == s.to_set().contains(t) by {
                if s.contains(t) {
                    let k = choose|k: int| 0 <= k < s.len() && s[k] == t;
                    if k < s.len() - 1 {
                        assert(s.drop_last()[k] == t);
                    }
                }
                if s.drop_last().contains(t) {
                    let k = choose|k: int| 0 <= k < s.drop_last().len() && s.drop_last()[k] == t;
                    assert(s[k] == t);
                }
                assert(s[s.len() - 1] == s.last());
            }
        }
    }
}

/// A strictly rising list is determined by the texts it holds.
pub proof fn rising_list_is_unique(a: Seq<Seq<char>>, b: Seq<Seq<char>>)
    requires
        strictly_rising(a),
        strictly_rising(b),
        a.to_set() == b.to_set(),
    ensures
        a == b,
    decreases a.len(),
{
    if a.len() == 0 {
        if b.len() > 0 {
            assert(b.to_set().contains(b[0]));
            assert(a.to_set().contains(b[0]));
        }
        assert(a =~= b);
    } else {
        assert(a.to_set().contains(a[a.len() - 1]));
        assert(b.to_set().contains(a[a.len() - 1]));
        let i = choose|i: int| 0 <= i < b.len() && b[i] == a.last();
        assert(b.to_set().contains(b[b.len() - 1]));
        assert(a.to_set().contains(b[b.len() - 1]));
        let j = choose|j: int| 0 <= j < a.len() && a[j] == b.last();
        text::order_total(a.last(), b.last());
        if a.last() != b.last() {
            assert(text::before(b[i], b[b.len() - 1]));
            assert(text::before(a[j], a[a.len() - 1]));
        }
        let a2 = a.drop_last();
        let b2 = b.drop_last();
        let top = a.last();
        assert forall|i: int, j: int| 0 <= i < j < a2.len() implies text::before(
            #[trigger] a2[i],
            #[trigger] a2[j],
        ) by {
            assert(text::before(a[i], a[j]));
        }
        assert forall|i: int, j: int| 0 <= i < j < b2.len() implies text::before(
            #[trigger] b2[i],
            #[trigger] b2[j],
        ) by {
            assert(text::before(b[i], b[j]));
        }
        assert(a2.to_set() =~= b2.to_set()) by {
            assert forall|t: Seq<char>| a2.to_set().contains(t) == b2.to_set().contains(t) by {
                if a2.contains(t) {
                    let k = choose|k: int| 0 <= k < a2.len() && a2[k] == t;
                    assert(a[k] == t);
                    assert(text::before(a[k], a[a.len() - 1]));
                    text::order_total(t, top);
                    assert(a.to_set().contains(t));
                    assert(b.to_set().contains(t));
                    let m = choose|m: int| 0 <= m < b.len() && b[m] == t;
                    assert(b2[m] == t);
                }
                if b2.contains(t) {
                    let k = choose|k: int| 0 <= k < b2.len() && b2[k] == t;
                    assert(b[k] == t);
                    assert(text::before(b[k], b[b.len() - 1]));
                    text::order_total(t, top);
                    assert(b.to_set().contains(t));
                    assert(a.to_set().contains(t));
                    let m = choose|m: int| 0 <= m < a.len() && a[m] == t;
                    assert(a2[m] == t);
                }
            }
        }
        rising_list_is_unique(a2, b2);
        assert(a2.push(top) =~= a);
        assert(b2.push(top) =~= b);
    }
}

/// Puts `x` into a rising list, unless it is there already.
pub fn add_text(list: &mut Vec<String>, x: &str)
    ensures
        text::views(final(list)@) == with_text(text::views(old(list)@), x@),
{
    let ghost start = text::views(list@);
    let mut at: usize = list.len();
    assert(start.take(at as int) =~= start);
    assert(start.skip(at as int) =~= Seq::empty());
    assert(with_text(start, x@) =~= with_text(start.take(at as int), x@) + start.skip(at as int));
    while at > 0 && !comes_before(list[at - 1].as_str(), x)
        invariant
            at <= list@.len(),
            start == text::views(list@),
            with_text(start, x@) == with_text(start.take(at as int), x@) + start.skip(at as int),
        decreases at,
    {
        assert(start.take(at as int).last() == list@[at - 1]@);
        if same_text(list[at - 1].as_str(), x) {
            assert(start.take(at as int) + start.skip(at as int) =~= start);
            return;
        }
        assert(start.take(at as int).drop_last() =~= start.take(at - 1));
        assert(with_text(start.take(at - 1), x@).push(start[at - 1]) + start.skip(at as int)
            =~= with_text(start.take(at - 1), x@) + start.skip(at - 1));
        at -= 1;
    }
    proof {
        if at > 0 {
            assert(start.take(at as int).last() == list@[at - 1]@);
        }
    }
    list.insert(at, x.to_owned());
    assert(text::views(list@) =~= start.take(at as int).push(x@) + start.skip(at as int));
}

/// The texts of a list in rising order, each once.
pub fn sort_distinct(items: &Vec<String>) -> (out: Vec<String>)
    ensures
        text::views(out@) == distinct_sorted(text::views(items@)),
{
    let mut out: Vec<String> = Vec::new();
    let mut i: usize = 0;
    assert(text::views(out@) =~= text::views(items@).take(0));
    while i < items.len()
        invariant
            i <= items@.len(),
            text::views(out@) == distinct_sorted(text::views(items@).take(i as int)),
        decreases items@.len() - i,
    {
        assert(text::views(items@).take(i + 1).drop_last() =~= text::views(items@).take(i as int));
        add_text(&mut out, items[i].as_str());
        i += 1;
    }
    assert(text::views(items@).take(i as int) =~= text::views(items@));
    out
}

/// A list that is in order already stays as it is: items that tie are never
/// exchanged.
pub proof fn ordered_list_stays<V>(s: Seq<V>, le: spec_fn(V, V) -> bool)
    requires
        in_order(s, le),
    ensures
        stable_sorted(s, le) == s,
    decreases s.len(),
{
    if s.len() > 0 {
        let rest = s.drop_last();
        assert forall|i: int, j: int| 0 <= i < j < rest.len() implies le(
            #[trigger] rest[i],
            #[trigger] rest[j],
        ) by {
            assert(le(s[i], s[j]));
        }
        ordered_list_stays(rest, le);
        if rest.len() > 0 {
            assert(rest.last() == s[s.len() - 2]);
            assert(le(s[s.len() - 2], s[s.len() - 1]));
        }
        assert(rest.push(s.last()) =~= s);
    }
}

} // verus!
