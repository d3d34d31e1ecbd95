//! Text as sequences of characters: the few operations on strings that the
//! rest of the crate is stated in.

use vstd::prelude::*;
use vstd::string::*;

verus! {

broadcast use group_string_axioms;

/// `String::push`: appends `c` at the end and changes nothing before it.
pub assume_specification[ String::push ](s: &mut String, c: char)
    ensures
        final(s)@ == old(s)@.push(c),
;

/// Whether `c` has the Unicode property `White_Space`, as
/// `char::is_whitespace` reports it.
pub uninterp spec fn is_white_space(c: char) -> bool;

/// `char::is_whitespace`: the Unicode property `White_Space`. Among the ASCII
/// characters these are the space and the five from tab to carriage return.
/// Which characters beyond ASCII have the property is not stated.
pub assume_specification[ char::is_whitespace ](c: char) -> (r: bool)
    ensures
        r == is_white_space(c),
        (c as u32) < 128 ==> r == (c == ' ' || ('\t' <= c && c <= '\r')),
;

/// What `str::to_lowercase` makes of a text.
pub uninterp spec fn lowercase(s: Seq<char>) -> Seq<char>;

/// `str::to_lowercase`: the Unicode lowercase of the text. On ASCII text it
/// maps `A` to `Z` onto `a` to `z` and leaves every other character alone;
/// what it does beyond ASCII is not stated.
pub assume_specification[ str::to_lowercase ](s: &str) -> (r: String)
    ensures
        r@ == lowercase(s@),
        all_ascii(s@) ==> r@ == ascii_lowered(s@),
;

/// What `str::to_uppercase` makes of a text.
pub uninterp spec fn uppercase(s: Seq<char>) -> Seq<char>;

/// `str::to_uppercase`: the Unicode uppercase of the text. On ASCII text it
/// maps `a` to `z` onto `A` to `Z` and leaves every other character alone;
/// what it does beyond ASCII is not stated.
pub assume_specification[ str::to_uppercase ](s: &str) -> (r: String)
    ensures
        r@ == uppercase(s@),
        all_ascii(s@) ==> r@ == ascii_raised(s@),
;

// ---------------------------------------------------------------------------
// Characters
// ---------------------------------------------------------------------------

/// Every character is ASCII.
pub open spec fn all_ascii(s: Seq<char>) -> bool {
    forall|i: int| 0 <= i < s.len() ==> (#[trigger] s[i] as u32) < 128
}

pub open spec fn is_digit(c: char) -> bool {
    '0' <= c && c <= '9'
}

/// The control codes: the general category `Cc`.
pub open spec fn is_control(c: char) -> bool {
    (c as u32) < 0x20 || (0x7f <= (c as u32) && (c as u32) <= 0x9f)
}

/// `A` to `Z` onto `a` to `z`, every other character onto itself.
pub open spec fn lowered(c: char) -> char {
    if 'A' <= c && c <= 'Z' {
        ((c as u32) + 32) as char
    } else {
        c
    }
}

/// `a` to `z` onto `A` to `Z`, every other character onto itself.
pub open spec fn raised(c: char) -> char {
    if 'a' <= c && c <= 'z' {
        ((c as u32) - 32) as char
    } else {
        c
    }
}

pub open spec fn ascii_lowered(s: Seq<char>) -> Seq<char> {
    s.map_values(|c: char| lowered(c))
}

pub open spec fn ascii_raised(s: Seq<char>) -> Seq<char> {
    s.map_values(|c: char| raised(c))
}

fn lower_char(c: char) -> (r: char)
    ensures
        r == lowered(c),
{
    if 'A' <= c && c <= 'Z' {
        let b: u8 = c as u8;
        let low: u8 = b + 32;
        low as char
    } else {
        c
    }
}

/// A text in small letters.
pub open spec fn lower(s: Seq<char>) -> Seq<char> {
    if all_ascii(s) {
        ascii_lowered(s)
    } else {
        lowercase(s)
    }
}

/// A text in capitals.
pub open spec fn upper(s: Seq<char>) -> Seq<char> {
    if all_ascii(s) {
        ascii_raised(s)
    } else {
        uppercase(s)
    }
}

/// `s` in small letters.
pub fn to_lower(s: &str) -> (r: String)
    ensures
        r@ == lower(s@),
{
    s.to_lowercase()
}

/// `s` in capitals.
pub fn to_upper(s: &str) -> (r: String)
    ensures
        r@ == upper(s@),
{
    s.to_uppercase()
}

/// The characters of `s`, in order.
pub fn chars_of(s: &str) -> (out: Vec<char>)
    ensures
        out@ == s@,
{
    let mut out: Vec<char> = Vec::new();
    for c in it: s.chars()
        invariant
            out@ == it.seq().take(it.index()),
            it.seq() == s@,
    {
        out.push(c);
        assert(it.seq().take(it.index() + 1) =~= it.seq().take(it.index()).push(c));
    }
    assert(out@ =~= s@);
    out
}

/// The text that holds exactly `chars`.
pub fn text_of(chars: &[char]) -> (out: String)
    ensures
        out@ == chars@,
{
    let mut out = String::new();
    let mut i: usize = 0;
    while i < chars.len()
        invariant
            i <= chars@.len(),
            out@ == chars@.take(i as int),
        decreases chars@.len() - i,
    {
        out.push(chars[i]);
        i += 1;
        assert(chars@.take(i as int) =~= chars@.take(i - 1).push(chars@[i - 1]));
    }
    assert(out@ =~= chars@);
    out
}

/// `s` with the ASCII capitals made small.
pub fn ascii_lowercase(s: &str) -> (out: String)
    ensures
        out@ == ascii_lowered(s@),
{
    let chars = chars_of(s);
    let mut out = String::new();
    let mut i: usize = 0;
    while i < chars.len()
        invariant
            i <= chars@.len(),
            chars@ == s@,
            out@ == ascii_lowered(s@).take(i as int),
        decreases chars@.len() - i,
    {
        out.push(lower_char(chars[i]));
        i += 1;
        assert(ascii_lowered(s@).take(i as int) =~= ascii_lowered(s@).take(i - 1).push(
            lowered(s@[i - 1]),
        ));
    }
    assert(out@ =~= ascii_lowered(s@));
    out
}

// ---------------------------------------------------------------------------
// Comparing
// ---------------------------------------------------------------------------

/// `==` on string slices: whether they hold the same characters.
pub assume_specification[ <str as PartialEq>::eq ](a: &str, b: &str) -> (r: bool)
    ensures
        r == (a@ == b@),
;

/// Whether two texts hold the same characters.
pub fn same_text(a: &str, b: &str) -> (r: bool)
    ensures
        r == (a@ == b@),
{
    *a == *b
}

/// Whether two optional texts agree.
pub fn same_optional(a: &Option<String>, b: &Option<String>) -> (r: bool)
    ensures
        r == (seen(*a) == seen(*b)),
{
    match (a, b) {
        (Some(x), Some(y)) => *x == *y,
        (None, None) => true,
        _ => false,
    }
}

/// An equal optional text.
pub fn copy_optional(a: &Option<String>) -> (r: Option<String>)
    ensures
        seen(r) == seen(*a),
{
    match a {
        Some(s) => Some(s.clone()),
        None => None,
    }
}

/// The view of what an option holds.
pub open spec fn seen<T: View>(a: Option<T>) -> Option<T::V> {
    match a {
        Some(x) => Some(x@),
        None => None,
    }
}

/// `a` comes before `b` in the dictionary order of their code points, which
/// is also the order of their UTF-8 bytes.
pub open spec fn before(a: Seq<char>, b: Seq<char>) -> bool
    decreases a.len(),
{
    if b.len() == 0 {
        false
    } else if a.len() == 0 {
        true
    } else if a[0] != b[0] {
        a[0] < b[0]
    } else {
        before(a.drop_first(), b.drop_first())
    }
}

/// `a` comes before `b` or is `b`.
pub open spec fn at_most(a: Seq<char>, b: Seq<char>) -> bool {
    !before(b, a)
}

pub proof fn order_total(a: Seq<char>, b: Seq<char>)
    ensures
        before(a, b) || before(b, a) || a == b,
        !(before(a, b) && before(b, a)),
        !before(a, a),
    decreases a.len(),
{
    if a.len() > 0 {
        order_total(a.drop_first(), a.drop_first());
    }
    if a.len() > 0 && b.len() > 0 {
        order_total(a.drop_first(), b.drop_first());
        if a[0] == b[0] && a.drop_first() == b.drop_first() {
            assert(a =~= seq![a[0]] + a.drop_first());
            assert(b =~= seq![b[0]] + b.drop_first());
        }
    } else if a.len() == 0 && b.len() == 0 {
        assert(a =~= b);
    }
}

pub proof fn before_transitive(a: Seq<char>, b: Seq<char>, c: Seq<char>)
    requires
        before(a, b),
        before(b, c),
    ensures
        before(a, c),
    decreases a.len(),
{
    if a.len() > 0 && b.len() > 0 && c.len() > 0 {
        if a[0] == b[0] && b[0] == c[0] {
            before_transitive(a.drop_first(), b.drop_first(), c.drop_first());
        }
    }
}

pub proof fn at_most_transitive(a: Seq<char>, b: Seq<char>, c: Seq<char>)
    requires
        at_most(a, b),
        at_most(b, c),
    ensures
        at_most(a, c),
{
    order_total(a, b);
    order_total(b, c);
    order_total(a, c);
    if before(c, a) {
        if before(a, b) {
            before_transitive(c, a, b);
        }
    }
}

/// Whether `a` comes before `b`.
pub fn comes_before(a: &str, b: &str) -> (r: bool)
    ensures
        r == before(a@, b@),
{
    let left = chars_of(a);
    let right = chars_of(b);
    let mut i: usize = 0;
    assert(a@.skip(0) =~= a@);
    assert(b@.skip(0) =~= b@);
    while i < left.len() && i < right.len()
        invariant
            i <= left@.len(),
            i <= right@.len(),
            left@ == a@,
            right@ == b@,
            before(a@, b@) == before(a@.skip(i as int), b@.skip(i as int)),
        decreases left@.len() - i,
    {
        assert(a@.skip(i as int).drop_first() =~= a@.skip(i + 1));
        assert(b@.skip(i as int).drop_first() =~= b@.skip(i + 1));
        if left[i] != right[i] {
            return left[i] < right[i];
        }
        i += 1;
    }
    i < right.len()
}

/// Whether `prefix` stands at the front of `s`.
pub fn starts_with(s: &str, prefix: &str) -> (r: bool)
    ensures
        r == prefix@.is_prefix_of(s@),
{
    let whole = s.unicode_len();
    let front = prefix.unicode_len();
    if front > whole {
        return false;
    }
    same_text(s.substring_char(0, front), prefix)
}

/// Whether the two texts agree once the ASCII capitals are made small.
pub fn same_ignoring_ascii_case(a: &str, b: &str) -> (r: bool)
    ensures
        r == (ascii_lowered(a@) == ascii_lowered(b@)),
{
    ascii_lowercase(a) == ascii_lowercase(b)
}

/// Whether `list` holds `s`.
pub fn holds_text(list: &Vec<String>, s: &str) -> (r: bool)
    ensures
        r == views(list@).contains(s@),
{
    let mut i: usize = 0;
    while i < list.len()
        invariant
            i <= list@.len(),
            forall|j: int| 0 <= j < i ==> views(list@)[j] != s@,
        decreases list@.len() - i,
    {
        if same_text(list[i].as_str(), s) {
            assert(views(list@)[i as int] == s@);
            return true;
        }
        i += 1;
    }
    false
}

// ---------------------------------------------------------------------------
// Cutting
// ---------------------------------------------------------------------------

/// Whether `c` is white space.
pub open spec fn is_blank(c: char) -> bool {
    if (c as u32) < 128 {
        c == ' ' || ('\t' <= c && c <= '\r')
    } else {
        is_white_space(c)
    }
}

/// `s` without the white space at its two ends.
pub open spec fn trimmed(s: Seq<char>) -> Seq<char>
    decreases s.len(),
{
    if s.len() == 0 {
        s
    } else if is_blank(s[0]) {
        trimmed(s.drop_first())
    } else if is_blank(s.last()) {
        trimmed(s.drop_last())
    } else {
        s
    }
}

/// `s` without the white space at its two ends.
pub fn trim(s: &str) -> (r: &str)
    ensures
        r@ == trimmed(s@),
{
    let chars = chars_of(s);
    let mut from: usize = 0;
    let mut to: usize = chars.len();
    assert(s@.subrange(0, s@.len() as int) =~= s@);
    while from < to && chars[from].is_whitespace()
        invariant
            from <= to,
            to == chars@.len(),
            chars@ == s@,
            trimmed(s@) == trimmed(s@.subrange(from as int, to as int)),
        decreases to - from,
    {
        assert(s@.subrange(from as int, to as int).drop_first() =~= s@.subrange(
            from + 1,
            to as int,
        ));
        from += 1;
    }
    while from < to && chars[to - 1].is_whitespace()
        invariant
            from <= to,
            to <= chars@.len(),
            chars@ == s@,
            from < to ==> !is_blank(s@[from as int]),
            trimmed(s@) == trimmed(s@.subrange(from as int, to as int)),
        decreases to - from,
    {
        assert(s@.subrange(from as int, to as int).drop_last() =~= s@.subrange(
            from as int,
            to - 1,
        ));
        to -= 1;
    }
    s.substring_char(from, to)
}

/// Every character is white space.
pub open spec fn all_blank(s: Seq<char>) -> bool {
    forall|i: int| 0 <= i < s.len() ==> is_blank(#[trigger] s[i])
}

/// White space around a text does not count.
pub proof fn trimmed_between(a: Seq<char>, s: Seq<char>, b: Seq<char>)
    requires
        all_blank(a),
        all_blank(b),
        s.len() > 0,
        !is_blank(s[0]),
        !is_blank(s.last()),
    ensures
        trimmed(a + s + b) == s,
    decreases a.len() + b.len(),
{
    let whole = a + s + b;
    if a.len() > 0 {
        assert(whole[0] == a[0]);
        assert(whole.drop_first() =~= a.drop_first() + s + b);
        trimmed_between(a.drop_first(), s, b);
    } else if b.len() > 0 {
        assert(whole[0] == s[0]);
        assert(whole.last() == b.last());
        assert(whole.drop_last() =~= a + s + b.drop_last());
        trimmed_between(a, s, b.drop_last());
    } else {
        assert(whole =~= s);
    }
}

/// The pieces of `s` between its occurrences of `sep`: one more than there
/// are occurrences.
pub open spec fn split_on(s: Seq<char>, sep: char) -> Seq<Seq<char>>
    decreases s.len(),
{
    if s.len() == 0 {
        seq![Seq::empty()]
    } else {
        let front = split_on(s.drop_last(), sep);
        if s.last() == sep {
            front.push(Seq::empty())
        } else {
            front.drop_last().push(front.last().push(s.last()))
        }
    }
}

/// The pieces of `s` between its occurrences of `sep`.
pub fn split(s: &str, sep: char) -> (out: Vec<String>)
    ensures
        views(out@) == split_on(s@, sep),
        out@.len() > 0,
{
    let chars = chars_of(s);
    let mut done: Vec<String> = Vec::new();
    let mut current = String::new();
    let mut i: usize = 0;
    assert(s@.take(0) =~= Seq::<char>::empty());
    assert(views(done@).push(current@) =~= seq![Seq::<char>::empty()]);
    while i < chars.len()
        invariant
            i <= chars@.len(),
            chars@ == s@,
            views(done@).push(current@) == split_on(s@.take(i as int), sep),
        decreases chars@.len() - i,
    {
        let ghost before = split_on(s@.take(i as int), sep);
        assert(s@.take(i + 1).drop_last() =~= s@.take(i as int));
        assert(before.drop_last() =~= views(done@));
        assert(before.last() == current@);
        if chars[i] == sep {
            done.push(current);
            current = String::new();
            proof {
                views_push(done@.drop_last(), done@.last());
                assert(done@.drop_last().push(done@.last()) =~= done@);
            }
        } else {
            current.push(chars[i]);
        }
        i += 1;
    }
    assert(s@.take(i as int) =~= s@);
    proof {
        views_push(done@, current);
    }
    done.push(current);
    done
}

// ---------------------------------------------------------------------------
// Building
// ---------------------------------------------------------------------------

/// The views of every item in a list.
pub open spec fn views<T: View>(s: Seq<T>) -> Seq<T::V> {
    s.map_values(|t: T| t@)
}

pub broadcast proof fn views_push<T: View>(s: Seq<T>, x: T)
    ensures
        #[trigger] views(s.push(x)) == views(s).push(x@),
{
    assert(views(s.push(x)) =~= views(s).push(x@));
}

pub proof fn views_joined<T: View>(s: Seq<T>, t: Seq<T>)
    ensures
        views(s + t) == views(s) + views(t),
{
    assert(views(s + t) =~= views(s) + views(t));
}

/// An equal list of texts.
pub fn copy_texts(list: &Vec<String>) -> (r: Vec<String>)
    ensures
        views(r@) == views(list@),
{
    let mut out: Vec<String> = Vec::new();
    let ghost all = views(list@);
    let mut i: usize = 0;
    while i < list.len()
        invariant
            i <= list@.len(),
            all == views(list@),
            views(out@) == all.take(i as int),
        decreases list@.len() - i,
    {
        let one = list[i].clone();
        proof {
            views_push(out@, one);
            assert(all.take(i + 1) =~= all.take(i as int).push(one@));
        }
        out.push(one);
        i += 1;
    }
    assert(all.take(i as int) =~= all);
    out
}

/// What `f` makes of the items of `s`, leaving out those it makes nothing of.
pub open spec fn picked<A, B>(s: Seq<A>, f: spec_fn(A) -> Option<B>) -> Seq<B>
    decreases s.len(),
{
    if s.len() == 0 {
        Seq::empty()
    } else {
        match f(s.last()) {
            Some(b) => picked(s.drop_last(), f).push(b),
            None => picked(s.drop_last(), f),
        }
    }
}

pub proof fn picked_step<A, B>(s: Seq<A>, f: spec_fn(A) -> Option<B>, i: int)
    requires
        0 <= i < s.len(),
    ensures
        picked(s.take(i + 1), f) == (match f(s[i]) {
            Some(b) => picked(s.take(i), f).push(b),
            None => picked(s.take(i), f),
        }),
{
    assert(s.take(i + 1).drop_last() =~= s.take(i));
}

/// What is picked keeps the order of the items.
pub proof fn picked_in_order<A, B>(s: Seq<A>, f: spec_fn(A) -> Option<B>, k: int, m: int)
    requires
        0 <= k < m < picked(s, f).len(),
    ensures
        exists|i: int, j: int|
            0 <= i < j < s.len() && f(#[trigger] s[i]) == Some(picked(s, f)[k]) && f(
                #[trigger] s[j],
            ) == Some(picked(s, f)[m]),
    decreases s.len(),
{
    if s.len() > 0 {
        let front = s.drop_last();
        let had = picked(front, f);
        if m < had.len() {
            picked_in_order(front, f, k, m);
            let (i, j) = choose|i: int, j: int|
                0 <= i < j < front.len() && f(#[trigger] front[i]) == Some(had[k]) && f(
                    #[trigger] front[j],
                ) == Some(had[m]);
            assert(s[i] == front[i] && s[j] == front[j]);
            assert(f(s[i]) == Some(picked(s, f)[k]) && f(s[j]) == Some(picked(s, f)[m]));
        } else {
            picked_comes_from(front, f, k);
            let i = choose|i: int| 0 <= i < front.len() && f(#[trigger] front[i]) == Some(had[k]);
            assert(s[i] == front[i]);
            assert(f(s[i]) == Some(picked(s, f)[k]));
            assert(f(s[s.len() - 1]) == Some(picked(s, f)[m]));
        }
    }
}

/// Nothing is picked where `f` makes nothing of any item.
pub proof fn picked_nothing<A, B>(s: Seq<A>, f: spec_fn(A) -> Option<B>)
    requires
        forall|i: int| 0 <= i < s.len() ==> f(#[trigger] s[i]) is None,
    ensures
        picked(s, f).len() == 0,
    decreases s.len(),
{
    if s.len() > 0 {
        let front = s.drop_last();
        assert forall|i: int| 0 <= i < front.len() implies f(#[trigger] front[i]) is None by {
            assert(f(s[i]) is None);
        }
        picked_nothing(front, f);
        assert(f(s[s.len() - 1]) is None);
    }
}

/// Everything that is picked was made from some item.
pub proof fn picked_comes_from<A, B>(s: Seq<A>, f: spec_fn(A) -> Option<B>, k: int)
    requires
        0 <= k < picked(s, f).len(),
    ensures
        exists|i: int| 0 <= i < s.len() && f(#[trigger] s[i]) == Some(picked(s, f)[k]),
    decreases s.len(),
{
    if s.len() > 0 {
        let front = s.drop_last();
        if k < picked(front, f).len() {
            picked_comes_from(front, f, k);
            let i = choose|i: int|
                0 <= i < front.len() && f(#[trigger] front[i]) == Some(picked(front, f)[k]);
            assert(s[i] == front[i]);
            assert(f(s[i]) == Some(picked(s, f)[k]));
        } else {
            assert(f(s[s.len() - 1]) == Some(picked(s, f)[k]));
        }
    }
}

/// What `f` makes of an item is picked.
pub proof fn picked_holds<A, B>(s: Seq<A>, f: spec_fn(A) -> Option<B>, i: int)
    requires
        0 <= i < s.len(),
        f(s[i]) is Some,
    ensures
        picked(s, f).contains(f(s[i])->0),
    decreases s.len(),
{
    let front = s.drop_last();
    let all = picked(s, f);
    if i < s.len() - 1 {
        assert(front[i] == s[i]);
        picked_holds(front, f, i);
        let k = choose|k: int|
            0 <= k < picked(front, f).len() && picked(front, f)[k] == f(s[i])->0;
        assert(all[k] == f(s[i])->0);
    } else {
        assert(all[all.len() - 1] == f(s[i])->0);
    }
}

/// Where only one item is picked, nothing else is.
pub proof fn picked_single<A, B>(s: Seq<A>, f: spec_fn(A) -> Option<B>, i: int)
    requires
        0 <= i < s.len(),
        f(s[i]) is Some,
        forall|j: int| 0 <= j < s.len() && j != i ==> f(#[trigger] s[j]) is None,
    ensures
        picked(s, f) == seq![f(s[i])->0],
    decreases s.len(),
{
    let front = s.drop_last();
    assert forall|j: int| 0 <= j < front.len() && j != i implies f(#[trigger] front[j]) is None by {
        assert(front[j] == s[j]);
    }
    if i == s.len() - 1 {
        picked_nothing(front, f);
        assert(picked(s, f) =~= seq![f(s[i])->0]);
    } else {
        assert(front[i] == s[i]);
        assert(f(s[s.len() - 1]) is None);
        picked_single(front, f, i);
    }
}

/// Where two items are picked, at least two are.
pub proof fn picked_twice<A, B>(s: Seq<A>, f: spec_fn(A) -> Option<B>, i: int, j: int)
    requires
        0 <= i < j < s.len(),
        f(s[i]) is Some,
        f(s[j]) is Some,
    ensures
        picked(s, f).len() >= 2,
    decreases s.len(),
{
    let front = s.drop_last();
    assert(front[i] == s[i]);
    if j == s.len() - 1 {
        picked_holds(front, f, i);
    } else {
        assert(front[j] == s[j]);
        picked_twice(front, f, i, j);
    }
}

/// What `f` makes of the items of `s`, one after the other.
pub open spec fn told<A, B>(s: Seq<A>, f: spec_fn(A) -> Seq<B>) -> Seq<B>
    decreases s.len(),
{
    if s.len() == 0 {
        Seq::empty()
    } else {
        told(s.drop_last(), f) + f(s.last())
    }
}

pub proof fn told_step<A, B>(s: Seq<A>, f: spec_fn(A) -> Seq<B>, i: int, start: Seq<B>)
    requires
        0 <= i < s.len(),
    ensures
        start + told(s.take(i + 1), f) == start + told(s.take(i), f) + f(s[i]),
{
    assert(s.take(i + 1).drop_last() =~= s.take(i));
    assert(start + told(s.take(i + 1), f) =~= start + told(s.take(i), f) + f(s[i]));
}

pub proof fn told_ends<A, B>(s: Seq<A>, f: spec_fn(A) -> Seq<B>, start: Seq<B>)
    ensures
        start + told(s.take(0), f) == start,
        s.take(s.len() as int) == s,
{
    assert(start + told(s.take(0), f) =~= start);
    assert(s.take(s.len() as int) =~= s);
}

/// Whatever is told comes from one of the items.
pub proof fn told_comes_from<A, B>(s: Seq<A>, f: spec_fn(A) -> Seq<B>, k: int)
    requires
        0 <= k < told(s, f).len(),
    ensures
        exists|i: int| 0 <= i < s.len() && f(#[trigger] s[i]).contains(told(s, f)[k]),
    decreases s.len(),
{
    if s.len() > 0 {
        let front = s.drop_last();
        let had = told(front, f);
        if k < had.len() {
            told_comes_from(front, f, k);
            let i = choose|i: int|
                0 <= i < front.len() && f(#[trigger] front[i]).contains(had[k]);
            assert(f(s[i]).contains(told(s, f)[k]));
        } else {
            assert(f(s.last())[k - had.len()] == told(s, f)[k]);
            assert(f(s[s.len() - 1]).contains(told(s, f)[k]));
        }
    }
}

/// What `f` makes of an item is told.
pub proof fn told_holds<A, B>(s: Seq<A>, f: spec_fn(A) -> Seq<B>, i: int, b: B)
    requires
        0 <= i < s.len(),
        f(s[i]).contains(b),
    ensures
        told(s, f).contains(b),
    decreases s.len(),
{
    let front = s.drop_last();
    let all = told(s, f);
    if i < s.len() - 1 {
        assert(front[i] == s[i]);
        told_holds(front, f, i, b);
        let k = choose|k: int| 0 <= k < told(front, f).len() && told(front, f)[k] == b;
        assert(all[k] == b);
    } else {
        let own = f(s[i]);
        let k = choose|k: int| 0 <= k < own.len() && own[k] == b;
        assert(all[told(front, f).len() + k] == b);
    }
}

/// The parts one after the other, with `sep` between neighbours.
pub open spec fn joined(parts: Seq<Seq<char>>, sep: Seq<char>) -> Seq<char>
    decreases parts.len(),
{
    if parts.len() == 0 {
        Seq::empty()
    } else if parts.len() == 1 {
        parts[0]
    } else {
        joined(parts.drop_last(), sep) + sep + parts.last()
    }
}

/// The parts one after the other, with `sep` between neighbours.
pub fn join(parts: &Vec<String>, sep: &str) -> (out: String)
    ensures
        out@ == joined(views(parts@), sep@),
{
    let mut out = String::new();
    let mut i: usize = 0;
    while i < parts.len()
        invariant
            i <= parts@.len(),
            out@ == joined(views(parts@).take(i as int), sep@),
        decreases parts@.len() - i,
    {
        assert(views(parts@).take(i + 1).drop_last() =~= views(parts@).take(i as int));
        if i > 0 {
            out.append(sep);
        }
        out.append(parts[i].as_str());
        i += 1;
        assert(Seq::<char>::empty() + parts@[i - 1]@ =~= parts@[i - 1]@);
    }
    assert(views(parts@).take(i as int) =~= views(parts@));
    out
}

/// The character for the digit `d`.
pub open spec fn digit(d: int) -> char {
    ('0' as int + d) as char
}

/// `n` in decimal.
pub open spec fn digits(n: nat) -> Seq<char>
    decreases n,
{
    if n < 10 {
        seq![digit(n as int)]
    } else {
        digits(n / 10).push(digit((n % 10) as int))
    }
}

/// `n` in decimal, with a minus sign where it is negative.
pub open spec fn decimal(n: int) -> Seq<char> {
    if n < 0 {
        seq!['-'] + digits((-n) as nat)
    } else {
        digits(n as nat)
    }
}

/// `n` in decimal.
pub fn decimal_of(n: u64) -> (out: String)
    ensures
        out@ == decimal(n as int),
    decreases n,
{
    let mut out = if n < 10 {
        String::new()
    } else {
        decimal_of(n / 10)
    };
    let d: u8 = (n % 10) as u8;
    let c: u8 = 48 + d;
    out.push(c as char);
    assert(n < 10 ==> out@ =~= seq![digit(n as int)]);
    out
}

/// `n` in decimal, with a minus sign where it is negative.
pub fn signed_decimal_of(n: i64) -> (out: String)
    ensures
        out@ == decimal(n as int),
{
    if n < 0 {
        let size: u64 = ((0 as i128) - (n as i128)) as u64;
        let mut out = String::new();
        out.push('-');
        out.append(decimal_of(size).as_str());
        assert(out@ =~= decimal(n as int));
        out
    } else {
        decimal_of(n as u64)
    }
}

// ---------------------------------------------------------------------------
// Tables of texts
// ---------------------------------------------------------------------------

/// The views of pairs of texts.
pub open spec fn pairs(s: Seq<(String, String)>) -> Seq<(Seq<char>, Seq<char>)> {
    s.map_values(|p: (String, String)| (p.0@, p.1@))
}

/// What the last pair under `key` holds.
pub open spec fn last_under(table: Seq<(Seq<char>, Seq<char>)>, key: Seq<char>) -> Option<Seq<char>>
    decreases table.len(),
{
    if table.len() == 0 {
        None
    } else if table.last().0 == key {
        Some(table.last().1)
    } else {
        last_under(table.drop_last(), key)
    }
}

/// What the last pair under `key` holds.
pub fn find_last<'a>(table: &'a Vec<(String, String)>, key: &str) -> (r: Option<&'a String>)
    ensures
        seen(r) == last_under(pairs(table@), key@),
{
    let ghost all = pairs(table@);
    let mut i: usize = table.len();
    assert(all.take(i as int) =~= all);
    while i > 0
        invariant
            i <= table@.len(),
            all == pairs(table@),
            last_under(all, key@) == last_under(all.take(i as int), key@),
        decreases i,
    {
        assert(all.take(i as int).drop_last() =~= all.take(i - 1));
        assert(all.take(i as int).last() == (table@[i - 1].0@, table@[i - 1].1@));
        if same_text(table[i - 1].0.as_str(), key) {
            return Some(&table[i - 1].1);
        }
        i -= 1;
    }
    None
}

/// Adds a pair at the end of a table.
pub fn add_pair(table: &mut Vec<(String, String)>, key: String, value: String)
    ensures
        pairs(final(table)@) == pairs(old(table)@).push((key@, value@)),
{
    let ghost before = table@;
    table.push((key, value));
    assert(pairs(table@) =~= pairs(before).push((key@, value@)));
}

// ---------------------------------------------------------------------------
// Reading numbers
// ---------------------------------------------------------------------------

/// The number that a row of one or more digits writes.
pub open spec fn digits_value(s: Seq<char>) -> Option<int>
    decreases s.len(),
{
    if s.len() == 0 || !is_digit(s.last()) {
        None
    } else if s.len() == 1 {
        Some(s[0] as int - '0' as int)
    } else {
        match digits_value(s.drop_last()) {
            Some(n) => Some(10 * n + (s.last() as int - '0' as int)),
            None => None,
        }
    }
}

pub proof fn digits_value_grows(s: Seq<char>, k: int)
    requires
        digits_value(s) is Some,
        0 < k <= s.len(),
    ensures
        digits_value(s.take(k)) is Some,
        0 <= digits_value(s.take(k))->0 <= digits_value(s)->0,
    decreases s.len(),
{
    if k == s.len() {
        assert(s.take(k) =~= s);
        if s.len() > 1 {
            digits_value_grows(s.drop_last(), 1);
            digits_value_grows(s.drop_last(), s.len() - 1);
            assert(s.drop_last().take(s.len() - 1) =~= s.drop_last());
        }
    } else {
        assert(s.drop_last().take(k) =~= s.take(k));
        digits_value_grows(s.drop_last(), k);
    }
}

/// The number that a row of digits writes, where 32 bits hold it.
pub fn read_digits(s: &str) -> (r: Option<u32>)
    ensures
        r == (match digits_value(s@) {
            Some(n) if n <= u32::MAX => Some(n as u32),
            _ => None,
        }),
        digits_value(s@) is Some ==> digits_value(s@)->0 >= 0,
{
    let chars = chars_of(s);
    if chars.len() == 0 {
        return None;
    }
    proof {
        if digits_value(s@) is Some {
            digits_value_grows(s@, 1);
        }
    }
    let mut value: u64 = 0;
    let mut i: usize = 0;
    while i < chars.len()
        invariant
            i <= chars@.len(),
            0 < chars@.len(),
            chars@ == s@,
            i == 0 ==> value == 0,
            i > 0 ==> digits_value(s@.take(i as int)) == Some(value as int),
            value <= u32::MAX,
            digits_value(s@) is Some ==> digits_value(s@)->0 >= 0,
        decreases chars@.len() - i,
    {
        let c = chars[i];
        assert(s@.take(i + 1).drop_last() =~= s@.take(i as int));
        assert(s@.take(i + 1).last() == c);
        if c < '0' || c > '9' {
            proof {
                if digits_value(s@) is Some {
                    digits_value_grows(s@, i + 1);
                }
            }
            return None;
        }
        let d: u64 = (c as u32 - 48) as u64;
        value = value * 10 + d;
        i += 1;
        if value > u32::MAX as u64 {
            proof {
                assert(digits_value(s@.take(i as int)) == Some(value as int));
                if digits_value(s@) is Some {
                    digits_value_grows(s@, i as int);
                }
            }
            return None;
        }
    }
    assert(s@.take(i as int) =~= s@);
    Some(value as u32)
}

// ---------------------------------------------------------------------------
// Counting
// ---------------------------------------------------------------------------

/// How often `c` occurs in `s`.
pub open spec fn count_of(s: Seq<char>, c: char) -> nat
    decreases s.len(),
{
    if s.len() == 0 {
        0
    } else {
        count_of(s.drop_last(), c) + if s.last() == c {
            1nat
        } else {
            0
        }
    }
}

pub proof fn count_of_sum(a: Seq<char>, b: Seq<char>, c: char)
    ensures
        count_of(a + b, c) == count_of(a, c) + count_of(b, c),
    decreases b.len(),
{
    if b.len() == 0 {
        assert(a + b =~= a);
    } else {
        assert((a + b).drop_last() =~= a + b.drop_last());
        count_of_sum(a, b.drop_last(), c);
    }
}

pub proof fn count_of_absent(s: Seq<char>, c: char)
    requires
        forall|i: int| 0 <= i < s.len() ==> s[i] != c,
    ensures
        count_of(s, c) == 0,
    decreases s.len(),
{
    if s.len() > 0 {
        count_of_absent(s.drop_last(), c);
    }
}

pub proof fn count_of_joined(parts: Seq<Seq<char>>, sep: Seq<char>, c: char, each: nat)
    requires
        count_of(sep, c) == 0,
        forall|i: int| 0 <= i < parts.len() ==> count_of(#[trigger] parts[i], c) == each,
    ensures
        count_of(joined(parts, sep), c) == parts.len() * each,
    decreases parts.len(),
{
    if parts.len() == 0 {
        assert(0 * each == 0) by (nonlinear_arith);
    } else if parts.len() == 1 {
        assert(1 * each == each) by (nonlinear_arith);
        assert(count_of(parts[0], c) == each);
    } else {
        let front = parts.drop_last();
        assert forall|i: int| 0 <= i < front.len() implies count_of(#[trigger] front[i], c)
            == each by {
            assert(count_of(parts[i], c) == each);
        }
        count_of_joined(front, sep, c, each);
        count_of_sum(joined(front, sep), sep, c);
        count_of_sum(joined(front, sep) + sep, parts.last(), c);
        assert(count_of(parts[parts.len() - 1], c) == each);
        assert(front.len() * each + each == (front.len() + 1) * each) by (nonlinear_arith);
    }
}

// ---------------------------------------------------------------------------
// Looking for a text in another
// ---------------------------------------------------------------------------

/// `needle` stands in `s` from the position `i` on.
pub open spec fn stands_at(s: Seq<char>, needle: Seq<char>, i: int) -> bool {
    &&& 0 <= i
    &&& i + needle.len() <= s.len()
    &&& forall|k: int| 0 <= k < needle.len() ==> s[i + k] == #[trigger] needle[k]
}

/// `needle` occurs in `s`.
pub open spec fn holds(s: Seq<char>, needle: Seq<char>) -> bool {
    exists|i: int| stands_at(s, needle, i)
}

/// `y` stands behind `x` at the position `i` of `s`.
pub open spec fn pair_at(s: Seq<char>, i: int, x: char, y: char) -> bool {
    s[i] == x && s[i + 1] == y
}

/// `y` stands behind `x` somewhere in `s`.
pub open spec fn has_pair(s: Seq<char>, x: char, y: char) -> bool {
    exists|i: int| 0 <= i < s.len() - 1 && #[trigger] pair_at(s, i, x, y)
}

/// A text does not occur where two neighbours of its characters do not.
pub proof fn lacks_without_pair(s: Seq<char>, needle: Seq<char>, k: int)
    requires
        0 <= k < needle.len() - 1,
        forall|i: int|
            0 <= i < s.len() - 1 ==> !#[trigger] pair_at(s, i, needle[k], needle[k + 1]),
    ensures
        !holds(s, needle),
{
    if holds(s, needle) {
        let i = choose|i: int| stands_at(s, needle, i);
        assert(s[i + k] == needle[k]);
        assert(s[i + (k + 1)] == needle[k + 1]);
        assert(pair_at(s, i + k, needle[k], needle[k + 1]));
    }
}

/// `z` stands behind `y`, and `y` behind `x`, at the position `i` of `s`.
pub open spec fn three_at(s: Seq<char>, i: int, x: char, y: char, z: char) -> bool {
    s[i] == x && s[i + 1] == y && s[i + 2] == z
}

/// A text does not occur where three of its characters do not stand together.
pub proof fn lacks_without_three(s: Seq<char>, needle: Seq<char>, k: int)
    requires
        0 <= k < needle.len() - 2,
        forall|i: int|
            0 <= i < s.len() - 2 ==> !#[trigger] three_at(
                s,
                i,
                needle[k],
                needle[k + 1],
                needle[k + 2],
            ),
    ensures
        !holds(s, needle),
{
    if holds(s, needle) {
        let i = choose|i: int| stands_at(s, needle, i);
        assert(s[i + k] == needle[k]);
        assert(s[i + (k + 1)] == needle[k + 1]);
        assert(s[i + (k + 2)] == needle[k + 2]);
        assert(three_at(s, i + k, needle[k], needle[k + 1], needle[k + 2]));
    }
}

/// A text does not occur where one of its characters does not.
pub proof fn lacks_without(s: Seq<char>, needle: Seq<char>, k: int)
    requires
        0 <= k < needle.len(),
        !s.contains(needle[k]),
    ensures
        !holds(s, needle),
{
    if holds(s, needle) {
        let i = choose|i: int| stands_at(s, needle, i);
        assert(s[i + k] == needle[k]);
    }
}

/// A text does not occur where its beginning does not.
pub proof fn lacks_longer(s: Seq<char>, start: Seq<char>, rest: Seq<char>)
    requires
        !holds(s, start),
    ensures
        !holds(s, start + rest),
{
    let needle = start + rest;
    if holds(s, needle) {
        let i = choose|i: int| stands_at(s, needle, i);
        assert forall|k: int| 0 <= k < start.len() implies s[i + k] == #[trigger] start[k] by {
            assert(needle[k] == start[k]);
        }
        assert(stands_at(s, start, i));
    }
}

/// What does not occur in two texts occurs behind each other neither, unless
/// it has the two characters at the seam as neighbours.
pub proof fn lacks_across(a: Seq<char>, b: Seq<char>, needle: Seq<char>)
    requires
        needle.len() > 0,
        !holds(a, needle),
        !holds(b, needle),
        a.len() == 0 || b.len() == 0 || !has_pair(needle, a.last(), b[0]),
    ensures
        !holds(a + b, needle),
{
    let s = a + b;
    if holds(s, needle) {
        let i = choose|i: int| stands_at(s, needle, i);
        if i + needle.len() <= a.len() {
            assert forall|k: int| 0 <= k < needle.len() implies a[i + k] == #[trigger] needle[k] by {
                assert(s[i + k] == needle[k]);
            }
            assert(stands_at(a, needle, i));
        } else if i >= a.len() {
            let j = i - a.len();
            assert forall|k: int| 0 <= k < needle.len() implies b[j + k] == #[trigger] needle[k] by {
                assert(s[i + k] == needle[k]);
            }
            assert(stands_at(b, needle, j));
        } else {
            let k = a.len() - 1 - i;
            assert(s[i + k] == needle[k]);
            assert(s[i + (k + 1)] == needle[k + 1]);
            assert(pair_at(needle, k, a.last(), b[0]));
        }
    }
}

/// What does not occur in a text does not occur behind characters that it
/// does not begin with.
pub proof fn lacks_behind(a: Seq<char>, b: Seq<char>, needle: Seq<char>)
    requires
        needle.len() > 0,
        !holds(b, needle),
        forall|i: int| 0 <= i < a.len() ==> #[trigger] a[i] != needle[0],
    ensures
        !holds(a + b, needle),
{
    let s = a + b;
    if holds(s, needle) {
        let i = choose|i: int| stands_at(s, needle, i);
        assert(s[i + 0] == needle[0]);
        let j = i - a.len();
        assert(i < a.len() ==> a[i] == needle[0]);
        assert forall|k: int| 0 <= k < needle.len() implies b[j + k] == #[trigger] needle[k] by {
            assert(s[i + k] == needle[k]);
        }
        assert(stands_at(b, needle, j));
    }
}

/// What does not occur in a text does not occur before characters that it
/// does not end with.
pub proof fn lacks_before(a: Seq<char>, b: Seq<char>, needle: Seq<char>)
    requires
        needle.len() > 0,
        !holds(a, needle),
        forall|i: int| 0 <= i < b.len() ==> #[trigger] b[i] != needle.last(),
    ensures
        !holds(a + b, needle),
{
    let s = a + b;
    if holds(s, needle) {
        let i = choose|i: int| stands_at(s, needle, i);
        let k = needle.len() - 1;
        assert(s[i + k] == needle[k]);
        assert(i + k >= a.len() ==> b[i + k - a.len()] == needle.last());
        assert forall|k: int| 0 <= k < needle.len() implies a[i + k] == #[trigger] needle[k] by {
            assert(s[i + k] == needle[k]);
        }
        assert(stands_at(a, needle, i));
    }
}

/// What does not occur in the whole does not occur in a part.
pub proof fn lacks_in_part(s: Seq<char>, from: int, to: int, needle: Seq<char>)
    requires
        0 <= from <= to <= s.len(),
        !holds(s, needle),
    ensures
        !holds(s.subrange(from, to), needle),
{
    let part = s.subrange(from, to);
    if holds(part, needle) {
        let i = choose|i: int| stands_at(part, needle, i);
        let j = from + i;
        assert forall|k: int| 0 <= k < needle.len() implies s[j + k] == #[trigger] needle[k] by {
            assert(part[i + k] == needle[k]);
        }
        assert(stands_at(s, needle, j));
    }
}

/// What does not occur in a text does not occur in it without the white space
/// at its two ends.
pub proof fn lacks_trimmed(s: Seq<char>, needle: Seq<char>)
    requires
        !holds(s, needle),
    ensures
        !holds(trimmed(s), needle),
    decreases s.len(),
{
    if s.len() > 0 {
        if is_blank(s[0]) {
            lacks_in_part(s, 1, s.len() as int, needle);
            assert(s.drop_first() =~= s.subrange(1, s.len() as int));
            lacks_trimmed(s.drop_first(), needle);
        } else if is_blank(s.last()) {
            lacks_in_part(s, 0, s.len() - 1, needle);
            assert(s.drop_last() =~= s.subrange(0, s.len() - 1));
            lacks_trimmed(s.drop_last(), needle);
        }
    }
}

/// What occurs in a part occurs in the whole.
pub proof fn holds_within(a: Seq<char>, b: Seq<char>, c: Seq<char>, needle: Seq<char>)
    requires
        holds(b, needle),
    ensures
        holds(a + b + c, needle),
{
    let s = a + b + c;
    let i = choose|i: int| stands_at(b, needle, i);
    let j = a.len() + i;
    assert forall|k: int| 0 <= k < needle.len() implies s[j + k] == #[trigger] needle[k] by {
        assert(b[i + k] == needle[k]);
    }
    assert(stands_at(s, needle, j));
}

/// A text occurs in itself.
pub proof fn holds_itself(s: Seq<char>)
    ensures
        holds(s, s),
{
    assert(stands_at(s, s, 0));
}

/// Every part occurs in the parts that are joined.
pub proof fn joined_holds(parts: Seq<Seq<char>>, sep: Seq<char>, i: int)
    requires
        0 <= i < parts.len(),
    ensures
        holds(joined(parts, sep), parts[i]),
    decreases parts.len(),
{
    let none: Seq<char> = Seq::empty();
    holds_itself(parts[i]);
    if parts.len() > 1 {
        let front = joined(parts.drop_last(), sep);
        if i == parts.len() - 1 {
            holds_within(front + sep, parts[i], none, parts[i]);
            assert(front + sep + parts[i] + none =~= joined(parts, sep));
        } else {
            joined_holds(parts.drop_last(), sep, i);
            assert(parts.drop_last()[i] == parts[i]);
            holds_within(none, front, sep + parts.last(), parts[i]);
            assert(none + front + (sep + parts.last()) =~= joined(parts, sep));
        }
    }
}

/// A text is empty, or ends with the end of a line.
pub open spec fn is_lines(s: Seq<char>) -> bool {
    s.len() == 0 || s.last() == '\n'
}

/// What occurs in none of the lines does not occur in all of them.
pub proof fn lacks_in_lines<A>(s: Seq<A>, f: spec_fn(A) -> Seq<char>, needle: Seq<char>)
    requires
        needle.len() > 0,
        !needle.contains('\n'),
        forall|i: int| 0 <= i < s.len() ==> !holds(f(#[trigger] s[i]), needle),
        forall|i: int| 0 <= i < s.len() ==> is_lines(f(#[trigger] s[i])),
    ensures
        !holds(told(s, f), needle),
        is_lines(told(s, f)),
    decreases s.len(),
{
    if s.len() > 0 {
        let front = s.drop_last();
        assert forall|i: int| 0 <= i < front.len() implies !holds(f(#[trigger] front[i]), needle)
            && is_lines(f(front[i])) by {
            assert(front[i] == s[i]);
        }
        lacks_in_lines(front, f, needle);
        assert(s[s.len() - 1] == s.last());
        lacks_between_lines(told(front, f), f(s.last()), needle);
    } else if holds(told(s, f), needle) {
        let i = choose|i: int| stands_at(told(s, f), needle, i);
    }
}

/// What occurs in neither of two groups of lines does not occur in both.
pub proof fn lacks_between_lines(a: Seq<char>, b: Seq<char>, needle: Seq<char>)
    requires
        needle.len() > 0,
        !needle.contains('\n'),
        !holds(a, needle),
        !holds(b, needle),
        is_lines(a),
        is_lines(b),
    ensures
        !holds(a + b, needle),
        is_lines(a + b),
{
    if a.len() > 0 && b.len() > 0 {
        if has_pair(needle, a.last(), b[0]) {
            let k = choose|k: int|
                0 <= k < needle.len() - 1 && #[trigger] pair_at(needle, k, a.last(), b[0]);
            assert(needle[k] == '\n');
        }
    }
    lacks_across(a, b, needle);
    if b.len() == 0 {
        assert(a + b =~= a);
    }
}

/// A number in decimal is made of digits.
pub proof fn decimal_is_digits(n: nat)
    ensures
        digits(n).len() > 0,
        forall|i: int| 0 <= i < digits(n).len() ==> is_digit(#[trigger] digits(n)[i]),
    decreases n,
{
    if n >= 10 {
        decimal_is_digits(n / 10);
    }
}

/// A number is what its digits say, so two numbers never look alike.
pub proof fn decimal_reads_back(n: int)
    ensures
        n >= 0 ==> digits_value(decimal(n)) == Some(n),
        n < 0 ==> decimal(n).len() > 0 && decimal(n)[0] == '-' && digits_value(
            decimal(n).drop_first(),
        ) == Some(-n),
        n >= 0 ==> decimal(n).len() > 0 && decimal(n)[0] != '-',
{
    if n >= 0 {
        digits_read_back(n as nat);
        decimal_is_digits(n as nat);
        assert(is_digit(digits(n as nat)[0]));
    } else {
        digits_read_back((-n) as nat);
        assert(decimal(n).drop_first() =~= digits((-n) as nat));
    }
}

proof fn digits_read_back(n: nat)
    ensures
        digits_value(digits(n)) == Some(n as int),
    decreases n,
{
    decimal_is_digits(n);
    if n >= 10 {
        digits_read_back(n / 10);
        let all = digits(n);
        assert(all.drop_last() =~= digits(n / 10));
        decimal_is_digits(n / 10);
        assert(is_digit(all[all.len() - 1]));
    }
}

/// The pieces of a text, put together again with the separator between them,
/// are the text; and no piece holds the separator.
pub proof fn pieces_make_the_text(s: Seq<char>, sep: char)
    ensures
        split_on(s, sep).len() > 0,
        joined(split_on(s, sep), seq![sep]) == s,
        forall|i: int|
            0 <= i < split_on(s, sep).len() ==> !(#[trigger] split_on(s, sep)[i]).contains(sep),
    decreases s.len(),
{
    let parts = split_on(s, sep);
    if s.len() == 0 {
        assert(parts[0] =~= s);
    } else {
        let rest = s.drop_last();
        let front = split_on(rest, sep);
        pieces_make_the_text(rest, sep);
        if s.last() == sep {
            assert(parts.drop_last() =~= front);
            assert(joined(parts, seq![sep]) =~= rest.push(sep));
            assert(rest.push(sep) =~= s);
        } else {
            let last = front.last().push(s.last());
            assert(parts.drop_last() =~= front.drop_last());
            if front.len() == 1 {
                assert(joined(front, seq![sep]) == front[0]);
                assert(parts[0] =~= s);
            } else {
                assert(joined(parts, seq![sep]) =~= joined(front, seq![sep]).push(s.last()));
                assert(rest.push(s.last()) =~= s);
            }
            assert forall|i: int| 0 <= i < parts.len() implies !(#[trigger] parts[i]).contains(
                sep,
            ) by {
                if i < parts.len() - 1 {
                    assert(parts[i] == front[i]);
                } else {
                    assert(!front[front.len() - 1].contains(sep));
                    if parts[i].contains(sep) {
                        let k = choose|k: int| 0 <= k < parts[i].len() && parts[i][k] == sep;
                        assert(k < front.last().len());
                        assert(front.last()[k] == sep);
                    }
                }
            }
        }
    }
}

/// What is left of a text after trimming is a middle part of it, with nothing
/// but blanks on either side, and neither starts nor ends with a blank.
pub proof fn trimming_takes_blanks_only(s: Seq<char>) -> (r: (int, int))
    ensures
        0 <= r.0 <= r.1 <= s.len(),
        trimmed(s) == s.subrange(r.0, r.1),
        all_blank(s.subrange(0, r.0)),
        all_blank(s.subrange(r.1, s.len() as int)),
        trimmed(s).len() > 0 ==> !is_blank(trimmed(s)[0]) && !is_blank(trimmed(s).last()),
    decreases s.len(),
{
    let n = s.len() as int;
    if n == 0 {
        assert(s.subrange(0, 0) =~= s);
        (0, 0)
    } else if is_blank(s[0]) {
        let rest = s.drop_first();
        let (i, j) = trimming_takes_blanks_only(rest);
        assert(rest.subrange(i, j) =~= s.subrange(i + 1, j + 1));
        assert(rest.subrange(j, n - 1) =~= s.subrange(j + 1, n));
        assert forall|k: int| 0 <= k < i + 1 implies is_blank(
            #[trigger] s.subrange(0, i + 1)[k],
        ) by {
            if k > 0 {
                assert(is_blank(rest.subrange(0, i)[k - 1]));
            }
        }
        (i + 1, j + 1)
    } else if is_blank(s.last()) {
        let rest = s.drop_last();
        let (i, j) = trimming_takes_blanks_only(rest);
        assert(rest.subrange(i, j) =~= s.subrange(i, j));
        assert(rest.subrange(0, i) =~= s.subrange(0, i));
        assert forall|k: int| 0 <= k < n - j implies is_blank(#[trigger] s.subrange(j, n)[k]) by {
            if k < n - 1 - j {
                assert(is_blank(rest.subrange(j, n - 1)[k]));
            }
        }
        (i, j)
    } else {
        assert(s.subrange(0, n) =~= s);
        (0, n)
    }
}

/// What a table gives for a key is what its last entry of that key says, and
/// nothing where it has none.
pub proof fn last_entry_counts(table: Seq<(Seq<char>, Seq<char>)>, key: Seq<char>)
    ensures
        last_under(table, key) is None <==> forall|i: int|
            0 <= i < table.len() ==> (#[trigger] table[i]).0 != key,
        last_under(table, key) matches Some(v) ==> exists|i: int|
            0 <= i < table.len() && #[trigger] table[i] == (key, v) && forall|j: int|
                i < j < table.len() ==> (#[trigger] table[j]).0 != key,
    decreases table.len(),
{
    if table.len() > 0 {
        let n = table.len() - 1;
        let rest = table.drop_last();
        assert(table[n] == table.last());
        if table.last().0 == key {
            assert(table[n] == (key, table.last().1));
        } else {
            last_entry_counts(rest, key);
            if let Some(v) = last_under(table, key) {
                let i = choose|i: int|
                    0 <= i < rest.len() && #[trigger] rest[i] == (key, v) && forall|j: int|
                        i < j < rest.len() ==> (#[trigger] rest[j]).0 != key;
                assert(table[i] == (key, v));
                assert forall|j: int| i < j < table.len() implies (#[trigger] table[j]).0
                    != key by {
                    if j < n {
                        assert(rest[j] == table[j]);
                    }
                }
            } else {
                assert forall|i: int| 0 <= i < table.len() implies (#[trigger] table[i]).0
                    != key by {
                    if i < n {
                        assert(rest[i] == table[i]);
                    }
                }
            }
        }
    }
}

/// A text that is trimmed once is trimmed.
pub proof fn trimming_twice_is_trimming(s: Seq<char>)
    ensures
        trimmed(trimmed(s)) == trimmed(s),
{
    trimming_takes_blanks_only(s);
    let t = trimmed(s);
    if t.len() > 0 {
        let none = Seq::<char>::empty();
        trimmed_between(none, t, none);
        assert(none + t + none =~= t);
    } else {
        assert(t =~= Seq::empty());
        trimming_takes_blanks_only(t);
        assert(trimmed(t) =~= t);
    }
}

/// Two texts are ordered by the first character in which they differ, and a
/// text comes before every longer one that starts with it.
pub proof fn first_difference_decides(
    start: Seq<char>,
    a: char,
    x: Seq<char>,
    b: char,
    y: Seq<char>,
)
    ensures
        a < b ==> before(start + seq![a] + x, start + seq![b] + y) && !before(
            start + seq![b] + y,
            start + seq![a] + x,
        ),
        before(start, start + seq![a] + x),
    decreases start.len(),
{
    let s = start + seq![a] + x;
    let t = start + seq![b] + y;
    if start.len() > 0 {
        let rest = start.drop_first();
        first_difference_decides(rest, a, x, b, y);
        assert(s.drop_first() =~= rest + seq![a] + x);
        assert(t.drop_first() =~= rest + seq![b] + y);
        assert(s[0] == start[0]);
        assert(t[0] == start[0]);
    } else {
        assert(s[0] == a);
        assert(t[0] == b);
    }
}

} // verus!
