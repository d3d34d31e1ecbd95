//! What the user configures of the mirror, and what is wrong with it.

use crate::remote::error::{RemoteError, RemoteErrorView};
use crate::text;
use crate::text::{decimal_of, join, read_digits, same_text};
use indexmap::IndexMap;
use std::collections::hash_map::RandomState;
use vstd::prelude::*;
use vstd::string::*;

verus! {

broadcast use vstd::string::group_string_axioms;

// ---------------------------------------------------------------------------
// Ordered maps
// ---------------------------------------------------------------------------

#[verifier::external_type_specification]
#[verifier::external_body]
#[verifier::reject_recursive_types(K)]
#[verifier::reject_recursive_types(V)]
#[verifier::reject_recursive_types(S)]
pub struct ExIndexMap<K, V, S>(indexmap::IndexMap<K, V, S>);

/// The keys and values of an ordered map, in its order.
pub uninterp spec fn entries(m: IndexMap<String, String, RandomState>) -> Seq<
    (Seq<char>, Seq<char>),
>;

/// The value of the first entry under `key`.
pub open spec fn value_under(all: Seq<(Seq<char>, Seq<char>)>, key: Seq<char>) -> Option<Seq<char>>
    decreases all.len(),
{
    if all.len() == 0 {
        None
    } else if all[0].0 == key {
        Some(all[0].1)
    } else {
        value_under(all.drop_first(), key)
    }
}

/// The key of the first entry with `value`.
pub open spec fn key_over(all: Seq<(Seq<char>, Seq<char>)>, value: Seq<char>) -> Option<Seq<char>>
    decreases all.len(),
{
    if all.len() == 0 {
        None
    } else if all[0].1 == value {
        Some(all[0].0)
    } else {
        key_over(all.drop_first(), value)
    }
}

/// `IndexMap::get`: the value under `key`, where the map has that key. No two
/// entries of such a map share a key.
#[verifier::external_body]
pub(crate) fn map_get<'a>(m: &'a IndexMap<String, String>, key: &str) -> (r: Option<&'a String>)
    ensures
        text::seen(r) == value_under(entries(*m), key@),
{
    m.get(key)
}

/// `IndexMap::iter`: the entries of the map, in its order.
#[verifier::external_body]
pub(crate) fn map_items(m: &IndexMap<String, String>) -> (r: Vec<(&String, &String)>)
    ensures
        r@.map_values(|e: (&String, &String)| (e.0@, e.1@)) == entries(*m),
{
    m.iter().collect()
}

// ---------------------------------------------------------------------------
// The configuration
// ---------------------------------------------------------------------------

/// Every issue type that the map of types must name.
pub const BUILTIN_TYPES: [&'static str; 7] = [
    "task",
    "bug",
    "feature",
    "epic",
    "chore",
    "docs",
    "question",
];

/// Every status that the map of statuses must name. A deleted issue is not
/// among them: what happens to it is no change of status.
pub const MIRRORED_STATUSES: [&'static str; 7] = [
    "open",
    "in_progress",
    "blocked",
    "deferred",
    "draft",
    "pinned",
    "closed",
];

/// Every priority that the map of priorities must name.
pub const BUILTIN_PRIORITIES: [&'static str; 5] = ["0", "1", "2", "3", "4"];

/// The page size that is used where none is configured.
pub const DEFAULT_PAGE_SIZE: u32 = 100;

/// The largest page size that may be configured.
pub const MAX_PAGE_SIZE: u32 = 1000;

/// Where the mirror is, and how values are named on its side.
#[derive(Debug)]
pub struct RemoteConfig {
    pub backend: String,
    pub url: String,
    pub project: String,
    pub status_map: IndexMap<String, String>,
    pub type_map: IndexMap<String, String>,
    pub priority_map: IndexMap<String, String>,
    pub deleted_state: String,
    pub page_size: u32,
}

/// What contracts say of a [`RemoteConfig`].
pub struct RemoteConfigView {
    pub backend: Seq<char>,
    pub url: Seq<char>,
    pub project: Seq<char>,
    pub status_map: Seq<(Seq<char>, Seq<char>)>,
    pub type_map: Seq<(Seq<char>, Seq<char>)>,
    pub priority_map: Seq<(Seq<char>, Seq<char>)>,
    pub deleted_state: Seq<char>,
    pub page_size: u32,
}

impl View for RemoteConfig {
    type V = RemoteConfigView;

    open spec fn view(&self) -> RemoteConfigView {
        RemoteConfigView {
            backend: self.backend@,
            url: self.url@,
            project: self.project@,
            status_map: entries(self.status_map),
            type_map: entries(self.type_map),
            priority_map: entries(self.priority_map),
            deleted_state: self.deleted_state@,
            page_size: self.page_size,
        }
    }
}

/// The texts of a row of literals.
pub open spec fn literals(s: Seq<&'static str>) -> Seq<Seq<char>> {
    s.map_values(|x: &'static str| x@)
}

/// The required keys that a map lacks, in the order in which they are
/// required.
pub open spec fn missing_keys(
    all: Seq<(Seq<char>, Seq<char>)>,
    required: Seq<Seq<char>>,
) -> Seq<Seq<char>> {
    required.filter(|key: Seq<char>| value_under(all, key) is None)
}

/// The refusal of a map that lacks required keys.
pub open spec fn totality_refusal(
    name: Seq<char>,
    all: Seq<(Seq<char>, Seq<char>)>,
    required: Seq<Seq<char>>,
) -> Option<Seq<char>> {
    if missing_keys(all, required).len() == 0 {
        None
    } else {
        Some(
            name + " does not name every built-in value: missing "@ + text::joined(
                missing_keys(all, required),
                ", "@,
            )
                + ". Every built-in must be mapped, because a value absent from the map cannot be pushed and cannot be recognised on the way back."@,
        )
    }
}

/// The refusal of a map that gives two keys one value: the first such pair is
/// named.
pub open spec fn injectivity_refusal(
    name: Seq<char>,
    all: Seq<(Seq<char>, Seq<char>)>,
) -> Option<Seq<char>>
    decreases all.len(),
{
    if all.len() == 0 {
        None
    } else {
        let front = all.drop_last();
        match injectivity_refusal(name, front) {
            Some(reason) => Some(reason),
            None => match key_over(front, all.last().1) {
                Some(first) => Some(
                    name + " maps both '"@ + first + "' and '"@ + all.last().0 + "' onto '"@
                        + all.last().1
                        + "'. A collapse is indistinguishable from full coverage when init computes its set difference, so it is refused here: give each key its own value."@,
                ),
                None => None,
            },
        }
    }
}

/// The first thing that is wrong with a configuration, in words.
pub open spec fn config_refusal(c: RemoteConfigView) -> Option<Seq<char>> {
    let types = totality_refusal("type_map"@, c.type_map, literals(BUILTIN_TYPES@));
    let statuses = totality_refusal("status_map"@, c.status_map, literals(MIRRORED_STATUSES@));
    let priorities = totality_refusal(
        "priority_map"@,
        c.priority_map,
        literals(BUILTIN_PRIORITIES@),
    );
    if c.backend != "youtrack"@ {
        Some("backend '"@ + c.backend + "' is not supported; the only backend is 'youtrack'"@)
    } else if value_under(c.status_map, "tombstone"@) is Some {
        Some(
            "status_map must not name 'tombstone': the tombstone rule owns it, re-pointing forwarding pointers and setting deleted_state for a real delete. Remove the entry."@,
        )
    } else if types is Some {
        types
    } else if statuses is Some {
        statuses
    } else if priorities is Some {
        priorities
    } else if injectivity_refusal("type_map"@, c.type_map) is Some {
        injectivity_refusal("type_map"@, c.type_map)
    } else if injectivity_refusal("status_map"@, c.status_map) is Some {
        injectivity_refusal("status_map"@, c.status_map)
    } else if injectivity_refusal("priority_map"@, c.priority_map) is Some {
        injectivity_refusal("priority_map"@, c.priority_map)
    } else if c.page_size == 0 || c.page_size > MAX_PAGE_SIZE {
        Some(
            "page_size must be between 1 and 1000, got "@ + text::decimal(c.page_size as int)
                + ". A page_size of 0 would ask YouTrack for a page of nothing on every request and never make progress; a value above 1000 risks a single paged fetch timing out instead of failing fast."@,
        )
    } else {
        None
    }
}

/// The refusal of a configuration as a result.
pub open spec fn refusal_outcome(reason: Option<Seq<char>>) -> Result<(), RemoteErrorView> {
    match reason {
        Some(reason) => Err(RemoteErrorView::Config(reason)),
        None => Ok(()),
    }
}

/// What contracts say of a check.
pub open spec fn check_outcome(r: Result<(), RemoteError>) -> Result<(), RemoteErrorView> {
    match r {
        Ok(_) => Ok(()),
        Err(e) => Err(e@),
    }
}

/// The number that a key of the map of priorities writes, where it is one
/// from 0 to 255.
pub open spec fn priority_key(key: Seq<char>) -> Option<int> {
    let row = if key.len() > 0 && key[0] == '+' {
        key.drop_first()
    } else {
        key
    };
    match text::digits_value(row) {
        Some(n) if n <= 255 => Some(n),
        _ => None,
    }
}

impl RemoteConfig {
    /// Checks the configuration: the first thing that is wrong with it is
    /// refused.
    pub fn validate(&self) -> (r: Result<(), RemoteError>)
        ensures
            check_outcome(r) == refusal_outcome(config_refusal(self@)),
    {
        if !same_text(self.backend.as_str(), "youtrack") {
            let mut out = "backend '".to_owned();
            out.append(self.backend.as_str());
            out.append("' is not supported; the only backend is 'youtrack'");
            return Err(RemoteError::Config(out));
        }
        if map_get(&self.status_map, "tombstone").is_some() {
            return Err(
                RemoteError::Config(
                    "status_map must not name 'tombstone': the tombstone rule owns it, re-pointing forwarding pointers and setting deleted_state for a real delete. Remove the entry.".to_owned(),
                ),
            );
        }
        if let Err(e) = check_total("type_map", &self.type_map, &BUILTIN_TYPES) {
            return Err(e);
        }
        if let Err(e) = check_total("status_map", &self.status_map, &MIRRORED_STATUSES) {
            return Err(e);
        }
        if let Err(e) = check_total("priority_map", &self.priority_map, &BUILTIN_PRIORITIES) {
            return Err(e);
        }
        if let Err(e) = check_injective("type_map", &self.type_map) {
            return Err(e);
        }
        if let Err(e) = check_injective("status_map", &self.status_map) {
            return Err(e);
        }
        if let Err(e) = check_injective("priority_map", &self.priority_map) {
            return Err(e);
        }
        if self.page_size == 0 || self.page_size > MAX_PAGE_SIZE {
            let mut out = "page_size must be between 1 and 1000, got ".to_owned();
            out.append(decimal_of(self.page_size as u64).as_str());
            out.append(
                ". A page_size of 0 would ask YouTrack for a page of nothing on every request and never make progress; a value above 1000 risks a single paged fetch timing out instead of failing fast.",
            );
            return Err(RemoteError::Config(out));
        }
        Ok(())
    }

    /// What the readable identifiers of the mirror's issues start with.
    pub fn issue_prefix(&self) -> (r: String)
        ensures
            r@ == self@.project + "-"@,
    {
        let mut out = self.project.clone();
        out.append("-");
        out
    }

    /// The first type that is mapped onto `remote`.
    pub fn reverse_type(&self, remote: &str) -> (r: Option<&str>)
        ensures
            text::seen(r) == key_over(self@.type_map, remote@),
    {
        reverse(&self.type_map, remote)
    }

    /// The first status that is mapped onto `remote`.
    pub fn reverse_status(&self, remote: &str) -> (r: Option<&str>)
        ensures
            text::seen(r) == key_over(self@.status_map, remote@),
    {
        reverse(&self.status_map, remote)
    }

    /// The first priority that is mapped onto `remote`, where its key is a
    /// number.
    pub fn reverse_priority(&self, remote: &str) -> (r: Option<u8>)
        ensures
            r == (match key_over(self@.priority_map, remote@) {
                Some(key) => match priority_key(key) {
                    Some(n) => Some(n as u8),
                    None => None,
                },
                None => None,
            }),
    {
        match reverse(&self.priority_map, remote) {
            Some(key) => {
                let len = key.unicode_len();
                let row = if len > 0 && key.get_char(0) == '+' {
                    key.substring_char(1, len)
                } else {
                    key
                };
                assert(key@.len() > 0 ==> key@.drop_first() =~= key@.subrange(1, len as int));
                match read_digits(row) {
                    Some(n) => {
                        if n <= 255 {
                            Some(n as u8)
                        } else {
                            None
                        }
                    },
                    None => None,
                }
            },
            None => None,
        }
    }
}

/// The key of the first entry with the value `remote`.
fn reverse<'a>(m: &'a IndexMap<String, String>, remote: &str) -> (r: Option<&'a str>)
    ensures
        text::seen(r) == key_over(entries(*m), remote@),
{
    let items = map_items(m);
    let ghost all = entries(*m);
    let mut i: usize = 0;
    assert(all.skip(0) =~= all);
    while i < items.len()
        invariant
            i <= items@.len(),
            all == entries(*m),
            items@.map_values(|e: (&String, &String)| (e.0@, e.1@)) == all,
            key_over(all, remote@) == key_over(all.skip(i as int), remote@),
        decreases items@.len() - i,
    {
        assert(all[i as int] == (items@[i as int].0@, items@[i as int].1@));
        assert(all.skip(i as int).drop_first() =~= all.skip(i + 1));
        if same_text(items[i].1.as_str(), remote) {
            return Some(items[i].0.as_str());
        }
        i += 1;
    }
    None
}

/// Refuses a map that lacks one of the required keys.
fn check_total<const N: usize>(
    name: &str,
    m: &IndexMap<String, String>,
    required: &[&'static str; N],
) -> (r: Result<(), RemoteError>)
    ensures
        check_outcome(r) == refusal_outcome(
            totality_refusal(name@, entries(*m), literals(required@)),
        ),
{
    let ghost all = entries(*m);
    let ghost wanted = literals(required@);
    let ghost lacks = |key: Seq<char>| value_under(all, key) is None;
    let mut missing: Vec<String> = Vec::new();
    let mut i: usize = 0;
    proof {
        reveal(Seq::filter);
        assert(wanted.take(0).filter(lacks) =~= Seq::empty());
        assert(text::views(missing@) =~= Seq::empty());
    }
    while i < N
        invariant
            i <= N,
            required@.len() == N,
            all == entries(*m),
            wanted == literals(required@),
            lacks == (|key: Seq<char>| value_under(all, key) is None),
            text::views(missing@) == wanted.take(i as int).filter(lacks),
        decreases N - i,
    {
        let key: &'static str = required[i];
        proof {
            reveal(Seq::filter);
            assert(wanted.take(i + 1).drop_last() =~= wanted.take(i as int));
            assert(wanted.take(i + 1).last() == key@);
        }
        if map_get(m, key).is_none() {
            let owned = key.to_owned();
            proof {
                text::views_push(missing@, owned);
            }
            missing.push(owned);
        }
        i += 1;
    }
    assert(wanted.take(i as int) =~= wanted);
    if missing.len() == 0 {
        return Ok(());
    }
    let mut out = name.to_owned();
    out.append(" does not name every built-in value: missing ");
    out.append(join(&missing, ", ").as_str());
    out.append(
        ". Every built-in must be mapped, because a value absent from the map cannot be pushed and cannot be recognised on the way back.",
    );
    Err(RemoteError::Config(out))
}

proof fn injectivity_refused_early(name: Seq<char>, all: Seq<(Seq<char>, Seq<char>)>, k: int)
    requires
        0 <= k <= all.len(),
        injectivity_refusal(name, all.take(k)) is Some,
    ensures
        injectivity_refusal(name, all) == injectivity_refusal(name, all.take(k)),
    decreases all.len(),
{
    if k == all.len() {
        assert(all.take(k) =~= all);
    } else {
        assert(all.drop_last().take(k) =~= all.take(k));
        injectivity_refused_early(name, all.drop_last(), k);
    }
}

/// Refuses a map that gives two keys one value.
fn check_injective(name: &str, m: &IndexMap<String, String>) -> (r: Result<(), RemoteError>)
    ensures
        check_outcome(r) == refusal_outcome(injectivity_refusal(name@, entries(*m))),
{
    let items = map_items(m);
    let ghost all = entries(*m);
    let mut j: usize = 0;
    while j < items.len()
        invariant
            j <= items@.len(),
            all == entries(*m),
            items@.map_values(|e: (&String, &String)| (e.0@, e.1@)) == all,
            injectivity_refusal(name@, all.take(j as int)) is None,
        decreases items@.len() - j,
    {
        assert(all[j as int] == (items@[j as int].0@, items@[j as int].1@));
        assert(all.take(j + 1).drop_last() =~= all.take(j as int));
        assert(all.take(j + 1).last() == all[j as int]);
        let ghost front = all.take(j as int);
        let mut i: usize = 0;
        assert(front.skip(0) =~= front);
        while i < j
            invariant
                i <= j,
                j < items@.len(),
                all == entries(*m),
                items@.map_values(|e: (&String, &String)| (e.0@, e.1@)) == all,
                front == all.take(j as int),
                all.take(j + 1).drop_last() == front,
                all.take(j + 1).last() == all[j as int],
                all[j as int] == (items@[j as int].0@, items@[j as int].1@),
                injectivity_refusal(name@, front) is None,
                key_over(front, all[j as int].1) == key_over(
                    front.skip(i as int),
                    all[j as int].1,
                ),
            decreases j - i,
        {
            assert(all[i as int] == (items@[i as int].0@, items@[i as int].1@));
            assert(front.skip(i as int).drop_first() =~= front.skip(i + 1));
            assert(front.skip(i as int)[0] == all[i as int]);
            if same_text(items[i].1.as_str(), items[j].1.as_str()) {
                let mut out = name.to_owned();
                out.append(" maps both '");
                out.append(items[i].0.as_str());
                out.append("' and '");
                out.append(items[j].0.as_str());
                out.append("' onto '");
                out.append(items[j].1.as_str());
                out.append(
                    "'. A collapse is indistinguishable from full coverage when init computes its set difference, so it is refused here: give each key its own value.",
                );
                proof {
                    injectivity_refused_early(name@, all, j + 1);
                }
                return Err(RemoteError::Config(out));
            }
            i += 1;
        }
        j += 1;
    }
    assert(all.take(j as int) =~= all);
    Ok(())
}

/// A map that is not refused for giving two keys one value leads back from
/// every value to the key it came from.
pub proof fn unrefused_map_leads_back(
    name: Seq<char>,
    all: Seq<(Seq<char>, Seq<char>)>,
    key: Seq<char>,
)
    requires
        injectivity_refusal(name, all) is None,
        value_under(all, key) is Some,
    ensures
        key_over(all, value_under(all, key)->0) == Some(key),
{
    let value = value_under(all, key)->0;
    let i = value_under_place(all, key);
    values_differ(name, all);
    key_over_at(all, i);
}

proof fn value_under_place(all: Seq<(Seq<char>, Seq<char>)>, key: Seq<char>) -> (i: int)
    requires
        value_under(all, key) is Some,
    ensures
        0 <= i < all.len(),
        all[i] == (key, value_under(all, key)->0),
    decreases all.len(),
{
    if all[0].0 == key {
        0
    } else {
        1 + value_under_place(all.drop_first(), key)
    }
}

proof fn key_over_absent(all: Seq<(Seq<char>, Seq<char>)>, value: Seq<char>)
    requires
        key_over(all, value) is None,
    ensures
        forall|i: int| 0 <= i < all.len() ==> (#[trigger] all[i]).1 != value,
    decreases all.len(),
{
    if all.len() > 0 {
        key_over_absent(all.drop_first(), value);
        assert forall|i: int| 0 <= i < all.len() implies (#[trigger] all[i]).1 != value by {
            if i > 0 {
                assert(all.drop_first()[i - 1] == all[i]);
            }
        }
    }
}

/// No two entries of a map that is not refused share a value.
pub proof fn values_differ(name: Seq<char>, all: Seq<(Seq<char>, Seq<char>)>)
    requires
        injectivity_refusal(name, all) is None,
    ensures
        forall|i: int, j: int|
            0 <= i < j < all.len() ==> (#[trigger] all[i]).1 != (#[trigger] all[j]).1,
    decreases all.len(),
{
    if all.len() > 0 {
        let front = all.drop_last();
        values_differ(name, front);
        key_over_absent(front, all.last().1);
        assert forall|i: int, j: int| 0 <= i < j < all.len() implies (#[trigger] all[i]).1 != (
        #[trigger] all[j]).1 by {
            assert(front[i] == all[i]);
            if j < front.len() {
                assert(front[j] == all[j]);
            }
        }
    }
}

proof fn key_over_at(all: Seq<(Seq<char>, Seq<char>)>, i: int)
    requires
        0 <= i < all.len(),
        forall|a: int, b: int|
            0 <= a < b < all.len() ==> (#[trigger] all[a]).1 != (#[trigger] all[b]).1,
    ensures
        key_over(all, all[i].1) == Some(all[i].0),
    decreases all.len(),
{
    if i > 0 {
        let tail = all.drop_first();
        assert(all[0].1 != all[i].1);
        assert(tail[i - 1] == all[i]);
        assert forall|a: int, b: int| 0 <= a < b < tail.len() implies (#[trigger] tail[a]).1 != (
        #[trigger] tail[b]).1 by {
            assert(all[a + 1].1 != all[b + 1].1);
        }
        key_over_at(tail, i - 1);
    }
}

/// In a configuration that passes its check every required value has a name
/// on the mirror's side, and that name leads back to it.
pub proof fn valid_config_round_trips(c: RemoteConfigView)
    requires
        config_refusal(c) is None,
    ensures
        forall|k: int|
            #![trigger BUILTIN_TYPES@[k]]
            0 <= k < 7 ==> value_under(c.type_map, BUILTIN_TYPES@[k]@) is Some,
        forall|k: int|
            #![trigger MIRRORED_STATUSES@[k]]
            0 <= k < 7 ==> value_under(c.status_map, MIRRORED_STATUSES@[k]@) is Some,
        forall|k: int|
            #![trigger BUILTIN_PRIORITIES@[k]]
            0 <= k < 5 ==> value_under(c.priority_map, BUILTIN_PRIORITIES@[k]@) is Some,
        forall|key: Seq<char>| #[trigger]
            value_under(c.type_map, key) is Some ==> key_over(
                c.type_map,
                value_under(c.type_map, key)->0,
            ) == Some(key),
        forall|key: Seq<char>| #[trigger]
            value_under(c.status_map, key) is Some ==> key_over(
                c.status_map,
                value_under(c.status_map, key)->0,
            ) == Some(key),
        forall|key: Seq<char>| #[trigger]
            value_under(c.priority_map, key) is Some ==> key_over(
                c.priority_map,
                value_under(c.priority_map, key)->0,
            ) == Some(key),
        value_under(c.status_map, "tombstone"@) is None,
        1 <= c.page_size <= MAX_PAGE_SIZE,
{
    nothing_missing(c.type_map, literals(BUILTIN_TYPES@));
    nothing_missing(c.status_map, literals(MIRRORED_STATUSES@));
    nothing_missing(c.priority_map, literals(BUILTIN_PRIORITIES@));
    assert forall|k: int|
        #![trigger BUILTIN_TYPES@[k]]
        0 <= k < 7 implies value_under(c.type_map, BUILTIN_TYPES@[k]@) is Some by {
        assert(literals(BUILTIN_TYPES@)[k] == BUILTIN_TYPES@[k]@);
    }
    assert forall|k: int|
        #![trigger MIRRORED_STATUSES@[k]]
        0 <= k < 7 implies value_under(c.status_map, MIRRORED_STATUSES@[k]@) is Some by {
        assert(literals(MIRRORED_STATUSES@)[k] == MIRRORED_STATUSES@[k]@);
    }
    assert forall|k: int|
        #![trigger BUILTIN_PRIORITIES@[k]]
        0 <= k < 5 implies value_under(c.priority_map, BUILTIN_PRIORITIES@[k]@) is Some by {
        assert(literals(BUILTIN_PRIORITIES@)[k] == BUILTIN_PRIORITIES@[k]@);
    }
    assert forall|key: Seq<char>| #[trigger] value_under(c.type_map, key) is Some implies key_over(
        c.type_map,
        value_under(c.type_map, key)->0,
    ) == Some(key) by {
        unrefused_map_leads_back("type_map"@, c.type_map, key);
    }
    assert forall|key: Seq<char>| #[trigger]
        value_under(c.status_map, key) is Some implies key_over(
        c.status_map,
        value_under(c.status_map, key)->0,
    ) == Some(key) by {
        unrefused_map_leads_back("status_map"@, c.status_map, key);
    }
    assert forall|key: Seq<char>| #[trigger]
        value_under(c.priority_map, key) is Some implies key_over(
        c.priority_map,
        value_under(c.priority_map, key)->0,
    ) == Some(key) by {
        unrefused_map_leads_back("priority_map"@, c.priority_map, key);
    }
}

proof fn nothing_missing(all: Seq<(Seq<char>, Seq<char>)>, required: Seq<Seq<char>>)
    requires
        missing_keys(all, required).len() == 0,
    ensures
        forall|k: int|
            0 <= k < required.len() ==> value_under(all, #[trigger] required[k]) is Some,
    decreases required.len(),
{
    reveal(Seq::filter);
    if required.len() > 0 {
        nothing_missing(all, required.drop_last());
        assert forall|k: int| 0 <= k < required.len() implies value_under(
            all,
            #[trigger] required[k],
        ) is Some by {
            if k < required.len() - 1 {
                assert(required.drop_last()[k] == required[k]);
            }
        }
    }
}

/// A map gives a key what its first entry of that key says, and nothing where
/// it has none.
pub proof fn lookup_finds_the_first_entry(all: Seq<(Seq<char>, Seq<char>)>, key: Seq<char>)
    ensures
        value_under(all, key) is None <==> forall|i: int|
            0 <= i < all.len() ==> (#[trigger] all[i]).0 != key,
        value_under(all, key) matches Some(v) ==> exists|i: int|
            0 <= i < all.len() && #[trigger] all[i] == (key, v) && forall|j: int|
                0 <= j < i ==> (#[trigger] all[j]).0 != key,
    decreases all.len(),
{
    if all.len() > 0 && all[0].0 != key {
        let rest = all.drop_first();
        lookup_finds_the_first_entry(rest, key);
        assert forall|i: int| 0 <= i < rest.len() implies #[trigger] rest[i] == all[i + 1] by {}
        if let Some(v) = value_under(all, key) {
            let i = choose|i: int|
                0 <= i < rest.len() && #[trigger] rest[i] == (key, v) && forall|j: int|
                    0 <= j < i ==> (#[trigger] rest[j]).0 != key;
            assert(all[i + 1] == (key, v));
            assert forall|j: int| 0 <= j < i + 1 implies (#[trigger] all[j]).0 != key by {
                if j > 0 {
                    assert(rest[j - 1] == all[j]);
                }
            }
        } else {
            assert forall|i: int| 0 <= i < all.len() implies (#[trigger] all[i]).0 != key by {
                if i > 0 {
                    assert(rest[i - 1] == all[i]);
                }
            }
        }
    } else if all.len() > 0 {
        assert(all[0] == (key, all[0].1));
    }
}

/// A value leads back to the key of its first entry, and to none where no
/// entry has it.
pub proof fn way_back_finds_the_first_entry(all: Seq<(Seq<char>, Seq<char>)>, value: Seq<char>)
    ensures
        key_over(all, value) is None <==> forall|i: int|
            0 <= i < all.len() ==> (#[trigger] all[i]).1 != value,
        key_over(all, value) matches Some(k) ==> exists|i: int|
            0 <= i < all.len() && #[trigger] all[i] == (k, value) && forall|j: int|
                0 <= j < i ==> (#[trigger] all[j]).1 != value,
    decreases all.len(),
{
    if all.len() > 0 && all[0].1 != value {
        let rest = all.drop_first();
        way_back_finds_the_first_entry(rest, value);
        assert forall|i: int| 0 <= i < rest.len() implies #[trigger] rest[i] == all[i + 1] by {}
        if let Some(k) = key_over(all, value) {
            let i = choose|i: int|
                0 <= i < rest.len() && #[trigger] rest[i] == (k, value) && forall|j: int|
                    0 <= j < i ==> (#[trigger] rest[j]).1 != value;
            assert(all[i + 1] == (k, value));
            assert forall|j: int| 0 <= j < i + 1 implies (#[trigger] all[j]).1 != value by {
                if j > 0 {
                    assert(rest[j - 1] == all[j]);
                }
            }
        } else {
            assert forall|i: int| 0 <= i < all.len() implies (#[trigger] all[i]).1 != value by {
                if i > 0 {
                    assert(rest[i - 1] == all[i]);
                }
            }
        }
    } else if all.len() > 0 {
        assert(all[0] == (all[0].0, value));
    }
}

/// The map has an entry for every one of the keys.
pub open spec fn maps_all(all: Seq<(Seq<char>, Seq<char>)>, keys: Seq<&'static str>) -> bool {
    forall|k: int| 0 <= k < keys.len() ==> has_entry(all, (#[trigger] keys[k])@)
}

/// The map has an entry for the key.
pub open spec fn has_entry(all: Seq<(Seq<char>, Seq<char>)>, key: Seq<char>) -> bool {
    exists|i: int| 0 <= i < all.len() && (#[trigger] all[i]).0 == key
}

/// No two entries of the map have the same value.
pub open spec fn maps_apart(all: Seq<(Seq<char>, Seq<char>)>) -> bool {
    forall|i: int, j: int|
        0 <= i < j < all.len() ==> (#[trigger] all[i]).1 != (#[trigger] all[j]).1
}

/// A configuration passes its check exactly where its backend is the one that
/// there is, its status map leaves the tombstone alone, its maps name every
/// built-in type, mirrored status and priority and give no two keys the same
/// value, and its pages hold from one to a thousand issues.
pub proof fn good_configurations_pass(c: RemoteConfigView)
    ensures
        config_refusal(c) is None <==> {
            &&& c.backend == "youtrack"@
            &&& forall|i: int| 0 <= i < c.status_map.len() ==> (#[trigger] c.status_map[i]).0
                != "tombstone"@
            &&& maps_all(c.type_map, BUILTIN_TYPES@)
            &&& maps_all(c.status_map, MIRRORED_STATUSES@)
            &&& maps_all(c.priority_map, BUILTIN_PRIORITIES@)
            &&& maps_apart(c.type_map)
            &&& maps_apart(c.status_map)
            &&& maps_apart(c.priority_map)
            &&& 1 <= c.page_size <= 1000
        },
{
    lookup_finds_the_first_entry(c.status_map, "tombstone"@);
    total_means_all("type_map"@, c.type_map, BUILTIN_TYPES@);
    total_means_all("status_map"@, c.status_map, MIRRORED_STATUSES@);
    total_means_all("priority_map"@, c.priority_map, BUILTIN_PRIORITIES@);
    injective_means_apart("type_map"@, c.type_map);
    injective_means_apart("status_map"@, c.status_map);
    injective_means_apart("priority_map"@, c.priority_map);
}

proof fn total_means_all(
    name: Seq<char>,
    all: Seq<(Seq<char>, Seq<char>)>,
    keys: Seq<&'static str>,
)
    ensures
        totality_refusal(name, all, literals(keys)) is None <==> maps_all(all, keys),
{
    let required = literals(keys);
    let p = |key: Seq<char>| value_under(all, key) is None;
    let missing = missing_keys(all, required);
    if missing.len() > 0 {
        required.lemma_filter_contains_rev(p, missing[0]);
        required.filter_lemma(p);
        assert(p(missing[0]));
        let k = choose|k: int| 0 <= k < required.len() && required[k] == missing[0];
        lookup_finds_the_first_entry(all, missing[0]);
        assert(keys[k]@ == missing[0]);
        assert(!has_entry(all, keys[k]@));
    } else {
        assert forall|k: int| 0 <= k < keys.len() implies has_entry(
            all,
            (#[trigger] keys[k])@,
        ) by {
            assert(required[k] == keys[k]@);
            lookup_finds_the_first_entry(all, keys[k]@);
            if value_under(all, keys[k]@) is None {
                assert(p(required[k]));
                required.filter_lemma(p);
                required.lemma_filter_contains(p, k);
                assert(missing.contains(required[k]));
            }
        }
    }
}

proof fn injective_means_apart(name: Seq<char>, all: Seq<(Seq<char>, Seq<char>)>)
    ensures
        injectivity_refusal(name, all) is None <==> maps_apart(all),
    decreases all.len(),
{
    if injectivity_refusal(name, all) is None {
        values_differ(name, all);
    } else {
        let front = all.drop_last();
        let n = all.len() - 1;
        injective_means_apart(name, front);
        assert(all[n] == all.last());
        if injectivity_refusal(name, front) is Some {
            if maps_apart(all) {
                assert forall|i: int, j: int| 0 <= i < j < front.len() implies (
                #[trigger] front[i]).1 != (#[trigger] front[j]).1 by {
                    assert(all[i].1 != all[j].1);
                }
            }
        } else {
            way_back_finds_the_first_entry(front, all.last().1);
            let k = key_over(front, all.last().1)->0;
            let i = choose|i: int|
                0 <= i < front.len() && #[trigger] front[i] == (k, all.last().1) && forall|j: int|
                    0 <= j < i ==> (#[trigger] front[j]).1 != all.last().1;
            assert(all[i].1 == all[n].1);
        }
    }
}

/// A number from 0 to 255 is the key of that priority, and so is the same
/// number with a plus sign before it.
pub proof fn priority_keys_are_numbers(n: int)
    requires
        0 <= n <= 255,
    ensures
        priority_key(text::decimal(n)) == Some(n),
        priority_key(seq!['+'] + text::decimal(n)) == Some(n),
{
    let s = text::decimal(n);
    text::decimal_reads_back(n);
    text::decimal_is_digits(n as nat);
    assert((seq!['+'] + s).drop_first() =~= s);
    assert((seq!['+'] + s)[0] == '+');
    if s[0] == '+' {
        assert(text::is_digit(text::digits(n as nat)[0]));
    }
}

} // verus!
