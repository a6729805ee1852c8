//! Insertion-ordered string maps.
//!
//! The maps themselves come from the `indexmap` crate.  This module gives
//! them a mathematical model, a sequence of key/value pairs in insertion
//! order, and states the behaviour of the handful of operations the rest of
//! the library relies on.  Everything marked "Trusted" below is believed, not
//! proved.

use indexmap::IndexMap;
use vstd::prelude::*;

verus! {

/// A key/value pair of character sequences.
pub type Pair = (Seq<char>, Seq<char>);

/// Makes `indexmap::IndexMap` known to the verifier, as a type whose inside
/// it does not see.
#[verifier::external_type_specification]
#[verifier::external_body]
#[verifier::reject_recursive_types(K)]
#[verifier::reject_recursive_types(V)]
#[verifier::reject_recursive_types(S)]
pub struct ExIndexMap<K, V, S>(IndexMap<K, V, S>);

/// The pairs held by a map, in insertion order.  This is a name for what an
/// `IndexMap` holds; the operations below say how they change it.
pub uninterp spec fn entries(m: IndexMap<String, String>) -> Seq<Pair>;

/// The tables held by a map of maps, in insertion order, each with its key.
pub uninterp spec fn tables(m: IndexMap<String, IndexMap<String, String>>) -> Seq<
    (Seq<char>, Seq<Pair>),
>;

/// Whether some pair of `s` has the key `k`.
pub open spec fn has_key<V>(s: Seq<(Seq<char>, V)>, k: Seq<char>) -> bool {
    exists|i: int| 0 <= i < s.len() && (#[trigger] s[i]).0 == k
}

/// The position of a pair of `s` with the key `k`, if there is one.
pub open spec fn key_index<V>(s: Seq<(Seq<char>, V)>, k: Seq<char>) -> int {
    choose|i: int| 0 <= i < s.len() && (#[trigger] s[i]).0 == k
}

/// The value stored under `k`, if any.
pub open spec fn lookup<V>(s: Seq<(Seq<char>, V)>, k: Seq<char>) -> Option<V> {
    if has_key(s, k) {
        Some(s[key_index(s, k)].1)
    } else {
        None
    }
}

/// The pairs after storing `v` under `k`: an existing pair keeps its place and
/// takes the new value, a new pair goes last.
pub open spec fn upsert(s: Seq<Pair>, k: Seq<char>, v: Seq<char>) -> Seq<Pair> {
    if has_key(s, k) {
        s.update(key_index(s, k), (k, v))
    } else {
        s.push((k, v))
    }
}

/// No two pairs of `s` share a key.
pub open spec fn unique_keys<V>(s: Seq<(Seq<char>, V)>) -> bool {
    forall|i: int, j: int|
        0 <= i < s.len() && 0 <= j < s.len() && (#[trigger] s[i]).0 == (#[trigger] s[j]).0 ==> i
            == j
}

/// Creates an empty map.
///
/// Trusted: wraps `IndexMap::new`, which returns a map without pairs.
#[verifier::external_body]
pub(crate) fn new_map() -> (m: IndexMap<String, String>)
    ensures
        entries(m) == Seq::<Pair>::empty(),
{
    IndexMap::new()
}

/// Stores `value` under `key` and returns the value it replaces.
///
/// Trusted: wraps `IndexMap::insert`.  Its documentation says that a key
/// already present keeps its place in the order and has its value updated,
/// the older value being returned, and that a new key is inserted last, with
/// `None` returned.
#[verifier::external_body]
pub(crate) fn insert(m: &mut IndexMap<String, String>, key: String, value: String) -> (prev:
    Option<String>)
    ensures
        entries(*final(m)) == upsert(entries(*old(m)), key@, value@),
        match prev {
            Some(p) => lookup(entries(*old(m)), key@) == Some(p@),
            None => !has_key(entries(*old(m)), key@),
        },
{
    m.insert(key, value)
}

/// Looks up the value stored under `key`.
///
/// Trusted: wraps `IndexMap::get`, which returns a reference to the value
/// stored for the key if it is present, else `None`.
#[verifier::external_body]
pub(crate) fn get<'a>(m: &'a IndexMap<String, String>, key: &str) -> (found: Option<&'a String>)
    ensures
        match found {
            Some(v) => lookup(entries(*m), key@) == Some(v@),
            None => !has_key(entries(*m), key@),
        },
{
    m.get(key)
}

/// The number of pairs in the map.
///
/// Trusted: wraps `IndexMap::len`.
#[verifier::external_body]
pub(crate) fn len(m: &IndexMap<String, String>) -> (n: usize)
    ensures
        n == entries(*m).len(),
{
    m.len()
}

/// The pair at position `index` in insertion order.
///
/// Trusted: wraps `IndexMap::get_index`, which returns the pair at the given
/// position for every position below the length.
#[verifier::external_body]
pub(crate) fn pair_at<'a>(m: &'a IndexMap<String, String>, index: usize) -> (pair: (
    &'a String,
    &'a String,
))
    requires
        index < entries(*m).len(),
    ensures
        (pair.0@, pair.1@) == entries(*m)[index as int],
{
    m.get_index(index).unwrap()
}

/// Copies a map.
///
/// Trusted: wraps `IndexMap::clone`, which copies the pairs in their order.
#[verifier::external_body]
pub(crate) fn clone_map(m: &IndexMap<String, String>) -> (copy: IndexMap<String, String>)
    ensures
        entries(copy) == entries(*m),
{
    m.clone()
}

/// Creates an empty map of maps.
///
/// Trusted: wraps `IndexMap::new`, which returns a map without pairs.
#[verifier::external_body]
pub(crate) fn new_tables() -> (m: IndexMap<String, IndexMap<String, String>>)
    ensures
        tables(m) == Seq::<(Seq<char>, Seq<Pair>)>::empty(),
{
    IndexMap::new()
}

/// Looks up the table stored under `key`.
///
/// Trusted: wraps `IndexMap::get`, which returns a reference to the value
/// stored for the key if it is present, else `None`.
#[verifier::external_body]
pub(crate) fn get_table<'a>(m: &'a IndexMap<String, IndexMap<String, String>>, key: &str) -> (found:
    Option<&'a IndexMap<String, String>>)
    ensures
        match found {
            Some(t) => lookup(tables(*m), key@) == Some(entries(*t)),
            None => !has_key(tables(*m), key@),
        },
{
    m.get(key)
}

/// Copies a map of maps.
///
/// Trusted: wraps `IndexMap::clone`, which copies the pairs in their order.
#[verifier::external_body]
pub(crate) fn clone_tables(m: &IndexMap<String, IndexMap<String, String>>) -> (copy: IndexMap<
    String,
    IndexMap<String, String>,
>)
    ensures
        tables(copy) == tables(*m),
{
    m.clone()
}

/// Storing a value keeps keys unique.
pub proof fn lemma_upsert_unique(s: Seq<Pair>, k: Seq<char>, v: Seq<char>)
    requires
        unique_keys(s),
    ensures
        unique_keys(upsert(s, k, v)),
        has_key(upsert(s, k, v), k),
        lookup(upsert(s, k, v), k) == Some(v),
        forall|other: Seq<char>|
            other != k ==> has_key(upsert(s, k, v), other) == has_key(s, other) && lookup(
                upsert(s, k, v),
                other,
            ) == lookup(s, other),
{
    let t = upsert(s, k, v);
    if has_key(s, k) {
        let i = key_index(s, k);
        assert(t[i].0 == k);
        assert forall|a: int, b: int|
            0 <= a < t.len() && 0 <= b < t.len() && (#[trigger] t[a]).0 == (#[trigger] t[b]).0
            implies a == b by {
            assert(s[a].0 == t[a].0);
            assert(s[b].0 == t[b].0);
        }
    } else {
        assert(t[s.len() as int].0 == k);
        assert forall|a: int, b: int|
            0 <= a < t.len() && 0 <= b < t.len() && (#[trigger] t[a]).0 == (#[trigger] t[b]).0
            implies a == b by {
            if a < s.len() {
                assert(s[a].0 == t[a].0);
            }
            if b < s.len() {
                assert(s[b].0 == t[b].0);
            }
        }
    }
    assert(has_key(t, k));
    let at = key_index(t, k);
    assert(t[at].1 == v);
    assert forall|other: Seq<char>| other != k implies has_key(t, other) == has_key(s, other)
        && lookup(t, other) == lookup(s, other) by {
        if has_key(s, other) {
            let j = key_index(s, other);
            assert(t[j] == s[j]);
            assert(has_key(t, other));
            let j2 = key_index(t, other);
            assert(s[j2].0 == t[j2].0);
            assert(j2 == j) by {
                assert(t[j].0 == t[j2].0);
            }
        }
        if has_key(t, other) {
            let j = key_index(t, other);
            assert(j < s.len());
            assert(s[j] == t[j]);
            assert(has_key(s, other));
        }
    }
}

} // verus!
