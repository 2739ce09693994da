//! Hash maps and hash sets of `rustc_hash`.
//!
//! `rustc_hash::FxHashMap` and `FxHashSet` are the standard collections with a hasher of their
//! own. The functions below state what each operation does to the contents. Contents are the
//! standard view of the collection where keys are integers, and [`string_map`] or
//! [`string_set`] of it where keys are strings, so that keys count as equal when their texts are.

use core::hash::Hash;
use rustc_hash::{FxHashMap, FxHashSet};
use vstd::prelude::*;

verus! {

/// `rustc_hash::FxBuildHasher`, the hasher of the collections here.
#[verifier::external_type_specification]
#[verifier::external_body]
pub struct ExFxBuildHasher(rustc_hash::FxBuildHasher);

/// The texts in a set of strings.
pub open spec fn string_set(s: Set<String>) -> Set<Seq<char>> {
    s.map(|k: String| k@)
}

/// What a map with strings for keys assigns to each text.
pub open spec fn string_map<V>(m: Map<String, V>) -> Map<Seq<char>, V> {
    Map::new(
        |k: Seq<char>| exists|s: String| m.contains_key(s) && s@ == k,
        |k: Seq<char>| m[choose|s: String| m.contains_key(s) && s@ == k],
    )
}

/// `HashSet::insert`: the key is in the set afterwards, next to what was there; the result says
/// whether it is new.
#[verifier::external_body]
pub(crate) fn set_insert<K: Eq + Hash>(set: &mut FxHashSet<K>, key: K) -> (fresh: bool)
    requires
        vstd::std_specs::hash::obeys_key_model::<K>(),
    ensures
        final(set)@ == old(set)@.insert(key),
        fresh == !old(set)@.contains(key),
{
    set.insert(key)
}

/// `HashSet::remove`: the key is not in the set afterwards, and nothing else leaves.
#[verifier::external_body]
pub(crate) fn set_remove<K: Eq + Hash>(set: &mut FxHashSet<K>, key: &K) -> (found: bool)
    requires
        vstd::std_specs::hash::obeys_key_model::<K>(),
    ensures
        final(set)@ == old(set)@.remove(*key),
        found == old(set)@.contains(*key),
{
    set.remove(key)
}

/// `HashSet::contains`: whether the key is in the set.
#[verifier::external_body]
pub(crate) fn set_contains<K: Eq + Hash>(set: &FxHashSet<K>, key: &K) -> (found: bool)
    requires
        vstd::std_specs::hash::obeys_key_model::<K>(),
    ensures
        found == set@.contains(*key),
{
    set.contains(key)
}

/// `HashSet::extend` by another set: the union of the two.
#[verifier::external_body]
pub(crate) fn set_extend<K: Eq + Hash>(set: &mut FxHashSet<K>, other: FxHashSet<K>)
    requires
        vstd::std_specs::hash::obeys_key_model::<K>(),
    ensures
        final(set)@ == old(set)@.union(other@),
{
    set.extend(other);
}

/// `HashSet::clone` of a set of integers: the same keys.
#[verifier::external_body]
pub(crate) fn set_clone(set: &FxHashSet<u64>) -> (copy: FxHashSet<u64>)
    ensures
        copy@ == set@,
{
    set.clone()
}

/// `HashSet::insert` on strings.
#[verifier::external_body]
pub(crate) fn string_set_insert(set: &mut FxHashSet<String>, key: String)
    ensures
        string_set(final(set)@) == string_set(old(set)@).insert(key@),
{
    set.insert(key);
}

/// `HashSet::contains` on strings.
#[verifier::external_body]
pub(crate) fn string_set_contains(set: &FxHashSet<String>, key: &str) -> (found: bool)
    ensures
        found == string_set(set@).contains(key@),
{
    set.contains(key)
}

/// `HashMap::insert`: the key has the value afterwards, and every other key keeps its own.
#[verifier::external_body]
pub(crate) fn map_insert<V>(map: &mut FxHashMap<u32, V>, key: u32, value: V)
    ensures
        final(map)@ == old(map)@.insert(key, value),
{
    map.insert(key, value);
}

/// `HashMap::get`: the value of the key, if it has one.
#[verifier::external_body]
pub(crate) fn map_get<V>(map: &FxHashMap<u32, V>, key: u32) -> (value: Option<&V>)
    ensures
        value == (if map@.contains_key(key) {
            Some(&map@[key])
        } else {
            None
        }),
{
    map.get(&key)
}

/// `HashMap::remove`: the key has no value afterwards; the result is the one that it had.
#[verifier::external_body]
pub(crate) fn map_remove<V>(map: &mut FxHashMap<u32, V>, key: u32) -> (value: Option<V>)
    ensures
        final(map)@ == old(map)@.remove(key),
        value == (if old(map)@.contains_key(key) {
            Some(old(map)@[key])
        } else {
            None
        }),
{
    map.remove(&key)
}

/// `HashMap::insert` on strings.
#[verifier::external_body]
pub(crate) fn string_map_insert<V>(map: &mut FxHashMap<String, V>, key: String, value: V)
    ensures
        string_map(final(map)@) == string_map(old(map)@).insert(key@, value),
{
    map.insert(key, value);
}

/// `HashMap::get` on strings.
#[verifier::external_body]
pub(crate) fn string_map_get<'a, V>(map: &'a FxHashMap<String, V>, key: &str) -> (value: Option<&'a V>)
    ensures
        value == (if string_map(map@).contains_key(key@) {
            Some(&string_map(map@)[key@])
        } else {
            None
        }),
{
    map.get(key)
}

/// `HashMap::remove` on strings.
#[verifier::external_body]
pub(crate) fn string_map_remove<V>(map: &mut FxHashMap<String, V>, key: &str) -> (value: Option<V>)
    ensures
        string_map(final(map)@) == string_map(old(map)@).remove(key@),
        value == (if string_map(old(map)@).contains_key(key@) {
            Some(string_map(old(map)@)[key@])
        } else {
            None
        }),
{
    map.remove(key)
}

/// `HashMap::iter` on strings: every key with its value, each key once, in an order that is left
/// open.
#[verifier::external_body]
pub(crate) fn string_map_entries<'a, V>(map: &'a FxHashMap<String, V>) -> (entries: Vec<(&'a String, &'a V)>)
    ensures
        forall|k: Seq<char>| #[trigger]
            string_map(map@).contains_key(k) <==> exists|i: int|
                0 <= i < entries@.len() && (#[trigger] entries@[i]).0@ == k,
        forall|i: int|
            0 <= i < entries@.len() ==> *(#[trigger] entries@[i]).1 == string_map(map@)[entries@[i].0@],
        forall|i: int, j: int|
            0 <= i < j < entries@.len() ==> (#[trigger] entries@[i]).0@ != (#[trigger] entries@[j]).0@,
{
    map.iter().collect()
}

/// A map or set with nothing in it assigns nothing to any text.
pub proof fn lemma_empty_strings<V>()
    ensures
        string_set(Set::<String>::empty()) == Set::<Seq<char>>::empty(),
        string_map(Map::<String, V>::empty()) == Map::<Seq<char>, V>::empty(),
{
    assert(string_set(Set::<String>::empty()) =~= Set::<Seq<char>>::empty());
    assert(string_map(Map::<String, V>::empty()) =~= Map::<Seq<char>, V>::empty());
}

} // verus!
