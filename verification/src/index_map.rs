//! The hash map and hash set of `ahash` that palettes and component maps
//! keep their indices in, as Verus sees them: maps from `u64` keys, and sets
//! of `u64` items.

use ahash::{AHashMap, AHashSet};
use vstd::prelude::*;

verus! {

#[verifier::external_type_specification]
#[verifier::external_body]
#[verifier::reject_recursive_types(K)]
#[verifier::reject_recursive_types(V)]
#[verifier::reject_recursive_types(S)]
pub struct ExAHashMap<K, V, S>(AHashMap<K, V, S>);

#[verifier::external_type_specification]
#[verifier::external_body]
#[verifier::reject_recursive_types(T)]
#[verifier::reject_recursive_types(S)]
pub struct ExAHashSet<T, S>(AHashSet<T, S>);

#[verifier::external_type_specification]
#[verifier::external_body]
pub struct ExRandomState(ahash::RandomState);

/// What an `AHashMap<u64, u64>` holds.
pub uninterp spec fn u64_map_contents(m: AHashMap<u64, u64>) -> Map<u64, u64>;

/// The map with no entries.
pub open spec fn no_u64_entries() -> Map<u64, u64> {
    Map::empty()
}

/// `AHashMap::new`: the new map holds nothing.
#[verifier::external_body]
pub(crate) fn u64_map_new() -> (r: AHashMap<u64, u64>)
    ensures
        u64_map_contents(r) == no_u64_entries(),
{
    AHashMap::new()
}

/// `AHashMap::get` (through `HashMap::get`): the value stored under the key, if any.
#[verifier::external_body]
pub(crate) fn u64_map_get(m: &AHashMap<u64, u64>, k: u64) -> (r: Option<u64>)
    ensures
        r == (if u64_map_contents(*m).contains_key(k) {
            Some(u64_map_contents(*m)[k])
        } else {
            None
        }),
{
    m.get(&k).copied()
}

/// `AHashMap::get_mut`: a mutable reference to the value stored under the
/// key, if any; what is written through it is what the map then holds.
#[verifier::external_body]
pub(crate) fn u64_map_get_mut(m: &mut AHashMap<u64, u64>, k: u64) -> (r: Option<&mut u64>)
    ensures
        r is Some <==> u64_map_contents(*old(m)).contains_key(k),
        r is Some ==> *r->0 == u64_map_contents(*old(m))[k] && u64_map_contents(*final(m))
            == u64_map_contents(*old(m)).insert(k, *final(r->0)),
        r is None ==> u64_map_contents(*final(m)) == u64_map_contents(*old(m)),
{
    m.get_mut(&k)
}

/// `AHashMap::insert`: stores the value under the key and returns the value
/// that was stored there before, if any.
#[verifier::external_body]
pub(crate) fn u64_map_insert(m: &mut AHashMap<u64, u64>, k: u64, v: u64) -> (r: Option<u64>)
    ensures
        u64_map_contents(*final(m)) == u64_map_contents(*old(m)).insert(k, v),
        r == (if u64_map_contents(*old(m)).contains_key(k) {
            Some(u64_map_contents(*old(m))[k])
        } else {
            None
        }),
{
    m.insert(k, v)
}

/// `AHashMap::remove`: takes the key out of the map and returns the value
/// that was stored under it, if any.
#[verifier::external_body]
pub(crate) fn u64_map_remove(m: &mut AHashMap<u64, u64>, k: u64) -> (r: Option<u64>)
    ensures
        u64_map_contents(*final(m)) == u64_map_contents(*old(m)).remove(k),
        r == (if u64_map_contents(*old(m)).contains_key(k) {
            Some(u64_map_contents(*old(m))[k])
        } else {
            None
        }),
{
    m.remove(&k)
}

/// `HashMap::len`, reached through `AHashMap`: the number of keys.
#[verifier::external_body]
pub(crate) fn u64_map_len(m: &AHashMap<u64, u64>) -> (r: usize)
    ensures
        r == u64_map_contents(*m).dom().len(),
{
    m.len()
}

/// `HashMap::keys`, reached through `AHashMap`: each key once, in an order
/// that depends on the map's random hasher.
#[verifier::external_body]
pub(crate) fn u64_map_keys(m: &AHashMap<u64, u64>) -> (r: Vec<u64>)
    ensures
        r@.to_set() == u64_map_contents(*m).dom(),
        r@.no_duplicates(),
{
    m.keys().copied().collect()
}

/// `AHashMap::clone`: a new map with the same entries.
#[verifier::external_body]
pub(crate) fn u64_map_clone(m: &AHashMap<u64, u64>) -> (r: AHashMap<u64, u64>)
    ensures
        u64_map_contents(r) == u64_map_contents(*m),
{
    m.clone()
}

/// What an `AHashMap<u64, Option<u64>>` holds.
pub uninterp spec fn opt_map_contents(m: AHashMap<u64, Option<u64>>) -> Map<u64, Option<u64>>;

/// The map with no entries.
pub open spec fn no_opt_entries() -> Map<u64, Option<u64>> {
    Map::empty()
}

/// `AHashMap::new`: the new map holds nothing.
#[verifier::external_body]
pub(crate) fn opt_map_new() -> (r: AHashMap<u64, Option<u64>>)
    ensures
        opt_map_contents(r) == no_opt_entries(),
{
    AHashMap::new()
}

/// `AHashMap::get` (through `HashMap::get`): the value stored under the key, if any.
#[verifier::external_body]
pub(crate) fn opt_map_get(m: &AHashMap<u64, Option<u64>>, k: u64) -> (r: Option<Option<u64>>)
    ensures
        r == (if opt_map_contents(*m).contains_key(k) {
            Some(opt_map_contents(*m)[k])
        } else {
            None
        }),
{
    m.get(&k).copied()
}

/// `AHashMap::get_mut`: a mutable reference to the value stored under the
/// key, if any; what is written through it is what the map then holds.
#[verifier::external_body]
pub(crate) fn opt_map_get_mut(m: &mut AHashMap<u64, Option<u64>>, k: u64) -> (r: Option<
    &mut Option<u64>,
>)
    ensures
        r is Some <==> opt_map_contents(*old(m)).contains_key(k),
        r is Some ==> *r->0 == opt_map_contents(*old(m))[k] && opt_map_contents(*final(m))
            == opt_map_contents(*old(m)).insert(k, *final(r->0)),
        r is None ==> opt_map_contents(*final(m)) == opt_map_contents(*old(m)),
{
    m.get_mut(&k)
}

/// `AHashMap::insert`: stores the value under the key and returns the value
/// that was stored there before, if any.
#[verifier::external_body]
pub(crate) fn opt_map_insert(m: &mut AHashMap<u64, Option<u64>>, k: u64, v: Option<u64>) -> (r:
    Option<Option<u64>>)
    ensures
        opt_map_contents(*final(m)) == opt_map_contents(*old(m)).insert(k, v),
        r == (if opt_map_contents(*old(m)).contains_key(k) {
            Some(opt_map_contents(*old(m))[k])
        } else {
            None
        }),
{
    m.insert(k, v)
}

/// `AHashMap::remove`: takes the key out of the map and returns the value
/// that was stored under it, if any.
#[verifier::external_body]
pub(crate) fn opt_map_remove(m: &mut AHashMap<u64, Option<u64>>, k: u64) -> (r: Option<Option<u64>>)
    ensures
        opt_map_contents(*final(m)) == opt_map_contents(*old(m)).remove(k),
        r == (if opt_map_contents(*old(m)).contains_key(k) {
            Some(opt_map_contents(*old(m))[k])
        } else {
            None
        }),
{
    m.remove(&k)
}

/// `HashMap::len`, reached through `AHashMap`: the number of keys.
#[verifier::external_body]
pub(crate) fn opt_map_len(m: &AHashMap<u64, Option<u64>>) -> (r: usize)
    ensures
        r == opt_map_contents(*m).dom().len(),
{
    m.len()
}

/// `HashMap::keys`, reached through `AHashMap`: each key once, in an order
/// that depends on the map's random hasher.
#[verifier::external_body]
pub(crate) fn opt_map_keys(m: &AHashMap<u64, Option<u64>>) -> (r: Vec<u64>)
    ensures
        r@.to_set() == opt_map_contents(*m).dom(),
        r@.no_duplicates(),
{
    m.keys().copied().collect()
}

/// `AHashMap::clone`: a new map with the same entries.
#[verifier::external_body]
pub(crate) fn opt_map_clone(m: &AHashMap<u64, Option<u64>>) -> (r: AHashMap<u64, Option<u64>>)
    ensures
        opt_map_contents(r) == opt_map_contents(*m),
{
    m.clone()
}

/// What an `AHashSet<u64>` holds.
pub uninterp spec fn u64_set_contents(s: AHashSet<u64>) -> Set<u64>;

/// The set with no items.
pub open spec fn no_u64_items() -> Set<u64> {
    Set::empty()
}

/// `AHashSet::new`: the new set holds nothing.
#[verifier::external_body]
pub(crate) fn u64_set_new() -> (r: AHashSet<u64>)
    ensures
        u64_set_contents(r) == no_u64_items(),
{
    AHashSet::new()
}

/// `HashSet::insert`, reached through `AHashSet`: adds the item and returns
/// whether it was not there before.
#[verifier::external_body]
pub(crate) fn u64_set_insert(s: &mut AHashSet<u64>, k: u64) -> (r: bool)
    ensures
        u64_set_contents(*final(s)) == u64_set_contents(*old(s)).insert(k),
        r == !u64_set_contents(*old(s)).contains(k),
{
    s.insert(k)
}

/// `HashSet::remove`, reached through `AHashSet`: takes the item out and
/// returns whether it was there.
#[verifier::external_body]
pub(crate) fn u64_set_remove(s: &mut AHashSet<u64>, k: u64) -> (r: bool)
    ensures
        u64_set_contents(*final(s)) == u64_set_contents(*old(s)).remove(k),
        r == u64_set_contents(*old(s)).contains(k),
{
    s.remove(&k)
}

/// `HashSet::contains`, reached through `AHashSet`: whether the item is there.
#[verifier::external_body]
pub(crate) fn u64_set_contains(s: &AHashSet<u64>, k: u64) -> (r: bool)
    ensures
        r == u64_set_contents(*s).contains(k),
{
    s.contains(&k)
}

/// `HashSet::len`, reached through `AHashSet`: the number of items.
#[verifier::external_body]
pub(crate) fn u64_set_len(s: &AHashSet<u64>) -> (r: usize)
    ensures
        r == u64_set_contents(*s).len(),
{
    s.len()
}

/// `HashSet::iter`, reached through `AHashSet`: each item once, in an order
/// that depends on the set's random hasher.
#[verifier::external_body]
pub(crate) fn u64_set_items(s: &AHashSet<u64>) -> (r: Vec<u64>)
    ensures
        r@.to_set() == u64_set_contents(*s),
        r@.no_duplicates(),
{
    s.iter().copied().collect()
}

/// `AHashSet::clone`: a new set with the same items.
#[verifier::external_body]
pub(crate) fn u64_set_clone(s: &AHashSet<u64>) -> (r: AHashSet<u64>)
    ensures
        u64_set_contents(r) == u64_set_contents(*s),
{
    s.clone()
}

} // verus!
