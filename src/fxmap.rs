//! Hash maps keyed by identifiers, built on rustc_hash's `FxHashMap`.
//!
//! `FxBuildHasher` builds `FxHasher`s that start from the same state and hash
//! a `usize` by one multiply, so equal keys always hash alike and the map
//! behaves as a finite map from keys to values. The wrappers below state that
//! behaviour over the map's view.
use rustc_hash::FxHashMap;
use vstd::prelude::*;

verus! {

#[verifier::external_type_specification]
#[verifier::external_body]
pub struct ExFxBuildHasher(rustc_hash::FxBuildHasher);

/// Relies on `HashMap::insert`: the key now maps to the value, and the previous
/// value, if any, is returned.
#[verifier::external_body]
pub(crate) fn fx_insert<V>(m: &mut FxHashMap<usize, V>, k: usize, v: V) -> (r: Option<V>)
    ensures
        final(m)@ == old(m)@.insert(k, v),
        match r {
            Some(p) => old(m)@.contains_key(k) && p == old(m)@[k],
            None => !old(m)@.contains_key(k),
        },
{
    m.insert(k, v)
}

/// Relies on `HashMap::get`: the value stored under the key, if any.
#[verifier::external_body]
pub(crate) fn fx_get<'a, V>(m: &'a FxHashMap<usize, V>, k: &usize) -> (r: Option<&'a V>)
    ensures
        match r {
            Some(p) => m@.contains_key(*k) && *p == m@[*k],
            None => !m@.contains_key(*k),
        },
{
    m.get(k)
}

/// Relies on `HashMap::remove`: the key leaves the map and its value, if any,
/// is returned.
#[verifier::external_body]
pub(crate) fn fx_remove<V>(m: &mut FxHashMap<usize, V>, k: &usize) -> (r: Option<V>)
    ensures
        final(m)@ == old(m)@.remove(*k),
        match r {
            Some(p) => old(m)@.contains_key(*k) && p == old(m)@[*k],
            None => !old(m)@.contains_key(*k),
        },
{
    m.remove(k)
}

/// Relies on `HashMap::len`: the number of keys in the map.
#[verifier::external_body]
pub(crate) fn fx_len<V>(m: &FxHashMap<usize, V>) -> (r: usize)
    ensures
        r == m@.dom().len(),
{
    m.len()
}

/// Relies on `HashMap::keys`: every key of the map once, in an order that the
/// map chooses.
#[verifier::external_body]
pub(crate) fn fx_keys<V>(m: &FxHashMap<usize, V>) -> (r: Vec<usize>)
    ensures
        r@.no_duplicates(),
        forall|k: usize| m@.contains_key(k) <==> r@.contains(k),
{
    m.keys().copied().collect()
}

} // verus!
