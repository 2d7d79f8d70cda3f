//! Hash maps keyed by an identifier, hashed as `rustc_hash` does.
//!
//! The map is `rustc_hash::FxHashMap`, which is the hash map of the
//! standard library with the hasher of `rustc_hash`. Its methods are
//! reached through the functions below. Their contracts are not proved:
//! they say of a map with `usize` keys what the documentation of
//! `std::collections::HashMap` says of every key that is hashed and
//! compared lawfully, over the view of the map as a mathematical map.

use vstd::prelude::*;
use rustc_hash::{FxHashMap, FxHasher};
use std::hash::BuildHasherDefault;

verus! {

/// `rustc_hash::FxHasher`, the hasher of the maps. Nothing is said of it:
/// it only stands in the type of the maps.
#[verifier::external_type_specification]
#[verifier::external_body]
pub struct ExFxHasher(FxHasher);

/// `std::hash::BuildHasherDefault`, which makes the hasher of a map by
/// `Default`. Nothing is said of it either.
#[verifier::external_type_specification]
#[verifier::external_body]
#[verifier::reject_recursive_types(H)]
pub struct ExBuildHasherDefault<H>(BuildHasherDefault<H>);

/// `FxHashMap::default`: a map that holds nothing.
#[verifier::external_body]
pub(crate) fn fx_new<V>() -> (r: FxHashMap<usize, V>)
    ensures
        r@ =~= (Map::<usize, V>::empty()),
{
    FxHashMap::default()
}

/// `HashMap::insert`: the key is bound to the new value, every other key
/// keeps its value, and the value that the key had before is returned.
#[verifier::external_body]
pub(crate) fn fx_insert<V>(m: &mut FxHashMap<usize, V>, k: usize, v: V) -> (prev: Option<V>)
    ensures
        final(m)@ == old(m)@.insert(k, v),
        prev == (if old(m)@.contains_key(k) {
            Some(old(m)@[k])
        } else {
            None
        }),
{
    m.insert(k, v)
}

/// `HashMap::get`: the value bound to the key, if there is one.
#[verifier::external_body]
pub(crate) fn fx_get<V>(m: &FxHashMap<usize, V>, k: usize) -> (r: Option<&V>)
    ensures
        r == (if m@.contains_key(k) {
            Some(&m@[k])
        } else {
            None
        }),
{
    m.get(&k)
}

/// `HashMap::contains_key`: whether the key is bound.
#[verifier::external_body]
pub(crate) fn fx_contains_key<V>(m: &FxHashMap<usize, V>, k: usize) -> (r: bool)
    ensures
        r == m@.contains_key(k),
{
    m.contains_key(&k)
}

/// `HashMap::remove`: the key is no longer bound, every other key keeps its
/// value, and the value that the key had is returned.
#[verifier::external_body]
pub(crate) fn fx_remove<V>(m: &mut FxHashMap<usize, V>, k: usize) -> (prev: Option<V>)
    ensures
        final(m)@ == old(m)@.remove(k),
        prev == (if old(m)@.contains_key(k) {
            Some(old(m)@[k])
        } else {
            None
        }),
{
    m.remove(&k)
}

} // verus!
