//! Hash maps keyed by integers with `rustc_hash`'s `FxHasher`.
use vstd::prelude::*;
use std::hash::BuildHasherDefault;
use rustc_hash::{FxHashMap, FxHashSet, FxHasher};
use crate::types::ParamAttribute;

verus! {

#[verifier::external_type_specification]
#[verifier::external_body]
pub struct ExFxHasher(FxHasher);

#[verifier::external_type_specification]
#[verifier::external_body]
#[verifier::reject_recursive_types(H)]
pub struct ExBuildHasherDefault<H>(BuildHasherDefault<H>);

/// `HashMap::default` with the Fx hasher: an empty map.
#[verifier::external_body]
pub(crate) fn fx_map_new<V>() -> (m: FxHashMap<usize, V>)
    ensures
        m@.dom().is_empty(),
{
    FxHashMap::default()
}

/// `HashMap::insert` with the Fx hasher: the key maps to the value afterwards
/// and every other key keeps its value.
#[verifier::external_body]
pub(crate) fn fx_map_insert<V>(m: &mut FxHashMap<usize, V>, k: usize, v: V)
    ensures
        final(m)@ == old(m)@.insert(k, v),
{
    m.insert(k, v);
}

/// `HashMap::get` with the Fx hasher: the value of the key, if it has one.
#[verifier::external_body]
pub(crate) fn fx_map_get<V>(m: &FxHashMap<usize, V>, k: usize) -> (r: Option<&V>)
    ensures
        match r {
            Some(v) => m@.contains_key(k) && *v == m@[k],
            None => !m@.contains_key(k),
        },
{
    m.get(&k)
}

/// `HashMap::remove` with the Fx hasher: the key's value, if it had one, and
/// the map without the key.
#[verifier::external_body]
pub(crate) fn fx_map_remove<V>(m: &mut FxHashMap<usize, V>, k: usize) -> (r: Option<V>)
    ensures
        final(m)@ == old(m)@.remove(k),
        match r {
            Some(v) => old(m)@.contains_key(k) && v == old(m)@[k],
            None => !old(m)@.contains_key(k),
        },
{
    m.remove(&k)
}

/// `HashMap::into_iter` with the Fx hasher, collected: each entry once, in
/// the order in which the map is walked, of which nothing is said.
#[verifier::external_body]
pub(crate) fn fx_map_into_entries<V>(m: FxHashMap<usize, V>) -> (r: Vec<(usize, V)>)
    ensures
        r@.map_values(|e: (usize, V)| e.0).no_duplicates(),
        r@.map_values(|e: (usize, V)| e.0).to_set() == m@.dom(),
        forall|i: int| 0 <= i < r@.len() ==> m@[#[trigger] r@[i].0] == r@[i].1,
{
    m.into_iter().collect()
}

/// `HashMap`'s `==` with the Fx hasher: the two maps hold the same entries
/// (`ParamAttribute`'s derived `==` compares its one `bool` field).
#[verifier::external_body]
pub(crate) fn attr_map_eq(a: &FxHashMap<usize, ParamAttribute>, b: &FxHashMap<usize, ParamAttribute>) -> (r: bool)
    ensures
        r == (a@ == b@),
{
    a == b
}

} // verus!

verus! {

/// `HashSet::default` with the Fx hasher: an empty set.
#[verifier::external_body]
pub(crate) fn vreg_set_new() -> (s: FxHashSet<usize>)
    ensures
        s@.is_empty(),
{
    FxHashSet::default()
}

/// `HashSet::insert` with the Fx hasher: the value is in the set afterwards;
/// the result tells whether it was not in it before.
#[verifier::external_body]
pub(crate) fn vreg_set_insert(s: &mut FxHashSet<usize>, v: usize) -> (r: bool)
    ensures
        final(s)@ == old(s)@.insert(v),
        r == !old(s)@.contains(v),
{
    s.insert(v)
}

/// `HashSet::contains` with the Fx hasher.
#[verifier::external_body]
pub(crate) fn vreg_set_contains(s: &FxHashSet<usize>, v: usize) -> (r: bool)
    ensures
        r == s@.contains(v),
{
    s.contains(&v)
}

/// `HashSet::iter` with the Fx hasher, collected: each element once, in the
/// order in which the set is walked, of which nothing is said.
#[verifier::external_body]
pub(crate) fn vreg_set_elements(s: &FxHashSet<usize>) -> (r: Vec<usize>)
    ensures
        r@.to_set() == s@,
        r@.no_duplicates(),
{
    s.iter().copied().collect()
}

} // verus!
