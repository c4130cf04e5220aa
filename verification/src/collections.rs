//! Contracts for the maps and lists that come from outside this crate:
//! `BTreeMap` lookups, the Fx-hashed map of `rustc_hash` and the inline list of
//! `smallvec`.
use std::collections::BTreeMap;
use std::hash::Hash;

use rustc_hash::FxHashMap;
use smallvec::SmallVec;
use vstd::laws_cmp::obeys_cmp;
use vstd::prelude::*;

verus! {

/// The hash builder of `FxHashMap`.
#[verifier::external_type_specification]
#[verifier::external_body]
pub struct ExFxBuildHasher(rustc_hash::FxBuildHasher);

/// Keys that are integers or pairs of integers: their equality is that of the
/// values, and equal keys hash alike.
pub(crate) trait PlainKey: Eq + Hash {

}

impl PlainKey for u32 {

}

impl PlainKey for u64 {

}

impl PlainKey for (i64, i8) {

}

/// `HashMap::get` on an Fx-hashed map: the value under the key, if there is one.
#[verifier::external_body]
pub(crate) fn fx_get<'a, K: PlainKey, V>(m: &'a FxHashMap<K, V>, k: K) -> (r: Option<&'a V>)
    ensures
        match r {
            Some(v) => m@.contains_key(k) && *v == m@[k],
            None => !m@.contains_key(k),
        },
{
    m.get(&k)
}

/// `HashMap::get_mut` on an Fx-hashed map: what is written through the reference
/// becomes the value under the key; no other entry changes.
#[verifier::external_body]
pub(crate) fn fx_get_mut<'a, K: PlainKey, V>(m: &'a mut FxHashMap<K, V>, k: K) -> (r: Option<
    &'a mut V,
>)
    ensures
        match r {
            Some(v) => {
                &&& old(m)@.contains_key(k)
                &&& *v == old(m)@[k]
                &&& final(m)@ == old(m)@.insert(k, *final(v))
            },
            None => !old(m)@.contains_key(k) && final(m)@ == old(m)@,
        },
{
    m.get_mut(&k)
}

/// `HashMap::insert` on an Fx-hashed map: sets the value under the key.
#[verifier::external_body]
pub(crate) fn fx_insert<K: PlainKey, V>(m: &mut FxHashMap<K, V>, k: K, v: V)
    ensures
        final(m)@ == old(m)@.insert(k, v),
{
    m.insert(k, v);
}

/// `HashMap::remove` on an Fx-hashed map: takes the key out.
#[verifier::external_body]
pub(crate) fn fx_remove<K: PlainKey, V>(m: &mut FxHashMap<K, V>, k: K) -> (r: Option<V>)
    ensures
        final(m)@ == old(m)@.remove(k),
        match r {
            Some(v) => old(m)@.contains_key(k) && v == old(m)@[k],
            None => !old(m)@.contains_key(k),
        },
{
    m.remove(&k)
}

/// `HashMap::len` on an Fx-hashed map: the number of keys.
#[verifier::external_body]
pub(crate) fn fx_len<K: PlainKey, V>(m: &FxHashMap<K, V>) -> (r: usize)
    ensures
        r == m@.len(),
{
    m.len()
}

/// `BTreeMap::get_mut`: what is written through the reference becomes the value
/// under the key; no other entry changes.
#[verifier::external_body]
pub(crate) fn btree_get_mut<'a, K: Ord, V>(m: &'a mut BTreeMap<K, V>, k: &K) -> (r: Option<
    &'a mut V,
>)
    requires
        obeys_cmp::<K>(),
    ensures
        match r {
            Some(v) => {
                &&& old(m)@.contains_key(*k)
                &&& *v == old(m)@[*k]
                &&& final(m)@ == old(m)@.insert(*k, *final(v))
            },
            None => !old(m)@.contains_key(*k) && final(m)@ == old(m)@,
        },
{
    m.get_mut(k)
}

/// `BTreeMap::first_key_value`: the entry with the smallest key.
#[verifier::external_body]
pub(crate) fn btree_first<'a, V>(m: &'a BTreeMap<i64, V>) -> (r: Option<(&'a i64, &'a V)>)
    ensures
        match r {
            Some((k, v)) => {
                &&& m@.contains_key(*k)
                &&& *v == m@[*k]
                &&& forall|other: i64| #[trigger] m@.contains_key(other) ==> *k <= other
            },
            None => forall|other: i64| !(#[trigger] m@.contains_key(other)),
        },
{
    m.first_key_value()
}

/// `BTreeMap::last_key_value`: the entry with the largest key.
#[verifier::external_body]
pub(crate) fn btree_last<'a, V>(m: &'a BTreeMap<i64, V>) -> (r: Option<(&'a i64, &'a V)>)
    ensures
        match r {
            Some((k, v)) => {
                &&& m@.contains_key(*k)
                &&& *v == m@[*k]
                &&& forall|other: i64| #[trigger] m@.contains_key(other) ==> other <= *k
            },
            None => forall|other: i64| !(#[trigger] m@.contains_key(other)),
        },
{
    m.last_key_value()
}

/// A short list of order identifiers, kept inline up to four of them.
#[verifier::external_body]
pub struct OrderIds {
    ids: SmallVec<[u64; 4]>,
}

/// The identifiers that a list holds, in order.
pub uninterp spec fn listed_ids(list: OrderIds) -> Seq<u64>;

impl View for OrderIds {
    type V = Seq<u64>;

    open spec fn view(&self) -> Seq<u64> {
        listed_ids(*self)
    }
}

/// `SmallVec::new`: an empty list.
#[verifier::external_body]
pub(crate) fn ids_new() -> (r: OrderIds)
    ensures
        listed_ids(r) == Seq::<u64>::empty(),
{
    OrderIds { ids: SmallVec::new() }
}

/// `SmallVec::push`: appends at the end.
#[verifier::external_body]
pub(crate) fn ids_push(list: &mut OrderIds, id: u64)
    ensures
        listed_ids(*final(list)) == listed_ids(*old(list)).push(id),
{
    list.ids.push(id);
}

/// `SmallVec::clone`: a second list of the same identifiers.
#[verifier::external_body]
pub(crate) fn ids_clone(list: &OrderIds) -> (r: OrderIds)
    ensures
        listed_ids(r) == listed_ids(*list),
{
    OrderIds { ids: list.ids.clone() }
}

/// `SmallVec::len`: the number of identifiers.
#[verifier::external_body]
pub(crate) fn ids_len(list: &OrderIds) -> (r: usize)
    ensures
        r == listed_ids(*list).len(),
{
    list.ids.len()
}

/// Indexing into a `SmallVec`, through the slice that it dereferences to.
#[verifier::external_body]
pub(crate) fn ids_at(list: &OrderIds, i: usize) -> (r: u64)
    requires
        i < listed_ids(*list).len(),
    ensures
        r == listed_ids(*list)[i as int],
{
    list.ids[i]
}

/// `SmallVec::remove`: takes one identifier out and closes the gap.
#[verifier::external_body]
pub(crate) fn ids_remove(list: &mut OrderIds, i: usize)
    requires
        i < listed_ids(*old(list)).len(),
    ensures
        listed_ids(*final(list)) == listed_ids(*old(list)).remove(i as int),
{
    list.ids.remove(i);
}

} // verus!
