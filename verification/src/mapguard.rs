//! A live reference into the exposed copy of the map.
//!
//! While a guard lives it borrows the map, so the writer cannot publish; in
//! the concurrent embedding this is exactly the guarantee the per-reader
//! epoch counters give: publish waits until every guard over the retired copy
//! is gone. Everything read through one guard comes from the same snapshot.

use vstd::prelude::*;

use std::collections::hash_map;
use std::hash::BuildHasher;
use std::hash::Hash;

use crate::inner::Inner;
use crate::inner::hash_model_ok;
use crate::inner::lemma_payload_dom;
use crate::inner::payload_of;
use crate::value::Value;
use vstd::std_specs::iter::IteratorSpec;

verus! {

/// A guard over the exposed buffer copy: all reads through it see the copy
/// as it was when the guard was taken.
#[verifier::reject_recursive_types(S)]
pub struct MapReadRef<'rh, K, V, M, S> {
    pub(crate) guard: &'rh Inner<K, V, M, S>,
}

impl<'rh, K, V, M, S> MapReadRef<'rh, K, V, M, S> {
    /// The key-value contents this guard sees.
    pub closed spec fn contents(self) -> Map<K, V> {
        self.guard.payload()
    }

    /// The metadata this guard sees.
    pub closed spec fn meta_view(self) -> M {
        self.guard.meta
    }

    /// The full cells of the copy this guard sees, tags included.
    pub closed spec fn cells(self) -> Map<K, Value<V>> {
        self.guard.data@
    }

    /// A guard is only handed out over a ready copy of a map whose key type
    /// and hash strategy behave like a mathematical map.
    pub closed spec fn wf(self) -> bool {
        &&& hash_model_ok::<K, S>()
        &&& self.guard.ready
    }

    /// The guard's key-value contents are exactly the payloads of its cells,
    /// with the same keys and the same count: what the iterators (stated over
    /// the cells) walk is what `get`, `len` and `contains_key` (stated over
    /// the contents) answer for.
    pub proof fn lemma_contents_are_cell_payloads(self)
        ensures
            self.contents() == payload_of(self.cells()),
            self.contents().dom() == self.cells().dom(),
            self.contents().len() == self.cells().len(),
    {
        lemma_payload_dom::<K, V>(self.cells());
    }

    /// Wrap a borrow of a ready buffer copy as a guard.
    pub(crate) fn new(guard: &'rh Inner<K, V, M, S>) -> (r: Self)
        requires
            hash_model_ok::<K, S>(),
            guard.ready,
        ensures
            r.wf(),
            r.contents() == guard.payload(),
            r.meta_view() == guard.meta,
    {
        MapReadRef { guard }
    }
}

impl<'rh, K: Eq + Hash, V, M, S: BuildHasher> MapReadRef<'rh, K, V, M, S> {
    /// A borrow of the value stored for the given key, if any.
    pub fn get(&self, key: &K) -> (r: Option<&'rh V>)
        requires
            self.wf(),
        ensures
            match r {
                Some(v) => self.contents().contains_key(*key) && *v == self.contents()[*key],
                None => !self.contents().contains_key(*key),
            },
    {
        self.guard.get_value(key)
    }

    /// Whether the map this guard sees contains the given key.
    pub fn contains_key(&self, key: &K) -> (r: bool)
        requires
            self.wf(),
        ensures
            r == self.contents().contains_key(*key),
    {
        self.guard.contains_key(key)
    }

    /// The number of keys this guard sees.
    pub fn len(&self) -> (r: usize)
        requires
            self.wf(),
        ensures
            r == self.contents().len(),
    {
        self.guard.len()
    }

    /// Whether this guard sees no keys at all.
    pub fn is_empty(&self) -> (r: bool)
        requires
            self.wf(),
        ensures
            r == (self.contents().len() == 0),
    {
        self.guard.len() == 0
    }

    /// Iterate over all key-cell pairs in the copy this guard sees: each
    /// present key appears with its cell exactly once, in the hash table's
    /// order.
    pub fn iter(&self) -> (r: ReadGuardIter<'rh, K, V>)
        requires
            self.wf(),
        ensures
            r.iter.remaining().no_duplicates(),
            r.iter.remaining().len() == self.cells().dom().len(),
            forall|i: int|
                0 <= i < r.iter.remaining().len() ==> #[trigger] self.cells().contains_key(
                    *r.iter.remaining()[i].0,
                ) && self.cells()[*r.iter.remaining()[i].0] == *r.iter.remaining()[i].1,
            forall|k: K| #[trigger]
                self.cells().contains_key(k) ==> r.iter.remaining().contains(
                    (&k, &self.cells()[k]),
                ),
    {
        ReadGuardIter { iter: self.guard.data.iter() }
    }

    /// Iterate over all keys in the copy this guard sees: each present key
    /// appears exactly once, in the hash table's order.
    pub fn keys(&self) -> (r: KeysIter<'rh, K, V>)
        requires
            self.wf(),
        ensures
            r.iter.remaining().no_duplicates(),
            r.iter.remaining().len() == self.cells().dom().len(),
            r.iter.remaining().unref().to_set() == self.cells().dom(),
    {
        KeysIter { iter: self.guard.data.keys() }
    }

    /// Iterate over all value cells in the copy this guard sees: one cell for
    /// each present key, in the hash table's order.
    pub fn values(&self) -> (r: ValuesIter<'rh, K, V>)
        requires
            self.wf(),
        ensures
            r.iter.remaining().len() == self.cells().dom().len(),
            r.iter.remaining().unref().to_set() == self.cells().values(),
    {
        ValuesIter { iter: self.guard.data.values() }
    }

    /// The metadata of the copy this guard sees.
    pub fn meta(&self) -> (r: &'rh M)
        ensures
            r == self.meta_view(),
    {
        &self.guard.meta
    }
}

/// Step any standard iterator once; the contract is the standard library
/// iterator law vstd states for `Iterator::next`, made available to the
/// concrete hash-table iterators below.
fn advance<I: Iterator>(it: &mut I) -> (r: Option<I::Item>)
    ensures
        (*final(it)).obeys_prophetic_iter_laws() == (*old(it)).obeys_prophetic_iter_laws(),
        (*final(it)).obeys_prophetic_iter_laws() ==> ({
            if (*old(it)).remaining().len() > 0 {
                &&& (*final(it)).remaining() == (*old(it)).remaining().drop_first()
                &&& r == Some((*old(it)).remaining()[0])
            } else {
                &&& (*final(it)).remaining() == (*old(it)).remaining()
                &&& r is None
            }
        }),
{
    it.next()
}

/// A lazy forward iterator over the key-cell pairs a guard sees, in the hash
/// table's order.
pub struct ReadGuardIter<'rg, K, V> {
    pub iter: hash_map::Iter<'rg, K, Value<V>>,
}

impl<'rg, K, V> ReadGuardIter<'rg, K, V> {
    /// The next key-cell pair, or nothing once the pairs are exhausted.
    pub fn next(&mut self) -> (r: Option<(&'rg K, &'rg Value<V>)>)
        ensures
            old(self).iter.remaining().len() > 0 ==> final(self).iter.remaining() == old(
                self,
            ).iter.remaining().drop_first() && r == Some(old(self).iter.remaining()[0]),
            old(self).iter.remaining().len() == 0 ==> r is None && final(self).iter.remaining()
                == old(self).iter.remaining(),
    {
        advance(&mut self.iter)
    }
}

/// A lazy forward iterator over the keys a guard sees.
pub struct KeysIter<'rg, K, V> {
    pub iter: hash_map::Keys<'rg, K, Value<V>>,
}

impl<'rg, K, V> KeysIter<'rg, K, V> {
    /// The next key, or nothing once the keys are exhausted.
    pub fn next(&mut self) -> (r: Option<&'rg K>)
        ensures
            old(self).iter.remaining().len() > 0 ==> final(self).iter.remaining() == old(
                self,
            ).iter.remaining().drop_first() && r == Some(old(self).iter.remaining()[0]),
            old(self).iter.remaining().len() == 0 ==> r is None && final(self).iter.remaining()
                == old(self).iter.remaining(),
    {
        advance(&mut self.iter)
    }
}

/// A lazy forward iterator over the value cells a guard sees.
pub struct ValuesIter<'rg, K, V> {
    pub iter: hash_map::Values<'rg, K, Value<V>>,
}

impl<'rg, K, V> ValuesIter<'rg, K, V> {
    /// The next value cell, or nothing once the cells are exhausted.
    pub fn next(&mut self) -> (r: Option<&'rg Value<V>>)
        ensures
            old(self).iter.remaining().len() > 0 ==> final(self).iter.remaining() == old(
                self,
            ).iter.remaining().drop_first() && r == Some(old(self).iter.remaining()[0]),
            old(self).iter.remaining().len() == 0 ==> r is None && final(self).iter.remaining()
                == old(self).iter.remaining(),
    {
        advance(&mut self.iter)
    }
}

} // verus!
