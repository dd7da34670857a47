//! Builder-style bundle of the two construction choices of a map: the
//! initial metadata and the hash strategy.

use vstd::prelude::*;

use std::collections::hash_map::RandomState;
use std::hash::BuildHasher;

verus! {

/// Relies on std's `RandomState::default`: it builds a randomly keyed
/// standard hash strategy. Nothing is assumed of the returned value.
pub assume_specification[ <RandomState as Default>::default ]() -> RandomState;

/// The construction choices of a map: an initial metadata value and the hash
/// strategy that both buffer copies will use.
pub struct Options<M, S>
    where S: BuildHasher,
 {
    pub(crate) meta: M,
    pub(crate) hasher: S,
}

impl<M, S: BuildHasher> Options<M, S> {
    /// The initial metadata these options carry.
    pub closed spec fn meta_view(self) -> M {
        self.meta
    }

    /// The hash strategy these options carry.
    pub closed spec fn hasher_view(self) -> S {
        self.hasher
    }

    /// Options from an explicit metadata value and hash strategy.
    pub fn new(meta: M, hasher: S) -> (r: Self)
        ensures
            r.meta_view() == meta,
            r.hasher_view() == hasher,
    {
        Options { meta, hasher }
    }

    /// The same options with the metadata replaced, possibly at another type.
    pub fn with_meta<M2>(self, meta: M2) -> (r: Options<M2, S>)
        ensures
            r.meta_view() == meta,
            r.hasher_view() == self.hasher_view(),
    {
        Options { meta, hasher: self.hasher }
    }

    /// The same options with the hash strategy replaced, possibly at another
    /// type.
    pub fn with_hasher<S2: BuildHasher + Clone>(self, hasher: S2) -> (r: Options<M, S2>)
        ensures
            r.meta_view() == self.meta_view(),
            r.hasher_view() == hasher,
    {
        Options { meta: self.meta, hasher }
    }
}

impl Default for Options<(), RandomState> {
    /// Unit metadata and the standard keyed hash strategy.
    fn default() -> (r: Self)
        ensures
            r.meta_view() == (),
    {
        Options { meta: (), hasher: RandomState::default() }
    }
}

} // verus!
