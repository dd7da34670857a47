//! Value cells: one stored value plus the drop-responsibility tag that
//! decides which of a value's two physical cells destroys it.

use vstd::prelude::*;

verus! {

/// Whether every clone of a `T` value is equal to the value it was made from.
///
/// Both buffer copies hold a physical copy of every key, value and metadata
/// instance, so the map's contracts only mean what they say when a clone
/// carries the same abstract value as its source.
pub open spec fn clone_exact<T: Clone>() -> bool {
    forall|a: T, b: T| #[trigger] vstd::pervasive::cloned::<T>(a, b) ==> a == b
}

/// The drop-responsibility tag of one physical copy of a stored value.
///
/// Exactly one of the two cells that share a logical value is `Owning`; only
/// the removal of that cell counts as destroying the value. The cell created
/// when an operation is first applied (to the shadow buffer) is `Suppressed`;
/// the one created when the operation is replayed onto the other buffer is
/// `Owning`. Since the two cells hold independent clones, "destroying" is the
/// model-level event tracked by the tags and ghost identities; Rust drops
/// each clone on its own.
pub enum DropTag {
    Suppressed,
    Owning,
}

/// One physical copy of a stored value: the payload, its drop-responsibility
/// tag, and the ghost identity of the insertion that produced it.
pub struct Value<V> {
    pub val: V,
    pub tag: DropTag,
    pub id: Ghost<nat>,
}

impl<V> Value<V> {
    /// The cell minted when an insert is first applied: it leaves the
    /// responsibility for destruction with the pending log entry.
    pub(crate) fn new(val: V, id: Ghost<nat>) -> (r: Value<V>)
        ensures
            r == (Value { val, tag: DropTag::Suppressed, id }),
    {
        Value { val, tag: DropTag::Suppressed, id }
    }

    /// The cell minted when the same insert is replayed onto the other
    /// buffer: it takes over the responsibility for destruction.
    pub(crate) fn alias(val: V, id: Ghost<nat>) -> (r: Value<V>)
        ensures
            r == (Value { val, tag: DropTag::Owning, id }),
    {
        Value { val, tag: DropTag::Owning, id }
    }

    /// A borrow of the payload.
    pub fn as_ref(&self) -> (r: &V)
        ensures
            r == self.val,
    {
        &self.val
    }

    /// Whether this copy is the one responsible for destroying the value.
    pub fn is_owning(&self) -> (r: bool)
        ensures
            r == (self.tag is Owning),
    {
        match self.tag {
            DropTag::Owning => true,
            DropTag::Suppressed => false,
        }
    }
}

} // verus!
