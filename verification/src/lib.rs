//! An eventually consistent, read-optimized key-value map.
//!
//! A single writer appends mutations to a private operation log and applies
//! them at once to a shadow copy of the data; readers look only at the other,
//! exposed copy and therefore never see a half-applied batch. Calling
//! [`RwMap::publish`] swaps the roles of the two copies and replays the logged
//! operations onto the copy that was just retired, so both copies converge.
//!
//! Because every logical value lives in two physical cells (one per copy),
//! each cell carries a drop-responsibility tag, and exactly one of a value's
//! two cells is ever responsible for destroying it. Here the two cells hold
//! independent clones, so the guarantee proved is about the model: each value
//! identity is destroyed exactly once over the map's whole lifetime, where
//! destruction means the removal of the identity's `Owning` cell, not an
//! individual Rust destructor call.

mod inner;
mod map;
mod mapguard;
mod op;
mod options;
mod value;

pub use inner::Inner;
pub use map::RwMap;
pub use mapguard::KeysIter;
pub use mapguard::MapReadRef;
pub use mapguard::ReadGuardIter;
pub use mapguard::ValuesIter;
pub use op::NoDrop;
pub use op::Op;
pub use options::Options;
pub use value::DropTag;
pub use value::Value;
