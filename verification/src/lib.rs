//! Write-batch item model for an LSM-tree based key-value store.
//!
//! The crate defines the unit of mutation (`Item`): a partition
//! identifier, a key, a value and a delete-marker kind, validated
//! against the size envelope that the persistence layer's
//! length-prefix encoding demands.  Around it stands the merge
//! abstraction (`CompactItem`): a wrapper that orders mutation
//! records by key alone, so that a k-way merge can group the records
//! that share a key and apply its own precedence policy to the group.

use vstd::prelude::*;

pub mod bytes;
pub mod compact;
pub mod engine;
pub mod item;

verus! {

pub use bytes::key_cmp;
pub use compact::CompactItem;
pub use item::Item;
pub use item::ItemError;
pub use item::ValueType;

} // verus!
