//! Handoff to the sorted-table engine.
//!
//! The engine keeps keys and values in `lsm_tree::Slice`, a shared
//! immutable byte container.  The functions here move a validated
//! item into that representation and build an item back out of it,
//! loss-free in both directions.  The marker kind travels alongside
//! as the library's own enum; mapping it onto the engine's marker
//! enum is the caller's one remaining step.

use vstd::prelude::*;

verus! {

use crate::item::Item;
use crate::item::ItemError;
use crate::item::ValueType;

#[verifier::external_type_specification]
#[verifier::external_body]
pub struct ExSlice(lsm_tree::Slice);

/// The bytes an engine slice holds.
pub uninterp spec fn slice_bytes(s: lsm_tree::Slice) -> Seq<u8>;

/// Relies on lsm_tree's `From<Vec<u8>> for Slice`: the slice is
/// constructed from exactly the vector's bytes.  The backing store
/// panics on lengths above what a 4-byte length field holds, so the
/// precondition excludes them; every field of a well-formed item is
/// within it.
#[verifier::external_body]
fn slice_from_vec(v: Vec<u8>) -> (r: lsm_tree::Slice)
    requires
        v@.len() <= u32::MAX,
    ensures
        slice_bytes(r) == v@,
{
    lsm_tree::Slice::from(v)
}

/// Relies on lsm_tree's `Slice::as_slice`, which returns the held
/// data as-is, and std's `to_vec` copy of it.
#[verifier::external_body]
fn slice_to_vec(s: &lsm_tree::Slice) -> (r: Vec<u8>)
    ensures
        r@ == slice_bytes(*s),
{
    s.as_slice().to_vec()
}

/// A validated item as the engine's shared slices, in field order:
/// partition, key, value.
pub fn item_into_engine(item: Item) -> (r: (lsm_tree::Slice, lsm_tree::Slice, lsm_tree::Slice))
    requires
        item.wf(),
    ensures
        slice_bytes(r.0) == item.partition@,
        slice_bytes(r.1) == item.key@,
        slice_bytes(r.2) == item.value@,
{
    (
        slice_from_vec(item.partition),
        slice_from_vec(item.key),
        slice_from_vec(item.value),
    )
}

/// Build an item from byte slices the engine already holds, applying
/// the same size checks as `Item::try_new`.
pub fn item_from_engine(
    partition: &lsm_tree::Slice,
    key: &lsm_tree::Slice,
    value: &lsm_tree::Slice,
    value_type: ValueType,
) -> (r: Result<Item, ItemError>)
    ensures
        match r {
            Ok(item) => {
                &&& Item::check(slice_bytes(*partition), slice_bytes(*key), slice_bytes(*value))
                    is Ok
                &&& item.partition@ == slice_bytes(*partition)
                &&& item.key@ == slice_bytes(*key)
                &&& item.value@ == slice_bytes(*value)
                &&& item.value_type == value_type
                &&& item.wf()
            },
            Err(e) => Item::check(slice_bytes(*partition), slice_bytes(*key), slice_bytes(*value))
                == Err::<(), ItemError>(e),
        },
{
    Item::try_new(
        slice_to_vec(partition),
        slice_to_vec(key),
        slice_to_vec(value),
        value_type,
    )
}

} // verus!
