//! The list of pieces that material counting fills and then sums.
//!
//! The list is a `smallvec::SmallVec` with room for 32 pieces in place. A
//! piece is held as the index of its kind and the number of its square.

use vstd::prelude::*;
use smallvec::SmallVec;

verus! {

/// A list of pieces: a `smallvec::SmallVec` of pairs of a kind's index and a
/// square's number. What it holds is known through [`held`] alone.
#[verifier::external_body]
pub struct PieceList {
    items: SmallVec<[(u8, u8); 32]>,
}

/// The pieces that a list holds, in the order in which they were pushed.
pub uninterp spec fn held(list: PieceList) -> Seq<(u8, u8)>;

/// Calls `SmallVec::new`, which makes a list that holds nothing.
#[verifier::external_body]
pub(crate) fn new_list() -> (list: PieceList)
    ensures
        held(list) == Seq::<(u8, u8)>::empty(),
{
    PieceList { items: SmallVec::new() }
}

/// Calls `SmallVec::push`, which appends the item behind those that the list
/// holds.
#[verifier::external_body]
pub(crate) fn list_push(list: &mut PieceList, item: (u8, u8))
    ensures
        held(*final(list)) == held(*old(list)).push(item),
{
    list.items.push(item)
}

/// Calls `SmallVec::len`, the number of items that the list holds.
#[verifier::external_body]
pub(crate) fn list_len(list: &PieceList) -> (n: usize)
    ensures
        n == held(*list).len(),
{
    list.items.len()
}

/// Indexes the list as a slice, which yields the item at that place.
#[verifier::external_body]
pub(crate) fn list_get(list: &PieceList, at: usize) -> (item: (u8, u8))
    requires
        at < held(*list).len(),
    ensures
        item == held(*list)[at as int],
{
    list.items[at]
}

} // verus!
