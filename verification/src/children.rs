//! The child list of a cell: an `arrayvec::ArrayVec` of two handles at most;
//! and the search for a handle in a list, made by `itertools`.
//!
//! Verus does not look inside an `ArrayVec`. What one holds is named by
//! [`child_list`], and every function here states what the corresponding
//! operation of `ArrayVec` does to that sequence. These statements are
//! believed, not proved.
use arrayvec::ArrayVec;
use itertools::Itertools;
use vstd::prelude::*;

verus! {

#[verifier::external_type_specification]
#[verifier::external_body]
#[verifier::reject_recursive_types(T)]
/// Makes `arrayvec::ArrayVec` known to Verus as a type that it does not look
/// into.
pub struct ExArrayVec<T, const CAP: usize>(ArrayVec<T, CAP>);

/// The handles that a child list holds, first child first.
pub uninterp spec fn child_list(list: ArrayVec<u8, 2>) -> Seq<u8>;

/// `ArrayVec::new`: a list that holds nothing.
#[verifier::external_body]
pub(crate) fn emptyChildren() -> (list: ArrayVec<u8, 2>)
    ensures
        child_list(list) == Seq::<u8>::empty(),
{
    ArrayVec::new()
}

/// `ArrayVec::push`: the handle is added behind the ones already held. The
/// call panics on a full list, which the precondition leaves out.
#[verifier::external_body]
pub(crate) fn pushChild(list: &mut ArrayVec<u8, 2>, child: u8)
    requires
        child_list(*old(list)).len() < 2,
    ensures
        child_list(*final(list)) == child_list(*old(list)).push(child),
{
    list.push(child)
}

/// `ArrayVec::remove`: the handle at `index` leaves and is returned, the ones
/// behind it move down by one. The call panics on an index out of bounds,
/// which the precondition leaves out.
#[verifier::external_body]
pub(crate) fn removeChild(list: &mut ArrayVec<u8, 2>, index: usize) -> (removed: u8)
    requires
        index < child_list(*old(list)).len(),
    ensures
        child_list(*final(list)) == child_list(*old(list)).remove(index as int),
        removed == child_list(*old(list))[index as int],
{
    list.remove(index)
}

/// `ArrayVec::as_slice`: the handles held, in order.
#[verifier::external_body]
pub(crate) fn childSlice(list: &ArrayVec<u8, 2>) -> (slice: &[u8])
    ensures
        slice@ == child_list(*list),
{
    list.as_slice()
}

/// `Clone::clone` of an `ArrayVec`: a list that holds the same handles.
#[verifier::external_body]
pub(crate) fn cloneChildren(list: &ArrayVec<u8, 2>) -> (copy: ArrayVec<u8, 2>)
    ensures
        child_list(copy) == child_list(*list),
{
    list.clone()
}

/// `<[T]>::swap`, reached through the list's `DerefMut`: the handles at the
/// two indices change places. The call panics on an index out of bounds,
/// which the precondition leaves out.
#[verifier::external_body]
pub(crate) fn swapChildPair(list: &mut ArrayVec<u8, 2>, a: usize, b: usize)
    requires
        a < child_list(*old(list)).len(),
        b < child_list(*old(list)).len(),
    ensures
        child_list(*final(list)) == child_list(*old(list)).update(
            a as int,
            child_list(*old(list))[b as int],
        ).update(b as int, child_list(*old(list))[a as int]),
{
    list.swap(a, b)
}

/// Whether two handles are the same.
pub fn sameNode(left: u8, right: u8) -> (same: bool)
    ensures
        same == (left == right),
{
    left == right
}

/// `Itertools::find_position` on the handles of a slice, asked for the first
/// one that is `wanted`: its index, or nothing where no handle is `wanted`.
#[verifier::external_body]
pub(crate) fn positionOf(handles: &[u8], wanted: u8) -> (position: Option<usize>)
    ensures
        match position {
            Some(index) => index < handles@.len() && handles@[index as int] == wanted && forall|
                before: int,
            |
                0 <= before < index ==> handles@[before] != wanted,
            None => !handles@.contains(wanted),
        },
{
    handles.iter().find_position(|handle| sameNode(**handle, wanted)).map(|found| found.0)
}

} // verus!
