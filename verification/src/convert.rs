//! Conversions between handles and indices, made with the `to_trait` crate.
use to_trait::To;
use vstd::prelude::*;

verus! {

/// `To::to`, from `u8` to `usize`: the same number.
#[verifier::external_body]
pub(crate) fn toIndex(id: u8) -> (index: usize)
    ensures
        index == id,
{
    id.to::<usize>()
}

/// `To::try_to`, from `usize` to `u8`: the same number where it fits a `u8`,
/// and nothing where it does not.
#[verifier::external_body]
pub(crate) fn toNodeId(index: usize) -> (id: Option<u8>)
    ensures
        index <= 255 ==> id == Some(index as u8),
        index > 255 ==> id is None,
{
    index.try_to::<u8>().ok()
}

} // verus!
