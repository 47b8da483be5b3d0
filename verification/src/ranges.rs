//! Short lists of byte ranges, kept in `smallvec::SmallVec`.

use smallvec::SmallVec;
use vstd::prelude::*;

verus! {

/// `smallvec::SmallVec`, carried as an opaque value.
#[verifier::external_type_specification]
#[verifier::external_body]
#[verifier::reject_recursive_types(T)]
pub struct ExSmallVec<T, const N: usize>(SmallVec<T, N>);

/// A list of byte ranges, each with its first byte and the byte behind it.
pub type RangeList = SmallVec<(usize, usize), 8>;

/// The ranges of a list, in order.
pub uninterp spec fn listed(list: SmallVec<(usize, usize), 8>) -> Seq<(usize, usize)>;

/// `SmallVec::new`: an empty list.
#[verifier::external_body]
pub(crate) fn ranges_new() -> (list: RangeList)
    ensures
        listed(list) == Seq::<(usize, usize)>::empty(),
{
    SmallVec::new()
}

/// `SmallVec::push`: appends one range.
#[verifier::external_body]
pub(crate) fn ranges_push(list: &mut RangeList, start: usize, end: usize)
    ensures
        listed(*final(list)) == listed(*old(list)).push((start, end)),
{
    list.push((start, end));
}

/// `SmallVec::len`: the number of ranges.
#[verifier::external_body]
pub(crate) fn ranges_len(list: &RangeList) -> (count: usize)
    ensures
        count == listed(*list).len(),
{
    list.len()
}

/// `SmallVec::as_slice`, indexed: the range at a position inside the list.
#[verifier::external_body]
pub(crate) fn ranges_get(list: &RangeList, at: usize) -> (range: (usize, usize))
    requires
        at < listed(*list).len(),
    ensures
        range == listed(*list)[at as int],
{
    list.as_slice()[at]
}

} // verus!
