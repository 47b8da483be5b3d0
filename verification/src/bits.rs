//! Sets of small indices, kept in `smol_bitmap::SmolBitmap`.

use smol_bitmap::SmolBitmap;
use vstd::prelude::*;

verus! {

/// `smol_bitmap::SmolBitmap`, carried as an opaque value.
#[verifier::external_type_specification]
#[verifier::external_body]
pub struct ExSmolBitmap(SmolBitmap);

/// The indices of the bits that are set in `bitmap`.
pub uninterp spec fn set_bits(bitmap: SmolBitmap) -> Set<usize>;

/// Whether each of the first `count` bits is set.
pub open spec fn flags(bits: Set<usize>, count: nat) -> Seq<bool> {
    Seq::new(count, |index: int| bits.contains(index as usize))
}

/// `SmolBitmap::new`: no bit is set.
#[verifier::external_body]
pub(crate) fn bits_new() -> (bitmap: SmolBitmap)
    ensures
        set_bits(bitmap) == Set::<usize>::empty(),
{
    SmolBitmap::new()
}

/// `SmolBitmap::get`: whether the bit at `index` is set; an index past the
/// storage reads as unset.
#[verifier::external_body]
pub(crate) fn bits_get(bitmap: &SmolBitmap, index: usize) -> (set: bool)
    ensures
        set == set_bits(*bitmap).contains(index),
{
    bitmap.get(index)
}

/// `SmolBitmap::set`: writes one bit and leaves the others alone. Setting a
/// bit grows the storage to `index + 1` bits, which must be countable.
#[verifier::external_body]
pub(crate) fn bits_set(bitmap: &mut SmolBitmap, index: usize, value: bool)
    requires
        index < usize::MAX,
    ensures
        value ==> set_bits(*final(bitmap)) == set_bits(*old(bitmap)).insert(index),
        !value ==> set_bits(*final(bitmap)) == set_bits(*old(bitmap)).remove(index),
{
    bitmap.set(index, value);
}

/// `SmolBitmap::clear`: unsets every bit.
#[verifier::external_body]
pub(crate) fn bits_clear(bitmap: &mut SmolBitmap)
    ensures
        set_bits(*final(bitmap)) == Set::<usize>::empty(),
{
    bitmap.clear();
}

/// `SmolBitmap::retain` with the predicate [`below`]: keeps the set bits
/// under `limit`.
#[verifier::external_body]
pub(crate) fn bits_retain_below(bitmap: &mut SmolBitmap, limit: usize)
    ensures
        set_bits(*final(bitmap)) == set_bits(*old(bitmap)).filter(|index: usize| index < limit),
{
    bitmap.retain(|index| below(index, limit));
}

/// `SmolBitmap::clone`: the copy has the same bits set.
#[verifier::external_body]
pub(crate) fn bits_clone(bitmap: &SmolBitmap) -> (copy: SmolBitmap)
    ensures
        set_bits(copy) == set_bits(*bitmap),
{
    bitmap.clone()
}

/// `SmolBitmap::eq`: trailing zero words do not count, so two bitmaps are
/// equal when the same bits are set.
#[verifier::external_body]
pub(crate) fn bits_eq(left: &SmolBitmap, right: &SmolBitmap) -> (equal: bool)
    ensures
        equal == (set_bits(*left) == set_bits(*right)),
{
    left == right
}

/// Whether `indices` lists exactly the members of `members`, smallest first.
pub open spec fn ascending_listing(indices: Seq<usize>, members: Set<usize>) -> bool {
    &&& forall|i: int, j: int| 0 <= i < j < indices.len() ==> indices[i] < indices[j]
    &&& forall|i: int| 0 <= i < indices.len() ==> members.contains(#[trigger] indices[i])
    &&& forall|index: usize| #[trigger] members.contains(index) ==> indices.contains(index)
}

/// `SmolBitmap::iter`, collected: the set bits in ascending order.
#[verifier::external_body]
pub(crate) fn bits_indices(bitmap: &SmolBitmap) -> (indices: Vec<usize>)
    ensures
        ascending_listing(indices@, set_bits(*bitmap)),
{
    bitmap.iter().collect()
}

/// Whether `index` lies under `limit`.
pub fn below(index: usize, limit: usize) -> (under: bool)
    ensures
        under == (index < limit),
{
    index < limit
}

} // verus!
