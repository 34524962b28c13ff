//! `bit_set::BitSet`, as the library uses it: a set of small integers.

use vstd::prelude::*;

verus! {

#[verifier::external_type_specification]
#[verifier::external_body]
#[verifier::reject_recursive_types(B)]
pub struct ExBitSet<B>(bit_set::BitSet<B>);

/// What a bit set holds.
pub uninterp spec fn bits_of(b: bit_set::BitSet) -> Set<usize>;

/// Values at or above this bound are never stored in a bit set here.
pub const BITS_LIMIT: usize = 4096;

/// Relies on `BitSet::new`: a new set holds nothing.
#[verifier::external_body]
pub(crate) fn bits_new() -> (r: bit_set::BitSet)
    ensures
        bits_of(r) == Set::<usize>::empty(),
{
    bit_set::BitSet::new()
}

/// Relies on `BitSet::insert`: afterwards the set also holds `v`, and only that
/// changed. The bit vector grows to `v + 1` bits, hence the bound.
#[verifier::external_body]
pub(crate) fn bits_insert(b: &mut bit_set::BitSet, v: usize)
    requires
        v < BITS_LIMIT,
    ensures
        bits_of(*final(b)) == bits_of(*old(b)).insert(v),
{
    b.insert(v);
}

/// Relies on `BitSet::contains`: whether the set holds `v`.
#[verifier::external_body]
pub(crate) fn bits_contains(b: &bit_set::BitSet, v: usize) -> (r: bool)
    ensures
        r == bits_of(*b).contains(v),
{
    b.contains(v)
}

} // verus!
