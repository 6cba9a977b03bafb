//! The parts of `fixedbitset::FixedBitSet` that the lifecycle validator uses.
//!
//! Nothing here is proved: each item states what the crate's source does.

use vstd::prelude::*;
use fixedbitset::FixedBitSet;

verus! {

#[verifier::external_type_specification]
#[verifier::external_body]
pub struct ExFixedBitSet(FixedBitSet);

/// The indices of the bits set to one in the blocks of a `FixedBitSet`
/// (what `ones` reports). Sets built with `new`, `grow_and_insert` and
/// `remove` alone have none at or beyond their length.
pub uninterp spec fn enabled_bits(bits: FixedBitSet) -> Set<usize>;

/// The length of a `FixedBitSet` in bits, set and unset bits alike.
pub uninterp spec fn bit_length(bits: FixedBitSet) -> nat;

/// Every enabled bit lies below the length.
pub open spec fn bits_below_length(bits: FixedBitSet) -> bool {
    forall|i: usize| #[trigger] enabled_bits(bits).contains(i) ==> i < bit_length(bits)
}

/// `FixedBitSet::new`: a set of length zero with no bit enabled.
#[verifier::external_body]
pub(crate) fn bitset_new() -> (bits: FixedBitSet)
    ensures
        enabled_bits(bits) == Set::<usize>::empty(),
        bit_length(bits) == 0,
{
    FixedBitSet::new()
}

/// `FixedBitSet::contains`: whether `bit` is enabled. The source answers
/// `false` for bits at or beyond the length, so this is stated only of sets
/// whose enabled bits all lie below the length.
#[verifier::external_body]
pub(crate) fn bitset_contains(bits: &FixedBitSet, bit: usize) -> (enabled: bool)
    requires
        bits_below_length(*bits),
    ensures
        enabled == enabled_bits(*bits).contains(bit),
{
    bits.contains(bit)
}

/// `FixedBitSet::len`: the length in bits.
#[verifier::external_body]
pub(crate) fn bitset_len(bits: &FixedBitSet) -> (len: usize)
    ensures
        len == bit_length(*bits),
{
    bits.len()
}

/// `FixedBitSet::grow_and_insert`: grows the length to at least `bit + 1`
/// (new bits disabled), then enables `bit`. The source computes `bit + 1`
/// unchecked, so `bit` must be below `usize::MAX`.
#[verifier::external_body]
pub(crate) fn bitset_grow_and_insert(bits: &mut FixedBitSet, bit: usize)
    requires
        bit < usize::MAX,
        bits_below_length(*old(bits)),
    ensures
        enabled_bits(*final(bits)) == enabled_bits(*old(bits)).insert(bit),
        bit_length(*final(bits)) == if bit_length(*old(bits)) > bit + 1 {
            bit_length(*old(bits))
        } else {
            (bit + 1) as nat
        },
        bits_below_length(*final(bits)),
{
    bits.grow_and_insert(bit)
}

/// `FixedBitSet::remove`: disables `bit`; it panics when `bit` is not
/// below the length, so that is required.
#[verifier::external_body]
pub(crate) fn bitset_remove(bits: &mut FixedBitSet, bit: usize)
    requires
        bit < bit_length(*old(bits)),
        bits_below_length(*old(bits)),
    ensures
        enabled_bits(*final(bits)) == enabled_bits(*old(bits)).remove(bit),
        bit_length(*final(bits)) == bit_length(*old(bits)),
        bits_below_length(*final(bits)),
{
    bits.remove(bit)
}

/// `FixedBitSet::ones`, collected: the enabled bits in increasing order.
#[verifier::external_body]
pub(crate) fn bitset_ones(bits: &FixedBitSet) -> (ones: Vec<usize>)
    requires
        bits_below_length(*bits),
    ensures
        forall|i: usize| #[trigger] ones@.contains(i) <==> enabled_bits(*bits).contains(i),
        forall|i: int, j: int| 0 <= i < j < ones@.len() ==> ones@[i] < ones@[j],
{
    bits.ones().collect()
}

} // verus!
