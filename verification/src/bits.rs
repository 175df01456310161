//! Small helpers for reading and setting single bits of a 32-bit word.

use vstd::prelude::*;

verus! {

/// Bit `i` of `bits` is set.
pub open spec fn bit_set(bits: u32, i: u32) -> bool {
    (bits >> i) & 1 == 1
}

/// Setting bit `i` leaves every other bit alone.
pub proof fn lemma_set_bit(b: u32, i: u32)
    by (bit_vector)
    requires
        i < 32,
    ensures
        forall|j: u32|
            j < 32 && j != i ==> (#[trigger] bit_set(b | (1u32 << i), j) <==> bit_set(b, j)),
        bit_set(b | (1u32 << i), i),
{
}

/// The zero word has no bit set.
pub proof fn lemma_zero_bits()
    by (bit_vector)
    ensures
        forall|j: u32| j < 32 ==> !bit_set(0u32, j),
{
}

} // verus!
