//! Wrap-aware arithmetic on 16-bit sequence numbers.
//!
//! Sequence numbers wrap modulo 2^16, and comparisons treat the point
//! 32768 steps away as the direction boundary: `a` is "greater than" `b`
//! when moving forward from `b` reaches `a` in fewer than 32768 steps.

use vstd::prelude::*;

verus! {

/// `a` is ahead of `b` in wrap-aware order.
pub open spec fn spec_sequence_greater_than(a: u16, b: u16) -> bool {
    ||| (a > b && a - b <= 32768)
    ||| (a < b && b - a > 32768)
}

/// `a` is behind `b` in wrap-aware order.
pub open spec fn spec_sequence_less_than(a: u16, b: u16) -> bool {
    spec_sequence_greater_than(b, a)
}

/// Sum of two sequence numbers, wrapping modulo 2^16.
pub open spec fn spec_sequence_add(a: u16, b: u16) -> u16 {
    ((a + b) % 0x10000) as u16
}

/// Difference `a - b` of two sequence numbers, wrapping modulo 2^16.
pub open spec fn spec_sequence_sub(a: u16, b: u16) -> u16 {
    ((a + 0x10000 - b) % 0x10000) as u16
}

#[verifier::when_used_as_spec(spec_sequence_greater_than)]
pub fn sequence_greater_than(a: u16, b: u16) -> (r: bool)
    ensures
        r == spec_sequence_greater_than(a, b),
{
    (a > b && a - b <= 32768) || (a < b && b - a > 32768)
}

#[verifier::when_used_as_spec(spec_sequence_less_than)]
pub fn sequence_less_than(a: u16, b: u16) -> (r: bool)
    ensures
        r == spec_sequence_less_than(a, b),
{
    sequence_greater_than(b, a)
}

#[verifier::when_used_as_spec(spec_sequence_add)]
pub fn sequence_add(a: u16, b: u16) -> (r: u16)
    ensures
        r == spec_sequence_add(a, b),
{
    (((a as u32) + (b as u32)) % 0x10000) as u16
}

#[verifier::when_used_as_spec(spec_sequence_sub)]
pub fn sequence_sub(a: u16, b: u16) -> (r: u16)
    ensures
        r == spec_sequence_sub(a, b),
{
    (((a as u32) + 0x10000 - (b as u32)) % 0x10000) as u16
}

/// The number of forward steps from `a` to `b`; zero only when they are equal.
pub open spec fn spec_sequence_distance(a: u16, b: u16) -> int {
    spec_sequence_sub(b, a) as int
}

/// A sequence number is never "less than" itself minus a window of at
/// most 32767: the freshest sequence always clears its own buffer's
/// staleness test.
pub proof fn lemma_current_not_stale(cur: u16, window: u16)
    requires
        1 <= window <= 32767,
    ensures
        !spec_sequence_less_than(cur, spec_sequence_sub(cur, window)),
{
    let cutoff = spec_sequence_sub(cur, window);
    if cur >= window {
        assert((cur + 0x10000 - window) % 0x10000 == cur - window) by (nonlinear_arith)
            requires
                window <= cur < 0x10000,
        ;
    } else {
        assert((cur + 0x10000 - window) % 0x10000 == cur + 0x10000 - window) by (
        nonlinear_arith)
            requires
                0 <= cur < window <= 0x10000,
        ;
    }
}

/// Adding back a subtracted offset restores the original sequence.
pub proof fn lemma_sub_then_add(a: u16, b: u16)
    ensures
        spec_sequence_add(spec_sequence_sub(a, b), b) == a,
        spec_sequence_sub(spec_sequence_add(a, b), b) == a,
{
    assert(spec_sequence_add(spec_sequence_sub(a, b), b) == a) by (nonlinear_arith);
    assert(spec_sequence_sub(spec_sequence_add(a, b), b) == a) by (nonlinear_arith);
}

} // verus!
