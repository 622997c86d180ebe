//! The perceptual brightness curve: a gamma-like map from linear brightness
//! to perceived brightness, `round(v * v / 255)` on the 0..=255 range. The
//! human eye's response to LED duty cycle is roughly square-root shaped, so
//! squaring the linear value before scheduling yields an even-looking fade.

use vstd::prelude::*;

verus! {

/// Perceived brightness owed for a linear brightness `v`: `v * v / 255`
/// rounded to the nearest integer.
pub open spec fn perceived_spec(v: u8) -> u8 {
    ((v * v + 127) / 255) as u8
}

/// Map a linear brightness through the perceptual curve.
pub fn perceived(v: u8) -> (r: u8)
    ensures
        r == perceived_spec(v),
{
    let w: u32 = v as u32;
    proof {
        assert(w * w + 127 <= 255 * 255 + 127) by (nonlinear_arith)
            requires
                w <= 255,
        ;
    }
    ((w * w + 127) / 255) as u8
}

/// The curve fixes both endpoints and never leaves the brightness range.
pub proof fn lemma_curve_range(v: u8)
    ensures
        perceived_spec(v) <= v,
        perceived_spec(0) == 0,
        perceived_spec(255) == 255,
{
    assert(v * v + 127 <= v * 255 + 127) by (nonlinear_arith)
        requires
            v <= 255,
    ;
    assert((v * 255 + 127) / 255 == v + 127int / 255);
}

} // verus!
