//! A single dimmable channel: an 8-bit brightness cell with explicit
//! saturating and wrapping update policies.

use vstd::prelude::*;

verus! {

/// Saturating addition on the 8-bit brightness range.
pub open spec fn sat_add(a: u8, b: u8) -> u8 {
    if a + b > 255 {
        255u8
    } else {
        (a + b) as u8
    }
}

/// Saturating subtraction on the 8-bit brightness range.
pub open spec fn sat_sub(a: u8, b: u8) -> u8 {
    if a - b < 0 {
        0u8
    } else {
        (a - b) as u8
    }
}

/// Wrapping (modulo-256) addition on the 8-bit brightness range.
pub open spec fn wrap_add(a: u8, b: u8) -> u8 {
    ((a + b) % 256) as u8
}

/// Wrapping (modulo-256) subtraction on the 8-bit brightness range.
pub open spec fn wrap_sub(a: u8, b: u8) -> u8 {
    ((a - b + 256) % 256) as u8
}

/// One LED channel's target brightness (0 = off, 255 = fully on).
#[derive(Clone, Copy, PartialEq, Eq, Structural)]
pub struct LED {
    pwm_state: u8,
}

impl View for LED {
    type V = u8;

    closed spec fn view(&self) -> u8 {
        self.pwm_state
    }
}

impl LED {
    pub fn new() -> (r: LED)
        ensures
            r@ == 0u8,
    {
        LED { pwm_state: 0 }
    }

    pub fn set(&mut self, pwm: u8)
        ensures
            final(self)@ == pwm,
    {
        self.pwm_state = pwm;
    }

    /// Brighten by `value`, clamping at 255.
    pub fn add(&mut self, value: u8)
        ensures
            final(self)@ == sat_add(old(self)@, value),
    {
        self.pwm_state = self.pwm_state.saturating_add(value);
    }

    /// Darken by `value`, clamping at 0.
    pub fn sub(&mut self, value: u8)
        ensures
            final(self)@ == sat_sub(old(self)@, value),
    {
        self.pwm_state = self.pwm_state.saturating_sub(value);
    }

    pub fn get(&self) -> (r: u8)
        ensures
            r == self@,
    {
        self.pwm_state
    }

    /// Brighten by `value` modulo 256.
    pub fn add_wrapping(&mut self, value: u8)
        ensures
            final(self)@ == wrap_add(old(self)@, value),
    {
        self.pwm_state = self.pwm_state.wrapping_add(value);
    }

    /// Darken by `value` modulo 256.
    pub fn sub_wrapping(&mut self, value: u8)
        ensures
            final(self)@ == wrap_sub(old(self)@, value),
    {
        self.pwm_state = self.pwm_state.wrapping_sub(value);
    }
}

/// The saturating policies compute exactly `min(255, a + b)` and
/// `max(0, a - b)` over the mathematical integers.
pub proof fn lemma_saturation_bounds(a: u8, b: u8)
    ensures
        sat_add(a, b) == if a + b <= 255 { a + b } else { 255int },
        sat_sub(a, b) == if a - b >= 0 { a - b } else { 0int },
{
}

} // verus!
