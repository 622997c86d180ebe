//! The schedule cache: a 256-entry bitmask table, one entry per phase of the
//! PWM cycle. Entry `t` holds the OR-mask of every channel whose brightness
//! lies strictly above `t`, so the high-frequency driver only indexes the
//! table. The builder sweeps the distinct brightness thresholds instead of
//! recomputing all 256 entries from scratch, and is proved to produce exactly
//! the brute-force table.
//!
//! A rebuild writes the table in place, entry by entry. On hardware where a
//! higher-priority frame interrupt reads the table, a frame that preempts a
//! rebuild may be driven from a partially updated table; that transient
//! visual artifact is a deliberate trade-off, kept here as-is — no shadow
//! buffer or critical section is introduced around the rebuild.

use vstd::prelude::*;

verus! {

use crate::curve::perceived;
use crate::curve::perceived_spec;
use crate::leds::DATAOUT;
use crate::leds::LEDs;
use crate::mask::lemma_mask_avoids;
use crate::mask::lemma_mask_step;
use crate::mask::mask_above;
use crate::mask::sched_mask;

/// A brightness sequence mapped through the perceptual curve.
pub open spec fn perceived_seq(b: Seq<u8>) -> Seq<u8> {
    b.map_values(|v: u8| perceived_spec(v))
}

/// The per-phase bitmask table walked by the frame interrupt.
pub struct PWMCache {
    bitmask: [u32; 256],
}

impl View for PWMCache {
    type V = Seq<u32>;

    closed spec fn view(&self) -> Seq<u32> {
        self.bitmask@
    }
}

impl PWMCache {
    /// Well-formedness: 256 entries, none touching the reserved debug bit.
    pub open spec fn wf(&self) -> bool {
        &&& self@.len() == 256
        &&& forall|t: int| 0 <= t < 256 ==> #[trigger] self@[t] & DATAOUT == 0
    }

    /// An empty schedule: every channel off at every phase.
    pub fn new() -> (r: PWMCache)
        ensures
            r.wf(),
            forall|t: int| 0 <= t < 256 ==> r@[t] == 0u32,
    {
        let r = PWMCache { bitmask: [0u32; 256] };
        proof {
            assert(forall|t: int| 0 <= t < 256 ==> r@[t] == 0u32);
            assert(0u32 & DATAOUT == 0) by (bit_vector);
        }
        r
    }

    /// Rebuild the whole table from an effective-brightness snapshot `eff`
    /// and the pin assignment of `leds`. Rather than recomputing the OR-mask
    /// for each of the 256 phases, mark the distinct brightness values as
    /// thresholds and recompute only when a threshold is crossed; between
    /// thresholds no channel enters or leaves the mask, so the previous mask
    /// is carried forward.
    fn fill_from(&mut self, eff: &[u8; 19], leds: &LEDs)
        requires
            leds.wf(),
        ensures
            final(self).wf(),
            forall|t: int|
                0 <= t < 256 ==> final(self)@[t] == sched_mask(eff@, leds.pins(), t),
    {
        let ghost b = eff@;
        let ghost p = leds.pins();
        let mut marked: [u8; 256] = [0u8; 256];
        marked[0] = 1;
        marked[255] = 1;
        let mut i: usize = 0;
        while i < 19
            invariant
                i <= 19,
                b == eff@,
                marked@.len() == 256,
                marked@[0] == 1u8,
                marked@[255] == 1u8,
                forall|j: int| 0 <= j < i ==> marked@[b[j] as int] == 1u8,
            decreases 19 - i,
        {
            let idx: usize = eff[i] as usize;
            marked[idx] = 1;
            i = i + 1;
        }
        let mut t: usize = 0;
        let mut cur: u32 = 0;
        while t < 256
            invariant
                t <= 256,
                b == eff@,
                p == leds.pins(),
                leds.wf(),
                b.len() == 19,
                p.len() == 19,
                marked@.len() == 256,
                marked@[0] == 1u8,
                forall|j: int| 0 <= j < 19 ==> marked@[b[j] as int] == 1u8,
                self@.len() == 256,
                forall|k: int| 0 <= k < t ==> #[trigger] self@[k] == sched_mask(b, p, k),
                t > 0 ==> cur == sched_mask(b, p, t - 1),
            decreases 256 - t,
        {
            if marked[t] == 1 {
                let mut m: u32 = 0;
                let mut j: usize = 0;
                while j < 19
                    invariant
                        j <= 19,
                        t < 256,
                        b == eff@,
                        p == leds.pins(),
                        leds.wf(),
                        b.len() == 19,
                        p.len() == 19,
                        m == mask_above(b, p, t as int, j as int),
                    decreases 19 - j,
                {
                    if eff[j] > (t as u8) {
                        m = m | leds.pin(j);
                    } else {
                        proof {
                            assert(m | 0u32 == m) by (bit_vector);
                        }
                    }
                    j = j + 1;
                }
                cur = m;
            } else {
                proof {
                    assert forall|j: int| 0 <= j < 19 implies b[j] != t as int by {
                        assert(marked@[b[j] as int] == 1u8);
                    }
                    lemma_mask_step(b, p, t - 1, 19);
                }
            }
            self.bitmask[t] = cur;
            t = t + 1;
        }
        proof {
            assert forall|k: int| 0 <= k < 256 implies self@[k] & DATAOUT == 0 by {
                lemma_mask_avoids(b, p, k, 19, DATAOUT);
            }
        }
    }

    /// Rebuild the schedule from the current brightness values: phase `t`
    /// asserts exactly the channels whose brightness is strictly above `t`.
    pub fn calculate(&mut self, leds: &LEDs)
        requires
            leds.wf(),
        ensures
            final(self).wf(),
            forall|t: int|
                0 <= t < 256 ==> final(self)@[t] == sched_mask(leds.bright(), leds.pins(), t),
    {
        let mut eff: [u8; 19] = [0u8; 19];
        let mut i: usize = 0;
        while i < 19
            invariant
                i <= 19,
                leds.wf(),
                forall|j: int| 0 <= j < i ==> eff@[j] == leds.bright()[j],
            decreases 19 - i,
        {
            eff[i] = leds.get_brightness(i);
            i = i + 1;
        }
        proof {
            assert(eff@ =~= leds.bright());
        }
        self.fill_from(&eff, leds);
    }

    /// Rebuild the schedule from the current brightness values mapped
    /// through the perceptual curve, which usually yields a more
    /// even-looking fade to the human eye.
    pub fn calculate_perceived(&mut self, leds: &LEDs)
        requires
            leds.wf(),
        ensures
            final(self).wf(),
            forall|t: int|
                0 <= t < 256 ==> final(self)@[t] == sched_mask(
                    perceived_seq(leds.bright()),
                    leds.pins(),
                    t,
                ),
    {
        let mut eff: [u8; 19] = [0u8; 19];
        let mut i: usize = 0;
        while i < 19
            invariant
                i <= 19,
                leds.wf(),
                forall|j: int| 0 <= j < i ==> eff@[j] == perceived_spec(leds.bright()[j]),
            decreases 19 - i,
        {
            eff[i] = perceived(leds.get_brightness(i));
            i = i + 1;
        }
        proof {
            assert(eff@ =~= perceived_seq(leds.bright()));
        }
        self.fill_from(&eff, leds);
    }

    /// The pins to drive low (LEDs on, active-low wiring) at phase `time`.
    pub fn get_clear_bits(&self, time: u8) -> (r: u32)
        ensures
            r == self@[time as int],
    {
        self.bitmask[time as usize]
    }

    /// The pins to drive high (LEDs off) at phase `time`: the complement of
    /// the on-mask, with the reserved debug bit left untouched.
    pub fn get_set_bits(&self, time: u8) -> (r: u32)
        ensures
            r == !self@[time as int] & !DATAOUT,
    {
        !self.bitmask[time as usize] & !DATAOUT
    }
}

/// At every phase the on-mask and the off-mask split the non-reserved bit
/// space exactly: they are disjoint, they cover every bit but the reserved
/// one, and the reserved bit is clear in both.
pub proof fn lemma_on_off_partition(c: &PWMCache, t: u8)
    requires
        c.wf(),
    ensures
        c@[t as int] & (!c@[t as int] & !DATAOUT) == 0,
        c@[t as int] | (!c@[t as int] & !DATAOUT) == !DATAOUT,
        c@[t as int] & DATAOUT == 0,
        (!c@[t as int] & !DATAOUT) & DATAOUT == 0,
{
    let on = c@[t as int];
    assert(on & (!on & !DATAOUT) == 0 && (on & DATAOUT == 0 ==> on | (!on & !DATAOUT)
        == !DATAOUT) && (!on & !DATAOUT) & DATAOUT == 0) by (bit_vector);
}


/// The frame interrupt's cyclic phase counter: advanced by exactly one step,
/// with wraparound 255 to 0, on every invocation of the driver.
pub struct PhaseCounter {
    phase: u8,
}

impl View for PhaseCounter {
    type V = u8;

    closed spec fn view(&self) -> u8 {
        self.phase
    }
}

impl PhaseCounter {
    /// A counter at phase 0.
    pub fn new() -> (r: PhaseCounter)
        ensures
            r@ == 0u8,
    {
        PhaseCounter { phase: 0 }
    }

    /// One frame tick: advance the phase cyclically and select the pin
    /// commands owed at the new phase. The first result is the on-mask (the
    /// schedule entry), the second the off-mask (its complement less the
    /// reserved debug bit); the caller hands both to the pin driver.
    pub fn step(&mut self, cache: &PWMCache) -> (r: (u32, u32))
        ensures
            final(self)@ == crate::led::wrap_add(old(self)@, 1),
            r.0 == cache@[final(self)@ as int],
            r.1 == !cache@[final(self)@ as int] & !DATAOUT,
    {
        self.phase = self.phase.wrapping_add(1);
        let on = cache.get_clear_bits(self.phase);
        let off = cache.get_set_bits(self.phase);
        (on, off)
    }
}

} // verus!
