//! The mathematical model of a schedule entry: the OR-mask of the pin bits
//! of every channel whose brightness lies strictly above a phase threshold,
//! together with the lemmas that drive the threshold-sweep builder and the
//! monotonic-shrink property of the schedule.

use vstd::prelude::*;

verus! {

/// OR of `pins[j]` over the first `n` channels `j` with `bright[j] > t`.
pub open spec fn mask_above(bright: Seq<u8>, pins: Seq<u32>, t: int, n: int) -> u32
    decreases n,
{
    if n <= 0 {
        0u32
    } else {
        mask_above(bright, pins, t, n - 1) | (if bright[n - 1] > t {
            pins[n - 1]
        } else {
            0u32
        })
    }
}

/// The schedule entry owed at phase `t`: the OR of the pin bits of every
/// channel whose brightness is strictly greater than `t`.
pub open spec fn sched_mask(bright: Seq<u8>, pins: Seq<u32>, t: int) -> u32 {
    mask_above(bright, pins, t, bright.len() as int)
}

/// Number of set bits in a 32-bit mask.
pub open spec fn popcount(x: u32) -> nat
    decreases x,
{
    if x == 0 {
        0nat
    } else {
        popcount(x / 2) + (x % 2) as nat
    }
}

/// `x` is a submask of `y`: every bit set in `x` is set in `y`.
pub open spec fn submask(x: u32, y: u32) -> bool {
    x & y == x
}

/// If no channel among the first `n` has brightness exactly `t + 1`, the mask
/// does not change between thresholds `t` and `t + 1`: every channel strictly
/// above `t` is then also strictly above `t + 1`.
pub proof fn lemma_mask_step(bright: Seq<u8>, pins: Seq<u32>, t: int, n: int)
    requires
        0 <= n <= bright.len(),
        n <= pins.len(),
        forall|j: int| 0 <= j < n ==> bright[j] != t + 1,
    ensures
        mask_above(bright, pins, t, n) == mask_above(bright, pins, t + 1, n),
    decreases n,
{
    if n > 0 {
        lemma_mask_step(bright, pins, t, n - 1);
    }
}

/// No 8-bit brightness is strictly greater than 255, so the mask at the top
/// phase is empty.
pub proof fn lemma_mask_at_top(bright: Seq<u8>, pins: Seq<u32>, n: int)
    requires
        0 <= n <= bright.len(),
        n <= pins.len(),
    ensures
        mask_above(bright, pins, 255, n) == 0,
    decreases n,
{
    if n > 0 {
        lemma_mask_at_top(bright, pins, n - 1);
        assert(0u32 | 0u32 == 0u32) by (bit_vector);
    }
}

/// OR respects the submask order in both arguments.
proof fn lemma_or_submask(x1: u32, y1: u32, x2: u32, y2: u32)
    requires
        submask(x1, y1),
        submask(x2, y2),
    ensures
        submask(x1 | x2, y1 | y2),
{
    assert((x1 & y1 == x1 && x2 & y2 == x2) ==> ((x1 | x2) & (y1 | y2) == (x1 | x2)))
        by (bit_vector);
}

/// Every bit is a submask of itself, and 0 of everything.
proof fn lemma_submask_basics(x: u32)
    ensures
        submask(x, x),
        submask(0u32, x),
{
    assert(x & x == x) by (bit_vector);
    assert(0u32 & x == 0u32) by (bit_vector);
}

/// Raising the threshold can only drop channels, never add one: the mask at a
/// higher threshold is a submask of the mask at a lower one.
pub proof fn lemma_mask_antitone(bright: Seq<u8>, pins: Seq<u32>, t1: int, t2: int, n: int)
    requires
        0 <= n <= bright.len(),
        n <= pins.len(),
        t1 <= t2,
    ensures
        submask(mask_above(bright, pins, t2, n), mask_above(bright, pins, t1, n)),
    decreases n,
{
    if n == 0 {
        lemma_submask_basics(0u32);
    } else {
        lemma_mask_antitone(bright, pins, t1, t2, n - 1);
        let c2: u32 = if bright[n - 1] > t2 {
            pins[n - 1]
        } else {
            0u32
        };
        let c1: u32 = if bright[n - 1] > t1 {
            pins[n - 1]
        } else {
            0u32
        };
        lemma_submask_basics(c1);
        lemma_or_submask(
            mask_above(bright, pins, t2, n - 1),
            mask_above(bright, pins, t1, n - 1),
            c2,
            c1,
        );
    }
}

/// A submask never has more set bits.
pub proof fn lemma_popcount_submask(x: u32, y: u32)
    requires
        submask(x, y),
    ensures
        popcount(x) <= popcount(y),
    decreases x,
{
    if x == 0 {
    } else {
        assert(x & y == x ==> ((x / 2) & (y / 2) == x / 2 && x % 2 <= y % 2 && y != 0))
            by (bit_vector)
            requires
                x != 0,
        ;
        lemma_popcount_submask(x / 2, y / 2);
    }
}

/// The monotonic-shrink law of a schedule: at a higher phase the owed mask
/// has no more set bits than at a lower one, for the same brightness array.
pub proof fn lemma_popcount_antitone(bright: Seq<u8>, pins: Seq<u32>, t1: int, t2: int)
    requires
        bright.len() <= pins.len(),
        t1 <= t2,
    ensures
        popcount(sched_mask(bright, pins, t2)) <= popcount(sched_mask(bright, pins, t1)),
{
    lemma_mask_antitone(bright, pins, t1, t2, bright.len() as int);
    lemma_popcount_submask(sched_mask(bright, pins, t2), sched_mask(bright, pins, t1));
}

/// If every channel's pin bits avoid a reserved bit mask, so does every
/// schedule entry.
pub proof fn lemma_mask_avoids(bright: Seq<u8>, pins: Seq<u32>, t: int, n: int, reserved: u32)
    requires
        0 <= n <= bright.len(),
        n <= pins.len(),
        forall|j: int| 0 <= j < n ==> #[trigger] pins[j] & reserved == 0,
    ensures
        mask_above(bright, pins, t, n) & reserved == 0,
    decreases n,
{
    if n == 0 {
        assert(0u32 & reserved == 0) by (bit_vector);
    } else {
        lemma_mask_avoids(bright, pins, t, n - 1, reserved);
        let a = mask_above(bright, pins, t, n - 1);
        let c: u32 = if bright[n - 1] > t {
            pins[n - 1]
        } else {
            0u32
        };
        assert(c & reserved == 0) by {
            assert(0u32 & reserved == 0) by (bit_vector);
        }
        assert((a & reserved == 0 && c & reserved == 0) ==> ((a | c) & reserved == 0))
            by (bit_vector);
    }
}

/// At the top phase the owed mask is empty: no channel's 8-bit brightness is
/// strictly greater than 255.
pub proof fn lemma_sched_mask_top(bright: Seq<u8>, pins: Seq<u32>)
    requires
        bright.len() <= pins.len(),
    ensures
        sched_mask(bright, pins, 255) == 0,
{
    lemma_mask_at_top(bright, pins, bright.len() as int);
}

} // verus!
