//! The brightness store: a fixed bank of 19 LED channels, each with an
//! 8-bit target brightness and an immutable board-specific pin bitmask,
//! together with the whole-bank effect operations (fades, ring shifts,
//! rotations) that animation handlers mutate it with.

use vstd::prelude::*;

verus! {

use crate::led::LED;
use crate::led::sat_add;
use crate::led::sat_sub;
use crate::led::wrap_add;
use crate::led::wrap_sub;

/// The one pin bit reserved for debug instrumentation (a scope trigger on the
/// data-out line). It lies outside the channel-bit space: no channel mapping
/// may use it, and the scheduler never asserts or clears it.
pub const DATAOUT: u32 = 1u32 << 15;

/// Number of LED channels in the bank.
pub const CHANNELS: usize = 19;

/// A channel-to-pin mapping is valid when it covers all 19 channels with
/// pairwise distinct bitmasks, none of which touches the reserved debug bit.
pub open spec fn valid_mapping(pins: Seq<u32>) -> bool {
    &&& pins.len() == CHANNELS
    &&& forall|i: int| 0 <= i < pins.len() ==> #[trigger] pins[i] & DATAOUT == 0
    &&& forall|i: int, j: int| 0 <= i < j < pins.len() ==> pins[i] != pins[j]
}

/// The bank of 19 channels: per-channel brightness plus the immutable
/// channel-to-pin bitmask table fixed at construction.
pub struct LEDs {
    leds: [LED; 19],
    pos: [u32; 19],
}

/// Indexing the brightness view reads the channel's cell.
proof fn lemma_bright_index(l: LEDs)
    ensures
        forall|j: int| 0 <= j < 19 ==> #[trigger] l.bright()[j] == l.leds@[j]@,
{
}

/// A bank always holds exactly 19 channels: both views have that length,
/// whatever was done to the bank.
pub proof fn lemma_channel_count(l: &LEDs)
    ensures
        l.bright().len() == CHANNELS,
        l.pins().len() == CHANNELS,
{
}

impl LEDs {
    /// The per-channel brightness values, in channel order.
    pub closed spec fn bright(&self) -> Seq<u8> {
        self.leds@.map_values(|l: LED| l@)
    }

    /// The per-channel pin bitmasks, in channel order.
    pub closed spec fn pins(&self) -> Seq<u32> {
        self.pos@
    }

    /// Well-formedness: 19 channels, valid pin mapping.
    pub open spec fn wf(&self) -> bool {
        &&& self.bright().len() == CHANNELS
        &&& valid_mapping(self.pins())
    }

    /// Build a bank with all channels dark, wired by the given mapping.
    pub fn new(mapping: [u32; 19]) -> (r: LEDs)
        requires
            valid_mapping(mapping@),
        ensures
            r.wf(),
            r.pins() == mapping@,
            forall|i: int| 0 <= i < CHANNELS ==> r.bright()[i] == 0u8,
    {
        LEDs { leds: [LED::new(); 19], pos: mapping }
    }

    /// Brightness of channel `i`.
    pub fn get_brightness(&self, i: usize) -> (r: u8)
        requires
            i < CHANNELS,
        ensures
            r == self.bright()[i as int],
    {
        self.leds[i].get()
    }

    /// Set channel `i` to brightness `v`.
    pub fn set_brightness(&mut self, i: usize, v: u8)
        requires
            i < CHANNELS,
        ensures
            final(self).pins() == old(self).pins(),
            final(self).bright() == old(self).bright().update(i as int, v),
    {
        let mut l = self.leds[i];
        l.set(v);
        self.leds[i] = l;
        proof {
            assert(self.bright() =~= old(self).bright().update(i as int, v));
        }
    }

    /// Pin bitmask of channel `i`.
    pub fn pin(&self, i: usize) -> (r: u32)
        requires
            i < CHANNELS,
        ensures
            r == self.pins()[i as int],
    {
        self.pos[i]
    }

    /// Set every channel to brightness `pwm`.
    pub fn set(&mut self, pwm: u8)
        ensures
            final(self).pins() == old(self).pins(),
            final(self).bright().len() == old(self).bright().len(),
            forall|i: int| 0 <= i < CHANNELS ==> final(self).bright()[i] == pwm,
    {
        let mut i: usize = 0;
        while i < 19
            invariant
                i <= 19,
                self.pos == old(self).pos,
                forall|j: int| 0 <= j < i ==> self.leds@[j]@ == pwm,
            decreases 19 - i,
        {
            let mut l = self.leds[i];
            l.set(pwm);
            self.leds[i] = l;
            i = i + 1;
        }
        proof {
            lemma_bright_index(*self);
            lemma_bright_index(*old(self));
        }
    }

    /// Saturating addition of a constant to every channel's brightness.
    pub fn adds(&mut self, other: u8)
        ensures
            final(self).pins() == old(self).pins(),
            final(self).bright().len() == old(self).bright().len(),
            forall|i: int|
                0 <= i < CHANNELS ==> final(self).bright()[i] == sat_add(
                    old(self).bright()[i],
                    other,
                ),
    {
        let mut i: usize = 0;
        while i < 19
            invariant
                i <= 19,
                self.pos == old(self).pos,
                forall|j: int| 0 <= j < i ==> self.leds@[j]@ == sat_add(old(self).leds@[j]@, other),
                forall|j: int| i <= j < 19 ==> self.leds@[j] == old(self).leds@[j],
            decreases 19 - i,
        {
            let mut l = self.leds[i];
            l.add(other);
            self.leds[i] = l;
            i = i + 1;
        }
        proof {
            lemma_bright_index(*self);
            lemma_bright_index(*old(self));
        }
    }

    /// Saturating subtraction of a constant from every channel's brightness.
    pub fn subs(&mut self, other: u8)
        ensures
            final(self).pins() == old(self).pins(),
            final(self).bright().len() == old(self).bright().len(),
            forall|i: int|
                0 <= i < CHANNELS ==> final(self).bright()[i] == sat_sub(
                    old(self).bright()[i],
                    other,
                ),
    {
        let mut i: usize = 0;
        while i < 19
            invariant
                i <= 19,
                self.pos == old(self).pos,
                forall|j: int| 0 <= j < i ==> self.leds@[j]@ == sat_sub(old(self).leds@[j]@, other),
                forall|j: int| i <= j < 19 ==> self.leds@[j] == old(self).leds@[j],
            decreases 19 - i,
        {
            let mut l = self.leds[i];
            l.sub(other);
            self.leds[i] = l;
            i = i + 1;
        }
        proof {
            lemma_bright_index(*self);
            lemma_bright_index(*old(self));
        }
    }

    /// Wrapping (modulo-256) addition of a constant to every channel's
    /// brightness, chosen deliberately by effects that cycle through the range.
    pub fn add(&mut self, other: u8)
        ensures
            final(self).pins() == old(self).pins(),
            final(self).bright().len() == old(self).bright().len(),
            forall|i: int|
                0 <= i < CHANNELS ==> final(self).bright()[i] == wrap_add(
                    old(self).bright()[i],
                    other,
                ),
    {
        let mut i: usize = 0;
        while i < 19
            invariant
                i <= 19,
                self.pos == old(self).pos,
                forall|j: int| 0 <= j < i ==> self.leds@[j]@ == wrap_add(old(self).leds@[j]@, other),
                forall|j: int| i <= j < 19 ==> self.leds@[j] == old(self).leds@[j],
            decreases 19 - i,
        {
            let mut l = self.leds[i];
            l.add_wrapping(other);
            self.leds[i] = l;
            i = i + 1;
        }
        proof {
            lemma_bright_index(*self);
            lemma_bright_index(*old(self));
        }
    }

    /// Brighten by `amount`, saturating, exactly the channels whose bit is
    /// set in `selected` — the sparkle effect's pseudo-random subset, fed
    /// from a shift-register state.
    pub fn brighten_selected(&mut self, selected: u32, amount: u8)
        ensures
            final(self).pins() == old(self).pins(),
            final(self).bright().len() == old(self).bright().len(),
            forall|i: int|
                0 <= i < CHANNELS ==> final(self).bright()[i] == if selected & (1u32 << i) != 0 {
                    sat_add(old(self).bright()[i], amount)
                } else {
                    old(self).bright()[i]
                },
    {
        let mut i: usize = 0;
        while i < 19
            invariant
                i <= 19,
                self.pos == old(self).pos,
                forall|j: int|
                    0 <= j < i ==> self.leds@[j]@ == if selected & (1u32 << j) != 0 {
                        sat_add(old(self).leds@[j]@, amount)
                    } else {
                        old(self).leds@[j]@
                    },
                forall|j: int| i <= j < 19 ==> self.leds@[j] == old(self).leds@[j],
            decreases 19 - i,
        {
            if selected & (1u32 << (i as u32)) != 0 {
                let mut l = self.leds[i];
                l.add(amount);
                self.leds[i] = l;
            }
            i = i + 1;
        }
        proof {
            lemma_bright_index(*self);
            lemma_bright_index(*old(self));
        }
    }

    /// Wrapping (modulo-256) subtraction of a constant from every channel's
    /// brightness.
    pub fn sub(&mut self, other: u8)
        ensures
            final(self).pins() == old(self).pins(),
            final(self).bright().len() == old(self).bright().len(),
            forall|i: int|
                0 <= i < CHANNELS ==> final(self).bright()[i] == wrap_sub(
                    old(self).bright()[i],
                    other,
                ),
    {
        let mut i: usize = 0;
        while i < 19
            invariant
                i <= 19,
                self.pos == old(self).pos,
                forall|j: int| 0 <= j < i ==> self.leds@[j]@ == wrap_sub(old(self).leds@[j]@, other),
                forall|j: int| i <= j < 19 ==> self.leds@[j] == old(self).leds@[j],
            decreases 19 - i,
        {
            let mut l = self.leds[i];
            l.sub_wrapping(other);
            self.leds[i] = l;
            i = i + 1;
        }
        proof {
            lemma_bright_index(*self);
            lemma_bright_index(*old(self));
        }
    }
}


/// The larger of two brightness values.
pub open spec fn max8(a: u8, b: u8) -> u8 {
    if a >= b {
        a
    } else {
        b
    }
}

/// Largest brightness among `b[lo..hi]`, 0 when the range is empty.
pub open spec fn seq_max_from(b: Seq<u8>, lo: int, hi: int) -> u8
    decreases hi - lo,
{
    if hi <= lo {
        0u8
    } else {
        max8(seq_max_from(b, lo, hi - 1), b[hi - 1])
    }
}

/// One of the four concentric rings of the snowflake board, outermost first
/// in channel order: tips 0..6, middle rings 6..12 and 12..18, centre 18.
#[allow(non_camel_case_types)]
pub enum SNOWFLAKE_RING {
    INNER,
    ONE,
    TWO,
    OUTER,
}

/// First channel of a ring.
pub open spec fn ring_lo(which: SNOWFLAKE_RING) -> int {
    match which {
        SNOWFLAKE_RING::INNER => 18,
        SNOWFLAKE_RING::ONE => 12,
        SNOWFLAKE_RING::TWO => 6,
        SNOWFLAKE_RING::OUTER => 0,
    }
}

/// One past the last channel of a ring.
pub open spec fn ring_hi(which: SNOWFLAKE_RING) -> int {
    match which {
        SNOWFLAKE_RING::INNER => 19,
        SNOWFLAKE_RING::ONE => 18,
        SNOWFLAKE_RING::TWO => 12,
        SNOWFLAKE_RING::OUTER => 6,
    }
}

impl LEDs {
    /// The channels of one ring, as a borrowed slice.
    pub fn get_ring(&self, which: &SNOWFLAKE_RING) -> (r: &[LED])
        ensures
            r@.len() == ring_hi(*which) - ring_lo(*which),
            forall|k: int|
                0 <= k < r@.len() ==> r@[k]@ == self.bright()[ring_lo(*which) + k],
    {
        proof {
            lemma_bright_index(*self);
        }
        let s = self.leds.as_slice();
        match *which {
            SNOWFLAKE_RING::INNER => &s[18..19],
            SNOWFLAKE_RING::ONE => &s[12..18],
            SNOWFLAKE_RING::TWO => &s[6..12],
            SNOWFLAKE_RING::OUTER => &s[0..6],
        }
    }

    /// Set every channel of one ring to `value`.
    pub fn set_ring(&mut self, which: &SNOWFLAKE_RING, value: u8)
        ensures
            final(self).pins() == old(self).pins(),
            final(self).bright().len() == old(self).bright().len(),
            forall|j: int|
                ring_lo(*which) <= j < ring_hi(*which) ==> final(self).bright()[j] == value,
            forall|j: int|
                0 <= j < CHANNELS && !(ring_lo(*which) <= j < ring_hi(*which))
                    ==> final(self).bright()[j] == old(self).bright()[j],
    {
        let lo: usize;
        let hi: usize;
        match *which {
            SNOWFLAKE_RING::INNER => {
                lo = 18;
                hi = 19;
            },
            SNOWFLAKE_RING::ONE => {
                lo = 12;
                hi = 18;
            },
            SNOWFLAKE_RING::TWO => {
                lo = 6;
                hi = 12;
            },
            SNOWFLAKE_RING::OUTER => {
                lo = 0;
                hi = 6;
            },
        }
        let mut i: usize = lo;
        while i < hi
            invariant
                lo == ring_lo(*which),
                hi == ring_hi(*which),
                lo <= i <= hi <= 19,
                self.pos == old(self).pos,
                forall|j: int| lo <= j < i ==> self.leds@[j]@ == value,
                forall|j: int|
                    0 <= j < 19 && !(lo <= j < i) ==> self.leds@[j] == old(self).leds@[j],
            decreases hi - i,
        {
            let mut l = self.leds[i];
            l.set(value);
            self.leds[i] = l;
            i = i + 1;
        }
        proof {
            lemma_bright_index(*self);
            lemma_bright_index(*old(self));
        }
    }

    /// Push every ring's brightness one ring outwards: the centre floods the
    /// inner ring, each ring moves out one step, and the centre goes dark.
    pub fn shift_outwards(&mut self)
        ensures
            final(self).pins() == old(self).pins(),
            final(self).bright().len() == old(self).bright().len(),
            forall|i: int| 0 <= i < 12 ==> final(self).bright()[i] == old(self).bright()[i + 6],
            forall|i: int| 12 <= i < 18 ==> final(self).bright()[i] == old(self).bright()[18],
            final(self).bright()[18] == 0u8,
    {
        let inner = self.leds[18];
        let mut i: usize = 0;
        while i < 12
            invariant
                i <= 12,
                self.pos == old(self).pos,
                inner == old(self).leds@[18],
                forall|j: int| 0 <= j < i ==> self.leds@[j] == old(self).leds@[j + 6],
                forall|j: int| i <= j < 19 ==> self.leds@[j] == old(self).leds@[j],
            decreases 12 - i,
        {
            self.leds[i] = self.leds[i + 6];
            i = i + 1;
        }
        let mut k: usize = 12;
        while k < 18
            invariant
                12 <= k <= 18,
                self.pos == old(self).pos,
                inner == old(self).leds@[18],
                forall|j: int| 0 <= j < 12 ==> self.leds@[j] == old(self).leds@[j + 6],
                forall|j: int| 12 <= j < k ==> self.leds@[j] == inner,
                forall|j: int| k <= j < 19 ==> self.leds@[j] == old(self).leds@[j],
            decreases 18 - k,
        {
            self.leds[k] = inner;
            k = k + 1;
        }
        let mut dark = LED::new();
        dark.set(0);
        self.leds[18] = dark;
        proof {
            lemma_bright_index(*self);
            lemma_bright_index(*old(self));
        }
    }

    /// Pull every ring's brightness one ring inwards: the outer ring goes
    /// dark, each ring moves in one step, and the centre takes the brightest
    /// value of the innermost six-channel ring.
    pub fn shift_inwards(&mut self)
        ensures
            final(self).pins() == old(self).pins(),
            final(self).bright().len() == old(self).bright().len(),
            forall|i: int| 0 <= i < 6 ==> final(self).bright()[i] == 0u8,
            forall|i: int| 6 <= i < 18 ==> final(self).bright()[i] == old(self).bright()[i - 6],
            final(self).bright()[18] == seq_max_from(old(self).bright(), 12, 18),
    {
        proof {
            lemma_bright_index(*old(self));
        }
        let mut maxv: u8 = 0;
        let mut m: usize = 0;
        while m < 6
            invariant
                m <= 6,
                self == old(self),
                maxv == seq_max_from(old(self).bright(), 12, 12 + m),
            decreases 6 - m,
        {
            proof {
                lemma_bright_index(*self);
            }
            let v = self.leds[12 + m].get();
            if v > maxv {
                maxv = v;
            }
            m = m + 1;
        }
        let mut i: usize = 18;
        while i > 6
            invariant
                6 <= i <= 18,
                self.pos == old(self).pos,
                forall|j: int| 0 <= j < i ==> self.leds@[j] == old(self).leds@[j],
                forall|j: int| i <= j < 18 ==> self.leds@[j] == old(self).leds@[j - 6],
                self.leds@[18] == old(self).leds@[18],
            decreases i,
        {
            i = i - 1;
            self.leds[i] = self.leds[i - 6];
        }
        let mut k: usize = 0;
        while k < 6
            invariant
                k <= 6,
                self.pos == old(self).pos,
                forall|j: int| 0 <= j < k ==> self.leds@[j]@ == 0u8,
                forall|j: int| k <= j < 6 ==> self.leds@[j] == old(self).leds@[j],
                forall|j: int| 6 <= j < 18 ==> self.leds@[j] == old(self).leds@[j - 6],
                self.leds@[18] == old(self).leds@[18],
            decreases 6 - k,
        {
            let mut dark = LED::new();
            dark.set(0);
            self.leds[k] = dark;
            k = k + 1;
        }
        let mut top = LED::new();
        top.set(maxv);
        self.leds[18] = top;
        proof {
            lemma_bright_index(*self);
            lemma_bright_index(*old(self));
        }
    }
}


/// Rotate a brightness sequence `k` steps clockwise: entry `j` takes the
/// value that stood `k` places before it, cyclically.
pub open spec fn rot_cw(b: Seq<u8>, k: nat) -> Seq<u8> {
    Seq::new(b.len(), |j: int| b[(j - k) % (b.len() as int)])
}

/// Rotate a brightness sequence `k` steps counter-clockwise: entry `j` takes
/// the value that stood `k` places after it, cyclically.
pub open spec fn rot_ccw(b: Seq<u8>, k: nat) -> Seq<u8> {
    Seq::new(b.len(), |j: int| b[(j + k) % (b.len() as int)])
}

/// Reducing the left operand modulo `n` before a subtraction does not change
/// the result modulo `n`.
proof fn lemma_mod_shift_sub(x: int, k: int, n: int)
    requires
        n > 0,
    ensures
        ((x % n) - k) % n == (x - k) % n,
{
    vstd::arithmetic::div_mod::lemma_mod_twice(x, n);
    vstd::arithmetic::div_mod::lemma_sub_mod_noop(x % n, k, n);
    vstd::arithmetic::div_mod::lemma_sub_mod_noop(x, k, n);
}

/// Reducing the left operand modulo `n` before an addition does not change
/// the result modulo `n`.
proof fn lemma_mod_shift_add(x: int, k: int, n: int)
    requires
        n > 0,
    ensures
        ((x % n) + k) % n == (x + k) % n,
{
    vstd::arithmetic::div_mod::lemma_mod_twice(x, n);
    vstd::arithmetic::div_mod::lemma_add_mod_noop(x % n, k, n);
    vstd::arithmetic::div_mod::lemma_add_mod_noop(x, k, n);
}

/// Chaining one more clockwise step extends the rotation count by one.
proof fn lemma_rot_cw_compose(b: Seq<u8>, k: nat)
    requires
        b.len() > 0,
    ensures
        rot_cw(rot_cw(b, k), 1) == rot_cw(b, k + 1),
{
    let n = b.len() as int;
    assert forall|j: int| 0 <= j < n implies rot_cw(rot_cw(b, k), 1)[j] == rot_cw(b, k + 1)[j] by {
        let a = (j - 1) % n;
        vstd::arithmetic::div_mod::lemma_mod_division_less_than_divisor(j - 1, n);
        lemma_mod_shift_sub(j - 1, k as int, n);
        assert(rot_cw(rot_cw(b, k), 1)[j] == rot_cw(b, k)[a]);
        assert(rot_cw(b, k)[a] == b[(a - k) % n]);
        assert((a - k) % n == (j - 1 - k) % n);
    }
    assert(rot_cw(rot_cw(b, k), 1) =~= rot_cw(b, k + 1));
}

/// A clockwise rotation followed by a counter-clockwise rotation by the same
/// count restores the original sequence, for every count.
pub proof fn lemma_rotation_round_trip(b: Seq<u8>, k: nat)
    requires
        b.len() > 0,
    ensures
        rot_ccw(rot_cw(b, k), k) == b,
{
    let n = b.len() as int;
    assert forall|j: int| 0 <= j < n implies rot_ccw(rot_cw(b, k), k)[j] == b[j] by {
        let a = (j + k) % n;
        vstd::arithmetic::div_mod::lemma_mod_division_less_than_divisor(j + k, n);
        lemma_mod_shift_sub(j + k, k as int, n);
        assert(rot_ccw(rot_cw(b, k), k)[j] == rot_cw(b, k)[a]);
        assert(rot_cw(b, k)[a] == b[(a - k) % n]);
        assert((a - k) % n == (j + k - k) % n);
        vstd::arithmetic::div_mod::lemma_small_mod(j as nat, n as nat);
        assert((j + k - k) % n == j);
    }
    assert(rot_ccw(rot_cw(b, k), k) =~= b);
}

/// The mirror image: counter-clockwise first, clockwise after, same identity.
pub proof fn lemma_rotation_round_trip_ccw(b: Seq<u8>, k: nat)
    requires
        b.len() > 0,
    ensures
        rot_cw(rot_ccw(b, k), k) == b,
{
    let n = b.len() as int;
    assert forall|j: int| 0 <= j < n implies rot_cw(rot_ccw(b, k), k)[j] == b[j] by {
        let a = (j - k) % n;
        vstd::arithmetic::div_mod::lemma_mod_division_less_than_divisor(j - k, n);
        lemma_mod_shift_add(j - k, k as int, n);
        assert(rot_cw(rot_ccw(b, k), k)[j] == rot_ccw(b, k)[a]);
        assert(rot_ccw(b, k)[a] == b[(a + k) % n]);
        assert((a + k) % n == (j - k + k) % n);
        vstd::arithmetic::div_mod::lemma_small_mod(j as nat, n as nat);
        assert((j - k + k) % n == j);
    }
    assert(rot_cw(rot_ccw(b, k), k) =~= b);
}

impl LEDs {
    /// Rotate all brightness values one channel clockwise, in place. The pin
    /// assignment stays with the channel positions.
    fn rotate_cw_once(&mut self)
        ensures
            final(self).pins() == old(self).pins(),
            final(self).bright() == rot_cw(old(self).bright(), 1),
    {
        let temp = self.leds[18];
        let mut i: usize = 0;
        while i < 18
            invariant
                i <= 18,
                self.pos == old(self).pos,
                temp == old(self).leds@[18],
                forall|j: int| 0 <= j < 19 - i ==> self.leds@[j] == old(self).leds@[j],
                forall|j: int| 19 - i <= j < 19 ==> self.leds@[j] == old(self).leds@[j - 1],
            decreases 18 - i,
        {
            self.leds[18 - i] = self.leds[17 - i];
            i = i + 1;
        }
        self.leds[0] = temp;
        proof {
            lemma_bright_index(*self);
            lemma_bright_index(*old(self));
            let b0 = old(self).bright();
            assert forall|j: int| 0 <= j < 19 implies self.bright()[j] == rot_cw(b0, 1)[j] by {
                if j == 0 {
                    assert((0int - 1) % 19int == 18int);
                } else {
                    vstd::arithmetic::div_mod::lemma_small_mod((j - 1) as nat, 19nat);
                }
            }
            assert(self.bright() =~= rot_cw(b0, 1));
        }
    }

    /// Rotate all brightness values one channel counter-clockwise, in place.
    fn rotate_ccw_once(&mut self)
        ensures
            final(self).pins() == old(self).pins(),
            final(self).bright() == rot_ccw(old(self).bright(), 1),
    {
        let temp = self.leds[0];
        let mut i: usize = 0;
        while i < 18
            invariant
                i <= 18,
                self.pos == old(self).pos,
                temp == old(self).leds@[0],
                forall|j: int| 0 <= j < i ==> self.leds@[j] == old(self).leds@[j + 1],
                forall|j: int| i <= j < 19 ==> self.leds@[j] == old(self).leds@[j],
            decreases 18 - i,
        {
            self.leds[i] = self.leds[i + 1];
            i = i + 1;
        }
        self.leds[18] = temp;
        proof {
            lemma_bright_index(*self);
            lemma_bright_index(*old(self));
            let b0 = old(self).bright();
            assert forall|j: int| 0 <= j < 19 implies self.bright()[j] == rot_ccw(b0, 1)[j] by {
                if j == 18 {
                    assert((18int + 1) % 19int == 0int);
                } else {
                    vstd::arithmetic::div_mod::lemma_small_mod((j + 1) as nat, 19nat);
                }
            }
            assert(self.bright() =~= rot_ccw(b0, 1));
        }
    }

    /// Rotate the whole bank `amount` channels clockwise.
    pub fn lshift(&mut self, amount: usize)
        ensures
            final(self).pins() == old(self).pins(),
            final(self).bright() == rot_cw(old(self).bright(), amount as nat),
    {
        proof {
            lemma_bright_index(*old(self));
            let b0 = old(self).bright();
            assert forall|j: int| 0 <= j < 19 implies rot_cw(b0, 0)[j] == b0[j] by {
                vstd::arithmetic::div_mod::lemma_small_mod(j as nat, 19nat);
            }
            assert(b0 =~= rot_cw(b0, 0));
        }
        let mut it: usize = 0;
        while it < amount
            invariant
                it <= amount,
                self.pos == old(self).pos,
                self.bright() == rot_cw(old(self).bright(), it as nat),
                self.bright().len() == 19,
            decreases amount - it,
        {
            self.rotate_cw_once();
            proof {
                lemma_rot_cw_compose(old(self).bright(), it as nat);
            }
            it = it + 1;
        }
    }

    /// Rotate the whole bank `amount` channels counter-clockwise.
    pub fn rshift(&mut self, amount: usize)
        ensures
            final(self).pins() == old(self).pins(),
            final(self).bright() == rot_ccw(old(self).bright(), amount as nat),
    {
        proof {
            lemma_bright_index(*old(self));
            let b0 = old(self).bright();
            assert forall|j: int| 0 <= j < 19 implies rot_ccw(b0, 0)[j] == b0[j] by {
                vstd::arithmetic::div_mod::lemma_small_mod(j as nat, 19nat);
            }
            assert(b0 =~= rot_ccw(b0, 0));
        }
        let mut it: usize = 0;
        while it < amount
            invariant
                it <= amount,
                self.pos == old(self).pos,
                self.bright() == rot_ccw(old(self).bright(), it as nat),
                self.bright().len() == 19,
            decreases amount - it,
        {
            self.rotate_ccw_once();
            proof {
                lemma_rot_ccw_compose(old(self).bright(), it as nat);
            }
            it = it + 1;
        }
    }
}

/// Chaining one more counter-clockwise step extends the rotation count by one.
proof fn lemma_rot_ccw_compose(b: Seq<u8>, k: nat)
    requires
        b.len() > 0,
    ensures
        rot_ccw(rot_ccw(b, k), 1) == rot_ccw(b, k + 1),
{
    let n = b.len() as int;
    assert forall|j: int| 0 <= j < n implies rot_ccw(rot_ccw(b, k), 1)[j] == rot_ccw(b, k + 1)[j]
        by {
        let a = (j + 1) % n;
        vstd::arithmetic::div_mod::lemma_mod_division_less_than_divisor(j + 1, n);
        lemma_mod_shift_add(j + 1, k as int, n);
        assert(rot_ccw(rot_ccw(b, k), 1)[j] == rot_ccw(b, k)[a]);
        assert(rot_ccw(b, k)[a] == b[(a + k) % n]);
        assert((a + k) % n == (j + 1 + k) % n);
    }
    assert(rot_ccw(rot_ccw(b, k), 1) =~= rot_ccw(b, k + 1));
}


/// The channel-to-pin assignment of the prototype board, in channel order.
pub open spec fn proto_mapping() -> Seq<u32> {
    seq![0x0000_0001u32, 0x0000_0002u32, 0x0000_0004u32, 0x0000_0008u32, 0x0000_0010u32, 0x0000_0020u32, 0x0000_0040u32, 0x0000_0080u32, 0x0000_0100u32, 0x0000_0200u32, 0x0000_0400u32, 0x0000_0800u32, 0x0100_0000u32, 0x0080_0000u32, 0x0040_0000u32, 0x0008_0000u32, 0x0004_0000u32, 0x0002_0000u32, 0x0001_0000u32]
}

/// Build the prototype board's channel-to-pin mapping.
pub fn proto_led_mapping() -> (m: [u32; 19])
    ensures
        m@ == proto_mapping(),
        valid_mapping(m@),
{
    let mut m: [u32; 19] = [0u32; 19];
    m[0] = 0x0000_0001u32;
    m[1] = 0x0000_0002u32;
    m[2] = 0x0000_0004u32;
    m[3] = 0x0000_0008u32;
    m[4] = 0x0000_0010u32;
    m[5] = 0x0000_0020u32;
    m[6] = 0x0000_0040u32;
    m[7] = 0x0000_0080u32;
    m[8] = 0x0000_0100u32;
    m[9] = 0x0000_0200u32;
    m[10] = 0x0000_0400u32;
    m[11] = 0x0000_0800u32;
    m[12] = 0x0100_0000u32;
    m[13] = 0x0080_0000u32;
    m[14] = 0x0040_0000u32;
    m[15] = 0x0008_0000u32;
    m[16] = 0x0004_0000u32;
    m[17] = 0x0002_0000u32;
    m[18] = 0x0001_0000u32;
    proof {
        assert(m@ =~= proto_mapping());
        assert(0x0000_0001u32 & DATAOUT == 0 && 0x0000_0002u32 & DATAOUT == 0 && 0x0000_0004u32 & DATAOUT == 0 && 0x0000_0008u32 & DATAOUT == 0 && 0x0000_0010u32 & DATAOUT == 0 && 0x0000_0020u32 & DATAOUT == 0 && 0x0000_0040u32 & DATAOUT == 0 && 0x0000_0080u32 & DATAOUT == 0 && 0x0000_0100u32 & DATAOUT == 0 && 0x0000_0200u32 & DATAOUT == 0 && 0x0000_0400u32 & DATAOUT == 0 && 0x0000_0800u32 & DATAOUT == 0 && 0x0100_0000u32 & DATAOUT == 0 && 0x0080_0000u32 & DATAOUT == 0 && 0x0040_0000u32 & DATAOUT == 0 && 0x0008_0000u32 & DATAOUT == 0 && 0x0004_0000u32 & DATAOUT == 0 && 0x0002_0000u32 & DATAOUT == 0 && 0x0001_0000u32 & DATAOUT == 0) by (bit_vector);
        assert(forall|i: int| 0 <= i < 19 ==> #[trigger] m@[i] & DATAOUT == 0);
    }
    m
}

/// The channel-to-pin assignment of the snowflake board, in channel order.
pub open spec fn snowflake_mapping() -> Seq<u32> {
    seq![0x0000_0001u32, 0x0000_0008u32, 0x0000_0040u32, 0x0000_0200u32, 0x0001_0000u32, 0x0008_0000u32, 0x0000_0002u32, 0x0000_0010u32, 0x0000_0080u32, 0x0000_0400u32, 0x0002_0000u32, 0x0040_0000u32, 0x0000_0004u32, 0x0000_0020u32, 0x0000_0100u32, 0x0000_0800u32, 0x0004_0000u32, 0x0080_0000u32, 0x0100_0000u32]
}

/// Build the snowflake board's channel-to-pin mapping.
pub fn snowflake_led_mapping() -> (m: [u32; 19])
    ensures
        m@ == snowflake_mapping(),
        valid_mapping(m@),
{
    let mut m: [u32; 19] = [0u32; 19];
    m[0] = 0x0000_0001u32;
    m[1] = 0x0000_0008u32;
    m[2] = 0x0000_0040u32;
    m[3] = 0x0000_0200u32;
    m[4] = 0x0001_0000u32;
    m[5] = 0x0008_0000u32;
    m[6] = 0x0000_0002u32;
    m[7] = 0x0000_0010u32;
    m[8] = 0x0000_0080u32;
    m[9] = 0x0000_0400u32;
    m[10] = 0x0002_0000u32;
    m[11] = 0x0040_0000u32;
    m[12] = 0x0000_0004u32;
    m[13] = 0x0000_0020u32;
    m[14] = 0x0000_0100u32;
    m[15] = 0x0000_0800u32;
    m[16] = 0x0004_0000u32;
    m[17] = 0x0080_0000u32;
    m[18] = 0x0100_0000u32;
    proof {
        assert(m@ =~= snowflake_mapping());
        assert(0x0000_0001u32 & DATAOUT == 0 && 0x0000_0008u32 & DATAOUT == 0 && 0x0000_0040u32 & DATAOUT == 0 && 0x0000_0200u32 & DATAOUT == 0 && 0x0001_0000u32 & DATAOUT == 0 && 0x0008_0000u32 & DATAOUT == 0 && 0x0000_0002u32 & DATAOUT == 0 && 0x0000_0010u32 & DATAOUT == 0 && 0x0000_0080u32 & DATAOUT == 0 && 0x0000_0400u32 & DATAOUT == 0 && 0x0002_0000u32 & DATAOUT == 0 && 0x0040_0000u32 & DATAOUT == 0 && 0x0000_0004u32 & DATAOUT == 0 && 0x0000_0020u32 & DATAOUT == 0 && 0x0000_0100u32 & DATAOUT == 0 && 0x0000_0800u32 & DATAOUT == 0 && 0x0004_0000u32 & DATAOUT == 0 && 0x0080_0000u32 & DATAOUT == 0 && 0x0100_0000u32 & DATAOUT == 0) by (bit_vector);
        assert(forall|i: int| 0 <= i < 19 ==> #[trigger] m@[i] & DATAOUT == 0);
    }
    m
}

/// The board-graph neighbours of channel `which`: which channels share an
/// edge with it on the snowflake layout. Channels outside the bank have none.
pub open spec fn neighbours_spec(which: int) -> Seq<usize> {
    if which == 0 {
        seq![6usize]
    }
    else if which == 1 {
        seq![7usize]
    }
    else if which == 2 {
        seq![8usize]
    }
    else if which == 3 {
        seq![9usize]
    }
    else if which == 4 {
        seq![10usize]
    }
    else if which == 5 {
        seq![11usize]
    }
    else if which == 6 {
        seq![0usize, 12usize, 17usize]
    }
    else if which == 7 {
        seq![1usize, 12usize, 13usize]
    }
    else if which == 8 {
        seq![2usize, 13usize, 14usize]
    }
    else if which == 9 {
        seq![3usize, 14usize, 15usize]
    }
    else if which == 10 {
        seq![4usize, 15usize, 16usize]
    }
    else if which == 11 {
        seq![5usize, 16usize, 17usize]
    }
    else if which == 12 {
        seq![6usize, 7usize, 13usize, 18usize, 17usize]
    }
    else if which == 13 {
        seq![7usize, 8usize, 14usize, 18usize, 12usize]
    }
    else if which == 14 {
        seq![8usize, 9usize, 15usize, 18usize, 13usize]
    }
    else if which == 15 {
        seq![9usize, 10usize, 16usize, 18usize, 14usize]
    }
    else if which == 16 {
        seq![10usize, 11usize, 17usize, 18usize, 15usize]
    }
    else if which == 17 {
        seq![11usize, 6usize, 12usize, 18usize, 16usize]
    }
    else if which == 18 {
        seq![12usize, 13usize, 14usize, 15usize, 16usize, 17usize]
    } else {
        Seq::empty()
    }
}

/// The neighbours of channel `which` on the snowflake layout.
pub fn get_neighbours(which: usize) -> (r: Vec<usize>)
    ensures
        r@ == neighbours_spec(which as int),
{
    let mut v: Vec<usize> = Vec::new();
    if which == 0 {
        v.push(6);
    }
    if which == 1 {
        v.push(7);
    }
    if which == 2 {
        v.push(8);
    }
    if which == 3 {
        v.push(9);
    }
    if which == 4 {
        v.push(10);
    }
    if which == 5 {
        v.push(11);
    }
    if which == 6 {
        v.push(0);
        v.push(12);
        v.push(17);
    }
    if which == 7 {
        v.push(1);
        v.push(12);
        v.push(13);
    }
    if which == 8 {
        v.push(2);
        v.push(13);
        v.push(14);
    }
    if which == 9 {
        v.push(3);
        v.push(14);
        v.push(15);
    }
    if which == 10 {
        v.push(4);
        v.push(15);
        v.push(16);
    }
    if which == 11 {
        v.push(5);
        v.push(16);
        v.push(17);
    }
    if which == 12 {
        v.push(6);
        v.push(7);
        v.push(13);
        v.push(18);
        v.push(17);
    }
    if which == 13 {
        v.push(7);
        v.push(8);
        v.push(14);
        v.push(18);
        v.push(12);
    }
    if which == 14 {
        v.push(8);
        v.push(9);
        v.push(15);
        v.push(18);
        v.push(13);
    }
    if which == 15 {
        v.push(9);
        v.push(10);
        v.push(16);
        v.push(18);
        v.push(14);
    }
    if which == 16 {
        v.push(10);
        v.push(11);
        v.push(17);
        v.push(18);
        v.push(15);
    }
    if which == 17 {
        v.push(11);
        v.push(6);
        v.push(12);
        v.push(18);
        v.push(16);
    }
    if which == 18 {
        v.push(12);
        v.push(13);
        v.push(14);
        v.push(15);
        v.push(16);
        v.push(17);
    }
    proof {
        assert(v@ =~= neighbours_spec(which as int));
    }
    v
}

} // verus!
