use snowflake::leds::{proto_led_mapping, snowflake_led_mapping, LEDs, DATAOUT};
use snowflake::schedule::{PWMCache, PhaseCounter};

/// Brute-force reference: the OR of every pin whose brightness is strictly
/// greater than the phase.
fn oracle(bright: &[u8; 19], pins: &[u32; 19], t: u16) -> u32 {
    let mut m = 0u32;
    for i in 0..19 {
        if (bright[i] as u16) > t {
            m |= pins[i];
        }
    }
    m
}

fn bank_with(bright: &[u8; 19]) -> (LEDs, [u32; 19]) {
    let mapping = proto_led_mapping();
    let mut leds = LEDs::new(mapping);
    for i in 0..19 {
        leds.set_brightness(i, bright[i]);
    }
    (leds, mapping)
}

#[test]
fn schedule_matches_brute_force() {
    let bright: [u8; 19] = [
        0, 1, 2, 3, 17, 42, 85, 127, 128, 129, 170, 200, 254, 255, 255, 0, 99, 99, 13,
    ];
    let (leds, mapping) = bank_with(&bright);
    let mut cache = PWMCache::new();
    cache.calculate(&leds);
    for t in 0..=255u16 {
        assert_eq!(cache.get_clear_bits(t as u8), oracle(&bright, &mapping, t));
    }
}

#[test]
fn schedule_matches_brute_force_snowflake_board() {
    let bright: [u8; 19] = [
        255, 230, 210, 190, 170, 150, 130, 110, 90, 70, 50, 30, 10, 1, 0, 64, 64, 64, 5,
    ];
    let mapping = snowflake_led_mapping();
    let mut leds = LEDs::new(mapping);
    for i in 0..19 {
        leds.set_brightness(i, bright[i]);
    }
    let mut cache = PWMCache::new();
    cache.calculate(&leds);
    for t in 0..=255u16 {
        assert_eq!(cache.get_clear_bits(t as u8), oracle(&bright, &mapping, t));
    }
}

#[test]
fn perceived_schedule_matches_brute_force() {
    let bright: [u8; 19] = [
        0, 5, 16, 32, 64, 96, 128, 160, 192, 224, 255, 12, 200, 77, 3, 250, 100, 50, 1,
    ];
    let (leds, mapping) = bank_with(&bright);
    let mut cache = PWMCache::new();
    cache.calculate_perceived(&leds);
    let mut eff = [0u8; 19];
    for i in 0..19 {
        let v = bright[i] as u32;
        eff[i] = ((v * v + 127) / 255) as u8;
    }
    for t in 0..=255u16 {
        assert_eq!(cache.get_clear_bits(t as u8), oracle(&eff, &mapping, t));
    }
}

#[test]
fn top_phase_always_dark() {
    let patterns: [[u8; 19]; 3] = [
        [255u8; 19],
        [0u8; 19],
        [1, 254, 255, 0, 128, 7, 255, 255, 3, 99, 255, 255, 255, 255, 255, 255, 255, 255, 255],
    ];
    for bright in patterns.iter() {
        let (leds, _) = bank_with(bright);
        let mut cache = PWMCache::new();
        cache.calculate(&leds);
        assert_eq!(cache.get_clear_bits(255), 0);
    }
}

#[test]
fn popcount_never_grows_with_phase() {
    let bright: [u8; 19] = [
        3, 250, 17, 89, 144, 201, 255, 0, 66, 120, 180, 33, 99, 240, 15, 7, 222, 111, 54,
    ];
    let (leds, _) = bank_with(&bright);
    let mut cache = PWMCache::new();
    cache.calculate(&leds);
    let mut prev = u32::MAX;
    for t in 0..=255u16 {
        let pc = cache.get_clear_bits(t as u8).count_ones();
        assert!(pc <= prev);
        prev = pc;
    }
}

#[test]
fn on_and_off_masks_complement_outside_reserved_bit() {
    let bright: [u8; 19] = [
        10, 20, 30, 40, 50, 60, 70, 80, 90, 100, 110, 120, 130, 140, 150, 160, 170, 180, 190,
    ];
    let (leds, _) = bank_with(&bright);
    let mut cache = PWMCache::new();
    cache.calculate(&leds);
    for t in 0..=255u16 {
        let on = cache.get_clear_bits(t as u8);
        let off = cache.get_set_bits(t as u8);
        assert_eq!(on & off, 0);
        assert_eq!(on | off, !DATAOUT);
        assert_eq!(on & DATAOUT, 0);
        assert_eq!(off & DATAOUT, 0);
        assert_eq!(off, !on & !(1u32 << 15));
    }
}

#[test]
fn single_full_channel_owns_every_phase_but_the_top() {
    let mut bright = [0u8; 19];
    bright[0] = 255;
    let (leds, mapping) = bank_with(&bright);
    let mut cache = PWMCache::new();
    cache.calculate(&leds);
    for t in 0..=254u16 {
        assert_eq!(cache.get_clear_bits(t as u8), mapping[0]);
    }
    assert_eq!(cache.get_clear_bits(255), 0);
}

#[test]
fn all_dark_schedule_is_empty() {
    let (leds, _) = bank_with(&[0u8; 19]);
    let mut cache = PWMCache::new();
    cache.calculate(&leds);
    for t in 0..=255u16 {
        assert_eq!(cache.get_clear_bits(t as u8), 0);
    }
}

#[test]
fn half_brightness_splits_the_cycle() {
    let (leds, mapping) = bank_with(&[128u8; 19]);
    let mut cache = PWMCache::new();
    cache.calculate(&leds);
    let mut full = 0u32;
    for p in mapping.iter() {
        full |= p;
    }
    for t in 0..=255u16 {
        if t < 128 {
            assert_eq!(cache.get_clear_bits(t as u8), full);
        } else {
            assert_eq!(cache.get_clear_bits(t as u8), 0);
        }
    }
}

#[test]
fn fresh_cache_is_empty() {
    let cache = PWMCache::new();
    for t in 0..=255u16 {
        assert_eq!(cache.get_clear_bits(t as u8), 0);
        assert_eq!(cache.get_set_bits(t as u8), !(1u32 << 15));
    }
}

#[test]
fn phase_counter_wraps_and_selects_masks() {
    let bright: [u8; 19] = [
        200, 0, 0, 0, 0, 0, 0, 0, 0, 0, 0, 0, 0, 0, 0, 0, 0, 0, 100,
    ];
    let (leds, _) = bank_with(&bright);
    let mut cache = PWMCache::new();
    cache.calculate(&leds);
    let mut counter = PhaseCounter::new();
    for step in 0..512u32 {
        let (on, off) = counter.step(&cache);
        let phase = ((step + 1) % 256) as u8;
        assert_eq!(on, cache.get_clear_bits(phase));
        assert_eq!(off, cache.get_set_bits(phase));
    }
}
