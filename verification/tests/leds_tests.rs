use snowflake::led::LED;
use snowflake::leds::{
    get_neighbours, proto_led_mapping, snowflake_led_mapping, LEDs, SNOWFLAKE_RING,
};

fn filled(values: &[u8; 19]) -> LEDs {
    let mut leds = LEDs::new(proto_led_mapping());
    for i in 0..19 {
        leds.set_brightness(i, values[i]);
    }
    leds
}

fn snapshot(leds: &LEDs) -> [u8; 19] {
    let mut out = [0u8; 19];
    for i in 0..19 {
        out[i] = leds.get_brightness(i);
    }
    out
}

#[test]
fn led_saturating_add_clamps_at_top() {
    let mut l = LED::new();
    assert_eq!(l.get(), 0);
    l.set(200);
    l.add(100);
    assert_eq!(l.get(), 255);
    l.set(3);
    l.add(4);
    assert_eq!(l.get(), 7);
    l.set(255);
    l.add(255);
    assert_eq!(l.get(), 255);
}

#[test]
fn led_saturating_sub_clamps_at_zero() {
    let mut l = LED::new();
    l.set(5);
    l.sub(10);
    assert_eq!(l.get(), 0);
    l.set(100);
    l.sub(58);
    assert_eq!(l.get(), 42);
    l.set(0);
    l.sub(1);
    assert_eq!(l.get(), 0);
}

#[test]
fn led_wrapping_arithmetic_is_modulo_256() {
    let mut l = LED::new();
    l.set(250);
    l.add_wrapping(10);
    assert_eq!(l.get(), 4);
    l.set(3);
    l.sub_wrapping(5);
    assert_eq!(l.get(), 254);
}

#[test]
fn bank_wide_saturating_ops() {
    let mut leds = filled(&[
        0, 10, 250, 255, 128, 1, 2, 3, 4, 5, 6, 7, 8, 9, 100, 200, 254, 17, 60,
    ]);
    leds.adds(10);
    assert_eq!(
        snapshot(&leds),
        [10, 20, 255, 255, 138, 11, 12, 13, 14, 15, 16, 17, 18, 19, 110, 210, 255, 27, 70]
    );
    leds.subs(15);
    assert_eq!(
        snapshot(&leds),
        [0, 5, 240, 240, 123, 0, 0, 0, 0, 0, 1, 2, 3, 4, 95, 195, 240, 12, 55]
    );
}

#[test]
fn bank_wide_wrapping_ops() {
    let mut leds = filled(&[250u8; 19]);
    leds.add(10);
    assert_eq!(snapshot(&leds), [4u8; 19]);
    leds.sub(5);
    assert_eq!(snapshot(&leds), [255u8; 19]);
}

#[test]
fn set_floods_the_whole_bank() {
    let mut leds = filled(&[7u8; 19]);
    leds.set(99);
    assert_eq!(snapshot(&leds), [99u8; 19]);
}

#[test]
fn rotation_round_trip_restores_the_bank() {
    let original: [u8; 19] = [
        1, 2, 3, 4, 5, 6, 7, 8, 9, 10, 11, 12, 13, 14, 15, 16, 17, 18, 19,
    ];
    for k in [0usize, 1, 5, 18, 19, 23, 40, 100] {
        let mut leds = filled(&original);
        leds.lshift(k);
        leds.rshift(k);
        assert_eq!(snapshot(&leds), original);
    }
}

#[test]
fn single_clockwise_rotation_moves_values_up() {
    let mut leds = filled(&[
        10, 20, 30, 40, 50, 60, 70, 80, 90, 100, 110, 120, 130, 140, 150, 160, 170, 180, 190,
    ]);
    leds.lshift(1);
    assert_eq!(
        snapshot(&leds),
        [190, 10, 20, 30, 40, 50, 60, 70, 80, 90, 100, 110, 120, 130, 140, 150, 160, 170, 180]
    );
}

#[test]
fn single_counter_clockwise_rotation_moves_values_down() {
    let mut leds = filled(&[
        10, 20, 30, 40, 50, 60, 70, 80, 90, 100, 110, 120, 130, 140, 150, 160, 170, 180, 190,
    ]);
    leds.rshift(1);
    assert_eq!(
        snapshot(&leds),
        [20, 30, 40, 50, 60, 70, 80, 90, 100, 110, 120, 130, 140, 150, 160, 170, 180, 190, 10]
    );
}

#[test]
fn rings_have_the_documented_extents() {
    let leds = filled(&[
        0, 1, 2, 3, 4, 5, 6, 7, 8, 9, 10, 11, 12, 13, 14, 15, 16, 17, 18,
    ]);
    let inner = leds.get_ring(&SNOWFLAKE_RING::INNER);
    assert_eq!(inner.len(), 1);
    assert_eq!(inner[0].get(), 18);
    let one = leds.get_ring(&SNOWFLAKE_RING::ONE);
    assert_eq!(one.len(), 6);
    assert_eq!(one[0].get(), 12);
    assert_eq!(one[5].get(), 17);
    let two = leds.get_ring(&SNOWFLAKE_RING::TWO);
    assert_eq!(two.len(), 6);
    assert_eq!(two[0].get(), 6);
    let outer = leds.get_ring(&SNOWFLAKE_RING::OUTER);
    assert_eq!(outer.len(), 6);
    assert_eq!(outer[0].get(), 0);
    assert_eq!(outer[5].get(), 5);
}

#[test]
fn set_ring_touches_only_that_ring() {
    let mut leds = filled(&[7u8; 19]);
    leds.set_ring(&SNOWFLAKE_RING::TWO, 200);
    let s = snapshot(&leds);
    for i in 0..19 {
        if (6..12).contains(&i) {
            assert_eq!(s[i], 200);
        } else {
            assert_eq!(s[i], 7);
        }
    }
}

#[test]
fn shift_outwards_moves_rings_out_and_darkens_the_centre() {
    let mut leds = filled(&[
        1, 2, 3, 4, 5, 6, 11, 12, 13, 14, 15, 16, 21, 22, 23, 24, 25, 26, 99,
    ]);
    leds.shift_outwards();
    assert_eq!(
        snapshot(&leds),
        [11, 12, 13, 14, 15, 16, 21, 22, 23, 24, 25, 26, 99, 99, 99, 99, 99, 99, 0]
    );
}

#[test]
fn shift_inwards_moves_rings_in_and_peaks_the_centre() {
    let mut leds = filled(&[
        1, 2, 3, 4, 5, 6, 11, 12, 13, 14, 15, 16, 21, 99, 23, 24, 25, 26, 77,
    ]);
    leds.shift_inwards();
    assert_eq!(
        snapshot(&leds),
        [0, 0, 0, 0, 0, 0, 1, 2, 3, 4, 5, 6, 11, 12, 13, 14, 15, 16, 99]
    );
}

#[test]
fn mappings_are_distinct_and_avoid_the_reserved_bit() {
    for mapping in [proto_led_mapping(), snowflake_led_mapping()] {
        for i in 0..19 {
            assert_eq!(mapping[i] & (1u32 << 15), 0);
            assert_eq!(mapping[i].count_ones(), 1);
            for j in 0..i {
                assert_ne!(mapping[i], mapping[j]);
            }
        }
    }
    assert_eq!(proto_led_mapping()[0], 1);
    assert_eq!(proto_led_mapping()[12], 1 << 24);
    assert_eq!(snowflake_led_mapping()[1], 1 << 3);
    assert_eq!(snowflake_led_mapping()[18], 1 << 24);
}

#[test]
fn neighbour_lists_match_the_board_graph() {
    assert_eq!(get_neighbours(0), vec![6]);
    assert_eq!(get_neighbours(6), vec![0, 12, 17]);
    assert_eq!(get_neighbours(12), vec![6, 7, 13, 18, 17]);
    assert_eq!(get_neighbours(18), vec![12, 13, 14, 15, 16, 17]);
    assert_eq!(get_neighbours(19), Vec::<usize>::new());
    assert_eq!(get_neighbours(1000), Vec::<usize>::new());
    for which in 0..19 {
        for n in get_neighbours(which) {
            assert!(get_neighbours(n).contains(&which));
        }
    }
}

#[test]
fn brighten_selected_touches_only_selected_channels() {
    let mut leds = filled(&[100u8; 19]);
    leds.brighten_selected((1 << 0) | (1 << 2) | (1 << 18), 200);
    let s = snapshot(&leds);
    for i in 0..19 {
        if i == 0 || i == 2 || i == 18 {
            assert_eq!(s[i], 255);
        } else {
            assert_eq!(s[i], 100);
        }
    }
    leds.brighten_selected(1 << 5, 7);
    assert_eq!(leds.get_brightness(5), 107);
}
