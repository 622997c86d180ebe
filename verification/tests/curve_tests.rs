use snowflake::curve::perceived;

/// The perceptual curve, tabulated: entry `v` is `v * v / 255` rounded to
/// the nearest integer.
const EXPECTED: [u8; 256] = [
    0, 0, 0, 0, 0, 0, 0, 0, 0, 0, 0, 0, 1, 1, 1, 1,
    1, 1, 1, 1, 2, 2, 2, 2, 2, 2, 3, 3, 3, 3, 4, 4,
    4, 4, 5, 5, 5, 5, 6, 6, 6, 7, 7, 7, 8, 8, 8, 9,
    9, 9, 10, 10, 11, 11, 11, 12, 12, 13, 13, 14, 14, 15, 15, 16,
    16, 17, 17, 18, 18, 19, 19, 20, 20, 21, 21, 22, 23, 23, 24, 24,
    25, 26, 26, 27, 28, 28, 29, 30, 30, 31, 32, 32, 33, 34, 35, 35,
    36, 37, 38, 38, 39, 40, 41, 42, 42, 43, 44, 45, 46, 47, 47, 48,
    49, 50, 51, 52, 53, 54, 55, 56, 56, 57, 58, 59, 60, 61, 62, 63,
    64, 65, 66, 67, 68, 69, 70, 71, 73, 74, 75, 76, 77, 78, 79, 80,
    81, 82, 84, 85, 86, 87, 88, 89, 91, 92, 93, 94, 95, 97, 98, 99,
    100, 102, 103, 104, 105, 107, 108, 109, 111, 112, 113, 115, 116, 117, 119, 120,
    121, 123, 124, 126, 127, 128, 130, 131, 133, 134, 136, 137, 139, 140, 142, 143,
    145, 146, 148, 149, 151, 152, 154, 155, 157, 158, 160, 162, 163, 165, 166, 168,
    170, 171, 173, 175, 176, 178, 180, 181, 183, 185, 186, 188, 190, 192, 193, 195,
    197, 199, 200, 202, 204, 206, 207, 209, 211, 213, 215, 217, 218, 220, 222, 224,
    226, 228, 230, 232, 233, 235, 237, 239, 241, 243, 245, 247, 249, 251, 253, 255,
];

#[test]
fn curve_matches_the_tabulated_values() {
    for v in 0..=255u16 {
        assert_eq!(perceived(v as u8), EXPECTED[v as usize]);
    }
}

#[test]
fn curve_fixes_endpoints_and_never_exceeds_input() {
    assert_eq!(perceived(0), 0);
    assert_eq!(perceived(255), 255);
    assert_eq!(perceived(128), 64);
    assert_eq!(perceived(16), 1);
    for v in 0..=255u16 {
        assert!(perceived(v as u8) <= v as u8);
    }
}

#[test]
fn curve_is_monotone() {
    for v in 0..255u16 {
        assert!(perceived(v as u8) <= perceived((v + 1) as u8));
    }
}
