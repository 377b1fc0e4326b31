use dct_image_compression::binary64::round_nearest;

/// What the conversion to `f64` makes of a whole number.
fn through_f64(x: u128) -> u128 {
    (x as f64) as u128
}

#[test]
fn numbers_of_at_most_53_bits_are_kept() {
    for x in [0u128, 1, 2, 3, 255, 1 << 52, (1 << 53) - 1] {
        assert_eq!(round_nearest(x), x);
    }
}

#[test]
fn a_number_between_two_neighbours_goes_to_the_nearer() {
    let limit: u128 = 1 << 53;
    // Past 53 bits the neighbours are 2 apart, past 54 bits 4 apart.
    assert_eq!(round_nearest(limit), limit);
    assert_eq!(round_nearest(2 * limit + 1), 2 * limit);
    assert_eq!(round_nearest(2 * limit + 3), 2 * limit + 4);
    assert_eq!(round_nearest(4 * limit + 3), 4 * limit);
    assert_eq!(round_nearest(4 * limit + 5), 4 * limit + 8);
}

#[test]
fn a_tie_goes_to_the_even_neighbour() {
    let limit: u128 = 1 << 53;
    assert_eq!(round_nearest(limit + 1), limit);
    assert_eq!(round_nearest(limit + 3), limit + 4);
    assert_eq!(round_nearest(limit + 5), limit + 4);
    assert_eq!(round_nearest(2 * limit + 2), 2 * limit);
    assert_eq!(round_nearest(2 * limit + 6), 2 * limit + 8);
}

#[test]
fn rounding_up_may_reach_the_next_power_of_two() {
    let limit: u128 = 1 << 53;
    assert_eq!(round_nearest(2 * limit - 1), 2 * limit);
    assert_eq!(round_nearest(4 * limit - 1), 4 * limit);
}

#[test]
fn rounding_is_the_conversion_to_f64() {
    let mut x: u128 = 1;
    // A multiplicative walk through the whole range, with odd steps.
    while x <= 0xffff_ffff_ffff_ffff_ffff_ffff {
        for d in 0..64u128 {
            let y = x + d * (x >> 50) + d;
            if y <= 0xffff_ffff_ffff_ffff_ffff_ffff {
                assert_eq!(round_nearest(y), through_f64(y), "{y}");
            }
        }
        x = x + x / 3 + 1;
    }
    for y in (1u128 << 53) - 100..(1u128 << 53) + 1000 {
        assert_eq!(round_nearest(y), through_f64(y), "{y}");
    }
    for y in (1u128 << 60) - 1000..(1u128 << 60) + 1000 {
        assert_eq!(round_nearest(y), through_f64(y), "{y}");
    }
    assert_eq!(
        round_nearest(0xffff_ffff_ffff_ffff_ffff_ffff),
        through_f64(0xffff_ffff_ffff_ffff_ffff_ffff)
    );
}
