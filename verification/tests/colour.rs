use dct_image_compression::colour::{chroma_subsample, level_shift, rgb_to_ycbcr};
use dct_image_compression::plane::Plane;
use dct_image_compression::shifted_plane::ShiftedPlane;

/// The conversion written out in double precision.
fn in_double_precision(r: u8, g: u8, b: u8) -> (u8, u8, u8) {
    let y = (0.299 * r as f64 + 0.587 * g as f64 + 0.114 * b as f64) as u8;
    let cb = (-0.16874 * r as f64 - 0.33126 * g as f64 + 0.5 * b as f64 + 128.) as u8;
    let cr = (0.5 * r as f64 - 0.41869 * g as f64 - 0.08131 * b as f64 + 128.) as u8;
    (y, cb, cr)
}

fn agrees_with_double_precision(reds: std::ops::RangeInclusive<u8>) {
    for r in reds {
        for g in 0..=255u8 {
            for b in 0..=255u8 {
                assert_eq!(rgb_to_ycbcr(r, g, b), in_double_precision(r, g, b), "pixel ({r}, {g}, {b})");
            }
        }
    }
}

#[test]
/// Tests `level_shift`
fn level_shift_test() {
    let input = Plane::from_vec(2, 4, vec![128, 255, 0, 54, 220, 101, 200, 90]).unwrap();
    let expected_output =
        ShiftedPlane::from_vec(2, 4, vec![0, 127, -128, -74, 92, -27, 72, -38]).unwrap();

    assert_eq!(level_shift(&input), expected_output)
}

#[test]
/// Tests `chroma_subsample` using input with dimensions divisible by 2
fn chroma_subsample_test_1() {
    let input = Plane::from_vec(
        4,
        4,
        vec![10, 20, 30, 40, 50, 60, 70, 80, 90, 100, 110, 120, 130, 140, 150, 160],
    )
    .unwrap();
    let expected_output = Plane::from_vec(2, 2, vec![10, 30, 90, 110]).unwrap();

    assert_eq!(chroma_subsample(&input), expected_output);
}

#[test]
/// Tests `chroma_subsample` using input with dimensions not divisible by 2
fn chroma_subsample_test_2() {
    let input = Plane::from_vec(
        3,
        5,
        vec![10, 20, 30, 40, 50, 60, 70, 80, 90, 100, 110, 120, 130, 140, 150],
    )
    .unwrap();
    let expected_output = Plane::from_vec(2, 3, vec![10, 30, 50, 110, 130, 150]).unwrap();

    assert_eq!(chroma_subsample(&input), expected_output);
}

#[test]
/// Tests `chroma_subsample` using empty input
fn chroma_subsample_test_3() {
    let input = Plane::zeroed(0, 0);
    let expected_output = Plane::zeroed(0, 0);
    assert_eq!(chroma_subsample(&input), expected_output);
}

#[test]
fn test_rgb_to_ycbcr_black() {
    let (y, cb, cr) = rgb_to_ycbcr(0, 0, 0);
    assert_eq!((y, cb, cr), (0, 128, 128));
}

#[test]
fn test_rgb_to_ycbcr_white() {
    let (y, cb, cr) = rgb_to_ycbcr(255, 255, 255);
    assert_eq!((y, cb, cr), (255, 128, 128));
}

#[test]
fn test_rgb_to_ycbcr_red() {
    let (y, cb, cr) = rgb_to_ycbcr(255, 0, 0);
    assert_eq!((y, cb, cr), (76, 84, 255));
}

#[test]
fn test_rgb_to_ycbcr_green() {
    let (y, cb, cr) = rgb_to_ycbcr(0, 255, 0);
    assert_eq!((y, cb, cr), (149, 43, 21));
}

#[test]
fn test_rgb_to_ycbcr_blue() {
    let (y, cb, cr) = rgb_to_ycbcr(0, 0, 255);
    assert_eq!((y, cb, cr), (29, 255, 107));
}

#[test]
fn rgb_to_ycbcr_agrees_with_double_precision_for_reds_0_to_15() {
    agrees_with_double_precision(0..=15);
}

#[test]
fn rgb_to_ycbcr_agrees_with_double_precision_for_reds_16_to_31() {
    agrees_with_double_precision(16..=31);
}

#[test]
fn rgb_to_ycbcr_agrees_with_double_precision_for_reds_32_to_47() {
    agrees_with_double_precision(32..=47);
}

#[test]
fn rgb_to_ycbcr_agrees_with_double_precision_for_reds_48_to_63() {
    agrees_with_double_precision(48..=63);
}

#[test]
fn rgb_to_ycbcr_agrees_with_double_precision_for_reds_64_to_79() {
    agrees_with_double_precision(64..=79);
}

#[test]
fn rgb_to_ycbcr_agrees_with_double_precision_for_reds_80_to_95() {
    agrees_with_double_precision(80..=95);
}

#[test]
fn rgb_to_ycbcr_agrees_with_double_precision_for_reds_96_to_111() {
    agrees_with_double_precision(96..=111);
}

#[test]
fn rgb_to_ycbcr_agrees_with_double_precision_for_reds_112_to_127() {
    agrees_with_double_precision(112..=127);
}

#[test]
fn rgb_to_ycbcr_agrees_with_double_precision_for_reds_128_to_143() {
    agrees_with_double_precision(128..=143);
}

#[test]
fn rgb_to_ycbcr_agrees_with_double_precision_for_reds_144_to_159() {
    agrees_with_double_precision(144..=159);
}

#[test]
fn rgb_to_ycbcr_agrees_with_double_precision_for_reds_160_to_175() {
    agrees_with_double_precision(160..=175);
}

#[test]
fn rgb_to_ycbcr_agrees_with_double_precision_for_reds_176_to_191() {
    agrees_with_double_precision(176..=191);
}

#[test]
fn rgb_to_ycbcr_agrees_with_double_precision_for_reds_192_to_207() {
    agrees_with_double_precision(192..=207);
}

#[test]
fn rgb_to_ycbcr_agrees_with_double_precision_for_reds_208_to_223() {
    agrees_with_double_precision(208..=223);
}

#[test]
fn rgb_to_ycbcr_agrees_with_double_precision_for_reds_224_to_239() {
    agrees_with_double_precision(224..=239);
}

#[test]
fn rgb_to_ycbcr_agrees_with_double_precision_for_reds_240_to_255() {
    agrees_with_double_precision(240..=255);
}

#[test]
fn luma_is_one_less_where_rounding_stays_below_an_integer() {
    // 0.299 + 0.587 + 0.114 is 1 exactly, but just below 1 in binary64.
    assert_eq!(rgb_to_ycbcr(1, 1, 1), (0, 128, 128));
    // 72 * 0.587 + 24 * 0.114 is 45 exactly.
    assert_eq!(rgb_to_ycbcr(0, 72, 24).0, 44);
    assert_eq!(rgb_to_ycbcr(0, 254, 43).0, 153);
}

#[test]
fn luma_is_the_integer_part_of_the_weighted_sum_elsewhere() {
    // 0.299 * 100 + 0.587 * 150 + 0.114 * 200 = 140.75
    assert_eq!(rgb_to_ycbcr(100, 150, 200).0, 140);
    // 0.299 * 17 + 0.587 * 3 + 0.114 * 250 = 35.344
    assert_eq!(rgb_to_ycbcr(17, 3, 250).0, 35);
    for (r, g, b) in [(12u8, 200u8, 7u8), (255, 254, 253), (90, 91, 92), (3, 0, 1)] {
        let exact = 299 * r as u32 + 587 * g as u32 + 114 * b as u32;
        assert_ne!(exact % 1000, 0);
        assert_eq!(rgb_to_ycbcr(r, g, b).0 as u32, exact / 1000);
    }
}

#[test]
fn chroma_is_the_floor_of_the_exact_sum() {
    // -0.16874 * 100 - 0.33126 * 150 + 0.5 * 200 + 128 = 161.437
    // 0.5 * 100 - 0.41869 * 150 - 0.08131 * 200 + 128 = 98.9345
    assert_eq!(rgb_to_ycbcr(100, 150, 200), (140, 161, 98));
    // The smallest and the largest sums: 0.5 and 255.5.
    assert_eq!(rgb_to_ycbcr(255, 255, 0).1, 0);
    assert_eq!(rgb_to_ycbcr(0, 0, 255).1, 255);
    assert_eq!(rgb_to_ycbcr(0, 255, 255).2, 0);
    assert_eq!(rgb_to_ycbcr(255, 0, 0).2, 255);
}

#[test]
fn grey_pixels_have_neutral_chroma() {
    for v in 0..=255u8 {
        let (_, cb, cr) = rgb_to_ycbcr(v, v, v);
        assert_eq!((cb, cr), (128, 128));
    }
}

#[test]
fn level_shift_adds_back_to_every_sample() {
    let samples: Vec<u8> = (0..=255).collect();
    let shifted = level_shift(&Plane::from_vec(16, 16, samples.clone()).unwrap());
    assert_eq!(shifted.extent(), (16, 16));
    for (s, v) in samples.iter().zip(shifted.to_vec()) {
        assert_eq!(v as i16 + 128, *s as i16);
    }
    assert_eq!(shifted.get(0, 0), -128);
    assert_eq!(shifted.get(8, 0), 0);
    assert_eq!(shifted.get(15, 15), 127);
}

#[test]
fn level_shift_keeps_an_empty_extent() {
    assert_eq!(level_shift(&Plane::zeroed(0, 0)), ShiftedPlane::zeroed(0, 0));
    assert_eq!(level_shift(&Plane::zeroed(0, 3)).extent(), (0, 3));
    assert_eq!(level_shift(&Plane::zeroed(3, 0)).extent(), (3, 0));
}

#[test]
fn chroma_subsample_halves_each_extent_rounding_up() {
    for rows in 0..7usize {
        for cols in 0..7usize {
            let samples: Vec<u8> = (0..rows * cols).map(|k| k as u8).collect();
            let input = Plane::from_vec(rows, cols, samples).unwrap();
            let out = chroma_subsample(&input);
            assert_eq!(out.extent(), ((rows + 1) / 2, (cols + 1) / 2));
            for i in 0..out.rows() {
                for j in 0..out.cols() {
                    assert_eq!(out.get(i, j), input.get(2 * i, 2 * j));
                }
            }
        }
    }
}

#[test]
fn chroma_subsample_takes_the_top_left_sample_and_no_average() {
    let input = Plane::from_vec(2, 2, vec![200, 0, 0, 0]).unwrap();
    assert_eq!(chroma_subsample(&input).to_vec(), vec![200]);
    let single = Plane::from_vec(1, 1, vec![7]).unwrap();
    assert_eq!(chroma_subsample(&single).to_vec(), vec![7]);
}
