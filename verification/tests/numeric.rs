use primg::numeric::{clamp, isqrt, scale_dimen, scaled_to_area};

#[test]
fn clamp_limits_to_the_range() {
    assert_eq!(clamp(5, 0, 10), 5);
    assert_eq!(clamp(-5, 0, 10), 0);
    assert_eq!(clamp(15, 0, 10), 10);
    assert_eq!(clamp(0, 0, 10), 0);
    assert_eq!(clamp(10, 0, 10), 10);
}

#[test]
fn clamp_on_an_empty_range_prefers_the_lower_bound_for_low_values() {
    assert_eq!(clamp(-3, 0, -1), 0);
    assert_eq!(clamp(3, 0, -1), -1);
    assert_eq!(clamp(5, 1, 0), 0);
}

#[test]
fn isqrt_brackets_its_argument() {
    let cases: [(u128, u64); 10] = [
        (0, 0),
        (1, 1),
        (2, 1),
        (3, 1),
        (4, 2),
        (15, 3),
        (16, 4),
        (17, 4),
        (999_999, 999),
        (1_000_000, 1000),
    ];
    for &(n, r) in cases.iter() {
        assert_eq!(isqrt(n), r, "isqrt({})", n);
    }
    assert_eq!(isqrt(u128::MAX), u64::MAX);
    assert_eq!(isqrt((1u128 << 64) - 1), (1u64 << 32) - 1);
    assert_eq!(isqrt(1u128 << 64), 1u64 << 32);
    for n in 0..5000u128 {
        let r = isqrt(n) as u128;
        assert!(r * r <= n && n < (r + 1) * (r + 1));
    }
}

#[test]
fn scale_dimen_rounds_to_the_nearest() {
    assert_eq!(scale_dimen(10, 3, 2), 15);
    assert_eq!(scale_dimen(3, 1, 2), 2);
    assert_eq!(scale_dimen(5, 1, 2), 3);
    assert_eq!(scale_dimen(1, 1, 3), 0);
    assert_eq!(scale_dimen(2, 1, 3), 1);
    assert_eq!(scale_dimen(7, 1024, 256), 28);
    assert_eq!(scale_dimen(100, 300, 256), 117);
    assert_eq!(scale_dimen(0, 5, 3), 0);
    assert_eq!(scale_dimen(9, 0, 3), 0);
}

#[test]
fn scale_dimen_rounds_halves_away_from_zero() {
    assert_eq!(scale_dimen(-3, 1, 2), -2);
    assert_eq!(scale_dimen(-5, 1, 2), -3);
    assert_eq!(scale_dimen(-1, 1, 3), 0);
    assert_eq!(scale_dimen(-16, 4, 1), -64);
    assert_eq!(scale_dimen(-9, 0, 3), 0);
}

#[test]
fn scale_dimen_by_one_is_the_identity() {
    for a in [-1000, -16, -1, 0, 1, 7, 255, i32::MAX, i32::MIN] {
        assert_eq!(scale_dimen(a, 1, 1), a);
        assert_eq!(scale_dimen(a, 256, 256), a);
    }
}

#[test]
fn scale_dimen_stays_in_range() {
    assert_eq!(scale_dimen(i32::MAX, 4, 1), i32::MAX);
    assert_eq!(scale_dimen(i32::MIN, 4, 1), i32::MIN);
    assert_eq!(scale_dimen(i32::MAX, usize::MAX, 1), i32::MAX);
}

#[test]
fn a_small_image_keeps_its_size() {
    assert_eq!(scaled_to_area(100, 50, 65536), (100, 50));
    assert_eq!(scaled_to_area(255, 256, 65536), (255, 256));
    assert_eq!(scaled_to_area(0, 7, 65536), (0, 7));
}

#[test]
fn a_large_image_is_brought_to_the_area() {
    assert_eq!(scaled_to_area(256, 256, 65536), (256, 256));
    assert_eq!(scaled_to_area(512, 512, 65536), (256, 256));
    assert_eq!(scaled_to_area(1024, 256, 65536), (512, 128));
    assert_eq!(scaled_to_area(1000, 500, 65536), (362, 181));
    assert_eq!(scaled_to_area(300, 300, 65536), (256, 256));
    let (w, h) = scaled_to_area(4000, 3000, 65536);
    assert_eq!((w, h), (295, 221));
    assert!((w as usize) * (h as usize) <= 65536);
}
