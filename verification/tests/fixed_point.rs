use ltsr::fixed::{fit_range, half, isqrt_u128, mul_fp, div_fp, sqrt_fp, tdiv_i64, SCALE};

#[test]
fn scale_is_two_to_the_sixteen() {
    assert_eq!(SCALE, 65536);
}

#[test]
fn truncating_division_rounds_toward_zero() {
    assert_eq!(tdiv_i64(7, 2), 3);
    assert_eq!(tdiv_i64(-7, 2), -3);
    assert_eq!(tdiv_i64(6, 3), 2);
    assert_eq!(tdiv_i64(-6, 3), -2);
    assert_eq!(half(-7), -3);
    assert_eq!(half(7), 3);
}

#[test]
fn fixed_point_products_rescale() {
    // 2.0 * 3.0 == 6.0
    assert_eq!(mul_fp(2 * 65536, 3 * 65536), 6 * 65536);
    // 0.5 * 0.5 == 0.25
    assert_eq!(mul_fp(32768, 32768), 16384);
    // -1.5 * 2.0 == -3.0
    assert_eq!(mul_fp(-98304, 131072), -196608);
}

#[test]
fn fixed_point_quotients_rescale() {
    // 6.0 / 3.0 == 2.0
    assert_eq!(div_fp(6 * 65536, 3 * 65536), 2 * 65536);
    // 1.0 / 2.0 == 0.5
    assert_eq!(div_fp(65536, 131072), 32768);
}

#[test]
fn integer_square_roots_are_floors() {
    assert_eq!(isqrt_u128(0), 0);
    assert_eq!(isqrt_u128(1), 1);
    assert_eq!(isqrt_u128(3), 1);
    assert_eq!(isqrt_u128(4), 2);
    assert_eq!(isqrt_u128(2147483648), 46340);
    assert_eq!(isqrt_u128(1u128 << 64), 1u64 << 32);
}

#[test]
fn fixed_point_square_roots() {
    // sqrt(4.0) == 2.0
    assert_eq!(sqrt_fp(4 * 65536), 2 * 65536);
    // sqrt(0.25) == 0.5
    assert_eq!(sqrt_fp(16384), 32768);
    assert_eq!(sqrt_fp(0), 0);
}

#[test]
fn fit_range_remaps_linearly() {
    // map 5 from [0, 10] into [0, 100]
    assert_eq!(fit_range(5, 0, 10, 0, 100), 50);
    // map 12345 steps from [0, 1] into [0, 100]
    assert_eq!(fit_range(12345, 0, 65536, 0, 6553600), 1234500);
    // no clamping: values outside the input range extrapolate
    assert_eq!(fit_range(20, 0, 10, 0, 100), 200);
    assert_eq!(fit_range(-5, 0, 10, 0, 100), -50);
}

#[test]
fn fit_range_accepts_reversed_ranges() {
    assert_eq!(fit_range(5, 10, 0, 0, 100), 50);
    assert_eq!(fit_range(25, 0, 100, 100, 0), 75);
}

#[test]
fn fit_range_round_trips_exactly_when_lossless() {
    let x = 12345;
    let y = fit_range(x, 0, 65536, 0, 6553600);
    let back = fit_range(y, 0, 6553600, 0, 65536);
    assert_eq!(back, x);
}

#[test]
fn fit_range_round_trips_within_tolerance_when_lossy() {
    // squeezing [0, 100] into [0, 10] loses at most 100/10 + 1 units
    let x = 7;
    let y = fit_range(x, 0, 100, 0, 10);
    let back = fit_range(y, 0, 10, 0, 100);
    assert!((back - x).abs() * 10 < 100 + 10);
}
