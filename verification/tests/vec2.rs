use wallfacer::vec2::{abs128, clamp_to, isqrt, mul_div_signed, tdiv_i128, Vec2};

#[test]
fn isqrt_exact_values() {
    assert_eq!(isqrt(0), 0);
    assert_eq!(isqrt(1), 1);
    assert_eq!(isqrt(3), 1);
    assert_eq!(isqrt(4), 2);
    assert_eq!(isqrt(101), 10);
    assert_eq!(isqrt(6_600_000), 2569);
    assert_eq!(isqrt(u128::MAX), (1u128 << 64) - 1);
}

#[test]
fn tdiv_truncates_toward_zero() {
    assert_eq!(tdiv_i128(7, 2), 3);
    assert_eq!(tdiv_i128(-7, 2), -3);
    assert_eq!(tdiv_i128(-1, 2), 0);
    assert_eq!(mul_div_signed(-2569, 100_000, 1_000_000), -256);
    assert_eq!(mul_div_signed(2569, 100_000, 1_000_000), 256);
}

#[test]
fn clamp_and_abs() {
    assert_eq!(clamp_to(5, 3), 3);
    assert_eq!(clamp_to(-5, 3), -3);
    assert_eq!(clamp_to(2, 3), 2);
    assert_eq!(abs128(-9), 9);
    assert_eq!(abs128(9), 9);
}

#[test]
fn vector_arithmetic() {
    let a = Vec2::new(3, -4);
    let b = Vec2::new(-1, 10);
    assert_eq!(a.add(b), Vec2::new(2, 6));
    assert_eq!(a.sub(b), Vec2::new(4, -14));
    assert_eq!(a.perp(), Vec2::new(4, 3));
    assert_eq!(Vec2::zero(), Vec2::new(0, 0));
}
