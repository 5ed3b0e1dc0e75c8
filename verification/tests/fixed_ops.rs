use mix_n_mech::FX_ONE;
use mix_n_mech::fixed::{Vec2Fx, fdiv, fmul, halve, i64_abs, isqrt, pow_half, sqrt_fx};

#[test]
fn fmul_scales_exactly() {
    // 2.5 * 4.0 == 10.0
    assert_eq!(fmul(2_500_000, 4_000_000), 10_000_000);
    // signs and truncation toward zero
    assert_eq!(fmul(-2_500_000, 4_000_000), -10_000_000);
    assert_eq!(fmul(1, 1), 0);
    assert_eq!(fmul(-1, 1), 0);
    assert_eq!(fmul(999_999, 1), 0);
    assert_eq!(fmul(FX_ONE, 7), 7);
}

#[test]
fn fdiv_divides_exactly() {
    // 10.0 / 4.0 == 2.5
    assert_eq!(fdiv(10_000_000, 4_000_000), 2_500_000);
    assert_eq!(fdiv(-10_000_000, 4_000_000), -2_500_000);
    // 1.0 / 3.0 truncates
    assert_eq!(fdiv(FX_ONE, 3_000_000), 333_333);
    assert_eq!(fdiv(-FX_ONE, 3_000_000), -333_333);
}

#[test]
fn isqrt_brackets_the_root() {
    assert_eq!(isqrt(0), 0);
    assert_eq!(isqrt(1), 1);
    assert_eq!(isqrt(3), 1);
    assert_eq!(isqrt(4), 2);
    assert_eq!(isqrt(1_000_000_000_000), 1_000_000);
    assert_eq!(isqrt(2), 1);
    assert_eq!(isqrt(999_999), 999);
}

#[test]
fn sqrt_fx_of_quarter_is_half() {
    assert_eq!(sqrt_fx(250_000), 500_000);
    assert_eq!(sqrt_fx(FX_ONE), FX_ONE);
    assert_eq!(sqrt_fx(0), 0);
}

#[test]
fn pow_half_counts_half_steps() {
    // 0.5 ^ (8/2) = 0.0625
    assert_eq!(pow_half(500_000, 8), 62_500);
    // 0.25 ^ (1/2) = 0.5
    assert_eq!(pow_half(250_000, 1), 500_000);
    // exponent zero is one
    assert_eq!(pow_half(250_000, 0), FX_ONE);
    // 1 ^ anything is 1
    assert_eq!(pow_half(FX_ONE, 7), FX_ONE);
}

#[test]
fn halve_truncates_toward_zero() {
    assert_eq!(halve(5), 2);
    assert_eq!(halve(-5), -2);
    assert_eq!(halve(4), 2);
    assert_eq!(halve(-4), -2);
}

#[test]
fn abs_covers_the_extremes() {
    assert_eq!(i64_abs(i64::MIN), 9_223_372_036_854_775_808u64);
    assert_eq!(i64_abs(-7), 7);
    assert_eq!(i64_abs(7), 7);
}

#[test]
fn vector_ops_are_componentwise() {
    let a = Vec2Fx { x: 1_000_000, y: -2_000_000 };
    let b = Vec2Fx { x: 500_000, y: 500_000 };
    let s = a.add(b);
    assert_eq!(s.x, 1_500_000);
    assert_eq!(s.y, -1_500_000);
    let d = a.dot(b);
    // 1.0*0.5 + (-2.0)*0.5 == -0.5
    assert_eq!(d, -500_000);
    let sc = a.scale(500_000);
    assert_eq!(sc.x, 500_000);
    assert_eq!(sc.y, -1_000_000);
}
