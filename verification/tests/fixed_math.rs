use termray::fixed::{emod, fxdiv, fxmul, isqrt, tdiv, tdivg};
use termray::trig::sin_milli;

#[test]
fn tdiv_truncates_toward_zero() {
    assert_eq!(tdiv(7, 2), 3);
    assert_eq!(tdiv(-7, 2), -3);
    assert_eq!(tdiv(6, 3), 2);
    assert_eq!(tdiv(-6, 3), -2);
    assert_eq!(tdiv(0, 5), 0);
}

#[test]
fn tdivg_negative_divisor() {
    assert_eq!(tdivg(7, -2), -3);
    assert_eq!(tdivg(-7, -2), 3);
    assert_eq!(tdivg(7, 2), 3);
    assert_eq!(tdivg(-1000000, -1), 1000000);
}

#[test]
fn emod_is_euclidean() {
    assert_eq!(emod(7, 3), 1);
    assert_eq!(emod(-7, 3), 2);
    assert_eq!(emod(-6, 3), 0);
    assert_eq!(emod(0, 5), 0);
    assert_eq!(emod(-1, 6284), 6283);
}

#[test]
fn fxmul_scales_by_thousandths() {
    assert_eq!(fxmul(1500, 2000), 3000);
    assert_eq!(fxmul(-1500, 2000), -3000);
    assert_eq!(fxmul(1, 1), 0);
    // Truncation is toward zero, not toward minus infinity.
    assert_eq!(fxmul(-1, 999), 0);
    assert_eq!(fxmul(1000, 1000), 1000);
}

#[test]
fn fxdiv_scales_by_thousandths() {
    assert_eq!(fxdiv(3000, 1500), 2000);
    assert_eq!(fxdiv(-3000, 1500), -2000);
    assert_eq!(fxdiv(1000, 3000), 333);
}

#[test]
fn isqrt_exact_squares_and_brackets() {
    assert_eq!(isqrt(0), 0);
    assert_eq!(isqrt(1), 1);
    assert_eq!(isqrt(15), 3);
    assert_eq!(isqrt(16), 4);
    assert_eq!(isqrt(9_000_000), 3000);
    assert_eq!(isqrt(182_250_000), 13500);
    assert_eq!(
        isqrt(10_000_000_000_000_000_000_000_000_000_000_000),
        100_000_000_000_000_000
    );
    let n: i128 = 123_456_789_123_456_789;
    let r = isqrt(n);
    assert!(r * r <= n);
    assert!((r + 1) * (r + 1) > n);
}

#[test]
fn sin_milli_key_points() {
    assert_eq!(sin_milli(0), 0);
    assert_eq!(sin_milli(3142), 0);
    assert_eq!(sin_milli(6284), 0);
    assert_eq!(sin_milli(1571), 1000);
    assert_eq!(sin_milli(4713), -1000);
    assert_eq!(sin_milli(-3142), 0);
    assert_eq!(sin_milli(6284 + 1571), 1000);
    assert_eq!(sin_milli(-6284 + 1571), 1000);
}

#[test]
fn sin_milli_stays_bounded() {
    let mut t: i128 = -20000;
    while t <= 20000 {
        let s = sin_milli(t);
        assert!(-1000 <= s && s <= 1000);
        t += 7;
    }
}
