//! Fixed-point arithmetic on `i128` values that count thousandths of a world
//! unit, together with the mathematical (spec-level) definitions the rest of
//! the library states its contracts over.

use vstd::prelude::*;
use vstd::arithmetic::div_mod::{
    lemma_div_by_multiple, lemma_div_is_ordered, lemma_div_pos_is_pos,
    lemma_fundamental_div_mod, lemma_fundamental_div_mod_converse_mod,
};

verus! {

/// Magnitude bound on the product inside a fixed-point multiplication;
/// comfortably inside the range of `i128`.
pub const FX_PROD_LIM: i128 = 0x7000_0000_0000_0000_0000_0000_0000_0000;

/// Magnitude bound on the dividend of a fixed-point division: scaling it up
/// by 1000 still fits in `i128`.
pub const FX_QUOT_LIM: i128 = 0x4000_0000_0000_0000_0000_0000_0000;

/// Truncated (round-toward-zero) division, the semantics of `/` on hardware
/// integers, as a mathematical function. `b` must be positive.
pub open spec fn tdiv_s(a: int, b: int) -> int {
    if a >= 0 {
        a / b
    } else {
        -((-a) / b)
    }
}

/// Truncated division stays within any window around zero that the dividend
/// fits in, scaled by the divisor.
pub proof fn lemma_tdiv_range(n: int, d: int, lo: int, hi: int)
    requires
        d > 0,
        lo <= 0,
        hi >= 0,
        lo * d <= n,
        n <= hi * d,
    ensures
        lo <= tdiv_s(n, d) <= hi,
{
    if n >= 0 {
        lemma_div_pos_is_pos(n, d);
        lemma_div_is_ordered(n, hi * d, d);
        lemma_div_by_multiple(hi, d);
    } else {
        assert((-lo) * d == -(lo * d)) by (nonlinear_arith);
        lemma_div_pos_is_pos(-n, d);
        lemma_div_is_ordered(-n, (-lo) * d, d);
        lemma_div_by_multiple(-lo, d);
    }
}

/// Truncated division of fixed-point values, executable form.
pub fn tdiv(a: i128, b: i128) -> (r: i128)
    requires
        b > 0,
        a > i128::MIN,
    ensures
        r == tdiv_s(a as int, b as int),
        a >= 0 ==> 0 <= r <= a,
        a < 0 ==> a <= r <= 0,
{
    if a >= 0 {
        proof {
            lemma_div_pos_is_pos(a as int, b as int);
            lemma_div_is_ordered_helper(a as int, b as int);
        }
        a / b
    } else {
        proof {
            lemma_div_pos_is_pos(-a as int, b as int);
            lemma_div_is_ordered_helper(-a as int, b as int);
        }
        -((-a) / b)
    }
}

/// A quotient by a positive divisor never exceeds the (nonnegative) dividend.
proof fn lemma_div_is_ordered_helper(x: int, d: int)
    requires
        x >= 0,
        d > 0,
    ensures
        x / d <= x,
{
    if d == 1 {
        lemma_div_by_multiple(x, 1);
    } else {
        assert(x <= x * d) by (nonlinear_arith)
            requires x >= 0 && d > 1;
        lemma_div_is_ordered(x, x * d, d);
        lemma_div_by_multiple(x, d);
    }
}

/// Truncated division by a divisor of either sign (but not zero), as a
/// mathematical function.
pub open spec fn tdivg_s(a: int, b: int) -> int {
    if b >= 0 {
        tdiv_s(a, b)
    } else {
        -tdiv_s(a, -b)
    }
}

/// Truncated division by a nonzero divisor, executable form.
pub fn tdivg(a: i128, b: i128) -> (r: i128)
    requires
        b != 0,
        a > i128::MIN,
        b > i128::MIN,
    ensures
        r == tdivg_s(a as int, b as int),
        a >= 0 ==> -a <= r <= a,
        a < 0 ==> a <= r <= -a,
{
    if b > 0 {
        tdiv(a, b)
    } else {
        let q: i128 = tdiv(a, -b);
        -q
    }
}

/// Product of two fixed-point numbers, as a mathematical function:
/// multiply, then scale back down by 1000, truncating toward zero.
pub open spec fn fxmul_s(a: int, b: int) -> int {
    tdiv_s(a * b, 1000)
}

/// Product of two fixed-point numbers, executable form.
pub fn fxmul(a: i128, b: i128) -> (r: i128)
    requires
        -FX_PROD_LIM <= a * b <= FX_PROD_LIM,
    ensures
        r == fxmul_s(a as int, b as int),
{
    tdiv(a * b, 1000)
}

/// Quotient of two fixed-point numbers (positive divisor), as a mathematical
/// function: scale the dividend up by 1000, then divide, truncating.
pub open spec fn fxdiv_s(a: int, b: int) -> int {
    tdiv_s(a * 1000, b)
}

/// Quotient of two fixed-point numbers, executable form.
pub fn fxdiv(a: i128, b: i128) -> (r: i128)
    requires
        -FX_QUOT_LIM <= a <= FX_QUOT_LIM,
        0 < b,
    ensures
        r == fxdiv_s(a as int, b as int),
{
    tdiv(a * 1000, b)
}

/// A product of two values bounded in magnitude is bounded by the product of
/// the bounds, and the scaled-back fixed-point product by any `q` with
/// `x * y <= q * 1000`.
pub proof fn lemma_fxmul_bound(a: int, b: int, x: int, y: int, q: int)
    requires
        -x <= a <= x,
        -y <= b <= y,
        0 <= x,
        0 <= y,
        0 <= q,
        x * y <= q * 1000,
    ensures
        -(x * y) <= a * b <= x * y,
        -q <= fxmul_s(a, b) <= q,
{
    assert(-(x * y) <= a * b <= x * y) by (nonlinear_arith)
        requires -x <= a <= x && -y <= b <= y && 0 <= x && 0 <= y;
    lemma_tdiv_range(a * b, 1000, -q, q);
}

/// A fixed-point square is nonnegative and bounded by the square of the
/// operand's bound, scaled back down.
pub proof fn lemma_fxsquare_bound(a: int, x: int, q: int)
    requires
        -x <= a <= x,
        0 <= x,
        x * x <= q * 1000,
    ensures
        0 <= a * a <= x * x,
        0 <= fxmul_s(a, a) <= q,
{
    assert(0 <= a * a <= x * x) by (nonlinear_arith)
        requires -x <= a <= x && 0 <= x;
    lemma_tdiv_range(a * a, 1000, 0, q);
}

/// A fixed-point quotient by a divisor of at least one is bounded by the
/// dividend's bound scaled up by 1000.
pub proof fn lemma_fxdiv_bound(a: int, b: int, x: int)
    requires
        -x <= a <= x,
        0 <= x,
        0 < b,
    ensures
        -(x * 1000) <= fxdiv_s(a, b) <= x * 1000,
{
    assert(-(x * 1000) * b <= a * 1000 <= x * 1000 * b) by (nonlinear_arith)
        requires -x <= a <= x && 0 <= x && 0 < b;
    lemma_tdiv_range(a * 1000, b, -(x * 1000), x * 1000);
}

/// Largest root whose square an integer square root may take; its square
/// still fits in `i128`.
pub const ISQRT_ROOT_LIM: i128 = 0x4000_0000_0000_0000;

/// The integer square root (largest `r` with `r * r <= n`), as a
/// mathematical function; zero for negative arguments.
pub open spec fn isqrt_s(n: int) -> int
    decreases n,
{
    if n <= 0 {
        0
    } else {
        let r = isqrt_s(n - 1);
        if (r + 1) * (r + 1) <= n {
            r + 1
        } else {
            r
        }
    }
}

/// The integer square root is nonnegative, its square is at most `n`, and
/// the next square is beyond `n`.
pub proof fn lemma_isqrt_s_props(n: int)
    requires
        n >= 0,
    ensures
        isqrt_s(n) >= 0,
        isqrt_s(n) * isqrt_s(n) <= n,
        n < (isqrt_s(n) + 1) * (isqrt_s(n) + 1),
    decreases n,
{
    if n == 0 {
    } else {
        lemma_isqrt_s_props(n - 1);
        let r = isqrt_s(n - 1);
        if (r + 1) * (r + 1) <= n {
            assert((r + 1 + 1) * (r + 1 + 1) > (r + 1) * (r + 1)) by (nonlinear_arith)
                requires r >= 0;
        }
    }
}

/// Any value whose square brackets `n` is the integer square root of `n`.
pub proof fn lemma_isqrt_unique(n: int, r: int)
    requires
        n >= 0,
        r >= 0,
        r * r <= n,
        n < (r + 1) * (r + 1),
    ensures
        r == isqrt_s(n),
{
    lemma_isqrt_s_props(n);
    let q = isqrt_s(n);
    if r < q {
        assert((r + 1) * (r + 1) <= q * q) by (nonlinear_arith)
            requires 0 <= r && r < q;
    } else if q < r {
        assert((q + 1) * (q + 1) <= r * r) by (nonlinear_arith)
            requires 0 <= q && q < r;
    }
}

/// Integer square root, executable form: binary search for the largest root
/// whose square does not exceed `n`.
pub fn isqrt(n: i128) -> (r: i128)
    requires
        0 <= n,
        n <= ISQRT_ROOT_LIM * ISQRT_ROOT_LIM,
    ensures
        r == isqrt_s(n as int),
        0 <= r <= ISQRT_ROOT_LIM,
        r * r <= n,
        n < (r + 1) * (r + 1),
{
    let mut lo: i128 = 0;
    let mut hi: i128 = ISQRT_ROOT_LIM;
    proof {
        assert(ISQRT_ROOT_LIM * ISQRT_ROOT_LIM < (ISQRT_ROOT_LIM + 1) * (ISQRT_ROOT_LIM + 1))
            by (nonlinear_arith);
    }
    while lo < hi
        invariant
            0 <= lo <= hi <= ISQRT_ROOT_LIM,
            lo * lo <= n,
            n < (hi + 1) * (hi + 1),
        decreases hi - lo,
    {
        let mid: i128 = lo + (hi - lo + 1) / 2;
        proof {
            assert(mid * mid <= ISQRT_ROOT_LIM * ISQRT_ROOT_LIM) by (nonlinear_arith)
                requires 0 <= mid <= ISQRT_ROOT_LIM;
        }
        if mid * mid <= n {
            lo = mid;
        } else {
            hi = mid - 1;
        }
    }
    proof {
        lemma_isqrt_unique(n as int, lo as int);
    }
    lo
}

/// Euclidean remainder (always in `[0, m)`), executable form; agrees with
/// the `%` of specifications.
pub fn emod(a: i128, m: i128) -> (r: i128)
    requires
        m > 0,
        a > i128::MIN,
    ensures
        r == a as int % m as int,
        0 <= r < m,
{
    if a >= 0 {
        a % m
    } else {
        let k: i128 = (-a) % m;
        proof {
            lemma_fundamental_div_mod(-a as int, m as int);
            let q = (-a as int) / (m as int);
            if k == 0 {
                assert(a as int == (-q) * (m as int) + 0) by (nonlinear_arith)
                    requires -a as int == (m as int) * q + (k as int) && k == 0;
                lemma_fundamental_div_mod_converse_mod(a as int, m as int, -q, 0);
            } else {
                assert(a as int == (-q - 1) * (m as int) + ((m - k) as int)) by (nonlinear_arith)
                    requires -a as int == (m as int) * q + (k as int);
                lemma_fundamental_div_mod_converse_mod(a as int, m as int, -q - 1, m - k);
            }
        }
        if k == 0 {
            0
        } else {
            m - k
        }
    }
}

} // verus!
