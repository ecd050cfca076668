//! A fixed-point sine on milliradians: the argument is reduced modulo one
//! turn and each half-turn lobe is the classical parabolic approximation
//! `4u(pi - u) / pi^2`, scaled so that results count thousandths. A turn is
//! 6284 milliradians here (two half-turns of 3142), so the result is exactly
//! zero at every multiple of a half-turn and peaks at +/-1000.

use vstd::prelude::*;
use vstd::arithmetic::div_mod::lemma_mod_bound;
use crate::fixed::{tdiv, tdiv_s, emod, lemma_tdiv_range};

verus! {

/// One positive lobe of the sine approximation, on `u` in `[0, 3142]`.
pub open spec fn sin_lobe_s(u: int) -> int {
    tdiv_s(4000 * u * (3142 - u), 9872164)
}

/// Sine of `x` milliradians, in thousandths, as a mathematical function.
pub open spec fn sin_milli_s(x: int) -> int {
    let m = x % 6284;
    if m <= 3142 {
        sin_lobe_s(m)
    } else {
        -sin_lobe_s(m - 3142)
    }
}

/// The lobe stays within `[0, 1000]`: `4u(3142 - u)` never exceeds
/// `3142 * 3142`.
pub proof fn lemma_sin_lobe_bounds(u: int)
    requires
        0 <= u <= 3142,
    ensures
        0 <= sin_lobe_s(u) <= 1000,
{
    assert(0 <= 4000 * u * (3142 - u) && 4000 * u * (3142 - u) <= 1000 * 9872164)
        by (nonlinear_arith)
        requires 0 <= u <= 3142;
    lemma_tdiv_range(4000 * u * (3142 - u), 9872164, 0, 1000);
}

/// The sine approximation is bounded by one in magnitude, for every
/// argument.
pub proof fn lemma_sin_milli_bounds(x: int)
    ensures
        -1000 <= sin_milli_s(x) <= 1000,
{
    lemma_mod_bound(x, 6284);
    let m = x % 6284;
    if m <= 3142 {
        lemma_sin_lobe_bounds(m);
    } else {
        lemma_sin_lobe_bounds(m - 3142);
    }
}

/// Sine of `x` milliradians, in thousandths, executable form.
pub fn sin_milli(x: i128) -> (r: i128)
    requires
        x > i128::MIN,
    ensures
        r == sin_milli_s(x as int),
        -1000 <= r <= 1000,
{
    let m: i128 = emod(x, 6284);
    if m <= 3142 {
        proof {
            lemma_sin_lobe_bounds(m as int);
            assert(0 <= 4000 * (m as int) * (3142 - m as int) <= 1000 * 9872164)
                by (nonlinear_arith)
                requires 0 <= m <= 3142;
        }
        tdiv(4000 * m * (3142 - m), 9872164)
    } else {
        let u: i128 = m - 3142;
        proof {
            lemma_sin_lobe_bounds(u as int);
            assert(0 <= 4000 * (u as int) * (3142 - u as int) <= 1000 * 9872164)
                by (nonlinear_arith)
                requires 0 <= u <= 3142;
        }
        -tdiv(4000 * u * (3142 - u), 9872164)
    }
}

} // verus!
