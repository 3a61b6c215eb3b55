//! Fixed-point arithmetic used throughout the library.
//!
//! Money amounts and rates are integers in micro-units: `SCALE` units are one
//! dollar (for amounts) or 100% (for rates).  The annuity compounding factor
//! is carried at the finer `POW_SCALE` so that a 360-month compounding loses
//! almost no precision.  Division always truncates toward zero, which `tdiv`
//! states exactly.

use vstd::arithmetic::div_mod::{
    lemma_div_is_ordered, lemma_div_nonincreasing, lemma_div_pos_is_pos,
    lemma_fundamental_div_mod_converse_div,
};
use vstd::arithmetic::mul::{lemma_mul_nonnegative, lemma_mul_upper_bound};
use vstd::prelude::*;

verus! {

/// Micro-units per dollar, and per 100% for rates.
pub const SCALE: i64 = 1_000_000;

/// Scale of the annuity compounding factor: one trillion units per 1.0.
pub const POW_SCALE: i128 = 1_000_000_000_000;

/// Ceiling on the compounding factor (a dimensionless 10^12 at `POW_SCALE`).
/// Beyond this the level-payment factor p / (p - 1) is 1 to twelve decimal
/// places, so capping changes no emitted micro-unit.
pub const POW_CAP: i128 = 1_000_000_000_000_000_000_000_000;

/// Truncating division: rounds toward zero, as the machine division below
/// does.  Meaningful for positive divisors only.
pub open spec fn tdiv(a: int, b: int) -> int {
    if a >= 0 {
        a / b
    } else {
        -((-a) / b)
    }
}

/// Truncating division of the product `a * b` by `d`, the shape every
/// fixed-point multiplication and rate application takes.
pub open spec fn mul_div_spec(a: int, b: int, d: int) -> int {
    tdiv(a * b, d)
}

/// Truncating division is monotone in the dividend.
pub proof fn lemma_tdiv_ordered(a1: int, a2: int, b: int)
    requires
        a1 <= a2,
        b > 0,
    ensures
        tdiv(a1, b) <= tdiv(a2, b),
{
    if a1 >= 0 {
        lemma_div_is_ordered(a1, a2, b);
    } else if a2 >= 0 {
        lemma_div_pos_is_pos(-a1, b);
        lemma_div_pos_is_pos(a2, b);
    } else {
        lemma_div_is_ordered(-a2, -a1, b);
    }
}

/// A truncated quotient never exceeds the dividend in magnitude.
pub proof fn lemma_tdiv_bounds(a: int, b: int)
    requires
        b > 0,
    ensures
        a >= 0 ==> 0 <= tdiv(a, b) <= a,
        a < 0 ==> a <= tdiv(a, b) <= 0,
{
    if a >= 0 {
        lemma_div_pos_is_pos(a, b);
        lemma_div_nonincreasing(a, b);
    } else {
        lemma_div_pos_is_pos(-a, b);
        lemma_div_nonincreasing(-a, b);
    }
}

/// Bounds a rate application: with both factors in a nonnegative box, the
/// scaled product stays below the scaled product of the bounds.
pub proof fn lemma_mul_div_bound(a: int, amax: int, b: int, bmax: int, d: int)
    requires
        0 <= a <= amax,
        0 <= b <= bmax,
        d > 0,
    ensures
        0 <= mul_div_spec(a, b, d) <= tdiv(amax * bmax, d),
{
    lemma_mul_nonnegative(a, b);
    lemma_mul_upper_bound(a, amax, b, bmax);
    lemma_tdiv_bounds(a * b, d);
    lemma_tdiv_ordered(a * b, amax * bmax, d);
}

/// Pins down one truncated quotient from its witness decomposition; used to
/// evaluate divisions of large constants.
pub proof fn lemma_tdiv_value(x: int, d: int, q: int, r: int)
    requires
        x >= 0,
        d > 0,
        0 <= r < d,
        x == q * d + r,
    ensures
        tdiv(x, d) == q,
{
    lemma_fundamental_div_mod_converse_div(x, d, q, r);
}

/// Truncating division on machine integers; the sign is split off so that the
/// quotient itself is computed on unsigned values.
pub fn tdiv_i128(a: i128, b: i128) -> (r: i128)
    requires
        b > 0,
        a > i128::MIN,
    ensures
        r == tdiv(a as int, b as int),
{
    if a >= 0 {
        let q: u128 = (a as u128) / (b as u128);
        proof {
            lemma_div_pos_is_pos(a as int, b as int);
            lemma_div_nonincreasing(a as int, b as int);
        }
        q as i128
    } else {
        let m: u128 = (-a) as u128;
        let q: u128 = m / (b as u128);
        proof {
            lemma_div_pos_is_pos(m as int, b as int);
            lemma_div_nonincreasing(m as int, b as int);
        }
        -(q as i128)
    }
}

/// `a * b / d`, truncated toward zero.  The caller shows that the product
/// fits; every call in the engine multiplies a bounded amount by a bounded
/// rate or factor.
pub fn mul_div(a: i128, b: i128, d: i128) -> (r: i128)
    requires
        d > 0,
        -i128::MAX <= a * b <= i128::MAX,
    ensures
        r == mul_div_spec(a as int, b as int, d as int),
{
    let p: i128 = a * b;
    tdiv_i128(p, d)
}

} // verus!
