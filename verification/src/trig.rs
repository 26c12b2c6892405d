//! Fixed-point trigonometry on angles in millidegrees.
//!
//! `sin_mdeg` and `cos_mdeg` return the sine and cosine scaled by `SCALE`,
//! computed with a rational approximation so that every result is exact
//! integer arithmetic and reproducible.

use vstd::prelude::*;

verus! {

/// Sine of an angle in `[0, 180000]` millidegrees, scaled by 1000,
/// as the rational approximation `4x(180 - x) / (40500 - x(180 - x))`
/// (in degrees) evaluates it.
pub open spec fn spec_half_sin(x: int) -> int {
    4000 * (x * (180000 - x)) / (40500000000 - x * (180000 - x))
}

/// Sine of an angle in `[-180000, 180000]` millidegrees, scaled by 1000.
pub open spec fn spec_sin_mdeg(a: int) -> int {
    if a >= 0 {
        spec_half_sin(a)
    } else {
        -spec_half_sin(-a)
    }
}

/// Cosine of an angle in `[-180000, 180000]` millidegrees, scaled by 1000.
pub open spec fn spec_cos_mdeg(a: int) -> int {
    if a >= 0 {
        spec_sin_mdeg(90000 - a)
    } else {
        spec_sin_mdeg(90000 + a)
    }
}

/// On `[0, 180000]`, the product `x * (180000 - x)` stays within
/// `[0, 8100000000]`, so the approximation's denominator is positive.
proof fn lemma_half_sin_product_bounds(x: int)
    requires
        0 <= x <= 180000,
    ensures
        0 <= x * (180000 - x) <= 8100000000,
{
    assert(0 <= x * (180000 - x) <= 8100000000) by (nonlinear_arith)
        requires
            0 <= x <= 180000,
    ;
}

/// The scaled sine approximation never leaves `[-1000, 1000]`.
pub proof fn lemma_sin_mdeg_range(a: int)
    requires
        -180000 <= a <= 180000,
    ensures
        -1000 <= spec_sin_mdeg(a) <= 1000,
        a >= 0 ==> spec_sin_mdeg(a) >= 0,
        a <= 0 ==> spec_sin_mdeg(a) <= 0,
{
    let x = if a >= 0 { a } else { -a };
    if a == 0 {
        vstd::arithmetic::div_mod::lemma_div_of0(40500000000 - 0 * (180000 - 0));
    }
    lemma_half_sin_product_bounds(x);
    let p = x * (180000 - x);
    let num = 4000 * p;
    let den = 40500000000 - p;
    assert(den >= 32400000000);
    assert(num >= 0);
    vstd::arithmetic::div_mod::lemma_div_pos_is_pos(num, den);
    assert(num <= 1000 * den);
    vstd::arithmetic::div_mod::lemma_div_is_ordered(num, 1000 * den, den);
    vstd::arithmetic::div_mod::lemma_div_multiples_vanish(1000, den);
}

/// The scaled cosine approximation never leaves `[-1000, 1000]`.
pub proof fn lemma_cos_mdeg_range(a: int)
    requires
        -180000 <= a <= 180000,
    ensures
        -1000 <= spec_cos_mdeg(a) <= 1000,
{
    if a >= 0 {
        lemma_sin_mdeg_range(90000 - a);
    } else {
        lemma_sin_mdeg_range(90000 + a);
    }
}

/// Sine of an angle in millidegrees, scaled by 1000.
pub fn sin_mdeg(a: i64) -> (r: i64)
    requires
        -180000 <= a <= 180000,
    ensures
        r == spec_sin_mdeg(a as int),
        -1000 <= r <= 1000,
{
    proof {
        lemma_sin_mdeg_range(a as int);
    }
    let x: i64 = if a >= 0 { a } else { -a };
    proof {
        lemma_half_sin_product_bounds(x as int);
    }
    let p: i64 = x * (180000 - x);
    let s: i64 = (4000 * p) / (40500000000 - p);
    proof {
        vstd::arithmetic::div_mod::lemma_div_pos_is_pos(4000 * p as int, 40500000000 - p as int);
    }
    if a >= 0 {
        s
    } else {
        -s
    }
}

/// Cosine of an angle in millidegrees, scaled by 1000.
pub fn cos_mdeg(a: i64) -> (r: i64)
    requires
        -180000 <= a <= 180000,
    ensures
        r == spec_cos_mdeg(a as int),
        -1000 <= r <= 1000,
{
    proof {
        lemma_cos_mdeg_range(a as int);
    }
    if a >= 0 {
        sin_mdeg(90000 - a)
    } else {
        sin_mdeg(90000 + a)
    }
}

} // verus!
