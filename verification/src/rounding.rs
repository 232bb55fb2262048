//! Rounding division, and saturation into `i32`.

use vstd::prelude::*;

verus! {

/// `value` limited to `low..=high`.
pub open spec fn clamped(value: int, low: int, high: int) -> int {
    if value < low {
        low
    } else if value > high {
        high
    } else {
        value
    }
}

/// The `i32` closest to `value`.
pub open spec fn saturated(value: int) -> int {
    clamped(value, i32::MIN as int, i32::MAX as int)
}

/// Narrows to `i32`, stopping at the ends of its range instead of wrapping.
pub fn saturate(value: i64) -> (narrow: i32)
    ensures
        narrow == saturated(value as int),
{
    if value < i32::MIN as i64 {
        i32::MIN
    } else if value > i32::MAX as i64 {
        i32::MAX
    } else {
        value as i32
    }
}

/// Limits `value` to `low..=high`.
pub fn clamp_between(value: i64, low: i64, high: i64) -> (limited: i64)
    requires
        low <= high,
    ensures
        limited == clamped(value as int, low as int, high as int),
{
    if value < low {
        low
    } else if value > high {
        high
    } else {
        value
    }
}

/// `num / den` to the nearest whole number, halves going away from zero.
pub open spec fn rounded(num: int, den: int) -> int
    recommends
        den > 0,
{
    if num >= 0 {
        (2 * num + den) / (2 * den)
    } else {
        -((2 * -num + den) / (2 * den))
    }
}

/// `num / den` rounded up to a whole number.
pub open spec fn rounded_up(num: int, den: int) -> int
    recommends
        den > 0,
{
    -((-num) / den)
}

/// The distance of `value` from zero.
pub open spec fn magnitude(value: int) -> int {
    if value < 0 {
        -value
    } else {
        value
    }
}

/// A whole number and the quotient it rounds differ by at most a half.
pub proof fn rounding_is_to_nearest(num: int, den: int)
    requires
        den > 0,
    ensures
        magnitude(2 * (rounded(num, den) * den - num)) <= den,
{
    let n = magnitude(num);
    let q = (2 * n + den) / (2 * den);
    assert(2 * den * q <= 2 * n + den < 2 * den * q + 2 * den) by (nonlinear_arith)
        requires
            den > 0,
            q == (2 * n + den) / (2 * den),
    ;
    assert(2 * den * q == 2 * (q * den)) by (nonlinear_arith);
    assert((-q) * den == -(q * den)) by (nonlinear_arith);
}

/// A half is rounded away from zero, on either side of it.
pub proof fn halves_go_away_from_zero(whole: int, half: int)
    requires
        whole >= 0,
        half > 0,
    ensures
        rounded((2 * whole + 1) * half, 2 * half) == whole + 1,
        rounded(-((2 * whole + 1) * half), 2 * half) == -(whole + 1),
{
    let num = (2 * whole + 1) * half;
    assert(num > 0 && 2 * num + 2 * half == (whole + 1) * (2 * (2 * half))) by (nonlinear_arith)
        requires
            num == (2 * whole + 1) * half,
            whole >= 0,
            half > 0,
    ;
    vstd::arithmetic::div_mod::lemma_fundamental_div_mod_converse(
        2 * num + 2 * half,
        2 * (2 * half),
        whole + 1,
        0,
    );
}

/// Rounding up gives the least whole number that is not below the quotient.
pub proof fn rounding_up_is_the_least_enough(num: int, den: int)
    requires
        den > 0,
    ensures
        rounded_up(num, den) * den >= num,
        (rounded_up(num, den) - 1) * den < num,
{
    let (q, r) = ((-num) / den, (-num) % den);
    assert(-num == q * den + r && 0 <= r < den) by (nonlinear_arith)
        requires
            den > 0,
            q == (-num) / den,
            r == (-num) % den,
    ;
    assert((-q) * den == -(q * den) && (-q - 1) * den == -(q * den) - den) by (nonlinear_arith);
}

/// A number is kept between two others by moving it no further than it takes.
pub proof fn clamping_moves_no_further_than_it_takes(value: int, low: int, high: int, other: int)
    requires
        low <= high,
        low <= other <= high,
    ensures
        low <= clamped(value, low, high) <= high,
        magnitude(clamped(value, low, high) - value) <= magnitude(other - value),
        i32::MIN <= value <= i32::MAX ==> saturated(value) == value,
        value > i32::MAX ==> saturated(value) == 0x7fff_ffff,
        value < i32::MIN ==> saturated(value) == -0x8000_0000,
        magnitude(value) * magnitude(value) == value * value,
        magnitude(value) >= 0,
{
    assert((-value) * (-value) == value * value) by (nonlinear_arith);
}

} // verus!
