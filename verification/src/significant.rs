//! Arithmetic to 53 significant bits, as 64-bit binary floating-point numbers do
//! it: the exact result, rounded to the nearest number that has no more bits, ties
//! going to the even one.
//!
//! The whole numbers of 53 bits are those from `0x10_0000_0000_0000`, 2 to the 52, up
//! to `0x20_0000_0000_0000`.

use vstd::arithmetic::power2::{
    lemma_pow2_pos, lemma_pow2_strictly_increases, lemma_pow2_unfold, pow2,
};
use vstd::prelude::*;

use crate::rounding::rounded;

verus! {

/// `num / den` to the nearest whole number, halves going to the even one.
pub open spec fn nearest_even(num: int, den: int) -> int
    recommends
        num >= 0,
        den > 0,
{
    let whole = num / den;
    let twice = 2 * (num % den);
    if twice < den || (twice == den && whole % 2 == 0) {
        whole
    } else {
        whole + 1
    }
}

/// Doubles a factor, from `factor` on, until `num * factor / den` has 53 bits.
pub open spec fn factor_from(num: int, den: int, factor: int) -> int
    decreases
            (if num * factor < 0x10_0000_0000_0000 * den {
                0x10_0000_0000_0000 * den - num * factor
            } else {
                0
            }),
{
    if num <= 0 || factor <= 0 || num * factor >= 0x10_0000_0000_0000 * den {
        factor
    } else {
        proof {
            assert(num * (2 * factor) > num * factor) by (nonlinear_arith)
                requires
                    num > 0,
                    factor > 0,
            ;
        }
        factor_from(num, den, 2 * factor)
    }
}

/// A quotient below 2 to the 53, to 53 significant bits: the result `(a, b)` stands
/// for `a / b`, where `b` is a power of two.
pub open spec fn quotient(num: int, den: int) -> (int, int) {
    if num <= 0 {
        (0, 1)
    } else {
        let factor = factor_from(num, den, 1);
        (nearest_even(num * factor, den), factor)
    }
}

/// Doubles a unit, from `unit` on, until there are less than 2 to the 53 of them in
/// `value`.
pub open spec fn unit_from(value: int, unit: int) -> int
    decreases
            (if value >= 0x20_0000_0000_0000 * unit {
                value - 0x20_0000_0000_0000 * unit + 1
            } else {
                0
            }),
{
    if unit <= 0 || value < 0x20_0000_0000_0000 * unit {
        unit
    } else {
        unit_from(value, 2 * unit)
    }
}

/// A whole number, to 53 significant bits.
pub open spec fn significant(value: int) -> int {
    let unit = unit_from(value, 1);
    nearest_even(value, unit) * unit
}

/// What is left over is less than the divisor.
proof fn division(num: int, den: int)
    requires
        den > 0,
    ensures
        num == (num / den) * den + num % den,
        0 <= num % den < den,
{
    assert(num == (num / den) * den + num % den && 0 <= num % den < den) by (nonlinear_arith)
        requires
            den > 0,
    ;
}

/// A number and what it rounds differ by at most a half.
pub proof fn nearest_even_is_near(num: int, den: int)
    requires
        num >= 0,
        den > 0,
    ensures
        -den <= 2 * (nearest_even(num, den) * den - num) <= den,
        nearest_even(num, den) >= 0,
{
    division(num, den);
    let whole = num / den;
    assert(whole >= 0) by (nonlinear_arith)
        requires
            num >= 0,
            den > 0,
            whole == num / den,
    ;
    assert((whole + 1) * den == whole * den + den) by (nonlinear_arith);
}

/// Rounding keeps the order of quotients.
pub proof fn nearest_even_keeps_order(a: int, b: int, c: int, d: int)
    requires
        a >= 0,
        b > 0,
        c >= 0,
        d > 0,
        a * d <= c * b,
    ensures
        nearest_even(a, b) <= nearest_even(c, d),
{
    division(a, b);
    division(c, d);
    let (p, q) = (a / b, c / d);
    let (r, s) = (a % b, c % d);
    assert(p <= q) by (nonlinear_arith)
        requires
            a == p * b + r,
            0 <= r,
            c == q * d + s,
            s < d,
            b > 0,
            d > 0,
            a * d <= c * b,
    {
        assert((p * b) * d <= a * d);
        assert(c * b < ((q + 1) * d) * b);
        assert((p * b) * d == p * (b * d));
        assert(((q + 1) * d) * b == (q + 1) * (b * d));
        assert(b * d > 0);
    }
    if p == q {
        assert(r * d <= s * b) by (nonlinear_arith)
            requires
                a == p * b + r,
                c == p * d + s,
                a * d <= c * b,
        ;
        assert(2 * r > b ==> 2 * s > d) by (nonlinear_arith)
            requires
                r * d <= s * b,
                b > 0,
                d > 0,
        ;
        assert(2 * r >= b ==> 2 * s >= d) by (nonlinear_arith)
            requires
                r * d <= s * b,
                b > 0,
                d > 0,
        ;
    }
}

/// A whole number is rounded to itself.
pub proof fn nearest_even_of_whole(value: int, den: int)
    requires
        den > 0,
    ensures
        nearest_even(value * den, den) == value,
{
    vstd::arithmetic::div_mod::lemma_fundamental_div_mod_converse(value * den, den, value, 0);
}

/// Halfway between two whole numbers, it is the even one of them.
pub proof fn ties_go_to_the_even_one(whole: int, half: int)
    requires
        whole >= 0,
        half > 0,
    ensures
        ({
            let even = nearest_even((2 * whole + 1) * half, 2 * half);
            (even == whole || even == whole + 1) && even % 2 == 0
        }),
{
    let num = (2 * whole + 1) * half;
    assert(num == whole * (2 * half) + half) by (nonlinear_arith)
        requires
            num == (2 * whole + 1) * half,
    ;
    vstd::arithmetic::div_mod::lemma_fundamental_div_mod_converse(num, 2 * half, whole, half);
}

/// The factor is a power of two, and just large enough.
pub proof fn factor_is_enough(num: int, den: int, factor: int, power: nat) -> (grown: nat)
    requires
        num > 0,
        den > 0,
        factor == pow2(power),
        num * factor < 0x20_0000_0000_0000 * den,
    ensures
        grown >= power,
        factor_from(num, den, factor) == pow2(grown),
        0x10_0000_0000_0000 * den <= num * factor_from(num, den, factor) < 0x20_0000_0000_0000 * den,
    decreases
            (if num * factor < 0x10_0000_0000_0000 * den {
                0x10_0000_0000_0000 * den - num * factor
            } else {
                0
            }),
{
    lemma_pow2_pos(power);
    if num * factor >= 0x10_0000_0000_0000 * den {
        power
    } else {
        lemma_pow2_unfold(power + 1);
        assert(num * (2 * factor) == 2 * (num * factor)) by (nonlinear_arith);
        assert(num * factor > 0) by (nonlinear_arith)
            requires
                num > 0,
                factor > 0,
        ;
        factor_is_enough(num, den, 2 * factor, power + 1)
    }
}

/// A unit starts at one, and is no larger than it has to be.
pub proof fn unit_is_enough(value: int, unit: int)
    requires
        value >= 0,
        unit > 0,
        unit == 1 || value >= 0x10_0000_0000_0000 * unit,
    ensures
        unit_from(value, unit) > 0,
        value < 0x20_0000_0000_0000 * unit_from(value, unit),
        unit_from(value, unit) == 1 || value >= 0x10_0000_0000_0000 * unit_from(value, unit),
    decreases
            (if value >= 0x20_0000_0000_0000 * unit {
                value - 0x20_0000_0000_0000 * unit + 1
            } else {
                0
            }),
{
    if value >= 0x20_0000_0000_0000 * unit {
        unit_is_enough(value, 2 * unit);
    }
}

/// Rounding to 53 significant bits changes a number by at most one part in 2 to the
/// 53, and one that has no more bits not at all.
pub proof fn significant_is_near(value: int)
    requires
        value >= 0,
    ensures
        -value <= 0x20_0000_0000_0000 * (significant(value) - value) <= value,
        value < 0x20_0000_0000_0000 ==> significant(value) == value,
        significant(value) >= 0,
{
    unit_is_enough(value, 1);
    let unit = unit_from(value, 1);
    nearest_even_is_near(value, unit);
    assert(significant(value) >= 0) by (nonlinear_arith)
        requires
            significant(value) == nearest_even(value, unit) * unit,
            nearest_even(value, unit) >= 0,
            unit > 0,
    ;
    if unit == 1 {
        assert(nearest_even(value, 1) == value);
        assert(value * 1 == value);
    }
}

/// A quotient has 53 bits, and is the nearest that has.
pub proof fn quotient_is_near(num: int, den: int)
    requires
        num >= 0,
        den > 0,
        num < 0x20_0000_0000_0000 * den,
    ensures
        ({
            let (a, b) = quotient(num, den);
            &&& a >= 0
            &&& b > 0
            &&& -den <= 2 * (a * den - num * b) <= den
            &&& num > 0 ==> 0x10_0000_0000_0000 * den <= num * b < 0x20_0000_0000_0000 * den && 0x10_0000_0000_0000 <= a <= 0x20_0000_0000_0000
        }),
{
    if num > 0 {
        vstd::arithmetic::power2::lemma2_to64();
        assert(num * 1 == num);
        let power = factor_is_enough(num, den, 1, 0);
        lemma_pow2_pos(power);
        let b = factor_from(num, den, 1);
        assert(num * b >= 0) by (nonlinear_arith)
            requires
                num > 0,
                b > 0,
        ;
        nearest_even_is_near(num * b, den);
        nearest_even_of_whole(0x10_0000_0000_0000, den);
        nearest_even_of_whole(0x20_0000_0000_0000, den);
        assert((0x10_0000_0000_0000 * den) * den <= (num * b) * den) by (nonlinear_arith)
            requires
                0x10_0000_0000_0000 * den <= num * b,
                den > 0,
        ;
        assert((num * b) * den <= (0x20_0000_0000_0000 * den) * den) by (nonlinear_arith)
            requires
                num * b <= 0x20_0000_0000_0000 * den,
                den > 0,
        ;
        assert(0x10_0000_0000_0000 * den >= 0);
        nearest_even_keeps_order(0x10_0000_0000_0000 * den, den, num * b, den);
        nearest_even_keeps_order(num * b, den, 0x20_0000_0000_0000 * den, den);
    } else {
        assert(0 * den == 0);
        assert(num * 1 == 0);
    }
}

/// A quotient that is whole is not rounded.
pub proof fn whole_quotients_are_exact(value: int, den: int)
    requires
        0 <= value < 0x20_0000_0000_0000,
        den > 0,
    ensures
        ({
            let (a, b) = quotient(value * den, den);
            a == value * b && b > 0
        }),
{
    assert(value * den < 0x20_0000_0000_0000 * den) by (nonlinear_arith)
        requires
            value < 0x20_0000_0000_0000,
            den > 0,
    ;
    assert(value * den >= 0) by (nonlinear_arith)
        requires
            value >= 0,
            den > 0,
    ;
    quotient_is_near(value * den, den);
    if value * den > 0 {
        let b = factor_from(value * den, den, 1);
        assert((value * den) * b == (value * b) * den) by (nonlinear_arith);
        nearest_even_of_whole(value * b, den);
    } else {
        assert(value == 0) by (nonlinear_arith)
            requires
                value * den <= 0,
                value >= 0,
                den > 0,
        ;
    }
}

/// A larger quotient is not rounded to a smaller number.
pub proof fn quotient_keeps_order(a: int, b: int, c: int, d: int)
    requires
        a >= 0,
        b > 0,
        c >= 0,
        d > 0,
        a * d <= c * b,
        a < 0x20_0000_0000_0000 * b,
        c < 0x20_0000_0000_0000 * d,
    ensures
        quotient(a, b).0 * quotient(c, d).1 <= quotient(c, d).0 * quotient(a, b).1,
{
    quotient_is_near(a, b);
    quotient_is_near(c, d);
    let ((p, f), (q, g)) = (quotient(a, b), quotient(c, d));
    if a == 0 {
        assert(q * f >= 0 && 0 * g == 0) by (nonlinear_arith)
            requires
                q >= 0,
                f > 0,
        ;
    } else {
        assert(c > 0) by (nonlinear_arith)
            requires
                a > 0,
                d > 0,
                b > 0,
                a * d <= c * b,
        ;
        vstd::arithmetic::power2::lemma2_to64();
        assert(a * 1 == a && c * 1 == c);
        let j = factor_is_enough(a, b, 1, 0);
        let k = factor_is_enough(c, d, 1, 0);
        if j == k {
            assert((a * f) * d <= (c * f) * b) by (nonlinear_arith)
                requires
                    a * d <= c * b,
                    f > 0,
            ;
            nearest_even_keeps_order(a * f, b, c * f, d);
            assert(p * f <= q * f) by (nonlinear_arith)
                requires
                    p <= q,
                    f > 0,
            ;
        } else if k < j {
            doubles_apart(k, j);
            assert(p * g <= q * f) by (nonlinear_arith)
                requires
                    0 <= p <= 0x20_0000_0000_0000,
                    q >= 0x10_0000_0000_0000,
                    2 * g <= f,
                    g > 0,
            ;
        } else {
            doubles_apart(j, k);
            // The smaller quotient would have to be the larger one.
            assert((0x10_0000_0000_0000 * b) * d <= (a * f) * d) by (nonlinear_arith)
                requires
                    0x10_0000_0000_0000 * b <= a * f,
                    d > 0,
            ;
            assert((a * f) * d <= (c * f) * b) by (nonlinear_arith)
                requires
                    a * d <= c * b,
                    f > 0,
            ;
            assert(2 * (c * f) <= c * g) by (nonlinear_arith)
                requires
                    2 * f <= g,
                    c > 0,
            ;
            assert((c * f) * b < (0x10_0000_0000_0000 * d) * b) by (nonlinear_arith)
                requires
                    2 * (c * f) < 0x20_0000_0000_0000 * d,
                    b > 0,
            ;
            assert((0x10_0000_0000_0000 * d) * b == (0x10_0000_0000_0000 * b) * d) by (nonlinear_arith);
        }
    }
}

/// Powers of two that differ are at least a factor of two apart.
proof fn doubles_apart(j: nat, k: nat)
    requires
        j < k,
    ensures
        2 * pow2(j) <= pow2(k),
{
    lemma_pow2_unfold(j + 1);
    if j + 1 < k {
        lemma_pow2_strictly_increases(j + 1, k);
    }
}

/// A quotient to 53 significant bits, and that to the nearest whole number, halves
/// going up. One that is too large to have any fraction is only cut off.
pub open spec fn whole_quotient(num: int, den: int) -> int {
    if num >= 0x20_0000_0000_0000 * den {
        num / den
    } else {
        let (a, b) = quotient(num, den);
        rounded(a, b)
    }
}

/// Cutting off keeps the order of quotients.
proof fn floor_keeps_order(a: int, b: int, c: int, d: int)
    requires
        b > 0,
        d > 0,
        a * d <= c * b,
    ensures
        a / b <= c / d,
{
    division(a, b);
    division(c, d);
    let (p, q) = (a / b, c / d);
    assert((q + 1) * d == q * d + d) by (nonlinear_arith);
    assert(p <= q) by (nonlinear_arith)
        requires
            p * b <= a,
            c < (q + 1) * d,
            b > 0,
            d > 0,
            a * d <= c * b,
    {
        assert((p * b) * d <= a * d);
        assert(c * b < ((q + 1) * d) * b);
        assert((p * b) * d == p * (b * d));
        assert(((q + 1) * d) * b == (q + 1) * (b * d));
        assert(b * d > 0);
    }
}

/// Rounding to whole numbers keeps the order of quotients.
proof fn rounding_keeps_order(a: int, b: int, c: int, d: int)
    requires
        a >= 0,
        c >= 0,
        b > 0,
        d > 0,
        a * d <= c * b,
    ensures
        rounded(a, b) <= rounded(c, d),
{
    assert((2 * a + b) * (2 * d) <= (2 * c + d) * (2 * b)) by (nonlinear_arith)
        requires
            a * d <= c * b,
    ;
    floor_keeps_order(2 * a + b, 2 * b, 2 * c + d, 2 * d);
}

/// A larger quotient does not come to a smaller whole number.
pub proof fn whole_quotient_keeps_order(a: int, b: int, c: int, d: int)
    requires
        a >= 0,
        b > 0,
        c >= 0,
        d > 0,
        a * d <= c * b,
    ensures
        whole_quotient(a, b) <= whole_quotient(c, d),
{
    if a >= 0x20_0000_0000_0000 * b {
        assert((0x20_0000_0000_0000 * b) * d <= a * d) by (nonlinear_arith)
            requires
                a >= 0x20_0000_0000_0000 * b,
                d > 0,
        ;
        assert((0x20_0000_0000_0000 * b) * d == (0x20_0000_0000_0000 * d) * b) by (nonlinear_arith);
        assert(c >= 0x20_0000_0000_0000 * d) by (nonlinear_arith)
            requires
                (0x20_0000_0000_0000 * d) * b <= c * b,
                b > 0,
        ;
        floor_keeps_order(a, b, c, d);
    } else {
        quotient_is_near(a, b);
        let (p, f) = quotient(a, b);
        if c >= 0x20_0000_0000_0000 * d {
            let most = 0x20_0000_0000_0000int;
            assert(p * 1 <= most * f) by (nonlinear_arith)
                requires
                    p <= most,
                    f >= 1,
                    most >= 0,
            ;
            rounding_keeps_order(p, f, most, 1);
            assert(rounded(most, 1) == most) by {
                assert((2 * most + 1) / 2 == most);
            }
            assert(most * d <= c * 1);
            floor_keeps_order(most, 1, c, d);
        } else {
            quotient_is_near(c, d);
            quotient_keeps_order(a, b, c, d);
            let (q, g) = quotient(c, d);
            rounding_keeps_order(p, f, q, g);
        }
    }
}

/// A quotient that is whole comes to itself.
pub proof fn whole_quotient_of_whole(value: int, den: int)
    requires
        0 <= value,
        den > 0,
    ensures
        whole_quotient(value * den, den) == value,
{
    if value * den >= 0x20_0000_0000_0000 * den {
        vstd::arithmetic::div_mod::lemma_fundamental_div_mod_converse(value * den, den, value, 0);
    } else {
        assert(value < 0x20_0000_0000_0000) by (nonlinear_arith)
            requires
                value * den < 0x20_0000_0000_0000 * den,
                den > 0,
        ;
        whole_quotients_are_exact(value, den);
        let (a, b) = quotient(value * den, den);
        assert(value * b >= 0) by (nonlinear_arith)
            requires
                value >= 0,
                b > 0,
        ;
        assert(2 * a + b == value * (2 * b) + b) by (nonlinear_arith)
            requires
                a == value * b,
        ;
        vstd::arithmetic::div_mod::lemma_fundamental_div_mod_converse(2 * a + b, 2 * b, value, b);
    }
}

/// A quotient to 53 significant bits, cut off to a whole number. One that is too large
/// to have any fraction is only cut off.
pub open spec fn whole_part(num: int, den: int) -> int {
    if num >= 0x20_0000_0000_0000 * den {
        num / den
    } else {
        let (a, b) = quotient(num, den);
        a / b
    }
}

/// The whole part of a larger quotient is not smaller.
pub proof fn whole_part_keeps_order(a: int, b: int, c: int, d: int)
    requires
        a >= 0,
        b > 0,
        c >= 0,
        d > 0,
        a * d <= c * b,
    ensures
        whole_part(a, b) <= whole_part(c, d),
{
    if a >= 0x20_0000_0000_0000 * b {
        assert((0x20_0000_0000_0000 * b) * d <= a * d) by (nonlinear_arith)
            requires
                a >= 0x20_0000_0000_0000 * b,
                d > 0,
        ;
        assert((0x20_0000_0000_0000 * b) * d == (0x20_0000_0000_0000 * d) * b) by (nonlinear_arith);
        assert(c >= 0x20_0000_0000_0000 * d) by (nonlinear_arith)
            requires
                (0x20_0000_0000_0000 * d) * b <= c * b,
                b > 0,
        ;
        floor_keeps_order(a, b, c, d);
    } else {
        quotient_is_near(a, b);
        let (p, f) = quotient(a, b);
        if c >= 0x20_0000_0000_0000 * d {
            let most = 0x20_0000_0000_0000int;
            assert(p * d <= c * f) by (nonlinear_arith)
                requires
                    0 <= p <= most,
                    most * d <= c,
                    f >= 1,
                    d > 0,
            {
                assert(p * d <= most * d);
                assert(c <= c * f);
            }
            floor_keeps_order(p, f, c, d);
        } else {
            quotient_is_near(c, d);
            quotient_keeps_order(a, b, c, d);
            let (q, g) = quotient(c, d);
            floor_keeps_order(p, f, q, g);
        }
    }
}

/// A quotient that is whole is its own whole part.
pub proof fn whole_part_of_whole(value: int, den: int)
    requires
        0 <= value,
        den > 0,
    ensures
        whole_part(value * den, den) == value,
{
    if value * den >= 0x20_0000_0000_0000 * den {
        vstd::arithmetic::div_mod::lemma_fundamental_div_mod_converse(value * den, den, value, 0);
    } else {
        assert(value < 0x20_0000_0000_0000) by (nonlinear_arith)
            requires
                value * den < 0x20_0000_0000_0000 * den,
                den > 0,
        ;
        whole_quotients_are_exact(value, den);
        let (a, b) = quotient(value * den, den);
        vstd::arithmetic::div_mod::lemma_fundamental_div_mod_converse(a, b, value, 0);
    }
}

/// The whole part of a quotient exceeds it by at most one part in 2 to the 53.
pub proof fn whole_part_is_near(num: int, den: int)
    requires
        num >= 0,
        den > 0,
    ensures
        whole_part(num, den) >= 0,
        0x20_0000_0000_0000 * (whole_part(num, den) * den) <= 0x20_0000_0000_0001 * num,
{
    let r = whole_part(num, den);
    whole_part_of_whole(0, den);
    assert(0 * den == 0);
    whole_part_keeps_order(0, den, num, den);
    if num >= 0x20_0000_0000_0000 * den {
        division(num, den);
    } else {
        quotient_is_near(num, den);
        let (a, b) = quotient(num, den);
        division(a, b);
        if num > 0 {
            let most = 0x20_0000_0000_0000int;
            assert((r * b) * den <= a * den) by (nonlinear_arith)
                requires
                    r * b <= a,
                    den > 0,
            ;
            let product = num * b;
            assert(most * ((r * b) * den) <= (most + 1) * product);
            assert(most * (r * den) <= (most + 1) * num) by (nonlinear_arith)
                requires
                    most * ((r * b) * den) <= (most + 1) * (num * b),
                    b > 0,
            {
                assert((most * (r * den)) * b == most * ((r * b) * den));
                assert(((most + 1) * num) * b == (most + 1) * (num * b));
            }
        } else {
            assert(0int / b == 0) by (nonlinear_arith)
                requires
                    b > 0,
            ;
            assert(0 * den == 0);
        }
    }
}

/// Doubling everything doubles the unit.
proof fn unit_doubles(value: int, unit: int)
    requires
        unit > 0,
    ensures
        unit_from(2 * value, 2 * unit) == 2 * unit_from(value, unit),
    decreases
            (if value >= 0x20_0000_0000_0000 * unit {
                value - 0x20_0000_0000_0000 * unit + 1
            } else {
                0
            }),
{
    if value >= 0x20_0000_0000_0000 * unit {
        unit_doubles(value, 2 * unit);
    }
}

/// Rounding does not care for a factor of two.
proof fn significant_doubles(value: int)
    requires
        value >= 0,
    ensures
        significant(2 * value) == 2 * significant(value),
{
    significant_is_near(value);
    significant_is_near(2 * value);
    if 2 * value >= 0x20_0000_0000_0000 {
        unit_is_enough(value, 1);
        unit_doubles(value, 1);
        let unit = unit_from(value, 1);
        assert(unit_from(2 * value, 1) == 2 * unit);
        assert((2 * value) * unit == value * (2 * unit)) by (nonlinear_arith);
        nearest_even_keeps_order(2 * value, 2 * unit, value, unit);
        nearest_even_keeps_order(value, unit, 2 * value, 2 * unit);
        let n = nearest_even(value, unit);
        assert(n * (2 * unit) == 2 * (n * unit)) by (nonlinear_arith);
    }
}

/// Rounding does not care for a power of two.
pub proof fn significant_scales(value: int, power: nat)
    requires
        value >= 0,
    ensures
        significant(value * pow2(power)) == significant(value) * pow2(power),
    decreases power,
{
    if power == 0 {
        vstd::arithmetic::power2::lemma2_to64();
        assert(value * 1 == value && significant(value) * 1 == significant(value));
    } else {
        let less = (power - 1) as nat;
        lemma_pow2_unfold(power);
        significant_scales(value, less);
        let (p, q) = (value * pow2(less), significant(value) * pow2(less));
        assert(p >= 0) by (nonlinear_arith)
            requires
                p == value * pow2(less),
                value >= 0,
        ;
        assert(value * (2 * pow2(less)) == 2 * p && significant(value) * (2 * pow2(less)) == 2 * q)
            by (nonlinear_arith)
            requires
                p == value * pow2(less),
                q == significant(value) * pow2(less),
        ;
        significant_doubles(p);
    }
}

/// The numbers that a quotient may be made of: small enough for 53 more bits.
pub const SMALL: u128 = 0x1_0000_0000_0000_0000;

fn round_even(num: u128, den: u128) -> (whole: u128)
    requires
        0 < den <= SMALL * 0x1_0000_0000_0000,
        num <= 0x8000_0000_0000_0000_0000_0000_0000_0000,
    ensures
        whole == nearest_even(num as int, den as int),
{
    let whole: u128 = num / den;
    let twice: u128 = 2 * (num % den);
    assert(whole <= num) by (nonlinear_arith)
        requires
            whole == num / den,
            den >= 1,
            num >= 0,
    ;
    if twice < den || (twice == den && whole % 2 == 0) {
        whole
    } else {
        whole + 1
    }
}

/// Divides to 53 significant bits.
pub fn divide(num: u128, den: u128) -> (result: (u128, u128))
    requires
        0 < den < SMALL,
        num < 0x20_0000_0000_0000 * den,
    ensures
        (result.0 as int, result.1 as int) == quotient(num as int, den as int),
{
    if num == 0 {
        return (0, 1);
    }
    let enough: u128 = 0x10_0000_0000_0000 * den;
    let mut scaled: u128 = num;
    let mut factor: u128 = 1;
    while scaled < enough
        invariant
            0 < num,
            0 < den < SMALL,
            enough == 0x10_0000_0000_0000 * den,
            scaled < 2 * enough,
            scaled == num * factor,
            0 < factor <= scaled,
            factor_from(num as int, den as int, factor as int) == factor_from(
                num as int,
                den as int,
                1,
            ),
        decreases 2 * enough - scaled,
    {
        assert(num * (2 * factor) == 2 * (num * factor)) by (nonlinear_arith);
        scaled = 2 * scaled;
        factor = 2 * factor;
    }
    (round_even(scaled, den), factor)
}

/// Rounds to 53 significant bits: the result `(a, b)` stands for `a` times 2 to the
/// `b`.
pub fn significant_bits(value: u128) -> (parts: (u64, u32))
    requires
        value < SMALL * 0x100_0000,
    ensures
        significant(value as int) == parts.0 * pow2(parts.1 as nat),
        parts.0 <= 0x20_0000_0000_0000,
        parts.1 <= 36,
        parts.0 == 0 ==> value == 0,
{
    let mut unit: u128 = 1;
    let mut power: u32 = 0;
    proof {
        vstd::arithmetic::power2::lemma2_to64();
    }
    while value >= 0x20_0000_0000_0000 * unit
        invariant
            value < SMALL * 0x100_0000,
            unit == pow2(power as nat),
            0 < unit <= 0x10_0000_0000,
            power < unit,
            power <= 36,
            unit_from(value as int, unit as int) == unit_from(value as int, 1),
        decreases value + 1 - unit,
    {
        proof {
            lemma_pow2_unfold((power + 1) as nat);
            vstd::arithmetic::power2::lemma2_to64_rest();
            assert(pow2(36) == 0x10_0000_0000);
        }
        unit = 2 * unit;
        power = power + 1;
    }
    proof {
        unit_is_enough(value as int, 1);
        nearest_even_is_near(value as int, unit as int);
        nearest_even_of_whole(0x20_0000_0000_0000, unit as int);
        assert(value * unit <= (0x20_0000_0000_0000 * unit) * unit) by (nonlinear_arith)
            requires
                value <= 0x20_0000_0000_0000 * unit,
                unit > 0,
        ;
        nearest_even_keeps_order(value as int, unit as int, 0x20_0000_0000_0000 * unit, unit as int);
    }
    (round_even(value, unit) as u64, power)
}

/// Rounds to 53 significant bits.
pub fn round_significant(value: u128) -> (rounded: u128)
    requires
        value < SMALL * 0x100_0000,
    ensures
        rounded == significant(value as int),
{
    let mut unit: u128 = 1;
    while value >= 0x20_0000_0000_0000 * unit
        invariant
            value < SMALL * 0x100_0000,
            0 < unit <= 0x10_0000_0000,
            unit_from(value as int, unit as int) == unit_from(value as int, 1),
        decreases value + 1 - unit,
    {
        unit = 2 * unit;
    }
    proof {
        unit_is_enough(value as int, 1);
        nearest_even_is_near(value as int, unit as int);
    }
    round_even(value, unit) * unit
}

} // verus!
