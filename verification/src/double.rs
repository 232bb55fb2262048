//! 64-bit binary floating-point numbers, held by their bits.

use vstd::arithmetic::power2::{
    lemma2_to64, lemma2_to64_rest, lemma_pow2_adds, lemma_pow2_pos, lemma_pow2_strictly_increases,
    lemma_pow2_unfold, pow2,
};
use vstd::prelude::*;

use crate::rounding::clamped;
use crate::significant::{
    divide, quotient, quotient_is_near, whole_quotient, whole_quotient_keeps_order,
    whole_quotient_of_whole,
};

verus! {

/// A 64-bit binary floating-point number: a sign, eleven bits of exponent and 52 of
/// fraction.
#[derive(Debug, Clone, Copy, PartialEq, Eq, Structural)]
pub struct Double {
    pub bits: u64,
}

impl Double {
    /// Whether the sign bit is set.
    pub open spec fn is_negative(self) -> bool {
        self.bits >= 0x8000_0000_0000_0000
    }

    /// The exponent's bits.
    pub open spec fn field(self) -> int {
        self.bits as int / 0x10_0000_0000_0000 % 0x800
    }

    /// The fraction's bits.
    pub open spec fn fraction(self) -> int {
        self.bits as int % 0x10_0000_0000_0000
    }

    /// Whether this is no number at all.
    pub open spec fn is_nan(self) -> bool {
        self.field() == 0x7ff && self.fraction() != 0
    }

    /// The significant bits. All but the smallest numbers have one more than is
    /// written down.
    pub open spec fn mantissa(self) -> int {
        if self.field() == 0 {
            self.fraction()
        } else {
            self.fraction() + 0x10_0000_0000_0000
        }
    }

    /// The power of two that the significant bits are multiplied with.
    pub open spec fn exponent(self) -> int {
        if self.field() == 0 {
            -1074
        } else {
            self.field() - 1075
        }
    }

    /// The numerator of the number as a fraction in whole numbers. An infinity counts
    /// as 2 to the 1024, the first power of two that is out of range.
    pub open spec fn num(self) -> int {
        let top = self.mantissa() * pow2(
            (if self.exponent() > 0 {
                self.exponent()
            } else {
                0
            }) as nat,
        );
        if self.is_negative() {
            -top
        } else {
            top
        }
    }

    /// The denominator of the number as a fraction in whole numbers.
    pub open spec fn den(self) -> int {
        pow2(
            (if self.exponent() < 0 {
                -self.exponent()
            } else {
                0
            }) as nat,
        ) as int
    }

    /// Whether this is no larger than another number.
    pub open spec fn at_most(self, other: Double) -> bool {
        self.num() * other.den() <= other.num() * self.den()
    }

    /// Whether this is a certain whole number.
    pub open spec fn is_whole(self, value: int) -> bool {
        !self.is_nan() && self.num() == value * self.den()
    }

    /// Whether the sign bit is set.
    pub fn negative(self) -> (negative: bool)
        ensures
            negative == self.is_negative(),
    {
        self.bits >= 0x8000_0000_0000_0000
    }

    /// Whether this is no number at all.
    pub fn nan(self) -> (nan: bool)
        ensures
            nan == self.is_nan(),
    {
        self.bits / 0x10_0000_0000_0000 % 0x800 == 0x7ff && self.bits % 0x10_0000_0000_0000 != 0
    }

    /// The significant bits and the power of two that they are multiplied with.
    pub fn parts(self) -> (parts: (u64, i32))
        ensures
            parts.0 == self.mantissa(),
            parts.1 == self.exponent(),
            parts.0 < 0x20_0000_0000_0000,
            -1074 <= parts.1 <= 972,
            parts.1 > -1074 ==> parts.0 >= 0x10_0000_0000_0000,
    {
        let field: u64 = self.bits / 0x10_0000_0000_0000 % 0x800;
        let fraction: u64 = self.bits % 0x10_0000_0000_0000;
        if field == 0 {
            (fraction, -1074)
        } else {
            (fraction + 0x10_0000_0000_0000, field as i32 - 1075)
        }
    }

    /// The number equal to a whole number.
    pub fn whole(value: i32) -> (double: Double)
        ensures
            double.is_whole(value as int),
    {
        proof {
            lemma2_to64();
        }
        if value == 0 {
            let double: Double = Double { bits: 0 };
            assert(double.field() == 0 && double.fraction() == 0);
            assert(0 * pow2(0) == 0 && 0 * double.den() == 0);
            return double;
        }
        let size: u64 = if value < 0 { (-(value as i64)) as u64 } else { value as u64 };
        let mut mantissa: u64 = size;
        let mut shift: u64 = 0;
        while mantissa < 0x10_0000_0000_0000
            invariant
                0 < size <= 0x8000_0000,
                mantissa < 0x20_0000_0000_0000,
                mantissa == size * pow2(shift as nat),
                shift < mantissa,
                shift <= 53,
                shift == 53 ==> mantissa >= 0x10_0000_0000_0000,
            decreases 0x20_0000_0000_0000 - mantissa,
        {
            proof {
                lemma_pow2_unfold((shift + 1) as nat);
                assert(size * (2 * pow2(shift as nat)) == 2 * (size * pow2(shift as nat)))
                    by (nonlinear_arith);
                if shift == 52 {
                    lemma2_to64_rest();
                    assert(size * 0x10_0000_0000_0000 >= 0x10_0000_0000_0000) by (nonlinear_arith)
                        requires
                            size >= 1,
                    ;
                }
            }
            mantissa = 2 * mantissa;
            shift = shift + 1;
        }
        let sign: u64 = if value < 0 { 0x8000_0000_0000_0000 } else { 0 };
        let field: u64 = 1075 - shift;
        let bits: u64 = sign + field * 0x10_0000_0000_0000 + (mantissa - 0x10_0000_0000_0000);
        let double: Double = Double { bits };
        proof {
            assert(double.field() == field);
            assert(double.fraction() == mantissa - 0x10_0000_0000_0000);
            assert(mantissa * 1 == mantissa);
            assert((-(size as int)) * pow2(shift as nat) == -(size * pow2(shift as nat)))
                by (nonlinear_arith);
        }
        double
    }
}

/// A denominator is at least one.
pub proof fn den_is_positive(double: Double)
    ensures
        double.den() >= 1,
{
    lemma_pow2_pos(
        (if double.exponent() < 0 {
            -double.exponent()
        } else {
            0
        }) as nat,
    );
}

/// What the numerator is, and that it has the number's sign.
pub proof fn num_has_the_sign(double: Double)
    ensures
        double.mantissa() >= 0,
        double.mantissa() == 0 ==> double.num() == 0,
        double.mantissa() > 0 ==> double.num() != 0,
        double.num() < 0 ==> double.is_negative(),
        double.num() > 0 ==> !double.is_negative(),
{
    let power = (if double.exponent() > 0 {
        double.exponent()
    } else {
        0
    }) as nat;
    lemma_pow2_pos(power);
    let (m, p) = (double.mantissa(), pow2(power) as int);
    assert((m == 0 ==> m * p == 0) && (m > 0 ==> m * p > 0)) by (nonlinear_arith)
        requires
            p > 0,
    ;
}

/// A power of two.
pub fn power(exponent: u32) -> (power: u128)
    requires
        exponent <= 120,
    ensures
        power == pow2(exponent as nat),
        0 < power <= 0x100_0000_0000_0000_0000_0000_0000_0000,
{
    proof {
        lemma2_to64();
        lemma2_to64_rest();
        lemma_pow2_adds(60, 60);
    }
    let mut power: u128 = 1;
    let mut i: u32 = 0;
    while i < exponent
        invariant
            i <= exponent <= 120,
            power == pow2(i as nat),
            pow2(120) == 0x100_0000_0000_0000_0000_0000_0000_0000,
            0 < power <= 0x100_0000_0000_0000_0000_0000_0000_0000,
        decreases exponent - i,
    {
        proof {
            lemma_pow2_unfold((i + 1) as nat);
            if i + 1 < 120 {
                lemma_pow2_strictly_increases((i + 1) as nat, 120);
            }
        }
        power = 2 * power;
        i = i + 1;
    }
    power
}

/// A whole number over a positive number, rounded as such numbers are divided, and
/// that to the nearest whole number from one up to the largest of 32 bits.
pub open spec fn counts(base: u32, by: Double) -> int {
    clamped(whole_quotient(base * by.den(), by.num()), 1, u32::MAX as int)
}

/// A quotient of at most a half comes to no more than one.
proof fn small_quotient(num: int, den: int)
    requires
        0 <= 2 * num <= den,
        den > 0,
    ensures
        whole_quotient(num, den) <= 1,
{
    whole_quotient_of_whole(1, den);
    assert(1 * den == den);
    assert(num * den <= den * den) by (nonlinear_arith)
        requires
            2 * num <= den,
            num >= 0,
            den > 0,
    ;
    whole_quotient_keeps_order(num, den, den, den);
}

/// A quotient beyond 32 bits comes to a number beyond 32 bits.
proof fn large_quotient(num: int, den: int)
    requires
        den > 0,
        num >= 0x1_0000_0000 * den,
    ensures
        whole_quotient(num, den) >= 0x1_0000_0000,
{
    let limit = 0x1_0000_0000int;
    whole_quotient_of_whole(limit, den);
    assert((limit * den) * den <= num * den) by (nonlinear_arith)
        requires
            num >= limit * den,
            den > 0,
    ;
    assert(num >= 0 && limit * den >= 0);
    whole_quotient_keeps_order(limit * den, den, num, den);
}

/// Divides a whole number by a positive number.
pub fn count(base: u32, by: Double) -> (result: u32)
    requires
        by.num() > 0,
    ensures
        result == counts(base, by),
{
    let (mantissa, exponent): (u64, i32) = by.parts();
    proof {
        lemma2_to64();
        lemma2_to64_rest();
        num_has_the_sign(by);
        den_is_positive(by);
        assert(base * by.den() >= 0) by (nonlinear_arith)
            requires
                base >= 0,
                by.den() >= 1,
        ;
    }
    if base == 0 {
        proof {
            assert(0 * by.den() == 0);
            small_quotient(0, by.num());
        }
        return 1;
    }
    if exponent >= 33 {
        proof {
            if exponent > 33 {
                lemma_pow2_strictly_increases(33, exponent as nat);
            }
            assert(mantissa * pow2(exponent as nat) >= 0x2_0000_0000) by (nonlinear_arith)
                requires
                    mantissa >= 1,
                    pow2(exponent as nat) >= 0x2_0000_0000,
            ;
            assert(base * 1 == base);
            small_quotient(base as int, by.num());
        }
        return 1;
    }
    if exponent <= -86 {
        proof {
            lemma_pow2_adds(33, 53);
            if exponent < -86 {
                lemma_pow2_strictly_increases(86, (-exponent) as nat);
            }
            assert(mantissa * 1 == mantissa);
            assert(base * by.den() >= by.den()) by (nonlinear_arith)
                requires
                    base >= 1,
                    by.den() >= 1,
            ;
            large_quotient(base * by.den(), by.num());
        }
        return u32::MAX;
    }
    let (num, den): (u128, u128) = if exponent >= 0 {
        let scale: u128 = power(exponent as u32);
        proof {
            if exponent < 32 {
                lemma_pow2_strictly_increases(exponent as nat, 32);
            }
            assert(mantissa * scale <= 0x20_0000_0000_0000 * 0x1_0000_0000) by (nonlinear_arith)
                requires
                    0 <= mantissa <= 0x20_0000_0000_0000,
                    0 <= scale <= 0x1_0000_0000,
            ;
            assert(base * 1 == base);
        }
        (base as u128, mantissa as u128 * scale)
    } else {
        let scale: u128 = power((-exponent) as u32);
        proof {
            lemma_pow2_adds(33, 52);
            if exponent > -85 {
                lemma_pow2_strictly_increases((-exponent) as nat, 85);
            }
            assert(base * scale <= 0x1_0000_0000 * (0x2_0000_0000 * 0x10_0000_0000_0000))
                by (nonlinear_arith)
                requires
                    0 <= base <= 0x1_0000_0000,
                    0 <= scale <= 0x2_0000_0000 * 0x10_0000_0000_0000,
            ;
            assert(mantissa * 1 == mantissa);
        }
        (base as u128 * scale, mantissa as u128)
    };
    assert(num == base * by.den() && den == by.num());
    if 2 * num <= den {
        proof {
            small_quotient(num as int, den as int);
        }
        return 1;
    }
    if num >= 0x1_0000_0000 * den {
        proof {
            large_quotient(num as int, den as int);
        }
        return u32::MAX;
    }
    assert(den < 0x1_0000_0000_0000_0000);
    let (top, bottom): (u128, u128) = divide(num, den);
    proof {
        quotient_is_near(num as int, den as int);
        bottom_is_small(num as int, den as int);
    }
    let whole: u128 = (2 * top + bottom) / (2 * bottom);
    if whole < 1 {
        1
    } else if whole > u32::MAX as u128 {
        u32::MAX
    } else {
        whole as u32
    }
}

/// The power of two under a quotient of at least a half is within 54 bits.
proof fn bottom_is_small(num: int, den: int)
    requires
        den > 0,
        2 * num > den,
        num < 0x1_0000_0000 * den,
    ensures
        quotient(num, den).1 <= 0x40_0000_0000_0000,
        quotient(num, den).0 <= 0x20_0000_0000_0000,
{
    quotient_is_near(num, den);
    let bottom = quotient(num, den).1;
    assert(bottom <= 0x40_0000_0000_0000) by (nonlinear_arith)
        requires
            2 * num > den,
            num * bottom < 0x20_0000_0000_0000 * den,
            bottom > 0,
            den > 0,
    ;
}

/// The larger the divisor, the smaller the result.
pub proof fn larger_divisors_count_less(base: u32, less: Double, more: Double)
    requires
        less.at_most(more),
        less.num() > 0,
        more.num() > 0,
    ensures
        counts(base, more) <= counts(base, less),
{
    den_is_positive(less);
    den_is_positive(more);
    let (a, b) = (base * more.den(), more.num());
    let (c, d) = (base * less.den(), less.num());
    assert(a * d <= c * b) by (nonlinear_arith)
        requires
            a == base * more.den(),
            b == more.num(),
            c == base * less.den(),
            d == less.num(),
            less.num() * more.den() <= more.num() * less.den(),
            base >= 0,
    ;
    assert(a >= 0 && c >= 0) by (nonlinear_arith)
        requires
            a == base * more.den(),
            c == base * less.den(),
            base >= 0,
            more.den() >= 1,
            less.den() >= 1,
    ;
    whole_quotient_keeps_order(a, b, c, d);
}

/// Divided by one, a whole number stays what it is, but for zero.
pub proof fn divided_by_one(base: u32, one: Double)
    requires
        one.is_whole(1),
        base > 0,
    ensures
        counts(base, one) == base,
        one.num() > 0,
{
    den_is_positive(one);
    assert(1 * one.den() == one.den());
    whole_quotient_of_whole(base as int, one.den());
}

/// The result is the whole number nearest to the quotient, as far as that is more than
/// one and no more than 32 bits: it is at most half of the divisor off, and what rounding
/// adds to that.
pub proof fn counts_are_nearest(base: u32, by: Double)
    requires
        by.num() > 0,
    ensures
        1 <= counts(base, by) <= u32::MAX,
        counts(base, by) > 1 ==> 0x1_0000 * (2 * (counts(base, by) * by.num() - base * by.den()))
            <= 0x1_0001 * by.num(),
        counts(base, by) < u32::MAX ==> 0x1_0000 * (2 * (base * by.den() - counts(base, by) * by.num()))
            <= 0x1_0001 * by.num(),
{
    den_is_positive(by);
    let (num, den) = (base * by.den(), by.num());
    assert(num >= 0) by (nonlinear_arith)
        requires
            num == base * by.den(),
            base >= 0,
            by.den() >= 1,
    ;
    let r = whole_quotient(num, den);
    let t = counts(base, by);
    if num >= 0x20_0000_0000_0000 * den {
        large_quotient(num, den);
        assert(t * den <= num) by (nonlinear_arith)
            requires
                t == 0xffff_ffff,
                num >= 0x20_0000_0000_0000 * den,
                den > 0,
        ;
    } else {
        quotient_is_near(num, den);
        let (a, b) = quotient(num, den);
        crate::rounding::rounding_is_to_nearest(a, b);
        assert(r == crate::rounding::rounded(a, b));
        // All in parts of the quotient's own denominator.
        let (wide, exact) = (r * den, num);
        assert(-(b * den + den) <= 2 * (wide * b - exact * b) <= b * den + den) by (nonlinear_arith)
            requires
                -b <= 2 * (r * b - a) <= b,
                -den <= 2 * (a * den - num * b) <= den,
                wide == r * den,
                exact == num,
                den > 0,
        {
            assert(wide * b - exact * b == (r * b - a) * den + (a * den - num * b));
            assert(-(b * den) <= (2 * (r * b - a)) * den <= b * den);
        }
        if r >= 1 && r <= 0x1_0000_0000 {
            assert(num > 0) by {
                if num == 0 {
                    small_at_zero(den);
                }
            }
            // So few whole numbers leave the quotient many fractions.
            assert(b >= 0x1_0000) by (nonlinear_arith)
                requires
                    -b <= 2 * (r * b - a) <= b,
                    a >= 0x10_0000_0000_0000,
                    r <= 0x1_0000_0000,
                    b > 0,
            ;
            let gap = 2 * (wide - exact);
            assert(-(0x1_0001 * den) <= 0x1_0000 * gap <= 0x1_0001 * den) by (nonlinear_arith)
                requires
                    -(b * den + den) <= 2 * (wide * b - exact * b) <= b * den + den,
                    gap == 2 * (wide - exact),
                    b >= 0x1_0000,
                    den > 0,
            {
                assert(2 * (wide * b - exact * b) == gap * b);
                assert(0x1_0000 * den <= b * den);
                assert(0x1_0000 * (b * den + den) <= 0x1_0001 * (b * den));
                assert((0x1_0000 * gap) * b <= (0x1_0001 * den) * b);
                assert(-((0x1_0001 * den) * b) <= (0x1_0000 * gap) * b);
            }
        } else if r < 1 {
            // Nothing rounds to nothing: the quotient is at most about a half.
            assert(2 * num <= 3 * den) by (nonlinear_arith)
                requires
                    -(b * den + den) <= 2 * (wide * b - num * b),
                    wide == r * den,
                    r < 1,
                    b >= 1,
                    den > 0,
            {
                assert(wide <= 0);
                assert(wide * b <= 0);
                assert(2 * (num * b) <= b * den + den);
                assert((2 * num) * b <= (2 * den) * b);
            }
            assert(t == 1 && t * den == den);
        } else {
            assert(num > 0) by {
                if num == 0 {
                    small_at_zero(den);
                }
            }
            assert(t * den <= num) by (nonlinear_arith)
                requires
                    t == 0xffff_ffff,
                    r > 0x1_0000_0000,
                    2 * (wide * b - num * b) <= b * den + den,
                    wide == r * den,
                    b >= 1,
                    den > 0,
            {
                assert(wide * b >= (0x1_0000_0001 * den) * b);
                assert(den <= b * den);
                assert(((0x1_0000_0001 * den) - num) * b <= den * b);
            }
        }
    }
}

/// Nothing, divided, is nothing.
proof fn small_at_zero(den: int)
    requires
        den > 0,
    ensures
        whole_quotient(0, den) == 0,
{
    whole_quotient_of_whole(0, den);
    assert(0 * den == 0);
}

} // verus!
