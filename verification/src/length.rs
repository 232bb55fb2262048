//! Distances to 53 significant bits: square roots, rounded to the nearest number
//! that has no more bits.
//!
//! The squares of the numbers of 53 bits are those from
//! `0x100_0000_0000_0000_0000_0000_0000`, 2 to the 104, up to four times that.

use vstd::arithmetic::power2::{lemma2_to64, lemma_pow2_pos, lemma_pow2_unfold, pow2};
use vstd::prelude::*;

use crate::wide::{is_root, root, root_exists, root_is_unique};

verus! {

/// Doubles a factor, from `factor` on, until the square root times it has 53 bits.
pub open spec fn root_factor(squared: int, factor: int) -> int
    decreases
            (if squared * (factor * factor) < 0x100_0000_0000_0000_0000_0000_0000 {
                0x100_0000_0000_0000_0000_0000_0000 - squared * (factor * factor)
            } else {
                0
            }),
{
    if squared <= 0 || factor <= 0 || squared * (factor * factor) >= 0x100_0000_0000_0000_0000_0000_0000 {
        factor
    } else {
        proof {
            assert(squared * ((2 * factor) * (2 * factor)) > squared * (factor * factor))
                by (nonlinear_arith)
                requires
                    squared > 0,
                    factor > 0,
            ;
        }
        root_factor(squared, 2 * factor)
    }
}

/// Doubles a unit, from `unit` on, until the square root has at most 53 bits in it.
pub open spec fn root_unit(squared: int, unit: int) -> int
    decreases
            (if squared >= 0x400_0000_0000_0000_0000_0000_0000 * (unit * unit) {
                squared - 0x400_0000_0000_0000_0000_0000_0000 * (unit * unit) + 1
            } else {
                0
            }),
{
    if unit <= 0 || squared < 0x400_0000_0000_0000_0000_0000_0000 * (unit * unit) {
        unit
    } else {
        proof {
            assert((2 * unit) * (2 * unit) > unit * unit) by (nonlinear_arith)
                requires
                    unit > 0,
            ;
        }
        root_unit(squared, 2 * unit)
    }
}

/// The whole number nearest to the square root of `num / den`.
pub open spec fn nearest_root(num: int, den: int) -> int {
    (root((4 * num / den) as nat) as int + 1) / 2
}

/// The square root of a positive number, to 53 significant bits: the result `(a, b)`
/// stands for `a / b`, where `b` is a power of two.
pub open spec fn length(squared: int) -> (int, int) {
    let factor = root_factor(squared, 1);
    let unit = root_unit(squared, 1);
    (nearest_root(squared * (factor * factor), unit * unit) * unit, factor)
}

/// The factor is a power of two, and just large enough.
proof fn factor_suffices(squared: int, factor: int, power: nat) -> (grown: nat)
    requires
        squared > 0,
        factor == pow2(power),
        factor == 1 || squared * (factor * factor) < 0x400_0000_0000_0000_0000_0000_0000,
    ensures
        root_factor(squared, factor) == pow2(grown),
        squared * (root_factor(squared, factor) * root_factor(squared, factor)) >= 0x100_0000_0000_0000_0000_0000_0000,
        root_factor(squared, factor) == 1 || squared * (root_factor(squared, factor) * root_factor(
            squared,
            factor,
        )) < 0x400_0000_0000_0000_0000_0000_0000,
    decreases
            (if squared * (factor * factor) < 0x100_0000_0000_0000_0000_0000_0000 {
                0x100_0000_0000_0000_0000_0000_0000 - squared * (factor * factor)
            } else {
                0
            }),
{
    lemma_pow2_pos(power);
    if squared * (factor * factor) >= 0x100_0000_0000_0000_0000_0000_0000 {
        power
    } else {
        lemma_pow2_unfold(power + 1);
        assert(squared * ((2 * factor) * (2 * factor)) == 4 * (squared * (factor * factor)))
            by (nonlinear_arith);
        assert(squared * (factor * factor) > 0) by (nonlinear_arith)
            requires
                squared > 0,
                factor > 0,
        ;
        factor_suffices(squared, 2 * factor, power + 1)
    }
}

/// The unit is a power of two, and no larger than it has to be.
proof fn unit_suffices(squared: int, unit: int, power: nat) -> (grown: nat)
    requires
        squared > 0,
        unit == pow2(power),
        unit == 1 || squared >= 0x100_0000_0000_0000_0000_0000_0000 * (unit * unit),
    ensures
        root_unit(squared, unit) == pow2(grown),
        squared < 0x400_0000_0000_0000_0000_0000_0000 * (root_unit(squared, unit) * root_unit(squared, unit)),
        root_unit(squared, unit) == 1 || squared >= 0x100_0000_0000_0000_0000_0000_0000 * (root_unit(squared, unit) * root_unit(
            squared,
            unit,
        )),
    decreases
            (if squared >= 0x400_0000_0000_0000_0000_0000_0000 * (unit * unit) {
                squared - 0x400_0000_0000_0000_0000_0000_0000 * (unit * unit) + 1
            } else {
                0
            }),
{
    lemma_pow2_pos(power);
    if squared < 0x400_0000_0000_0000_0000_0000_0000 * (unit * unit) {
        power
    } else {
        lemma_pow2_unfold(power + 1);
        assert((2 * unit) * (2 * unit) == 4 * (unit * unit)) by (nonlinear_arith);
        assert(unit * unit > 0) by (nonlinear_arith)
            requires
                unit > 0,
        ;
        unit_suffices(squared, 2 * unit, power + 1)
    }
}

/// What the nearest root is, without roots.
proof fn nearest_root_is_near(num: int, den: int)
    requires
        num >= 0,
        den > 0,
    ensures
        ({
            let r = nearest_root(num, den);
            &&& r >= 0
            &&& r > 0 ==> ((2 * r - 1) * (2 * r - 1)) * den <= 4 * num
            &&& 4 * num < ((2 * r + 1) * (2 * r + 1)) * den
        }),
{
    let q = 4 * num / den;
    assert(q >= 0 && q * den <= 4 * num < (q + 1) * den) by (nonlinear_arith)
        requires
            num >= 0,
            den > 0,
            q == 4 * num / den,
    ;
    root_exists(q as nat);
    let t = root(q as nat) as int;
    let r = nearest_root(num, den);
    assert(t * t <= q && q + 1 <= (t + 1) * (t + 1));
    assert(2 * r == t || 2 * r == t + 1);
    if r > 0 {
        assert(((2 * r - 1) * (2 * r - 1)) * den <= q * den) by (nonlinear_arith)
            requires
                t * t <= q,
                1 <= 2 * r - 1 <= t,
                den > 0,
        {
            assert((2 * r - 1) * (2 * r - 1) <= t * t);
        }
    }
    assert((q + 1) * den <= ((2 * r + 1) * (2 * r + 1)) * den) by (nonlinear_arith)
        requires
            q + 1 <= (t + 1) * (t + 1),
            0 <= t + 1 <= 2 * r + 1,
            den > 0,
    {
        assert((t + 1) * (t + 1) <= (2 * r + 1) * (2 * r + 1));
    }
}

/// A length is a number of 53 bits times a power of two, over a power of two, and its
/// square is as good as the number that it is the root of.
pub proof fn length_is_near(squared: int) -> (parts: (int, nat, nat))
    requires
        squared > 0,
    ensures
        length(squared).0 == parts.0 * pow2(parts.1),
        length(squared).1 == pow2(parts.2),
        0x10_0000_0000_0000 <= parts.0 <= 0x20_0000_0000_0000,
        squared < 0x400_0000_0000_0000_0000_0000_0000 ==> parts.1 == 0,
        length(squared).0 > 0,
        length(squared).1 > 0,
        ({
            let (a, b) = length(squared);
            -(a * a) <= 0x4_0000_0000_0000 * (squared * (b * b) - a * a) <= a * a
        }),
{
    lemma2_to64();
    assert(squared * (1int * 1int) == squared);
    let k = factor_suffices(squared, 1, 0);
    let j = unit_suffices(squared, 1, 0);
    let (f, u) = (root_factor(squared, 1), root_unit(squared, 1));
    lemma_pow2_pos(k);
    lemma_pow2_pos(j);
    let (num, den) = (squared * (f * f), u * u);
    assert(den > 0) by (nonlinear_arith)
        requires
            den == u * u,
            u > 0,
    ;
    // Only one of the two has anything to do.
    assert(0x100_0000_0000_0000_0000_0000_0000 * den <= num < 0x400_0000_0000_0000_0000_0000_0000 * den) by {
        if u == 1 {
            assert(u * u == 1);
            if f == 1 {
                assert(f * f == 1);
            }
        } else {
            assert(den >= 1);
            assert(f == 1) by {
                assert(squared >= 0x100_0000_0000_0000_0000_0000_0000);
                assert(squared * (1int * 1int) >= 0x100_0000_0000_0000_0000_0000_0000);
            }
            assert(f * f == 1);
        }
    }
    nearest_root_is_near(num, den);
    let r = nearest_root(num, den);
    assert(r >= 0x10_0000_0000_0000) by (nonlinear_arith)
        requires
            0x100_0000_0000_0000_0000_0000_0000 * den <= num,
            4 * num < ((2 * r + 1) * (2 * r + 1)) * den,
            den > 0,
            r >= 0,
    {
        let m = 0x10_0000_0000_0000int;
        assert((2 * m) * (2 * m) < (2 * r + 1) * (2 * r + 1));
        assert(2 * m < 2 * r + 1);
    }
    assert(r <= 0x20_0000_0000_0000) by (nonlinear_arith)
        requires
            ((2 * r - 1) * (2 * r - 1)) * den <= 4 * num,
            num < 0x400_0000_0000_0000_0000_0000_0000 * den,
            den > 0,
            r > 0,
    {
        let m = 0x20_0000_0000_0000int;
        assert((2 * r - 1) * (2 * r - 1) < (2 * m) * (2 * m));
        assert(2 * r - 1 < 2 * m);
    }
    let a = r * u;
    assert(a > 0) by (nonlinear_arith)
        requires
            a == r * u,
            r > 0,
            u > 0,
    ;
    let whole = r * den;
    assert(a * a == r * whole) by (nonlinear_arith)
        requires
            a == r * u,
            whole == r * (u * u),
    ;
    assert(((2 * r - 1) * (2 * r - 1)) * den == 4 * (r * whole) - 4 * whole + den) by (nonlinear_arith)
        requires
            whole == r * den,
    ;
    assert(((2 * r + 1) * (2 * r + 1)) * den == 4 * (r * whole) + 4 * whole + den) by (nonlinear_arith)
        requires
            whole == r * den,
    ;
    assert(r * whole >= 0x10_0000_0000_0000 * whole && whole >= den) by (nonlinear_arith)
        requires
            r >= 0x10_0000_0000_0000,
            whole == r * den,
            den > 0,
    ;
    if squared < 0x400_0000_0000_0000_0000_0000_0000 {
        assert(1int * 1int == 1);
        assert(u == 1);
        assert(a == r * 1);
        (r, 0, k)
    } else {
        (r, j, k)
    }
}

/// Takes the square root.
pub fn measure(squared: u128) -> (result: (u64, u32))
    requires
        0 < squared < 0x1000_0000_0000_0000_0000,
    ensures
        length(squared as int).0 == result.0,
        length(squared as int).1 == pow2(result.1 as nat),
        0x10_0000_0000_0000 <= result.0 <= 0x20_0000_0000_0000,
        result.1 <= 52,
{
    let mut scaled: u128 = squared;
    let mut factor: u64 = 1;
    let mut power: u32 = 0;
    proof {
        lemma2_to64();
        assert(squared * (1int * 1int) == squared);
    }
    while scaled < 0x100_0000_0000_0000_0000_0000_0000
        invariant
            squared > 0,
            scaled > 0,
            scaled < 0x400_0000_0000_0000_0000_0000_0000,
            scaled == squared * (factor * factor),
            factor == pow2(power as nat),
            0 < factor,
            power <= 52,
            power <= 51 || scaled >= 0x100_0000_0000_0000_0000_0000_0000,
            root_factor(squared as int, factor as int) == root_factor(squared as int, 1),
        decreases 0x400_0000_0000_0000_0000_0000_0000 - scaled,
    {
        proof {
            lemma_pow2_unfold((power + 1) as nat);
            lemma2_to64();
            vstd::arithmetic::power2::lemma2_to64_rest();
            if power < 51 {
                vstd::arithmetic::power2::lemma_pow2_strictly_increases(power as nat, 51);
            }
            assert(factor <= 0x8_0000_0000_0000);
            assert(squared * ((2 * factor) * (2 * factor)) == 4 * (squared * (factor * factor)))
                by (nonlinear_arith);
            if power == 51 {
                assert(squared * (0x10_0000_0000_0000int * 0x10_0000_0000_0000int) >= 0x100_0000_0000_0000_0000_0000_0000)
                    by (nonlinear_arith)
                    requires
                        squared >= 1,
                ;
            }
        }
        scaled = 4 * scaled;
        factor = 2 * factor;
        power = power + 1;
    }
    let ghost wanted = 4 * scaled;
    let twice: u64 = square_root(4 * scaled);
    proof {
        assert(1int * 1int == 1);
        assert(root_unit(squared as int, 1) == 1);
        root_is_unique(twice as nat, wanted as nat);
        assert((4 * scaled) / 1 == 4 * scaled);
        let r = nearest_root(scaled as int, 1);
        assert(r * 1 == r);
        let parts = length_is_near(squared as int);
        assert(parts.0 * 1 == parts.0);
    }
    ((twice + 1) / 2, power)
}

/// The whole part of a square root, by bisection.
fn square_root(value: u128) -> (whole: u64)
    requires
        value < 0x1000_0000_0000_0000_0000_0000_0000,
    ensures
        is_root(whole as nat, value as nat),
        whole <= 0x40_0000_0000_0000,
{
    let mut low: u64 = 0;
    let mut high: u64 = 0x40_0000_0000_0000;
    assert(0x40_0000_0000_0000 * 0x40_0000_0000_0000 == 0x1000_0000_0000_0000_0000_0000_0000);
    assert(0 * 0 == 0);
    while high - low > 1
        invariant
            low < high <= 0x40_0000_0000_0000,
            low * low <= value < high * high,
        decreases high - low,
    {
        let middle: u64 = low + (high - low) / 2;
        assert(0 <= middle * middle <= 0x40_0000_0000_0000 * 0x40_0000_0000_0000) by (nonlinear_arith)
            requires
                0 <= middle <= 0x40_0000_0000_0000,
        ;
        if middle as u128 * middle as u128 <= value {
            low = middle;
        } else {
            high = middle;
        }
    }
    low
}

} // verus!
