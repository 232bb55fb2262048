//! One step of the chase: how far the animal gets towards a point in a tick.

use vstd::arithmetic::power2::{
    lemma2_to64, lemma2_to64_rest, lemma_pow2_adds, lemma_pow2_pos, lemma_pow2_strictly_increases,
    pow2,
};
use vstd::prelude::*;

use crate::double::{Double, den_is_positive, num_has_the_sign, power};
use crate::length::{length, length_is_near, measure};
use crate::rounding::{magnitude, saturate, saturated};
use crate::significant::{
    divide, quotient, quotient_is_near, significant, significant_bits, significant_is_near,
    significant_scales, whole_part, whole_part_is_near, whole_part_keeps_order, whole_part_of_whole,
};
use crate::wide::product_at_most;

verus! {

/// The largest offset, along either axis, between two points with `i32`
/// coordinates and a sprite between them.
pub const FARTHEST: i64 = 0x1_0000_0100;

/// The sign of `value`.
pub open spec fn sign(value: int) -> int {
    if value < 0 {
        -1
    } else if value > 0 {
        1
    } else {
        0
    }
}

/// The square of the distance to a point `dx` across and `dy` down.
pub open spec fn distance_squared(dx: int, dy: int) -> int {
    dx * dx + dy * dy
}

/// The square of the denominator that a speed is told in.
pub open spec fn one_squared(speed: Double) -> int {
    speed.den() * speed.den()
}

/// That square is positive.
pub proof fn one_is_positive(speed: Double)
    ensures
        speed.den() >= 1,
        one_squared(speed) >= 1,
{
    den_is_positive(speed);
    assert(one_squared(speed) >= 1) by (nonlinear_arith)
        requires
            one_squared(speed) == speed.den() * speed.den(),
            speed.den() >= 1,
    ;
}

/// Whether a point is no farther away than `speed` pixels, its distance taken to 53
/// significant bits.
pub open spec fn within_reach(speed: Double, dx: int, dy: int) -> bool {
    let (far, per) = length(distance_squared(dx, dy));
    speed.num() >= 0 && far * speed.den() <= speed.num() * per
}

/// `speed * offset / distance`, cut off towards zero: the share that one axis has in
/// a step of `speed` pixels. The distance, the product and the quotient are each
/// taken to 53 significant bits.
pub open spec fn share(speed: Double, offset: int, squared: int) -> int {
    let (far, per) = length(squared);
    let product = significant(magnitude(speed.num() * offset));
    sign(speed.num() * offset) * whole_part(product * per, speed.den() * far)
}

/// The step towards a point `dx` across and `dy` down: all the way when the
/// point is within reach, otherwise `speed` pixels in its direction with both
/// axes cut off towards zero. A speed that is no number gets nowhere.
pub open spec fn step_towards(speed: Double, dx: int, dy: int) -> (int, int) {
    if (dx == 0 && dy == 0) || speed.is_nan() {
        (0, 0)
    } else if within_reach(speed, dx, dy) {
        (saturated(dx), saturated(dy))
    } else {
        let squared = distance_squared(dx, dy);
        (saturated(share(speed, dx, squared)), saturated(share(speed, dy, squared)))
    }
}

/// The exponent of a power of two that a number is multiplied with.
spec fn up(exponent: int) -> nat {
    (if exponent > 0 {
        exponent
    } else {
        0
    }) as nat
}

/// The exponent of a power of two that a number is divided by.
spec fn down(exponent: int) -> nat {
    up(-exponent)
}

/// Two powers of two that a fraction is made of have a common divisor that leaves
/// only one of them.
proof fn common_power(exponent: int, shift: nat) -> (common: int)
    ensures
        common >= 1,
        pow2(down(exponent)) == common * pow2(down(exponent + shift)),
        pow2(up(exponent)) * pow2(shift) == common * pow2(up(exponent + shift)),
{
    lemma2_to64();
    let sum = exponent + shift;
    if exponent >= 0 {
        lemma_pow2_adds(exponent as nat, shift);
        assert(1 * pow2(down(sum)) == pow2(down(sum)) && 1 * pow2(up(sum)) == pow2(up(sum)));
        1
    } else if sum >= 0 {
        lemma_pow2_adds((-exponent) as nat, sum as nat);
        lemma_pow2_pos((-exponent) as nat);
        assert(pow2(down(exponent)) * 1 == pow2(down(exponent)));
        assert(1 * pow2(shift) == pow2(shift));
        pow2((-exponent) as nat) as int
    } else {
        lemma_pow2_adds(shift, (-sum) as nat);
        lemma_pow2_pos(shift);
        assert(pow2(shift) * 1 == pow2(shift) && 1 * pow2(shift) == pow2(shift));
        pow2(shift) as int
    }
}

/// Far beyond what a step can be.
const BEYOND: u64 = 0x1_0000_0000;

/// Whether `mantissa` times a power of two is at least `far`.
fn at_least(mantissa: u64, exponent: i32, far: u64) -> (reached: bool)
    requires
        mantissa < 0x20_0000_0000_0000,
        0x10_0000_0000_0000 <= far <= 0x20_0000_0000_0000,
        -2000 <= exponent <= 2000,
    ensures
        reached == (far * pow2(down(exponent as int)) <= mantissa * pow2(up(exponent as int))),
{
    proof {
        lemma2_to64();
        lemma2_to64_rest();
    }
    if mantissa == 0 {
        proof {
            lemma_pow2_pos(down(exponent as int));
            assert(far * pow2(down(exponent as int)) > 0) by (nonlinear_arith)
                requires
                    far > 0,
                    pow2(down(exponent as int)) > 0,
            ;
            assert(0 * pow2(up(exponent as int)) == 0);
        }
        false
    } else if exponent > 60 {
        proof {
            lemma_pow2_strictly_increases(60, exponent as nat);
            assert(mantissa * pow2(exponent as nat) >= 0x20_0000_0000_0000) by (nonlinear_arith)
                requires
                    mantissa >= 1,
                    pow2(exponent as nat) >= 0x20_0000_0000_0000,
            ;
            assert(far * 1 == far);
        }
        true
    } else if exponent >= 0 {
        let scale: u128 = power(exponent as u32);
        proof {
            if exponent < 60 {
                lemma_pow2_strictly_increases(exponent as nat, 60);
            }
            assert(mantissa * scale <= 0x20_0000_0000_0000 * 0x1000_0000_0000_0000) by (nonlinear_arith)
                requires
                    0 <= mantissa <= 0x20_0000_0000_0000,
                    0 <= scale <= 0x1000_0000_0000_0000,
            ;
            assert(far * 1 == far);
        }
        far as u128 <= mantissa as u128 * scale
    } else {
        // Half as much as it is at most would have to be enough.
        proof {
            let den = pow2((-exponent) as nat) as int;
            if exponent < -1 {
                lemma_pow2_strictly_increases(1, (-exponent) as nat);
            }
            assert(far * den >= 0x20_0000_0000_0000) by (nonlinear_arith)
                requires
                    far >= 0x10_0000_0000_0000,
                    den >= 2,
            ;
            assert(mantissa * 1 == mantissa);
        }
        false
    }
}

/// The whole part of `mantissa * offset`, rounded, times a power of two and over
/// `far`, as far as a step can go.
fn whole_share(mantissa: u64, exponent: i32, shift: u32, offset: u64, far: u64) -> (whole: u64)
    requires
        mantissa < 0x20_0000_0000_0000,
        -1074 <= exponent <= 972,
        shift <= 52,
        offset <= FARTHEST,
        0x10_0000_0000_0000 <= far <= 0x20_0000_0000_0000,
    ensures
        ({
            let num = significant(mantissa * offset) * pow2(up(exponent as int)) * pow2(shift as nat);
            let exact = whole_part(num, pow2(down(exponent as int)) * far);
            whole == exact || (whole >= BEYOND && exact >= BEYOND)
        }),
        whole <= 0x20_0000_0000_0000,
{
    assert(0 <= mantissa * offset <= 0x20_0000_0000_0000 * FARTHEST) by (nonlinear_arith)
        requires
            0 <= mantissa <= 0x20_0000_0000_0000,
            0 <= offset <= FARTHEST,
    ;
    let (bits, unit): (u64, u32) = significant_bits(mantissa as u128 * offset as u128);
    let total: i32 = exponent + shift as i32 + unit as i32;
    let ghost den = pow2(down(exponent as int)) * far;
    let ghost num = significant(mantissa * offset) * pow2(up(exponent as int)) * pow2(shift as nat);
    let ghost (x, y) = (pow2(up(total as int)) as int, pow2(down(total as int)) as int);
    proof {
        lemma2_to64();
        lemma2_to64_rest();
        let common = common_power(exponent as int, (shift + unit) as nat);
        lemma_pow2_adds(shift as nat, unit as nat);
        lemma_pow2_pos(up(total as int));
        lemma_pow2_pos(down(total as int));
        let (pu, ps, pe) = (pow2(unit as nat) as int, pow2(shift as nat) as int, pow2(up(exponent as int)) as int);
        assert(num == common * (bits * x)) by (nonlinear_arith)
            requires
                num == (bits * pu) * pe * ps,
                pe * (ps * pu) == common * x,
        ;
        assert(den == common * (y * far)) by (nonlinear_arith)
            requires
                den == (common * y) * far,
        ;
        assert(bits * x >= 0 && y * far > 0 && num >= 0 && den > 0) by (nonlinear_arith)
            requires
                bits >= 0,
                x > 0,
                y > 0,
                far > 0,
                common >= 1,
                num == common * (bits * x),
                den == common * (y * far),
        ;
        assert(num * (y * far) == (bits * x) * den) by (nonlinear_arith)
            requires
                num == common * (bits * x),
                den == common * (y * far),
        ;
        whole_part_keeps_order(num, den, bits * x, y * far);
        whole_part_keeps_order(bits * x, y * far, num, den);
    }
    if bits == 0 {
        proof {
            assert(0 * x == 0 && 0 * (y * far) == 0);
            whole_part_of_whole(0, y * far);
        }
        return 0;
    }
    if total < 0 {
        proof {
            if total < -1 {
                lemma_pow2_strictly_increases(1, (-total) as nat);
            }
            assert(y * far >= 2 * far) by (nonlinear_arith)
                requires
                    y >= 2,
                    far > 0,
            ;
            assert(bits * 1 == bits);
        }
        if total == -1 {
            proof {
                quotient_is_near(bits as int, 2 * far);
            }
            let (top, bottom): (u128, u128) = divide(bits as u128, 2 * far as u128);
            proof {
                quotient_whole(top, bottom, bits as int, 2 * far);
            }
            return (top / bottom) as u64;
        }
        proof {
            lemma_pow2_strictly_increases(1, (-total) as nat);
            if total < -2 {
                lemma_pow2_strictly_increases(2, (-total) as nat);
            }
            assert(y * far >= 4 * far) by (nonlinear_arith)
                requires
                    y >= 4,
                    far > 0,
            ;
            small_whole_part(bits as int, y * far);
        }
        return 0;
    }
    assert(y * far == far) by (nonlinear_arith)
        requires
            y == 1,
    ;
    if total > 100 {
        proof {
            lemma_pow2_strictly_increases(100, total as nat);
            lemma_pow2_adds(50, 50);
            assert(bits * x >= BEYOND * far) by (nonlinear_arith)
                requires
                    bits >= 1,
                    x >= 0x4_0000_0000_0000 * 0x4_0000_0000_0000,
                    0 < far <= 0x20_0000_0000_0000,
            ;
            large_whole_part(bits * x, far as int);
        }
        return BEYOND;
    }
    let scale: u128 = power(total as u32);
    if product_at_most(BEYOND as u128, far as u128, bits as u128, scale) {
        proof {
            large_whole_part(bits * x, far as int);
        }
        return BEYOND;
    }
    assert(BEYOND * far <= 0x1_0000_0000 * 0x20_0000_0000_0000);
    let scaled: u128 = bits as u128 * scale;
    proof {
        quotient_is_near(scaled as int, far as int);
    }
    let (top, bottom): (u128, u128) = divide(scaled, far as u128);
    proof {
        quotient_whole(top, bottom, scaled as int, far as int);
    }
    (top / bottom) as u64
}

/// What is left of a quotient when it is cut off is its whole part, which has no more
/// than its 53 bits.
proof fn quotient_whole(top: u128, bottom: u128, num: int, den: int)
    requires
        num >= 0,
        den > 0,
        num < 0x20_0000_0000_0000 * den,
        (top as int, bottom as int) == quotient(num, den),
    ensures
        bottom > 0,
        top / bottom <= 0x20_0000_0000_0000,
        whole_part(num, den) == top / bottom,
{
    quotient_is_near(num, den);
    assert(top / bottom <= top) by (nonlinear_arith)
        requires
            bottom >= 1,
            top >= 0,
    ;
}

/// A quotient of at most a half has no whole part.
proof fn small_whole_part(num: int, den: int)
    requires
        0 <= num,
        2 * num <= den,
        den > 0,
    ensures
        whole_part(num, den) == 0,
{
    whole_part_is_near(num, den);
    let r = whole_part(num, den);
    if r >= 1 {
        assert(r * den >= den) by (nonlinear_arith)
            requires
                r >= 1,
                den > 0,
        ;
    }
}

/// A quotient beyond what a step can be has a whole part beyond it.
proof fn large_whole_part(num: int, den: int)
    requires
        den > 0,
        num >= BEYOND * den,
    ensures
        whole_part(num, den) >= BEYOND,
{
    whole_part_reaches(num, den, BEYOND as int);
}

/// A quotient that reaches a whole number has a whole part that reaches it.
proof fn whole_part_reaches(num: int, den: int, value: int)
    requires
        den > 0,
        value >= 0,
        num >= value * den,
    ensures
        whole_part(num, den) >= value,
{
    whole_part_of_whole(value, den);
    assert(value * den >= 0) by (nonlinear_arith)
        requires
            value >= 0,
            den > 0,
    ;
    assert((value * den) * den <= num * den) by (nonlinear_arith)
        requires
            value * den <= num,
            den > 0,
    ;
    whole_part_keeps_order(value * den, den, num, den);
}

/// A quotient that is no larger than a whole number has no larger whole part.
proof fn whole_part_stops(num: int, den: int, value: int)
    requires
        den > 0,
        num >= 0,
        num <= value * den,
    ensures
        whole_part(num, den) <= value,
{
    assert(value >= 0) by (nonlinear_arith)
        requires
            0 <= value * den,
            den > 0,
    ;
    whole_part_of_whole(value, den);
    assert(num * den <= (value * den) * den) by (nonlinear_arith)
        requires
            num <= value * den,
            den > 0,
    ;
    whole_part_keeps_order(num, den, value * den, den);
}

/// What a speed is made of.
proof fn speed_parts(speed: Double)
    ensures
        speed.den() == pow2(down(speed.exponent())),
        magnitude(speed.num()) == speed.mantissa() * pow2(up(speed.exponent())),
        0 <= speed.mantissa() < 0x20_0000_0000_0000,
{
    num_has_the_sign(speed);
    lemma_pow2_pos(up(speed.exponent()));
    let (m, p) = (speed.mantissa(), pow2(up(speed.exponent())) as int);
    assert(m * p >= 0) by (nonlinear_arith)
        requires
            m >= 0,
            p > 0,
    ;
}

/// Computes one axis of a step.
fn compute_share(speed: Double, offset: i64, far: u64, shift: u32, squared: Ghost<int>) -> (step: i64)
    requires
        -FARTHEST <= offset <= FARTHEST,
        squared@ > 0,
        length(squared@) == (far as int, pow2(shift as nat) as int),
        0x10_0000_0000_0000 <= far <= 0x20_0000_0000_0000,
        shift <= 52,
    ensures
        saturated(step as int) == saturated(share(speed, offset as int, squared@)),
{
    let size: u64 = if offset < 0 { (-offset) as u64 } else { offset as u64 };
    let (mantissa, exponent): (u64, i32) = speed.parts();
    let whole: u64 = whole_share(mantissa, exponent, shift, size, far);
    let backwards: bool = (offset < 0) != speed.negative();
    proof {
        speed_parts(speed);
        num_has_the_sign(speed);
        let product = speed.num() * offset;
        let p = pow2(up(exponent as int));
        lemma_pow2_pos(up(exponent as int));
        assert(magnitude(product) == magnitude(speed.num()) * size) by (nonlinear_arith)
            requires
                product == speed.num() * offset,
                size == magnitude(offset as int),
        ;
        assert((product < 0) == ((offset < 0) != (speed.num() < 0) && product != 0)) by (nonlinear_arith)
            requires
                product == speed.num() * offset,
        ;
        assert((mantissa * p) * size == (mantissa * size) * p) by (nonlinear_arith);
        assert(mantissa * size >= 0) by (nonlinear_arith)
            requires
                mantissa >= 0,
                size >= 0,
        ;
        significant_scales(mantissa * size, up(exponent as int));
        let num = significant(mantissa * size) * p * pow2(shift as nat);
        let exact = whole_part(num, pow2(down(exponent as int)) * far);
        assert(share(speed, offset as int, squared@) == sign(product) * exact);
        assert(-1 * exact == -exact && 1 * exact == exact && 0 * exact == 0);
        if product == 0 {
            significant_is_near(0);
            assert(significant(magnitude(product)) == 0);
            assert(0 * pow2(shift as nat) == 0);
            let den = pow2(down(exponent as int)) * far;
            lemma_pow2_pos(down(exponent as int));
            assert(den > 0) by (nonlinear_arith)
                requires
                    den == pow2(down(exponent as int)) * far,
                    pow2(down(exponent as int)) > 0,
                    far > 0,
            ;
            assert(0 * den == 0);
            whole_part_of_whole(0, den);
            assert(whole == 0);
        } else {
            assert(speed.num() != 0) by (nonlinear_arith)
                requires
                    product == speed.num() * offset,
                    product != 0,
            ;
        }
    }
    if backwards {
        -(whole as i64)
    } else {
        whole as i64
    }
}

/// The step the animal takes towards a point `dx` across and `dy` down.
pub fn step(speed: Double, dx: i64, dy: i64) -> (step: (i32, i32))
    requires
        -FARTHEST <= dx <= FARTHEST,
        -FARTHEST <= dy <= FARTHEST,
    ensures
        (step.0 as int, step.1 as int) == step_towards(speed, dx as int, dy as int),
{
    if (dx == 0 && dy == 0) || speed.nan() {
        return (0, 0);
    }
    assert(0 <= dx * dx <= FARTHEST * FARTHEST && (dx != 0 ==> dx * dx > 0)) by (nonlinear_arith)
        requires
            -FARTHEST <= dx <= FARTHEST,
    ;
    assert(0 <= dy * dy <= FARTHEST * FARTHEST && (dy != 0 ==> dy * dy > 0)) by (nonlinear_arith)
        requires
            -FARTHEST <= dy <= FARTHEST,
    ;
    let squared: u128 = (dx as i128 * dx as i128) as u128 + (dy as i128 * dy as i128) as u128;
    let (far, shift): (u64, u32) = measure(squared);
    let (mantissa, exponent): (u64, i32) = speed.parts();
    proof {
        speed_parts(speed);
        num_has_the_sign(speed);
        let common = common_power(exponent as int, shift as nat);
        let (x, y) = (pow2(up(exponent + shift)) as int, pow2(down(exponent + shift)) as int);
        let (pe, ps) = (pow2(up(exponent as int)) as int, pow2(shift as nat) as int);
        assert(far * (common * y) == common * (far * y)) by (nonlinear_arith);
        assert((mantissa * pe) * ps == common * (mantissa * x)) by (nonlinear_arith)
            requires
                pe * ps == common * x,
        ;
        let (left, right) = (far * y, mantissa * x);
        assert((common * left <= common * right) == (left <= right)) by (nonlinear_arith)
            requires
                common >= 1,
        ;
        if speed.is_negative() && speed.num() >= 0 {
            // Negative, but zero.
            assert(speed.num() == 0);
            den_is_positive(speed);
            assert(far * speed.den() > 0) by (nonlinear_arith)
                requires
                    far > 0,
                    speed.den() >= 1,
            ;
            assert(0 * ps == 0);
        }
    }
    if !speed.negative() && at_least(mantissa, exponent + shift as i32, far) {
        return (saturate(dx), saturate(dy));
    }
    let across: i64 = compute_share(speed, dx, far, shift, Ghost(squared as int));
    let down: i64 = compute_share(speed, dy, far, shift, Ghost(squared as int));
    (saturate(across), saturate(down))
}

/// Narrowing to `i32` keeps the sign and never adds distance.
proof fn saturation_shrinks(value: int)
    ensures
        magnitude(saturated(value)) <= magnitude(value),
        sign(saturated(value)) == sign(value),
        saturated(value) * saturated(value) <= value * value,
{
    let narrow = saturated(value);
    assert(narrow * narrow <= value * value) by (nonlinear_arith)
        requires
            0 <= narrow <= value || value <= narrow <= 0,
    ;
}

/// Two points that differ are a positive distance apart.
proof fn positive_distance(dx: int, dy: int)
    requires
        dx != 0 || dy != 0,
    ensures
        distance_squared(dx, dy) > 0,
{
    assert(dx * dx >= 0 && dy * dy >= 0 && (dx != 0 ==> dx * dx > 0) && (dy != 0 ==> dy * dy > 0))
        by (nonlinear_arith);
}

/// What a share is made of, and how close its product is to the exact one.
proof fn share_facts(speed: Double, offset: int, squared: int)
    requires
        squared > 0,
    ensures
        ({
            let (far, per) = length(squared);
            let exact = magnitude(speed.num() * offset);
            let product = significant(exact);
            &&& far > 0
            &&& per > 0
            &&& speed.den() >= 1
            &&& speed.den() * far > 0
            &&& product >= 0
            &&& product * per >= 0
            &&& -exact <= 0x20_0000_0000_0000 * (product - exact) <= exact
            &&& magnitude(share(speed, offset, squared)) == whole_part(product * per, speed.den() * far)
            &&& share(speed, offset, squared) == 0 || sign(share(speed, offset, squared)) == sign(
                speed.num() * offset,
            )
        }),
{
    length_is_near(squared);
    den_is_positive(speed);
    let (far, per) = length(squared);
    let signed = speed.num() * offset;
    let product = significant(magnitude(signed));
    significant_is_near(magnitude(signed));
    let (num, den) = (product * per, speed.den() * far);
    assert(num >= 0) by (nonlinear_arith)
        requires
            num == product * per,
            product >= 0,
            per > 0,
    ;
    assert(den > 0) by (nonlinear_arith)
        requires
            den == speed.den() * far,
            speed.den() >= 1,
            far > 0,
    ;
    whole_part_is_near(num, den);
    let whole = whole_part(num, den);
    assert(-1 * whole == -whole && 1 * whole == whole && 0 * whole == 0);
    if signed == 0 {
        assert(product == 0);
        assert(0 * per == 0 && 0 * den == 0);
        whole_part_of_whole(0, den);
    }
}

/// Two different numbers of 53 bits, each times a power of two, are at least one part
/// in 2 to the 53 apart.
proof fn numbers_are_apart(small: int, p: nat, large: int, q: nat)
    requires
        0 <= small < 0x20_0000_0000_0000,
        0 < large <= 0x20_0000_0000_0000,
        small * pow2(p) < large * pow2(q),
    ensures
        0x20_0000_0000_0001 * (small * pow2(p)) <= 0x20_0000_0000_0000 * (large * pow2(q)),
{
    lemma_pow2_pos(p);
    lemma_pow2_pos(q);
    if p >= q {
        let c = pow2((p - q) as nat) as int;
        let unit = pow2(q) as int;
        lemma_pow2_adds(q, (p - q) as nat);
        let left = small * c;
        assert(small * (unit * c) == left * unit) by (nonlinear_arith)
            requires
                left == small * c,
        ;
        assert(left < large) by (nonlinear_arith)
            requires
                left * unit < large * unit,
                unit > 0,
        ;
        assert(0x20_0000_0000_0001 * left <= 0x20_0000_0000_0000 * large);
        assert(0x20_0000_0000_0001 * (left * unit) <= 0x20_0000_0000_0000 * (large * unit))
            by (nonlinear_arith)
            requires
                0x20_0000_0000_0001 * left <= 0x20_0000_0000_0000 * large,
                unit > 0,
        ;
    } else {
        let c = pow2((q - p) as nat) as int;
        let unit = pow2(p) as int;
        lemma_pow2_adds(p, (q - p) as nat);
        let right = large * c;
        assert(large * (unit * c) == right * unit) by (nonlinear_arith)
            requires
                right == large * c,
        ;
        assert(small < right) by (nonlinear_arith)
            requires
                small * unit < right * unit,
                unit > 0,
        ;
        assert(0x20_0000_0000_0001 * small <= 0x20_0000_0000_0000 * right);
        assert(0x20_0000_0000_0001 * (small * unit) <= 0x20_0000_0000_0000 * (right * unit))
            by (nonlinear_arith)
            requires
                0x20_0000_0000_0001 * small <= 0x20_0000_0000_0000 * right,
                unit > 0,
        ;
    }
}

/// A point that is out of reach is so by at least one part in 2 to the 53.
proof fn out_of_reach(speed: Double, dx: int, dy: int)
    requires
        speed.num() >= 0,
        dx != 0 || dy != 0,
        !within_reach(speed, dx, dy),
    ensures
        ({
            let (far, per) = length(distance_squared(dx, dy));
            0x20_0000_0000_0001 * (speed.num() * per) <= 0x20_0000_0000_0000 * (far * speed.den())
        }),
{
    positive_distance(dx, dy);
    let squared = distance_squared(dx, dy);
    let (bits, j, k) = length_is_near(squared);
    speed_parts(speed);
    let (p, q) = (up(speed.exponent()), down(speed.exponent()));
    let m = speed.mantissa();
    lemma_pow2_adds(p, k);
    lemma_pow2_adds(j, q);
    assert((m * pow2(p)) * pow2(k) == m * (pow2(p) * pow2(k))) by (nonlinear_arith);
    assert((bits * pow2(j)) * pow2(q) == bits * (pow2(j) * pow2(q))) by (nonlinear_arith);
    numbers_are_apart(m, p + k, bits, j + q);
}

/// Out of reach, a share is no longer than the offset it is a share of.
proof fn share_is_short(speed: Double, dx: int, dy: int, offset: int)
    requires
        speed.num() >= 0,
        dx != 0 || dy != 0,
        !within_reach(speed, dx, dy),
    ensures
        ({
            let part = share(speed, offset, distance_squared(dx, dy));
            &&& magnitude(part) <= magnitude(offset)
            &&& part == 0 || sign(part) == sign(offset)
        }),
{
    let squared = distance_squared(dx, dy);
    positive_distance(dx, dy);
    share_facts(speed, offset, squared);
    out_of_reach(speed, dx, dy);
    let (far, per) = length(squared);
    let n = speed.num();
    let size = magnitude(offset);
    let exact = magnitude(n * offset);
    let product = significant(exact);
    assert(exact == n * size && (n * offset == 0 || sign(n * offset) == sign(offset)))
        by (nonlinear_arith)
        requires
            exact == magnitude(n * offset),
            size == magnitude(offset),
            n >= 0,
    ;
    let (num, den) = (product * per, speed.den() * far);
    assert(num <= size * den) by (nonlinear_arith)
        requires
            num == product * per,
            den == speed.den() * far,
            0x20_0000_0000_0000 * product <= 0x20_0000_0000_0001 * exact,
            exact == n * size,
            0x20_0000_0000_0001 * (n * per) <= 0x20_0000_0000_0000 * (far * speed.den()),
            per > 0,
            size >= 0,
    {
        let (more, most) = (0x20_0000_0000_0001int, 0x20_0000_0000_0000int);
        assert((most * product) * per <= (more * exact) * per);
        assert((more * exact) * per == (more * (n * per)) * size);
        assert((more * (n * per)) * size <= (most * (far * speed.den())) * size);
        assert((most * (far * speed.den())) * size == most * (size * den));
        assert((most * product) * per == most * num);
    }
    whole_part_stops(num, den, size);
}

/// Along each axis a step goes towards the point and never past it, for a speed
/// that is not negative.
pub proof fn step_never_overshoots(speed: Double, dx: int, dy: int)
    requires
        speed.num() >= 0,
    ensures
        ({
            let (across, down) = step_towards(speed, dx, dy);
            &&& 0 <= across <= dx || dx <= across <= 0
            &&& 0 <= down <= dy || dy <= down <= 0
        }),
{
    saturation_shrinks(dx);
    saturation_shrinks(dy);
    if !(dx == 0 && dy == 0) && !within_reach(speed, dx, dy) {
        let squared = distance_squared(dx, dy);
        share_is_short(speed, dx, dy, dx);
        share_is_short(speed, dx, dy, dy);
        saturation_shrinks(share(speed, dx, squared));
        saturation_shrinks(share(speed, dy, squared));
    }
}

/// Whether a number exceeds another one by a part in 2 to the 40, about a trillionth,
/// which is more than rounding can make up for.
pub open spec fn clears(large: int, small: int) -> bool {
    0x100_0000_0000 * large >= 0x100_0000_0001 * small
}

/// Whether a number exceeds another one by no more than a part in 2 to the 40, which
/// allows for rounding.
pub open spec fn about_at_most(small: int, large: int) -> bool {
    0x100_0000_0000 * small <= 0x100_0000_0001 * large
}

/// The square of a share, against the square of the offset it is a share of.
proof fn share_squared(speed: Double, offset: int, squared: int)
    requires
        squared > 0,
    ensures
        ({
            let part = share(speed, offset, squared);
            about_at_most(
                (part * part) * (one_squared(speed) * squared),
                (speed.num() * speed.num()) * (offset * offset),
            )
        }),
{
    share_facts(speed, offset, squared);
    length_is_near(squared);
    let (far, per) = length(squared);
    let part = magnitude(share(speed, offset, squared));
    let exact = magnitude(speed.num() * offset);
    let product = significant(exact);
    let (num, den) = (product * per, speed.den() * far);
    whole_part_is_near(num, den);
    let (up, goal) = (part * den, exact * per);
    assert(0x8_0000_0000_0000 * up <= 0x8_0000_0000_0001 * goal) by (nonlinear_arith)
        requires
            0x20_0000_0000_0000 * up <= 0x20_0000_0000_0001 * num,
            num == product * per,
            0x20_0000_0000_0000 * product <= 0x20_0000_0000_0001 * exact,
            goal == exact * per,
            per > 0,
            product >= 0,
            exact >= 0,
    {
        assert((0x20_0000_0000_0000 * product) * per <= (0x20_0000_0000_0001 * exact) * per);
        assert(0x20_0000_0000_0000 * num <= 0x20_0000_0000_0001 * goal);
    }
    assert(up >= 0 && goal >= 0) by (nonlinear_arith)
        requires
            up == part * den,
            goal == exact * per,
            part >= 0,
            den > 0,
            exact >= 0,
            per > 0,
    ;
    let (up2, goal2) = (up * up, goal * goal);
    squares_compare(0x8_0000_0000_0000, up, 0x8_0000_0000_0001, goal);
    // The square of the length is the square of the distance, but for rounding.
    let (near, spread) = (far * far, squared * (per * per));
    let whole = (part * part) * one_squared(speed);
    assert(up2 == whole * near) by (nonlinear_arith)
        requires
            up2 == up * up,
            up == part * (speed.den() * far),
            whole == (part * part) * (speed.den() * speed.den()),
            near == far * far,
    ;
    one_is_positive(speed);
    assert(whole >= 0) by (nonlinear_arith)
        requires
            whole == (part * part) * one_squared(speed),
            one_squared(speed) >= 1,
    ;
    assert(0x4_0000_0000_0000 * (whole * spread) <= 0x4_0000_0000_0001 * (whole * near)) by (nonlinear_arith)
        requires
            0x4_0000_0000_0000 * spread <= 0x4_0000_0000_0001 * near,
            whole >= 0,
    ;
    let (left, right) = (whole * squared, exact * exact);
    let p2 = per * per;
    assert(whole * spread == left * p2) by (nonlinear_arith)
        requires
            spread == squared * p2,
            left == whole * squared,
    ;
    assert(goal2 == right * p2 && p2 > 0) by (nonlinear_arith)
        requires
            goal2 == goal * goal,
            goal == exact * per,
            right == exact * exact,
            p2 == per * per,
            per > 0,
    ;
    assert(0x100_0000_0000 * (left * p2) <= 0x100_0000_0001 * (right * p2));
    assert(0x100_0000_0000 * left <= 0x100_0000_0001 * right) by (nonlinear_arith)
        requires
            0x100_0000_0000 * (left * p2) <= 0x100_0000_0001 * (right * p2),
            p2 > 0,
    ;
    let signed = share(speed, offset, squared);
    assert((signed * signed) * (one_squared(speed) * squared) == left) by (nonlinear_arith)
        requires
            left == ((part * part) * one_squared(speed)) * squared,
            part == signed || part == -signed,
    ;
    assert(right == (speed.num() * speed.num()) * (offset * offset)) by (nonlinear_arith)
        requires
            right == exact * exact,
            exact == speed.num() * offset || exact == -(speed.num() * offset),
    ;
}

/// Squares compare as what they are the squares of.
proof fn squares_compare(c: int, x: int, d: int, y: int)
    requires
        0 <= c * x <= d * y,
    ensures
        (c * c) * (x * x) <= (d * d) * (y * y),
{
    assert((c * c) * (x * x) <= (d * d) * (y * y)) by (nonlinear_arith)
        requires
            0 <= c * x <= d * y,
    {
        assert((c * x) * (c * x) <= (d * y) * (d * y));
        assert((c * x) * (c * x) == (c * c) * (x * x));
        assert((d * y) * (d * y) == (d * d) * (y * y));
    }
}

/// The square of the distance to a point within reach, against that of the speed.
proof fn reach_squared(speed: Double, dx: int, dy: int)
    requires
        dx != 0 || dy != 0,
        within_reach(speed, dx, dy),
    ensures
        about_at_most(
            distance_squared(dx, dy) * one_squared(speed),
            speed.num() * speed.num(),
        ),
{
    let squared = distance_squared(dx, dy);
    positive_distance(dx, dy);
    length_is_near(squared);
    one_is_positive(speed);
    let (far, per) = length(squared);
    let (n, d) = (speed.num(), speed.den());
    assert(far * d >= 0) by (nonlinear_arith)
        requires
            far > 0,
            d >= 1,
    ;
    squares_compare(far, d, n, per);
    let (one, p2, f2, n2) = (one_squared(speed), per * per, far * far, n * n);
    assert(p2 > 0) by (nonlinear_arith)
        requires
            p2 == per * per,
            per > 0,
    ;
    let left = squared * one;
    assert(0x4_0000_0000_0000 * (left * p2) <= 0x4_0000_0000_0001 * (f2 * one)) by (nonlinear_arith)
        requires
            0x4_0000_0000_0000 * (squared * p2) <= 0x4_0000_0000_0001 * f2,
            left == squared * one,
            one >= 1,
    {
        assert(left * p2 == (squared * p2) * one);
    }
    assert(0x100_0000_0000 * left <= 0x100_0000_0001 * n2) by (nonlinear_arith)
        requires
            0x4_0000_0000_0000 * (left * p2) <= 0x4_0000_0000_0001 * (n2 * p2),
            n2 * p2 >= 0,
            p2 > 0,
    {
        assert(0x100_0000_0000 * (left * p2) <= 0x100_0000_0001 * (n2 * p2));
    }
}

/// No step is longer than `speed` pixels, but for rounding, for a speed that is not
/// negative.
pub proof fn step_is_within_speed(speed: Double, dx: int, dy: int)
    requires
        speed.num() >= 0,
    ensures
        ({
            let (across, down) = step_towards(speed, dx, dy);
            about_at_most(
                distance_squared(across, down) * one_squared(speed),
                speed.num() * speed.num(),
            )
        }),
{
    let (across, down) = step_towards(speed, dx, dy);
    let s2 = speed.num() * speed.num();
    assert(s2 >= 0) by (nonlinear_arith)
        requires
            s2 == speed.num() * speed.num(),
    ;
    saturation_shrinks(dx);
    saturation_shrinks(dy);
    one_is_positive(speed);
    let one = one_squared(speed);
    if (dx == 0 && dy == 0) || speed.is_nan() {
        assert(distance_squared(0, 0) * one == 0) by (nonlinear_arith);
    } else if within_reach(speed, dx, dy) {
        reach_squared(speed, dx, dy);
        assert(distance_squared(across, down) * one <= distance_squared(dx, dy) * one)
            by (nonlinear_arith)
            requires
                distance_squared(across, down) <= distance_squared(dx, dy),
                one >= 0,
        ;
    } else {
        let n2 = distance_squared(dx, dy);
        positive_distance(dx, dy);
        let (a, b) = (share(speed, dx, n2), share(speed, dy, n2));
        share_squared(speed, dx, n2);
        share_squared(speed, dy, n2);
        saturation_shrinks(a);
        saturation_shrinks(b);
        let both = (a * a + b * b) * one;
        assert(0x100_0000_0000 * (both * n2) <= 0x100_0000_0001 * (s2 * n2)) by (nonlinear_arith)
            requires
                0x100_0000_0000 * ((a * a) * (one * n2)) <= 0x100_0000_0001 * (s2 * (dx * dx)),
                0x100_0000_0000 * ((b * b) * (one * n2)) <= 0x100_0000_0001 * (s2 * (dy * dy)),
                n2 == dx * dx + dy * dy,
                both == (a * a + b * b) * one,
        {
            assert(both * n2 == (a * a) * (one * n2) + (b * b) * (one * n2));
            assert(s2 * n2 == s2 * (dx * dx) + s2 * (dy * dy));
        }
        assert(0x100_0000_0000 * both <= 0x100_0000_0001 * s2) by (nonlinear_arith)
            requires
                0x100_0000_0000 * (both * n2) <= 0x100_0000_0001 * (s2 * n2),
                n2 > 0,
        ;
        assert(distance_squared(across, down) * one <= both) by (nonlinear_arith)
            requires
                distance_squared(across, down) <= a * a + b * b,
                both == (a * a + b * b) * one,
                one >= 0,
        ;
    }
}

/// A share whose square clears that of a whole number reaches that number.
proof fn share_reaches(speed: Double, offset: int, squared: int, wanted: int)
    requires
        squared > 0,
        wanted >= 0,
        clears(
            (speed.num() * speed.num()) * (offset * offset),
            (wanted * wanted) * (one_squared(speed) * squared),
        ),
    ensures
        magnitude(share(speed, offset, squared)) >= wanted,
{
    share_facts(speed, offset, squared);
    length_is_near(squared);
    let (far, per) = length(squared);
    let exact = magnitude(speed.num() * offset);
    let product = significant(exact);
    let (num, den) = (product * per, speed.den() * far);
    let goal = wanted * den;
    let (p2, one) = (per * per, one_squared(speed));
    let whole = (wanted * wanted) * one;
    one_is_positive(speed);
    assert(whole >= 0 && p2 > 0) by (nonlinear_arith)
        requires
            whole == (wanted * wanted) * one,
            one >= 1,
            p2 == per * per,
            per > 0,
    ;
    let (near, spread) = (far * far, squared * p2);
    assert(goal * goal == whole * near) by (nonlinear_arith)
        requires
            goal == wanted * (speed.den() * far),
            whole == (wanted * wanted) * (speed.den() * speed.den()),
            near == far * far,
    ;
    assert(0x3_ffff_ffff_ffff * (whole * near) <= 0x4_0000_0000_0000 * (whole * spread)) by (nonlinear_arith)
        requires
            0x3_ffff_ffff_ffff * near <= 0x4_0000_0000_0000 * spread,
            whole >= 0,
    ;
    let (left, right) = (whole * squared, exact * exact);
    assert(right == (speed.num() * speed.num()) * (offset * offset)) by (nonlinear_arith)
        requires
            right == exact * exact,
            exact == speed.num() * offset || exact == -(speed.num() * offset),
    ;
    assert(left == (wanted * wanted) * (one * squared)) by (nonlinear_arith)
        requires
            left == ((wanted * wanted) * one) * squared,
    ;
    assert(whole * spread == left * p2) by (nonlinear_arith)
        requires
            spread == squared * p2,
            left == whole * squared,
    ;
    assert(0x100_0000_0001 * (left * p2) <= 0x100_0000_0000 * (right * p2)) by (nonlinear_arith)
        requires
            0x100_0000_0001 * left <= 0x100_0000_0000 * right,
            p2 > 0,
    ;
    assert(0x1f_ffff_ffff_ffff * exact >= 0 && num >= 0);
    squares_compare(0x1f_ffff_ffff_ffff, exact, 0x20_0000_0000_0000, product);
    let q2 = product * product;
    assert((0x1f_ffff_ffff_ffff * 0x1f_ffff_ffff_ffff) * (right * p2) <= (0x20_0000_0000_0000
        * 0x20_0000_0000_0000) * (q2 * p2)) by (nonlinear_arith)
        requires
            (0x1f_ffff_ffff_ffff * 0x1f_ffff_ffff_ffff) * right <= (0x20_0000_0000_0000
                * 0x20_0000_0000_0000) * q2,
            p2 > 0,
    ;
    assert(num * num == q2 * p2) by (nonlinear_arith)
        requires
            num == product * per,
            q2 == product * product,
            p2 == per * per,
    ;
    assert(right * p2 >= 0 && goal * goal >= 0) by (nonlinear_arith)
        requires
            right == exact * exact,
            p2 > 0,
    ;
    assert(goal * goal <= num * num);
    assert(goal <= num) by (nonlinear_arith)
        requires
            goal * goal <= num * num,
            num >= 0,
    ;
    whole_part_reaches(num, den, wanted);
}

/// Whether a speed is more than the length of a diagonal pixel, `sqrt(2)`. Below
/// that, a step cut off towards zero on both axes can be empty anywhere.
pub open spec fn brisk(speed: Double) -> bool {
    !speed.is_nan() && speed.num() >= 0 && clears(speed.num() * speed.num(), 2 * one_squared(speed))
}

/// At a brisk speed, the animal stands still only when it has reached the
/// point.
pub proof fn step_stops_only_at_the_point(speed: Double, dx: int, dy: int)
    requires
        brisk(speed),
    ensures
        step_towards(speed, dx, dy) == (0int, 0int) <==> dx == 0 && dy == 0,
{
    saturation_shrinks(dx);
    saturation_shrinks(dy);
    if !(dx == 0 && dy == 0) && !within_reach(speed, dx, dy) {
        let n2 = distance_squared(dx, dy);
        positive_distance(dx, dy);
        let major = if magnitude(dx) >= magnitude(dy) { dx } else { dy };
        let (s2, one, m2) = (speed.num() * speed.num(), one_squared(speed), major * major);
        one_is_positive(speed);
        assert(2 * m2 >= n2) by (nonlinear_arith)
            requires
                n2 == dx * dx + dy * dy,
                m2 == major * major,
                magnitude(major) >= magnitude(dx),
                magnitude(major) >= magnitude(dy),
        ;
        assert(clears(s2 * m2, (1int * 1int) * (one * n2))) by (nonlinear_arith)
            requires
                0x100_0000_0000 * s2 >= 0x100_0000_0001 * (2 * one),
                2 * m2 >= n2,
                one >= 1,
                n2 > 0,
        {
            assert((0x100_0000_0000 * s2) * m2 >= (0x100_0000_0001 * (2 * one)) * m2);
            assert((2 * one) * m2 == one * (2 * m2));
            assert(one * (2 * m2) >= one * n2);
        }
        share_reaches(speed, major, n2, 1);
        saturation_shrinks(share(speed, dx, n2));
        saturation_shrinks(share(speed, dy, n2));
    }
}

/// A step that is not empty brings the point strictly closer, for a speed that
/// is not negative.
pub proof fn step_closes_in(speed: Double, dx: int, dy: int)
    requires
        speed.num() >= 0,
        step_towards(speed, dx, dy) != (0int, 0int),
    ensures
        ({
            let (across, down) = step_towards(speed, dx, dy);
            distance_squared(dx - across, dy - down) < distance_squared(dx, dy)
        }),
{
    let (across, down) = step_towards(speed, dx, dy);
    step_never_overshoots(speed, dx, dy);
    shorter_leg(dx, across);
    shorter_leg(dy, down);
}

/// Taking part of an offset away shortens it.
pub proof fn shorter_leg(offset: int, part: int)
    requires
        0 <= part <= offset || offset <= part <= 0,
    ensures
        (offset - part) * (offset - part) <= offset * offset,
        part != 0 ==> (offset - part) * (offset - part) < offset * offset,
{
    assert((offset - part) * (offset - part) <= offset * offset && (part != 0 ==> (offset - part) * (
    offset - part) < offset * offset)) by (nonlinear_arith)
        requires
            0 <= part <= offset || offset <= part <= 0,
    ;
}

/// Whether a speed covers `pace` pixels on both axes of a diagonal: it is more than
/// `pace * sqrt(2)`.
pub open spec fn covers_pace(speed: Double, pace: int) -> bool {
    &&& 1 <= pace <= i32::MAX
    &&& !speed.is_nan()
    &&& speed.num() >= 0
    &&& clears(speed.num() * speed.num(), 2 * (pace * pace) * one_squared(speed))
}

/// The longer of two legs.
pub open spec fn longer_leg(dx: int, dy: int) -> int {
    if magnitude(dx) >= magnitude(dy) {
        magnitude(dx)
    } else {
        magnitude(dy)
    }
}

/// A share is at least as long as what its leg exceeds the longer one less the pace
/// by.
proof fn share_keeps_pace(speed: Double, dx: int, dy: int, leg: int, pace: int)
    requires
        covers_pace(speed, pace),
        dx != 0 || dy != 0,
        leg == dx || leg == dy,
        pace <= longer_leg(dx, dy),
    ensures
        magnitude(share(speed, leg, distance_squared(dx, dy))) >= pace - (longer_leg(dx, dy) - magnitude(
            leg,
        )),
{
    let (n2, most, a) = (distance_squared(dx, dy), longer_leg(dx, dy), magnitude(leg));
    let wanted = pace - (most - a);
    positive_distance(dx, dy);
    if wanted > 0 {
        let (s2, one) = (speed.num() * speed.num(), one_squared(speed));
        one_is_positive(speed);
        assert(n2 <= 2 * (most * most)) by (nonlinear_arith)
            requires
                n2 == dx * dx + dy * dy,
                most >= magnitude(dx),
                most >= magnitude(dy),
        ;
        assert(wanted * most <= pace * a) by (nonlinear_arith)
            requires
                wanted == pace - (most - a),
                pace <= most,
                a <= most,
        ;
        let legs = (pace * a) * (pace * a);
        assert((wanted * most) * (wanted * most) <= legs) by (nonlinear_arith)
            requires
                0 <= wanted * most <= pace * a,
                legs == (pace * a) * (pace * a),
        ;
        let w2 = wanted * wanted;
        assert(w2 * n2 <= 2 * legs) by (nonlinear_arith)
            requires
                n2 <= 2 * (most * most),
                (wanted * most) * (wanted * most) <= legs,
                w2 == wanted * wanted,
        {
            assert((wanted * most) * (wanted * most) == w2 * (most * most));
            assert(w2 >= 0);
            assert(w2 * n2 <= w2 * (2 * (most * most)));
        }
        let a2 = leg * leg;
        assert(legs == (pace * pace) * a2 && a2 >= 0) by (nonlinear_arith)
            requires
                legs == (pace * a) * (pace * a),
                a2 == leg * leg,
                a == leg || a == -leg,
        ;
        assert(clears(s2 * a2, w2 * (one * n2))) by (nonlinear_arith)
            requires
                0x100_0000_0000 * s2 >= 0x100_0000_0001 * (2 * (pace * pace) * one),
                w2 * n2 <= 2 * legs,
                legs == (pace * pace) * a2,
                a2 >= 0,
                one >= 1,
        {
            assert((0x100_0000_0000 * s2) * a2 >= (0x100_0000_0001 * (2 * (pace * pace) * one)) * a2);
            assert((2 * (pace * pace) * one) * a2 == (2 * legs) * one);
            assert((2 * legs) * one >= (w2 * n2) * one);
            assert((w2 * n2) * one == w2 * (one * n2));
        }
        share_reaches(speed, leg, n2, wanted);
    }
}

/// A leg that is out of reach is longer than the pace.
proof fn pace_is_short(speed: Double, dx: int, dy: int, pace: int)
    requires
        covers_pace(speed, pace),
        dx != 0 || dy != 0,
        !within_reach(speed, dx, dy),
    ensures
        pace <= longer_leg(dx, dy),
{
    let (n2, most) = (distance_squared(dx, dy), longer_leg(dx, dy));
    positive_distance(dx, dy);
    length_is_near(n2);
    one_is_positive(speed);
    let (far, per) = length(n2);
    let (n, d) = (speed.num(), speed.den());
    assert(n * per >= 0) by (nonlinear_arith)
        requires
            n >= 0,
            per > 0,
    ;
    squares_compare(n, per, far, d);
    let (s2, one, p2, f2) = (n * n, one_squared(speed), per * per, far * far);
    let twice = 2 * (pace * pace);
    assert(0x100_0000_0001 * ((twice * one) * p2) <= 0x100_0000_0000 * (f2 * one) && p2 > 0)
        by (nonlinear_arith)
        requires
            0x100_0000_0000 * s2 >= 0x100_0000_0001 * (twice * one),
            s2 * p2 <= f2 * one,
            p2 == per * per,
            per > 0,
    {
        assert((0x100_0000_0000 * s2) * p2 >= (0x100_0000_0001 * (twice * one)) * p2);
    }
    assert(0x3_ffff_ffff_ffff * (f2 * one) <= 0x4_0000_0000_0000 * ((n2 * one) * p2)) by (nonlinear_arith)
        requires
            0x3_ffff_ffff_ffff * f2 <= 0x4_0000_0000_0000 * (n2 * p2),
            one >= 1,
    {
        assert((n2 * one) * p2 == (n2 * p2) * one);
    }
    let c = one * p2;
    assert((twice * one) * p2 == twice * c && (n2 * one) * p2 == n2 * c && c > 0 && n2 * c > 0)
        by (nonlinear_arith)
        requires
            c == one * p2,
            one >= 1,
            p2 > 0,
            n2 > 0,
    ;
    assert(twice * c <= n2 * c);
    assert(pace <= most) by (nonlinear_arith)
        requires
            twice * c <= n2 * c,
            c > 0,
            twice == 2 * (pace * pace),
            n2 == dx * dx + dy * dy,
            most >= magnitude(dx),
            most >= magnitude(dy),
            pace >= 1,
    {
        assert(n2 <= 2 * (most * most));
        assert(twice <= n2);
        assert(pace * pace <= most * most);
    }
}

/// Every step either gets to the point or leaves both legs shorter than the longer
/// one was, by the pace that the speed covers.
pub proof fn step_keeps_pace(speed: Double, dx: int, dy: int, pace: int)
    requires
        covers_pace(speed, pace),
    ensures
        ({
            let (across, down) = step_towards(speed, dx, dy);
            (across == dx && down == dy) || longer_leg(dx - across, dy - down) <= longer_leg(dx, dy)
                - pace
        }),
{
    if dx != 0 || dy != 0 {
        step_never_overshoots(speed, dx, dy);
        if !within_reach(speed, dx, dy) {
            pace_is_short(speed, dx, dy, pace);
            share_keeps_pace(speed, dx, dy, dx, pace);
            share_keeps_pace(speed, dx, dy, dy, pace);
        }
    }
}

/// The square of the distance to a point out of reach, against that of the speed.
proof fn out_of_reach_squared(speed: Double, dx: int, dy: int)
    requires
        speed.num() >= 0,
        dx != 0 || dy != 0,
        !within_reach(speed, dx, dy),
    ensures
        !clears(speed.num() * speed.num(), distance_squared(dx, dy) * one_squared(speed)),
{
    let n2 = distance_squared(dx, dy);
    positive_distance(dx, dy);
    length_is_near(n2);
    one_is_positive(speed);
    let (far, per) = length(n2);
    let (n, d) = (speed.num(), speed.den());
    assert(n * per >= 0) by (nonlinear_arith)
        requires
            n >= 0,
            per > 0,
    ;
    squares_compare(n, per, far, d);
    let (s2, one, p2, f2) = (n * n, one_squared(speed), per * per, far * far);
    let left = n2 * one;
    assert(0x3_ffff_ffff_ffff * (s2 * p2) <= 0x4_0000_0000_0000 * (left * p2)) by (nonlinear_arith)
        requires
            s2 * p2 <= f2 * one,
            0x3_ffff_ffff_ffff * f2 <= 0x4_0000_0000_0000 * (n2 * p2),
            left == n2 * one,
            one >= 1,
    {
        assert((0x3_ffff_ffff_ffff * f2) * one <= (0x4_0000_0000_0000 * (n2 * p2)) * one);
        assert((n2 * p2) * one == left * p2);
    }
    assert(0x3_ffff_ffff_ffff * s2 <= 0x4_0000_0000_0000 * left && left > 0) by (nonlinear_arith)
        requires
            0x3_ffff_ffff_ffff * (s2 * p2) <= 0x4_0000_0000_0000 * (left * p2),
            p2 == per * per,
            per > 0,
            left == n2 * one,
            n2 > 0,
            one >= 1,
    {
        assert(p2 > 0);
        assert((0x3_ffff_ffff_ffff * s2) * p2 <= (0x4_0000_0000_0000 * left) * p2);
    }
}

/// A point that is clearly no farther than the speed, which is `n` over `d` pixels, is
/// reached in one step, and one that is clearly farther is not: the step then goes the
/// speed's length in its direction, less what is cut off of each axis, which is less than
/// a pixel. Squares stand in for distances, and a part in 2 to the 40 for rounding.
pub proof fn a_step_is_straight_and_as_long_as_the_speed(speed: Double, dx: int, dy: int)
    requires
        !speed.is_nan(),
        speed.num() >= 0,
        -0x7fff_ffff <= dx <= 0x7fff_ffff,
        -0x7fff_ffff <= dy <= 0x7fff_ffff,
        dx != 0 || dy != 0,
    ensures
        ({
            let (n, d) = (speed.num(), speed.den());
            let (across, down) = step_towards(speed, dx, dy);
            let squared = dx * dx + dy * dy;
            let (a, b) = (
                if across < 0 { -across } else { across },
                if down < 0 { -down } else { down },
            );
            let one = d * d;
            &&& 0x100_0000_0000 * (n * n) >= 0x100_0000_0001 * (squared * one) ==> across == dx && down
                == dy
            &&& 0x100_0000_0000 * (squared * one) > 0x100_0000_0001 * (n * n) ==> {
                &&& 0x100_0000_0000 * ((a * a) * (one * squared)) <= 0x100_0000_0001 * ((n * n) * (dx
                    * dx))
                &&& 0x100_0000_0000 * ((b * b) * (one * squared)) <= 0x100_0000_0001 * ((n * n) * (dy
                    * dy))
                &&& 0x100_0000_0000 * ((n * n) * (dx * dx)) < 0x100_0000_0001 * (((a + 1) * (a + 1)) * (
                one * squared))
                &&& 0x100_0000_0000 * ((n * n) * (dy * dy)) < 0x100_0000_0001 * (((b + 1) * (b + 1)) * (
                one * squared))
                &&& 0 <= across <= dx || dx <= across <= 0
                &&& 0 <= down <= dy || dy <= down <= 0
            }
        }),
{
    let squared = distance_squared(dx, dy);
    let (across, down) = step_towards(speed, dx, dy);
    positive_distance(dx, dy);
    step_never_overshoots(speed, dx, dy);
    if within_reach(speed, dx, dy) {
        reach_squared(speed, dx, dy);
    } else {
        out_of_reach_squared(speed, dx, dy);
        share_is_short(speed, dx, dy, dx);
        share_is_short(speed, dx, dy, dy);
        share_squared(speed, dx, squared);
        share_squared(speed, dy, squared);
        assert(across == share(speed, dx, squared) && down == share(speed, dy, squared));
        let (a, b) = (magnitude(across), magnitude(down));
        assert(a * a == across * across && b * b == down * down) by (nonlinear_arith)
            requires
                a == across || a == -across,
                b == down || b == -down,
        ;
        if clears(
            (speed.num() * speed.num()) * (dx * dx),
            ((a + 1) * (a + 1)) * (one_squared(speed) * squared),
        ) {
            share_reaches(speed, dx, squared, a + 1);
        }
        if clears(
            (speed.num() * speed.num()) * (dy * dy),
            ((b + 1) * (b + 1)) * (one_squared(speed) * squared),
        ) {
            share_reaches(speed, dy, squared, b + 1);
        }
    }
}

/// A speed that is no number, or none at all, gets the animal nowhere, and neither does
/// being there already.
pub proof fn some_steps_go_nowhere(speed: Double, dx: int, dy: int)
    ensures
        step_towards(speed, 0, 0) == (0int, 0int),
        speed.is_nan() ==> step_towards(speed, dx, dy) == (0int, 0int),
        speed.num() == 0 ==> step_towards(speed, dx, dy) == (0int, 0int),
{
    if speed.num() == 0 && (dx != 0 || dy != 0) && !speed.is_nan() {
        let squared = distance_squared(dx, dy);
        positive_distance(dx, dy);
        share_facts(speed, dx, squared);
        share_facts(speed, dy, squared);
        let (far, per) = length(squared);
        assert(far * speed.den() > 0) by (nonlinear_arith)
            requires
                speed.den() * far > 0,
        ;
        assert(0 * per == 0 && 0 * dx == 0 && 0 * dy == 0);
        let whole = whole_part(significant(0) * per, speed.den() * far);
        assert(0 * whole == 0);
    }
}

} // verus!
