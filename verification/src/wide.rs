//! Products that need more than 128 bits, and the whole parts of square roots.

use vstd::prelude::*;

verus! {

/// Half of a wide product's digits: 2 to the 64.
pub const HALF: u128 = 0x1_0000_0000_0000_0000;

/// 2 to the 128, the weight of the upper half of a wide product.
pub open spec fn full() -> int {
    HALF * HALF
}

/// Multiplies without losing the upper half: the result is `(high, low)`.
pub fn wide_product(a: u128, b: u128) -> (product: (u128, u128))
    ensures
        product.0 * full() + product.1 == a * b,
{
    let a1: u128 = a / HALF;
    let a0: u128 = a % HALF;
    let b1: u128 = b / HALF;
    let b0: u128 = b % HALF;
    assert(a == a1 * HALF + a0 && b == b1 * HALF + b0);
    assert(a1 < HALF && b1 < HALF);
    proof {
        digit_product(a0 as int, b0 as int);
        digit_product(a0 as int, b1 as int);
        digit_product(a1 as int, b0 as int);
        digit_product(a1 as int, b1 as int);
    }
    let p00: u128 = a0 * b0;
    let p01: u128 = a0 * b1;
    let p10: u128 = a1 * b0;
    let p11: u128 = a1 * b1;
    let mid: u128 = p01 + p00 / HALF;
    let cross: u128 = p10 + mid % HALF;
    let low: u128 = (cross % HALF) * HALF + p00 % HALF;
    let ghost high = p11 + mid / HALF + cross / HALF;
    assert(high * full() + low == a * b) by {
        let h = HALF as int;
        assert((a1 * h + a0) * (b1 * h + b0) == a1 * b1 * (h * h) + (a1 * b0) * h + (a0 * b1) * h
            + a0 * b0) by (nonlinear_arith);
        assert((p11 + mid / HALF + cross / HALF) * (h * h) == p11 * (h * h) + (mid / HALF) * h * h
            + (cross / HALF) * h * h) by (nonlinear_arith)
            requires
                h == HALF as int,
        ;
        assert((mid / HALF) * h * h == ((mid / HALF) * h) * h) by (nonlinear_arith);
        assert((cross / HALF) * h * h == ((cross / HALF) * h) * h) by (nonlinear_arith);
        assert((mid / HALF) * h == mid - mid % HALF);
        assert((cross / HALF) * h == cross - cross % HALF);
        assert((mid - mid % HALF) * h == mid * h - (mid % HALF) * h) by (nonlinear_arith);
        assert((cross - cross % HALF) * h == cross * h - (cross % HALF) * h) by (nonlinear_arith);
        assert(cross * h == p10 * h + (mid % HALF) * h) by (nonlinear_arith)
            requires
                cross == p10 + mid % HALF,
        ;
        assert(mid * h == p01 * h + (p00 / HALF) * h) by (nonlinear_arith)
            requires
                mid == p01 + p00 / HALF,
        ;
        assert((p00 / HALF) * h == p00 - p00 % HALF);
    }
    assert(high < full()) by (nonlinear_arith)
        requires
            high * full() + low == a * b,
            low >= 0,
            a < full(),
            b < full(),
            a >= 0,
            b >= 0,
            full() > 0,
    ;
    (p11 + mid / HALF + cross / HALF, low)
}

/// The product of two 64-bit digits leaves room for one more digit.
proof fn digit_product(a: int, b: int)
    requires
        0 <= a < HALF,
        0 <= b < HALF,
    ensures
        0 <= a * b <= (HALF - 1) * (HALF - 1),
{
    assert(0 <= a * b <= (HALF - 1) * (HALF - 1)) by (nonlinear_arith)
        requires
            0 <= a <= HALF - 1,
            0 <= b <= HALF - 1,
    ;
}

/// Whether `a * b <= c * d`, exactly.
pub fn product_at_most(a: u128, b: u128, c: u128, d: u128) -> (at_most: bool)
    ensures
        at_most == (a * b <= c * d),
{
    let left: (u128, u128) = wide_product(a, b);
    let right: (u128, u128) = wide_product(c, d);
    proof {
        let (lh, ll, rh, rl) = (left.0 as int, left.1 as int, right.0 as int, right.1 as int);
        assert(lh < rh ==> lh * full() + ll < rh * full() + rl) by (nonlinear_arith)
            requires
                0 <= ll < full(),
                0 <= rl,
        ;
        assert(rh < lh ==> rh * full() + rl < lh * full() + ll) by (nonlinear_arith)
            requires
                0 <= rl < full(),
                0 <= ll,
        ;
    }
    left.0 < right.0 || (left.0 == right.0 && left.1 <= right.1)
}

/// Whether `root` is the whole part of the square root of `n`.
pub open spec fn is_root(root: nat, n: nat) -> bool {
    root * root <= n < (root + 1) * (root + 1)
}

/// The whole part of the square root of `n`.
pub open spec fn root(n: nat) -> nat {
    choose|r: nat| is_root(r, n)
}

/// Every natural number has exactly one whole square root.
pub proof fn root_is_unique(r: nat, n: nat)
    requires
        is_root(r, n),
    ensures
        root(n) == r,
{
    let s = root(n);
    assert(is_root(s, n));
    assert(s == r) by (nonlinear_arith)
        requires
            r * r <= n < (r + 1) * (r + 1),
            s * s <= n < (s + 1) * (s + 1),
    ;
}

/// `root` does give a square root.
pub proof fn root_exists(n: nat)
    ensures
        is_root(root(n), n),
{
    root_witness(n);
    let r = choose|r: nat| is_root(r, n);
    assert(is_root(r, n));
}

proof fn root_witness(n: nat)
    ensures
        exists|r: nat| is_root(r, n),
    decreases n,
{
    if n == 0 {
        assert(is_root(0, 0)) by (nonlinear_arith);
    } else {
        let m = (n - 1) as nat;
        root_witness(m);
        let r = choose|r: nat| is_root(r, m);
        if n < (r + 1) * (r + 1) {
            assert(is_root(r, n));
        } else {
            assert(is_root(r + 1, n)) by (nonlinear_arith)
                requires
                    n - 1 < (r + 1) * (r + 1),
                    (r + 1) * (r + 1) <= n,
            ;
        }
    }
}

} // verus!
