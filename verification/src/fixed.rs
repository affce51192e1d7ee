//! Fixed-point arithmetic helpers: floor division and clamping on `i128`.

use vstd::prelude::*;
use vstd::arithmetic::div_mod::{lemma_fundamental_div_mod, lemma_fundamental_div_mod_converse};

verus! {

/// Value of `a / b` rounded toward negative infinity, for `b != 0`.
///
/// Spec-level `/` is Euclidean division, which already rounds toward
/// negative infinity when the divisor is positive; a negative divisor is
/// handled by negating both operands.
pub open spec fn div_down(a: int, b: int) -> int {
    if b > 0 {
        a / b
    } else {
        (-a) / (-b)
    }
}

/// `x` clamped into the interval `[lo, hi]`.
pub open spec fn clamped(lo: int, x: int, hi: int) -> int {
    if x < lo {
        lo
    } else if x > hi {
        hi
    } else {
        x
    }
}

/// Quotient of two `i128` values rounded toward negative infinity.
pub fn div_down_i128(a: i128, b: i128) -> (r: i128)
    requires
        b != 0,
        a != i128::MIN,
        b != i128::MIN,
    ensures
        r == div_down(a as int, b as int),
{
    let ua: u128 = if a < 0 { (-a) as u128 } else { a as u128 };
    let ub: u128 = if b < 0 { (-b) as u128 } else { b as u128 };
    let q: u128 = ua / ub;
    let rem: u128 = ua % ub;
    proof {
        lemma_fundamental_div_mod(ua as int, ub as int);
        assert(q * ub + rem == ua) by (nonlinear_arith)
            requires ua == ub * (ua as int / ub as int) + (ua as int % ub as int), q == ua as int / ub as int, rem == ua as int % ub as int,
        ;
        assert(q <= ua) by (nonlinear_arith)
            requires q * ub + rem == ua, ub >= 1, q >= 0, rem >= 0,
        ;
        assert(rem > 0 ==> q + 1 <= ua) by (nonlinear_arith)
            requires q * ub + rem == ua, ub >= 1, q >= 0, rem >= 0,
        ;
    }
    if (a < 0) == (b < 0) {
        proof {
            if a >= 0 {
                // a >= 0, b > 0: plain Euclidean division.
                assert(div_down(a as int, b as int) == q);
            } else {
                // a < 0, b < 0: div_down negates both operands.
                assert(div_down(a as int, b as int) == q);
            }
        }
        q as i128
    } else if rem == 0 {
        proof {
            if a < 0 {
                // a < 0, b > 0: a == b * (-q), remainder 0.
                assert(a as int == -(q as int) * (b as int) + 0) by (nonlinear_arith)
                    requires q * ub + rem == ua, rem == 0, ua == -(a as int), ub == b as int,
                ;
                lemma_fundamental_div_mod_converse(a as int, b as int, -(q as int), 0);
            } else {
                // a >= 0, b < 0: (-a) == (-b) * (-q), remainder 0.
                assert(-(a as int) == -(q as int) * (-(b as int)) + 0) by (nonlinear_arith)
                    requires q * ub + rem == ua, rem == 0, ua == a as int, ub == -(b as int),
                ;
                lemma_fundamental_div_mod_converse(-(a as int), -(b as int), -(q as int), 0);
            }
        }
        -(q as i128)
    } else {
        proof {
            if a < 0 {
                // a < 0, b > 0: a == b * (-q - 1) + (b - rem), 0 < b - rem < b.
                assert(a as int == (-(q as int) - 1) * (b as int) + ((b as int) - rem)) by (nonlinear_arith)
                    requires q * ub + rem == ua, ua == -(a as int), ub == b as int,
                ;
                lemma_fundamental_div_mod_converse(a as int, b as int, -(q as int) - 1, (b as int) - (rem as int));
            } else {
                // a >= 0, b < 0: (-a) == (-b) * (-q - 1) + ((-b) - rem).
                assert(-(a as int) == (-(q as int) - 1) * (-(b as int)) + ((-(b as int)) - rem)) by (nonlinear_arith)
                    requires q * ub + rem == ua, ua == a as int, ub == -(b as int),
                ;
                lemma_fundamental_div_mod_converse(-(a as int), -(b as int), -(q as int) - 1, (-(b as int)) - (rem as int));
            }
        }
        -(q as i128) - 1
    }
}

/// Floor division by a positive divisor never grows a value's magnitude.
pub proof fn lemma_div_down_magnitude(x: int, d: int)
    requires
        d >= 1,
    ensures
        x >= 0 ==> 0 <= div_down(x, d) <= x,
        x < 0 ==> x <= div_down(x, d) <= 0,
{
    lemma_fundamental_div_mod(x, d);
    let q = x / d;
    let r = x % d;
    if x >= 0 {
        assert(q >= 0 && q <= x) by (nonlinear_arith)
            requires x == d * q + r, 0 <= r < d, x >= 0, d >= 1,
        ;
    } else {
        assert(q >= x && q <= 0) by (nonlinear_arith)
            requires x == d * q + r, 0 <= r < d, x < 0, d >= 1,
        ;
    }
}

/// `x` clamped into `[lo, hi]`.
pub fn clamp_i128(lo: i128, x: i128, hi: i128) -> (r: i128)
    requires
        lo <= hi,
    ensures
        r == clamped(lo as int, x as int, hi as int),
{
    if x < lo {
        lo
    } else if x > hi {
        hi
    } else {
        x
    }
}

} // verus!
