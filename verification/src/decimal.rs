//! Exact fixed-point decimal arithmetic for money-denominated quantities.
//!
//! Every price, size, PnL and margin value is a `Decimal`: a signed count of
//! `1 / SCALE` units, so the type carries `DECIMALS` fractional decimal
//! digits exactly and never touches binary floating point. A product or a
//! quotient whose true value needs more digits is brought back to the fixed
//! scale by one of two documented roundings: toward zero (`div_trunc`) or
//! away from zero (`div_away`).

use vstd::prelude::*;
use vstd::arithmetic::div_mod::{lemma_div_is_ordered, lemma_div_is_ordered_by_denominator,
    lemma_div_nonincreasing, lemma_div_of0, lemma_div_multiples_vanish, lemma_div_pos_is_pos,
    lemma_fundamental_div_mod, lemma_mod_division_less_than_divisor, lemma_mod_multiples_basic};
use vstd::math::abs;

verus! {

/// Number of fractional decimal digits carried by a `Decimal`.
pub const DECIMALS: u32 = 6;

/// Units per whole: `10 ^ DECIMALS`.
pub const SCALE: i128 = 1_000_000;

/// A fixed-point decimal: `units / SCALE` is the numeric value.
///
/// The representation is transparent on purpose: a `Decimal` is exactly its
/// unit count, and contracts speak of that count through the view `d@`.
#[derive(Clone, Copy, PartialEq, Eq, Structural, Debug)]
pub struct Decimal {
    pub units: i128,
}

impl View for Decimal {
    type V = int;

    open spec fn view(&self) -> int {
        self.units as int
    }
}

/// Quotient of `a / d` with the fraction discarded: rounding toward zero.
pub open spec fn div_trunc(a: int, d: int) -> int
    recommends
        d > 0,
{
    if a >= 0 {
        a / d
    } else {
        -((-a) / d)
    }
}

/// Quotient of `a / d` with any fraction carried to the next whole unit of
/// the quotient's sign: rounding away from zero.
pub open spec fn div_away(a: int, d: int) -> int
    recommends
        d > 0,
{
    if a >= 0 {
        if a % d == 0 {
            a / d
        } else {
            a / d + 1
        }
    } else {
        if (-a) % d == 0 {
            -((-a) / d)
        } else {
            -((-a) / d + 1)
        }
    }
}

impl Decimal {
    /// The decimal whose value is `units / SCALE`.
    pub fn from_units(units: i128) -> (r: Decimal)
        ensures
            r@ == units,
    {
        Decimal { units }
    }

    /// The decimal equal to the whole number `v`.
    pub fn from_int(v: i64) -> (r: Decimal)
        ensures
            r@ == v * SCALE,
    {
        proof {
            assert(i64::MIN * SCALE <= v * SCALE <= i64::MAX * SCALE) by (nonlinear_arith)
                requires
                    i64::MIN <= v <= i64::MAX,
                    SCALE == 1_000_000,
            ;
        }
        Decimal { units: (v as i128) * SCALE }
    }

    /// The value of this decimal in units of `1 / SCALE`.
    pub fn units(&self) -> (r: i128)
        ensures
            r == self@,
    {
        self.units
    }

    /// Zero.
    pub fn zero() -> (r: Decimal)
        ensures
            r@ == 0,
    {
        Decimal { units: 0 }
    }
}

/// `div_trunc` of an exact multiple recovers the factor.
pub proof fn lemma_div_trunc_exact(k: int, m: int)
    requires
        m > 0,
    ensures
        div_trunc(m * k, m) == k,
{
    if m * k >= 0 {
        lemma_div_multiples_vanish(k, m);
    } else {
        lemma_div_multiples_vanish(-k, m);
        assert(m * (-k) == -(m * k)) by (nonlinear_arith);
    }
}

/// On an exact multiple, rounding away from zero changes nothing either:
/// `div_away` agrees with `div_trunc` and recovers the factor.
pub proof fn lemma_div_away_exact(k: int, m: int)
    requires
        m > 0,
    ensures
        div_away(m * k, m) == k,
{
    lemma_div_trunc_exact(k, m);
    lemma_mod_multiples_basic(k, m);
    assert(k * m == m * k) by (nonlinear_arith);
    if m * k < 0 {
        lemma_mod_multiples_basic(-k, m);
        assert((-k) * m == -(m * k)) by (nonlinear_arith);
    }
}

/// Truncating by `m` and then halving with truncation is one truncating
/// division by `2 * m`.
pub proof fn lemma_div_trunc_halves(p: int, m: int)
    requires
        m > 0,
    ensures
        div_trunc(p, 2 * m) == div_trunc(div_trunc(p, m), 2),
{
    if p >= 0 {
        vstd::arithmetic::div_mod::lemma_div_pos_is_pos(p, m);
        vstd::arithmetic::div_mod::lemma_div_denominator(p, m, 2);
    } else {
        vstd::arithmetic::div_mod::lemma_div_pos_is_pos(-p, m);
        vstd::arithmetic::div_mod::lemma_div_denominator(-p, m, 2);
    }
}

/// The sign of `div_away` is exactly the sign of the dividend: rounding
/// away from zero never rounds a non-zero quotient to zero.
pub proof fn lemma_div_away_sign(a: int, d: int)
    requires
        d > 0,
    ensures
        a > 0 ==> div_away(a, d) > 0,
        a == 0 ==> div_away(a, d) == 0,
        a < 0 ==> div_away(a, d) < 0,
    decreases (if a < 0 { 1int } else { 0int }),
{
    if a == 0 {
        lemma_mod_multiples_basic(0, d);
        assert(0 * d == 0) by (nonlinear_arith);
        lemma_div_of0(d);
    } else if a > 0 {
        lemma_div_pos_is_pos(a, d);
        if a % d == 0 {
            lemma_fundamental_div_mod(a, d);
            if a / d == 0 {
                assert(d * (a / d) == 0) by (nonlinear_arith)
                    requires
                        a / d == 0,
                ;
                assert(false);
            }
        }
    } else {
        lemma_div_away_sign(-a, d);
    }
}

/// `div_away` by a positive divisor keeps the magnitude within `b / d`
/// whenever the dividend's magnitude is within `b` and `b` is itself an
/// exact multiple of the divisor.
pub proof fn lemma_div_away_bound(a: int, d: int, b: int)
    requires
        d > 0,
        0 <= b,
        b % d == 0,
        -b <= a <= b,
    ensures
        -(b / d) <= div_away(a, d) <= b / d,
    decreases (if a < 0 { 1int } else { 0int }),
{
    if a >= 0 {
        lemma_div_pos_is_pos(a, d);
        lemma_div_pos_is_pos(b, d);
        lemma_div_is_ordered(a, b, d);
        if a % d != 0 {
            lemma_mod_division_less_than_divisor(a, d);
            lemma_fundamental_div_mod(a, d);
            lemma_fundamental_div_mod(b, d);
            if a / d == b / d {
                assert(false);
            }
        }
    } else {
        lemma_div_away_bound(-a, d, b);
    }
}

/// Sign and magnitude of the product `a * b`, computed in `u128` so that no
/// intermediate step can overflow; callers guarantee that the exact product
/// fits the `i128` range.
fn product_sign_mag(a: i128, b: i128) -> (r: (bool, u128))
    requires
        -(i128::MAX as int) <= a * b <= i128::MAX as int,
    ensures
        r.1 == abs(a * b),
        r.0 == (a * b < 0),
{
    if a == 0 || b == 0 {
        proof {
            assert(a * b == 0) by (nonlinear_arith)
                requires
                    a == 0 || b == 0,
            ;
        }
        return (false, 0);
    }
    proof {
        assert(-(i128::MAX as int) <= a <= i128::MAX as int && -(i128::MAX as int) <= b
            <= i128::MAX as int) by (nonlinear_arith)
            requires
                a != 0,
                b != 0,
                -(i128::MAX as int) <= a * b <= i128::MAX as int,
        ;
    }
    if a >= 0 {
        if b >= 0 {
            proof {
                assert((a as int) * (b as int) == a * b && a * b > 0) by (nonlinear_arith)
                    requires
                        a > 0,
                        b > 0,
                ;
            }
            (false, (a as u128) * (b as u128))
        } else {
            proof {
                assert((a as int) * (-b as int) == -(a * b) && a * b < 0) by (nonlinear_arith)
                    requires
                        a > 0,
                        b < 0,
                ;
            }
            (true, (a as u128) * ((-b) as u128))
        }
    } else {
        if b >= 0 {
            proof {
                assert((-a as int) * (b as int) == -(a * b) && a * b < 0) by (nonlinear_arith)
                    requires
                        a < 0,
                        b > 0,
                ;
            }
            (true, ((-a) as u128) * (b as u128))
        } else {
            proof {
                assert((-a as int) * (-b as int) == a * b && a * b > 0) by (nonlinear_arith)
                    requires
                        a < 0,
                        b < 0,
                ;
            }
            (false, ((-a) as u128) * ((-b) as u128))
        }
    }
}

/// `(a * b) / d`, rounded toward zero.
pub(crate) fn mul_div_trunc(a: i128, b: i128, d: i128) -> (r: i128)
    requires
        1 <= d,
        -(i128::MAX as int) <= a * b <= i128::MAX as int,
    ensures
        r == div_trunc(a * b, d as int),
{
    let (neg, mag) = product_sign_mag(a, b);
    let q: u128 = mag / (d as u128);
    proof {
        lemma_div_nonincreasing(mag as int, d as int);
        if a * b == 0 {
            lemma_div_of0(d as int);
        }
    }
    if neg {
        -(q as i128)
    } else {
        q as i128
    }
}

/// `(a * b) / d`, rounded away from zero.
pub(crate) fn mul_div_away(a: i128, b: i128, d: i128) -> (r: i128)
    requires
        1 <= d,
        -(i128::MAX as int) <= a * b <= i128::MAX as int,
    ensures
        r == div_away(a * b, d as int),
{
    let (neg, mag) = product_sign_mag(a, b);
    let q: u128 = mag / (d as u128);
    let rem: u128 = mag % (d as u128);
    proof {
        lemma_div_nonincreasing(mag as int, d as int);
        if a * b == 0 {
            lemma_mod_multiples_basic(0, d as int);
            assert(0 * (d as int) == 0) by (nonlinear_arith);
            lemma_div_of0(d as int);
        }
        if rem != 0 {
            // the remainder is positive, so the divisor is at least 2 and
            // the rounded-up quotient still fits an i128
            lemma_mod_division_less_than_divisor(mag as int, d as int);
            lemma_div_is_ordered_by_denominator(mag as int, 2, d as int);
            lemma_div_is_ordered(mag as int, i128::MAX as int, 2);
        }
    }
    let rounded: u128 = if rem != 0 {
        q + 1
    } else {
        q
    };
    if neg {
        -(rounded as i128)
    } else {
        rounded as i128
    }
}

} // verus!
