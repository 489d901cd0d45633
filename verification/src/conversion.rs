//! The conversion of integers to binary64 numbers.
//!
//! An integer goes to the nearest number, and to the one with the even
//! significand where two are equally near. A binary64 number has 53 binary
//! digits, so integers of up to 53 digits convert without loss.

use crate::binary64::Binary64;
use crate::binary64::HIDDEN_BIT;
use crate::binary64::INFINITY_MAGNITUDE;
use crate::binary64::SIGN_BIT;
use vstd::arithmetic::power2::lemma2_to64;
use vstd::arithmetic::power2::lemma2_to64_rest;
use vstd::arithmetic::power2::lemma_pow2_adds;
use vstd::arithmetic::power2::lemma_pow2_pos;
use vstd::arithmetic::power2::lemma_pow2_strictly_increases;
use vstd::arithmetic::power2::lemma_pow2_unfold;
use vstd::arithmetic::power2::pow2;
use vstd::prelude::*;

verus! {

/// The exponent of the leading binary digit of a positive integer: the `e`
/// with `2^e <= m < 2^(e + 1)`.
pub open spec fn leading_exponent(m: nat) -> nat
    decreases m,
{
    if m <= 1 {
        0
    } else {
        1 + leading_exponent(m / 2)
    }
}

/// The 53 leading binary digits of a positive integer, read as an integer and
/// rounded to nearest, ties to even. An integer with fewer digits is padded
/// with zeros: nothing is lost. The result lies between 2^52 and 2^53.
pub open spec fn rounded_significand(m: nat) -> nat {
    let e = leading_exponent(m);
    if e <= 52 {
        m * pow2((52 - e) as nat)
    } else {
        let unit = pow2((e - 52) as nat);
        let kept = m / unit;
        let rest = m % unit;
        if 2 * rest > unit || (2 * rest == unit && kept % 2 == 1) {
            kept + 1
        } else {
            kept
        }
    }
}

/// The pattern of the binary64 number nearest to a non-negative integer. The
/// exponent field holds `1023 + e`; the significand's leading digit is not
/// stored, and a significand rounded up to 2^53 carries into the exponent.
pub open spec fn magnitude_pattern(m: nat) -> nat {
    if m == 0 {
        0
    } else {
        (1022 + leading_exponent(m)) * pow2(52) + rounded_significand(m)
    }
}

/// The pattern of the binary64 number nearest to an integer, ties to even.
pub open spec fn pattern_of_int(i: int) -> nat {
    if i < 0 {
        SIGN_BIT as nat + magnitude_pattern((-i) as nat)
    } else {
        magnitude_pattern(i as nat)
    }
}

/// The binary64 number nearest to an integer, ties to even.
pub open spec fn converted(v: i64) -> Binary64 {
    Binary64 { bits: pattern_of_int(v as int) as u64 }
}

/// An integer between two neighbouring powers of two has the smaller one's
/// exponent as its leading exponent.
proof fn lemma_leading_exponent(m: nat, e: nat)
    requires
        pow2(e) <= m < pow2(e + 1),
    ensures
        leading_exponent(m) == e,
    decreases e,
{
    if e == 0 {
        lemma2_to64();
    } else {
        lemma_pow2_unfold(e);
        lemma_pow2_unfold(e + 1);
        lemma_pow2_pos((e - 1) as nat);
        lemma_leading_exponent(m / 2, (e - 1) as nat);
    }
}

impl Binary64 {
    /// The number nearest to an integer, ties to even. Integers of up to 53
    /// binary digits convert without loss.
    pub fn from_int(v: i64) -> (r: Binary64)
        ensures
            r == converted(v),
            r.bits == pattern_of_int(v as int),
    {
        if v == 0 {
            return Binary64 { bits: 0 };
        }
        let negative = v < 0;
        let m: u64 = if v == i64::MIN {
            SIGN_BIT
        } else if negative {
            (-v) as u64
        } else {
            v as u64
        };
        proof {
            lemma2_to64_rest();
            lemma2_to64();
        }
        let mut e: u64 = 0;
        let mut p: u64 = 1;
        while p <= m / 2
            invariant
                0 < m <= SIGN_BIT,
                p == pow2(e as nat),
                1 <= p <= m,
                e <= 63,
            decreases m - p,
        {
            proof {
                lemma2_to64_rest();
                lemma_pow2_unfold((e + 1) as nat);
            }
            p = p * 2;
            e = e + 1;
        }
        proof {
            lemma_pow2_unfold((e + 1) as nat);
            lemma_leading_exponent(m as nat, e as nat);
        }
        let sig: u64 = if e <= 52 {
            let scale: u64 = HIDDEN_BIT / p;
            proof {
                lemma_pow2_adds(e as nat, (52 - e) as nat);
                lemma_pow2_pos((52 - e) as nat);
                let s = pow2((52 - e) as nat);
                assert(HIDDEN_BIT as nat == p * s);
                assert(scale == s) by (nonlinear_arith)
                    requires
                        HIDDEN_BIT as nat == p * s,
                        scale == HIDDEN_BIT / p,
                        p > 0,
                ;
                assert(m * scale < 2 * HIDDEN_BIT) by (nonlinear_arith)
                    requires
                        m < 2 * p,
                        HIDDEN_BIT as nat == p * scale,
                        scale > 0,
                ;
            }
            m * scale
        } else {
            let unit: u64 = p / HIDDEN_BIT;
            proof {
                lemma_pow2_adds(52, (e - 52) as nat);
                lemma_pow2_pos((e - 52) as nat);
                let u = pow2((e - 52) as nat);
                assert(p as nat == HIDDEN_BIT * u);
                assert(unit == u) by (nonlinear_arith)
                    requires
                        p as nat == HIDDEN_BIT * u,
                        unit == p / HIDDEN_BIT,
                ;
                assert(m / unit < 2 * HIDDEN_BIT) by (nonlinear_arith)
                    requires
                        m < 2 * p,
                        p as nat == HIDDEN_BIT * unit,
                        unit > 0,
                ;
            }
            let kept: u64 = m / unit;
            let rest: u64 = m % unit;
            if rest > unit - rest || (rest == unit - rest && kept % 2 == 1) {
                kept + 1
            } else {
                kept
            }
        };
        let magnitude: u64 = (1022 + e) * HIDDEN_BIT + sig;
        if negative {
            Binary64 { bits: SIGN_BIT + magnitude }
        } else {
            Binary64 { bits: magnitude }
        }
    }
}

/// A positive integer lies between the power of two of its leading exponent
/// and the next one.
pub proof fn lemma_leading_exponent_bounds(m: nat)
    requires
        m >= 1,
    ensures
        pow2(leading_exponent(m)) <= m < pow2(leading_exponent(m) + 1),
    decreases m,
{
    if m == 1 {
        lemma2_to64();
    } else {
        let e = leading_exponent(m / 2);
        lemma_leading_exponent_bounds(m / 2);
        lemma_pow2_unfold(e + 1);
        lemma_pow2_unfold(e + 2);
    }
}

/// A greater integer has no lesser leading exponent.
proof fn lemma_leading_exponent_grows(m: nat, n: nat)
    requires
        1 <= m <= n,
    ensures
        leading_exponent(m) <= leading_exponent(n),
{
    lemma_leading_exponent_bounds(m);
    lemma_leading_exponent_bounds(n);
    if leading_exponent(n) < leading_exponent(m) {
        if leading_exponent(n) + 1 < leading_exponent(m) {
            lemma_pow2_strictly_increases(leading_exponent(n) + 1, leading_exponent(m));
        }
    }
}

/// The rounded significand of a positive integer has 53 digits, or is 2^53.
pub proof fn lemma_significand_bounds(m: nat)
    requires
        m >= 1,
    ensures
        pow2(52) <= rounded_significand(m) <= 2 * pow2(52),
{
    let e = leading_exponent(m);
    lemma_leading_exponent_bounds(m);
    lemma_pow2_unfold(e + 1);
    if e <= 52 {
        let s = pow2((52 - e) as nat);
        lemma_pow2_adds(e, (52 - e) as nat);
        lemma_pow2_pos((52 - e) as nat);
        assert(pow2(52) <= m * s <= 2 * pow2(52)) by (nonlinear_arith)
            requires
                pow2(e) <= m < 2 * pow2(e),
                pow2(52) == pow2(e) * s,
                s > 0,
        ;
    } else {
        let unit = pow2((e - 52) as nat);
        lemma_pow2_adds(52, (e - 52) as nat);
        lemma_pow2_pos((e - 52) as nat);
        assert(pow2(52) <= m / unit < 2 * pow2(52)) by (nonlinear_arith)
            requires
                pow2(e) <= m < 2 * pow2(e),
                pow2(e) == pow2(52) * unit,
                unit > 0,
        ;
    }
}

/// Among integers of one leading exponent, a greater one has no lesser
/// rounded significand.
proof fn lemma_significand_grows(m: nat, n: nat)
    requires
        1 <= m <= n,
        leading_exponent(m) == leading_exponent(n),
    ensures
        rounded_significand(m) <= rounded_significand(n),
{
    let e = leading_exponent(m);
    if e <= 52 {
        let s = pow2((52 - e) as nat);
        assert(m * s <= n * s) by (nonlinear_arith)
            requires
                m <= n,
        ;
    } else {
        let unit = pow2((e - 52) as nat);
        lemma_pow2_pos((e - 52) as nat);
        assert(m / unit < n / unit || (m / unit == n / unit && m % unit <= n % unit))
            by (nonlinear_arith)
            requires
                m <= n,
                unit > 0,
        ;
    }
}

/// A greater integer has no lesser pattern.
proof fn lemma_magnitude_pattern_grows(m: nat, n: nat)
    requires
        m <= n,
    ensures
        magnitude_pattern(m) <= magnitude_pattern(n),
{
    if m >= 1 {
        lemma_significand_bounds(m);
        lemma_significand_bounds(n);
        lemma_leading_exponent_grows(m, n);
        let a = leading_exponent(m);
        let b = leading_exponent(n);
        if a == b {
            lemma_significand_grows(m, n);
        } else {
            assert((1022 + a) * pow2(52) + 2 * pow2(52) <= (1022 + b) * pow2(52) + pow2(52))
                by (nonlinear_arith)
                requires
                    a + 1 <= b,
            ;
        }
    }
}

/// Rounding goes to the nearest. The number that an integer of more than 53
/// digits becomes is a multiple of the unit of its last kept digit; it is off
/// by half a unit at most, and where it is off by just that, its significand
/// is even.
pub proof fn lemma_rounding_is_to_nearest(m: nat)
    requires
        leading_exponent(m) > 52,
    ensures
        ({
            let unit = pow2((leading_exponent(m) - 52) as nat);
            let error = rounded_significand(m) * unit - m;
            &&& -unit <= 2 * error <= unit
            &&& (2 * error == unit || 2 * error == -unit) ==> rounded_significand(m) % 2 == 0
        }),
{
    let unit = pow2((leading_exponent(m) - 52) as nat);
    lemma_pow2_pos((leading_exponent(m) - 52) as nat);
    let kept = m / unit;
    let rest = m % unit;
    assert(m == kept * unit + rest && 0 <= rest < unit && (kept + 1) * unit == kept * unit + unit)
        by (nonlinear_arith)
        requires
            kept == m / unit,
            rest == m % unit,
            unit > 0,
    ;
}

/// The pattern of an integer of 64 digits is that of a number of the
/// integer's sign: never an infinity, never a NaN.
pub proof fn lemma_integer_becomes_a_number(v: i64)
    ensures
        pattern_of_int(v as int) <= u64::MAX,
        !converted(v).is_nan(),
        converted(v).magnitude() < INFINITY_MAGNITUDE,
        converted(v).is_negative() == (v < 0),
        converted(v).magnitude() == magnitude_pattern(vstd::math::abs(v as int)),
{
    let m: nat = vstd::math::abs(v as int);
    lemma2_to64_rest();
    if m >= 1 {
        lemma_leading_exponent_bounds(m);
        lemma_significand_bounds(m);
        let e = leading_exponent(m);
        if e > 63 {
            lemma_pow2_strictly_increases(63, e);
        }
        assert((1022 + e) * pow2(52) <= 1085 * pow2(52)) by (nonlinear_arith)
            requires
                e <= 63,
        ;
    }
}

/// Conversion keeps the order: of two integers, the lesser becomes a number
/// that does not come after the other.
pub proof fn lemma_conversion_keeps_order(v: i64, w: i64)
    requires
        v <= w,
    ensures
        converted(v).key() <= converted(w).key(),
{
    lemma_integer_becomes_a_number(v);
    lemma_integer_becomes_a_number(w);
    if v < 0 && w < 0 {
        lemma_magnitude_pattern_grows((-w) as nat, (-v) as nat);
    } else if v >= 0 {
        lemma_magnitude_pattern_grows(v as nat, w as nat);
    }
}

/// The integer on which the conversion of an integer lands: the integer
/// itself where it has up to 53 digits, else its rounded significand in
/// units of the last digit kept.
pub open spec fn landing(v: i64) -> int {
    let m = vstd::math::abs(v as int) as nat;
    let e = leading_exponent(m);
    let n: int = if e <= 52 {
        m as int
    } else {
        (rounded_significand(m) * pow2((e - 52) as nat)) as int
    };
    if v < 0 {
        -n
    } else {
        n
    }
}

/// The number that an integer becomes is the integer on which the conversion
/// lands: in units of 2^-1074, it is 2^1074 times that integer.
pub proof fn lemma_conversion_lands(v: i64)
    ensures
        converted(v).is_finite(),
        converted(v).scaled_value() == landing(v) * pow2(1074),
{
    let m = vstd::math::abs(v as int) as nat;
    let h = HIDDEN_BIT as int;
    lemma_integer_becomes_a_number(v);
    lemma2_to64_rest();
    if m == 0 {
        assert(converted(v).scaled_value() == 0 == landing(v));
    } else {
        let e = leading_exponent(m);
        let s = rounded_significand(m) as int;
        let x = converted(v);
        lemma_leading_exponent_bounds(m);
        lemma_significand_bounds(m);
        assert(x.magnitude() == (1022 + e) * h + s);
        let weight = pow2(1022 + e);
        assert(x.scaled_magnitude() == s * weight) by {
            if s < 2 * h {
                assert(x.exponent_field() == 1023 + e && x.fraction() == s - h) by (nonlinear_arith)
                    requires
                        x.exponent_field() == ((1022 + e) * h + s) / h,
                        x.fraction() == ((1022 + e) * h + s) % h,
                        h <= s < 2 * h,
                ;
            } else {
                assert(x.exponent_field() == 1024 + e && x.fraction() == 0) by (nonlinear_arith)
                    requires
                        x.exponent_field() == ((1022 + e) * h + s) / h,
                        x.fraction() == ((1022 + e) * h + s) % h,
                        s == 2 * h,
                        h > 0,
                ;
                lemma_pow2_unfold(1023 + e);
                assert(h * (2 * weight) == (2 * h) * weight) by (nonlinear_arith);
            }
        }
        let units = pow2(1074);
        let n: int = if e <= 52 {
            m as int
        } else {
            s * pow2((e - 52) as nat)
        };
        assert(s * weight == n * units) by {
            if e <= 52 {
                let scale = pow2((52 - e) as nat);
                lemma_pow2_adds((52 - e) as nat, 1022 + e);
                assert(weight * scale == units);
                assert((m * scale) * weight == m * (weight * scale)) by (nonlinear_arith);
            } else {
                let unit = pow2((e - 52) as nat);
                lemma_pow2_adds((e - 52) as nat, 1074);
                assert(weight == unit * units);
                assert(s * (unit * units) == (s * unit) * units) by (nonlinear_arith);
            }
        }
        assert(landing(v) == if v < 0 { -n } else { n });
        assert((-n) * units == -(n * units)) by (nonlinear_arith);
        assert(x.scaled_value() == landing(v) * units);
    }
}

/// The conversion lands on the nearest integer that it can land on. An
/// integer of up to 53 digits converts without loss. A longer one lands half
/// a unit of the last digit kept away at most, and where it lands just that
/// far away, on an even significand.
pub proof fn lemma_landing_is_nearest(v: i64)
    ensures
        ({
            let m = vstd::math::abs(v as int) as nat;
            let e = leading_exponent(m);
            let unit = pow2((e - 52) as nat);
            &&& -2 * (HIDDEN_BIT as int) < v < 2 * (HIDDEN_BIT as int) ==> e <= 52
            &&& e <= 52 ==> landing(v) == v
            &&& e > 52 ==> -unit <= 2 * (landing(v) - v) <= unit
            &&& e > 52 && (2 * (landing(v) - v) == unit || 2 * (landing(v) - v) == -unit)
                ==> rounded_significand(m) % 2 == 0
        }),
{
    let m = vstd::math::abs(v as int) as nat;
    let e = leading_exponent(m);
    lemma2_to64_rest();
    if m >= 1 {
        lemma_leading_exponent_bounds(m);
        if e > 53 {
            lemma_pow2_strictly_increases(53, e);
        }
    }
    if e > 52 {
        lemma_rounding_is_to_nearest(m);
    }
}

/// An integer of up to 53 binary digits becomes the number that it is.
pub proof fn lemma_short_integers_convert_exactly(v: i64)
    requires
        -2 * (HIDDEN_BIT as int) < v < 2 * (HIDDEN_BIT as int),
    ensures
        converted(v).is_finite(),
        converted(v).scaled_value() == v * pow2(1074),
{
    lemma_conversion_lands(v);
    lemma_landing_is_nearest(v);
}

} // verus!
