//! IEEE 754 binary64 numbers, held by their 64-bit patterns.
//!
//! A value is carried as the raw pattern of the number it stands for. Ordering
//! is decided on integers: a pattern's `key` is its sign-and-magnitude reading.
//! What a finite pattern encodes is told by `scaled_value`, and the keys of
//! two finite patterns compare exactly as the two numbers do (the two zeros
//! share the key 0). The infinities lie beyond the numbers, and the NaN
//! patterns beyond the infinities.
//!
//! Arithmetic leaves the sign and the payload of a NaN that it produces open:
//! two machines may hand back two patterns. What the library computes is
//! therefore handed out with every NaN read as one, `CANONICAL_NAN`.

use vstd::arithmetic::power2::lemma_pow2_pos;
use vstd::arithmetic::power2::lemma_pow2_strictly_increases;
use vstd::arithmetic::power2::lemma_pow2_unfold;
use vstd::arithmetic::power2::pow2;
use vstd::prelude::*;

verus! {

/// The pattern's top bit: set for negative numbers.
pub const SIGN_BIT: u64 = 0x8000_0000_0000_0000;

/// The magnitude of the two infinities; every larger magnitude is a NaN.
pub const INFINITY_MAGNITUDE: u64 = 0x7ff0_0000_0000_0000;

/// The pattern as which every NaN is read: quiet, without sign and without
/// payload.
pub const CANONICAL_NAN: u64 = 0x7ff8_0000_0000_0000;

/// The weight of the leading digit of a significand, which a pattern does not
/// store: 2^52.
pub const HIDDEN_BIT: u64 = 0x10_0000_0000_0000;

/// A binary64 number, given by its bit pattern.
#[derive(Clone, Copy, Debug, PartialEq, Eq, Structural)]
pub struct Binary64 {
    pub bits: u64,
}

impl Binary64 {
    /// The pattern without its sign bit.
    pub open spec fn magnitude(self) -> int {
        if self.bits >= SIGN_BIT {
            self.bits - SIGN_BIT
        } else {
            self.bits as int
        }
    }

    /// Whether the sign bit is set.
    pub open spec fn is_negative(self) -> bool {
        self.bits >= SIGN_BIT
    }

    /// Whether the pattern encodes a NaN.
    pub open spec fn is_nan(self) -> bool {
        self.magnitude() > INFINITY_MAGNITUDE
    }

    /// The pattern with every NaN read as one: a NaN becomes `CANONICAL_NAN`,
    /// any other pattern stays as it is.
    pub open spec fn canonical(self) -> Binary64 {
        if self.is_nan() {
            Binary64 { bits: CANONICAL_NAN }
        } else {
            self
        }
    }

    /// Whether the pattern encodes a number: neither an infinity nor a NaN.
    pub open spec fn is_finite(self) -> bool {
        self.magnitude() < INFINITY_MAGNITUDE
    }

    /// The exponent field: the eleven bits below the sign bit.
    pub open spec fn exponent_field(self) -> int {
        self.magnitude() / (HIDDEN_BIT as int)
    }

    /// The fraction field: the 52 lowest bits.
    pub open spec fn fraction(self) -> int {
        self.magnitude() % (HIDDEN_BIT as int)
    }

    /// The absolute value of the number that a finite pattern encodes, in
    /// units of 2^-1074, the least positive number; every number is a whole
    /// multiple of it. Under the exponent field 0 the fraction counts the
    /// units; under a field `e` above 0 the significand, the fraction with
    /// its leading digit put before it, weighs 2^(e - 1) units.
    pub open spec fn scaled_magnitude(self) -> int {
        if self.exponent_field() == 0 {
            self.fraction()
        } else {
            (HIDDEN_BIT + self.fraction()) * pow2((self.exponent_field() - 1) as nat)
        }
    }

    /// The number that a finite pattern encodes, in units of 2^-1074.
    pub open spec fn scaled_value(self) -> int {
        if self.is_negative() {
            -self.scaled_magnitude()
        } else {
            self.scaled_magnitude()
        }
    }

    /// The integer by which patterns are ordered: the magnitude, negated when
    /// the sign bit is set.
    pub open spec fn key(self) -> int {
        if self.is_negative() {
            -self.magnitude()
        } else {
            self.magnitude()
        }
    }

    /// The number with the given bit pattern.
    pub fn from_bits(bits: u64) -> (r: Binary64)
        ensures
            r.bits == bits,
    {
        Binary64 { bits }
    }

    /// The bit pattern of the number.
    pub fn to_bits(self) -> (r: u64)
        ensures
            r == self.bits,
    {
        self.bits
    }

    /// Whether the pattern encodes a NaN.
    pub fn has_nan_pattern(self) -> (r: bool)
        ensures
            r == self.is_nan(),
    {
        if self.bits >= SIGN_BIT {
            self.bits - SIGN_BIT > INFINITY_MAGNITUDE
        } else {
            self.bits > INFINITY_MAGNITUDE
        }
    }

    /// Reads every NaN as one: a NaN becomes `CANONICAL_NAN`, any other
    /// pattern stays as it is.
    pub fn canonicalize(self) -> (r: Binary64)
        ensures
            r == self.canonical(),
    {
        if self.has_nan_pattern() {
            Binary64 { bits: CANONICAL_NAN }
        } else {
            self
        }
    }

    /// Whether `self` comes strictly before `other` in key order.
    pub fn precedes(self, other: Binary64) -> (r: bool)
        ensures
            r == (self.key() < other.key()),
    {
        let a_neg = self.bits >= SIGN_BIT;
        let b_neg = other.bits >= SIGN_BIT;
        if a_neg {
            let am: u64 = self.bits - SIGN_BIT;
            if b_neg {
                let bm: u64 = other.bits - SIGN_BIT;
                am > bm
            } else {
                am > 0 || other.bits > 0
            }
        } else {
            if b_neg {
                false
            } else {
                self.bits < other.bits
            }
        }
    }
}

/// A NaN has no place among the numbers; its key puts it beyond the infinity
/// of its sign, after every number or before every number.
pub proof fn lemma_nan_is_beyond_the_numbers(nan: Binary64, number: Binary64)
    requires
        nan.is_nan(),
        !number.is_nan(),
    ensures
        nan.is_negative() ==> nan.key() < number.key(),
        !nan.is_negative() ==> number.key() < nan.key(),
{
}

/// Of two patterns, the one of lesser magnitude encodes the number of lesser
/// absolute value.
pub proof fn lemma_scaled_magnitude_grows(a: Binary64, b: Binary64)
    requires
        a.magnitude() < b.magnitude(),
    ensures
        0 <= a.scaled_magnitude() < b.scaled_magnitude(),
{
    let h = HIDDEN_BIT as int;
    let (ea, fa) = (a.exponent_field(), a.fraction());
    let (eb, fb) = (b.exponent_field(), b.fraction());
    assert(0 <= ea <= eb && (ea == eb ==> fa < fb));
    if ea == 0 {
        if eb > 0 {
            lemma_pow2_pos((eb - 1) as nat);
            assert(h <= (h + fb) * pow2((eb - 1) as nat)) by (nonlinear_arith)
                requires
                    0 <= fb,
                    h > 0,
                    pow2((eb - 1) as nat) >= 1,
            ;
        }
    } else {
        let pa = pow2((ea - 1) as nat);
        let pb = pow2((eb - 1) as nat);
        lemma_pow2_pos((ea - 1) as nat);
        if ea == eb {
            assert(0 <= (h + fa) * pa < (h + fb) * pa) by (nonlinear_arith)
                requires
                    0 <= fa < fb,
                    h > 0,
                    pa > 0,
            ;
        } else {
            lemma_pow2_unfold(ea as nat);
            if ea < eb - 1 {
                lemma_pow2_strictly_increases(ea as nat, (eb - 1) as nat);
            }
            assert(0 <= (h + fa) * pa < (h + fb) * pb) by (nonlinear_arith)
                requires
                    0 <= fa < h,
                    0 <= fb,
                    pa > 0,
                    2 * pa <= pb,
            ;
        }
    }
}

/// The order of the keys is the order of the numbers: of two finite
/// patterns, one has the lesser key exactly when it encodes the lesser
/// number, and the same key exactly when it encodes the same number.
pub proof fn lemma_key_order_is_number_order(a: Binary64, b: Binary64)
    requires
        a.is_finite(),
        b.is_finite(),
    ensures
        a.key() < b.key() <==> a.scaled_value() < b.scaled_value(),
        a.key() == b.key() <==> a.scaled_value() == b.scaled_value(),
{
    let zero = Binary64 { bits: 0 };
    assert(zero.scaled_magnitude() == 0);
    if a.magnitude() < b.magnitude() {
        lemma_scaled_magnitude_grows(a, b);
    } else if b.magnitude() < a.magnitude() {
        lemma_scaled_magnitude_grows(b, a);
    }
    if 0 < a.magnitude() {
        lemma_scaled_magnitude_grows(zero, a);
    }
    if 0 < b.magnitude() {
        lemma_scaled_magnitude_grows(zero, b);
    }
}

/// An infinity lies beyond every number: the positive one after, the
/// negative one before.
pub proof fn lemma_infinity_is_beyond_the_numbers(infinity: Binary64, number: Binary64)
    requires
        infinity.magnitude() == INFINITY_MAGNITUDE,
        number.is_finite(),
    ensures
        infinity.is_negative() ==> infinity.key() < number.key(),
        !infinity.is_negative() ==> number.key() < infinity.key(),
{
}

/// Reading every NaN as one changes no number and no infinity, tells a NaN
/// from the rest as before, and changes nothing when done again.
pub proof fn lemma_canonical_reads_only_nan(x: Binary64)
    ensures
        x.canonical().is_nan() == x.is_nan(),
        !x.is_nan() ==> x.canonical() == x,
        x.is_nan() ==> x.canonical().bits == CANONICAL_NAN,
        x.canonical().canonical() == x.canonical(),
{
}

} // verus!
