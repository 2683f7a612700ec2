//! Single-precision values, held as their IEEE 754 bit patterns.
//!
//! The index never does arithmetic on the numbers it stores: it moves them,
//! and it asks whether they are finite, how large they are, and on which side
//! of zero they lie. All of that can be read off the bit pattern, and the
//! specifications here say what each answer means for the number itself.

use vstd::prelude::*;
use vstd::arithmetic::power2::{lemma_pow2_adds, lemma_pow2_pos, lemma_pow2_strictly_increases, lemma_pow2_unfold, lemma2_to64, pow2};

verus! {

/// Bit pattern of the smallest magnitude that no coordinate may have, the
/// single-precision value nearest to 1e16.
pub const MAX_INPUT_MAGNITUDE_BITS: u32 = 0x5A0E_1BCA;

/// The single-precision value nearest to 1e16, as an integer.
pub open spec fn max_input_magnitude() -> nat {
    10_000_000_272_564_224
}

/// A single-precision floating point value, by its bit pattern.
#[derive(Clone, Copy, Debug, PartialEq, Eq, Structural)]
pub struct Float32 {
    pub bits: u32,
}

impl Float32 {
    /// Whether the sign bit is set.
    pub open spec fn sign(self) -> bool {
        self.bits >= 0x8000_0000
    }

    /// The eight exponent bits.
    pub open spec fn exponent(self) -> nat {
        ((self.bits / 0x80_0000) % 0x100) as nat
    }

    /// The twenty-three fraction bits.
    pub open spec fn fraction(self) -> nat {
        (self.bits % 0x80_0000) as nat
    }

    /// Neither infinite nor NaN.
    pub open spec fn finite(self) -> bool {
        self.exponent() != 0xFF
    }

    /// The absolute value of a finite number, in units of `2^-149`, of which
    /// every finite single-precision number is a whole multiple.
    pub open spec fn magnitude(self) -> nat {
        if self.exponent() == 0 {
            self.fraction()
        } else {
            (0x80_0000 + self.fraction()) * pow2((self.exponent() - 1) as nat)
        }
    }

    /// A number less than zero (the negative zero is not).
    pub open spec fn negative(self) -> bool {
        self.sign() && self.magnitude() > 0
    }

    /// Not a number.
    pub open spec fn nan(self) -> bool {
        !self.finite() && self.fraction() != 0
    }

    /// The number, in units of `2^-149`; an infinity lies beyond every finite
    /// number.
    pub open spec fn value(self) -> int {
        if self.sign() {
            -(self.magnitude() as int)
        } else {
            self.magnitude() as int
        }
    }

    /// Less than another number. Nothing is less than a NaN, nor a NaN than
    /// anything.
    pub open spec fn below(self, other: Float32) -> bool {
        !self.nan() && !other.nan() && self.value() < other.value()
    }

    /// A value that the index takes as a coordinate: finite, and smaller in
    /// magnitude than the single-precision value nearest to 1e16.
    pub open spec fn valid_coordinate(self) -> bool {
        self.finite() && self.magnitude() < max_input_magnitude() * pow2(149)
    }

    /// A value that can be the correction scale of a vector.
    pub open spec fn valid_scale(self) -> bool {
        self.finite() && !self.negative()
    }

    /// A value that can be a calibration shift.
    pub open spec fn valid_tqplus_shift(self) -> bool {
        self.finite()
    }

    /// A value that can be a calibration scale.
    pub open spec fn valid_tqplus_scale(self) -> bool {
        self.finite() && !self.sign() && self.magnitude() > 0
    }

    /// Positive zero.
    pub fn zero() -> (result: Float32)
        ensures
            result == spec_zero(),
            result.finite() && result.magnitude() == 0 && !result.sign(),
    {
        Float32 { bits: 0 }
    }

    /// The number one.
    pub fn one() -> (result: Float32)
        ensures
            result == spec_one(),
            result.finite() && result.magnitude() == pow2(149) && !result.sign(),
    {
        proof {
            lemma_one_magnitude();
        }
        Float32 { bits: 0x3F80_0000 }
    }

    /// Whether the value is neither infinite nor NaN.
    pub fn is_finite(self) -> (result: bool)
        ensures
            result == self.finite(),
    {
        (self.bits / 0x80_0000) % 0x100 != 0xFF
    }

    /// Whether the value is not a number.
    pub fn is_nan(self) -> (result: bool)
        ensures
            result == self.nan(),
    {
        self.bits % 0x8000_0000 > 0x7F80_0000
    }

    /// Whether the value is less than another.
    pub fn is_below(self, other: Float32) -> (result: bool)
        ensures
            result == self.below(other),
    {
        let a: u32 = self.bits % 0x8000_0000;
        let b: u32 = other.bits % 0x8000_0000;
        proof {
            let x = Float32 { bits: a };
            let y = Float32 { bits: b };
            lemma_sign_free(self);
            lemma_sign_free(other);
            lemma_magnitude_zero(x);
            lemma_magnitude_zero(y);
            if a < b {
                lemma_magnitude_increases(x, y);
            } else if b < a {
                lemma_magnitude_increases(y, x);
            }
            assert(self.nan() <==> a > 0x7F80_0000);
            assert(other.nan() <==> b > 0x7F80_0000);
        }
        if a > 0x7F80_0000 || b > 0x7F80_0000 {
            false
        } else if self.bits < 0x8000_0000 {
            other.bits < 0x8000_0000 && a < b
        } else if other.bits < 0x8000_0000 {
            a > 0 || b > 0
        } else {
            b < a
        }
    }

    /// Whether the value can be a coordinate.
    pub fn is_valid_coordinate(self) -> (result: bool)
        ensures
            result == self.valid_coordinate(),
    {
        proof {
            if self.finite() {
                lemma_max_input_magnitude();
                let bound = Float32 { bits: MAX_INPUT_MAGNITUDE_BITS };
                let positive = Float32 { bits: (self.bits % 0x8000_0000) as u32 };
                lemma_sign_free(self);
                if positive.bits < bound.bits {
                    lemma_magnitude_increases(positive, bound);
                } else if bound.bits < positive.bits {
                    lemma_magnitude_increases(bound, positive);
                }
            }
        }
        self.is_finite() && self.bits % 0x8000_0000 < MAX_INPUT_MAGNITUDE_BITS
    }

    /// Whether the value can be a correction scale: finite and not below zero.
    pub fn is_valid_scale(self) -> (result: bool)
        ensures
            result == self.valid_scale(),
    {
        proof {
            lemma_magnitude_zero(self);
        }
        self.is_finite() && self.bits <= 0x8000_0000
    }

    /// Whether the value can be a calibration scale: finite and above zero.
    pub fn is_valid_tqplus_scale(self) -> (result: bool)
        ensures
            result == self.valid_tqplus_scale(),
    {
        proof {
            lemma_magnitude_zero(self);
        }
        self.is_finite() && 0 < self.bits && self.bits < 0x8000_0000
    }
}

/// Positive zero, which shifts nothing.
pub open spec fn spec_zero() -> Float32 {
    Float32 { bits: 0 }
}

/// The number one, which scales nothing.
pub open spec fn spec_one() -> Float32 {
    Float32 { bits: 0x3F80_0000 }
}

/// The sign has no part in the exponent, the fraction and the magnitude.
proof fn lemma_sign_free(x: Float32)
    ensures
        (Float32 { bits: (x.bits % 0x8000_0000) as u32 }).exponent() == x.exponent(),
        (Float32 { bits: (x.bits % 0x8000_0000) as u32 }).fraction() == x.fraction(),
        (Float32 { bits: (x.bits % 0x8000_0000) as u32 }).magnitude() == x.magnitude(),
{
    let bare: u32 = (x.bits % 0x8000_0000) as u32;
    assert(bare / 0x80_0000 % 0x100 == x.bits / 0x80_0000 % 0x100);
    assert(bare % 0x80_0000 == x.bits % 0x80_0000);
}

/// The pattern without its sign is zero exactly when the number is.
proof fn lemma_magnitude_zero(x: Float32)
    ensures
        x.magnitude() == 0 <==> x.bits % 0x8000_0000 == 0,
{
    if x.exponent() > 0 {
        lemma_pow2_pos((x.exponent() - 1) as nat);
        assert(x.magnitude() > 0) by (nonlinear_arith)
            requires
                x.magnitude() == (0x80_0000 + x.fraction()) * pow2((x.exponent() - 1) as nat),
                pow2((x.exponent() - 1) as nat) > 0,
        ;
    }
}

/// Without a sign, a larger bit pattern is a larger magnitude.
pub proof fn lemma_magnitude_increases(x: Float32, y: Float32)
    requires
        !x.sign(),
        !y.sign(),
        x.bits < y.bits,
    ensures
        x.magnitude() < y.magnitude(),
{
    let (ex, ey) = (x.exponent(), y.exponent());
    let (fx, fy) = (x.fraction(), y.fraction());
    assert(x.bits == ex * 0x80_0000 + fx);
    assert(y.bits == ey * 0x80_0000 + fy);
    if ex == ey {
        if ex > 0 {
            lemma_pow2_pos((ex - 1) as nat);
            let p = pow2((ex - 1) as nat);
            assert((0x80_0000 + fx) * p < (0x80_0000 + fy) * p) by (nonlinear_arith)
                requires
                    fx < fy,
                    p > 0,
            ;
        }
    } else {
        assert(ex < ey);
        let q = pow2((ey - 1) as nat);
        lemma_pow2_pos((ey - 1) as nat);
        assert(y.magnitude() >= 0x80_0000 * q) by (nonlinear_arith)
            requires
                y.magnitude() == (0x80_0000 + fy) * q,
        ;
        if ex == 0 {
            assert(0x80_0000 * q >= 0x80_0000) by (nonlinear_arith)
                requires
                    q > 0,
            ;
        } else {
            let p = pow2((ex - 1) as nat);
            lemma_pow2_pos((ex - 1) as nat);
            lemma_pow2_unfold(ex);
            if ex < ey - 1 {
                lemma_pow2_strictly_increases(ex, (ey - 1) as nat);
            }
            assert(q >= 2 * p);
            assert((0x80_0000 + fx) * p < 0x80_0000 * q) by (nonlinear_arith)
                requires
                    fx < 0x80_0000,
                    p > 0,
                    q >= 2 * p,
            ;
        }
    }
}

/// The bound's bit pattern is that of the integer that it stands for.
proof fn lemma_max_input_magnitude()
    ensures
        (Float32 { bits: MAX_INPUT_MAGNITUDE_BITS }).finite(),
        (Float32 { bits: MAX_INPUT_MAGNITUDE_BITS }).magnitude() == max_input_magnitude() * pow2(
            149,
        ),
{
    let bound = Float32 { bits: MAX_INPUT_MAGNITUDE_BITS };
    assert(bound.exponent() == 180);
    assert(0x80_0000 + bound.fraction() == 9_313_226);
    lemma_pow2_adds(30, 149);
    lemma2_to64();
    assert(9_313_226 * (0x4000_0000 * pow2(149)) == 10_000_000_272_564_224 * pow2(149))
        by (nonlinear_arith);
}

/// One is `2^149` units of `2^-149`.
proof fn lemma_one_magnitude()
    ensures
        spec_one().magnitude() == pow2(149),
{
    lemma_pow2_adds(23, 126);
    lemma2_to64();
}

/// Zero and one can be the calibration of a coordinate.
pub proof fn lemma_identity_values()
    ensures
        spec_zero().valid_tqplus_shift(),
        spec_one().valid_tqplus_scale(),
{
    lemma_magnitude_zero(spec_one());
}

/// What a value can be, read off its bit pattern: NaN above the pattern of the
/// infinities, a coordinate below that of 1e16, and so on, the sign left aside
/// or not.
pub proof fn lemma_classes_by_bits(x: Float32)
    ensures
        x.finite() <==> x.bits % 0x8000_0000 < 0x7F80_0000,
        x.nan() <==> x.bits % 0x8000_0000 > 0x7F80_0000,
        x.valid_coordinate() <==> x.bits % 0x8000_0000 < 0x5A0E_1BCA,
        x.valid_scale() <==> x.bits < 0x7F80_0000 || x.bits == 0x8000_0000,
        x.valid_tqplus_shift() <==> x.bits % 0x8000_0000 < 0x7F80_0000,
        x.valid_tqplus_scale() <==> 0 < x.bits < 0x7F80_0000,
{
    let bare = Float32 { bits: (x.bits % 0x8000_0000) as u32 };
    let bound = Float32 { bits: 0x5A0E_1BCA };
    lemma_sign_free(x);
    lemma_magnitude_zero(x);
    lemma_max_input_magnitude();
    if bare.bits < bound.bits {
        lemma_magnitude_increases(bare, bound);
    } else if bound.bits < bare.bits {
        lemma_magnitude_increases(bound, bare);
    }
}

/// Numbers are ordered by their bit patterns, those with a sign the other way
/// round and below the others; the two zeros are equal, and a NaN has no place
/// in the order.
pub proof fn lemma_order_by_bits(x: Float32, y: Float32)
    ensures
        ({
            let numbers = x.bits % 0x8000_0000 <= 0x7F80_0000 && y.bits % 0x8000_0000
                <= 0x7F80_0000;
            &&& !numbers ==> !x.below(y)
            &&& numbers && x.bits < 0x8000_0000 && y.bits < 0x8000_0000 ==> (x.below(y) <==> x.bits
                < y.bits)
            &&& numbers && x.bits >= 0x8000_0000 && y.bits >= 0x8000_0000 ==> (x.below(y)
                <==> y.bits < x.bits)
            &&& numbers && x.bits >= 0x8000_0000 && y.bits < 0x8000_0000 ==> (x.below(y) <==> x.bits
                != 0x8000_0000 || y.bits != 0)
            &&& numbers && x.bits < 0x8000_0000 && y.bits >= 0x8000_0000 ==> !x.below(y)
        }),
{
    let a = Float32 { bits: (x.bits % 0x8000_0000) as u32 };
    let b = Float32 { bits: (y.bits % 0x8000_0000) as u32 };
    lemma_sign_free(x);
    lemma_sign_free(y);
    lemma_magnitude_zero(x);
    lemma_magnitude_zero(y);
    lemma_classes_by_bits(x);
    lemma_classes_by_bits(y);
    if a.bits < b.bits {
        lemma_magnitude_increases(a, b);
    } else if b.bits < a.bits {
        lemma_magnitude_increases(b, a);
    }
}

/// The calibration that changes nothing is made of the patterns of zero and
/// one, which are the numbers zero and `2^149` units of `2^-149`.
pub proof fn lemma_identity_patterns()
    ensures
        spec_zero().bits == 0,
        spec_one().bits == 0x3F80_0000,
        spec_zero().value() == 0,
        spec_one().value() == pow2(149),
{
    lemma_one_magnitude();
}

} // verus!
