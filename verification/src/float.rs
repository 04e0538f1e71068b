//! Floating-point numbers of the mapping, held by their IEEE 754 bits.
//!
//! A [`Double`] stands for a whole number of units of 2^-1074, the smallest
//! positive double; a [`Single`] for a whole number of units of 2^-149.

use vstd::arithmetic::power2::*;
use vstd::prelude::*;

verus! {

/// A double-precision number.
#[derive(Clone, Copy, Debug)]
pub struct Double {
    pub bits: u64,
}

/// A single-precision number.
#[derive(Clone, Copy, Debug)]
pub struct Single {
    pub bits: u32,
}

impl Double {
    /// The sign bit.
    pub open spec fn negative(self) -> bool {
        self.bits >= 0x8000_0000_0000_0000
    }

    /// The bits without the sign.
    pub open spec fn unsigned_bits(self) -> nat {
        self.bits as nat % 0x8000_0000_0000_0000
    }

    /// The biased exponent.
    pub open spec fn exponent_field(self) -> nat {
        self.unsigned_bits() / 0x10_0000_0000_0000
    }

    /// The fraction behind the leading bit.
    pub open spec fn fraction_field(self) -> nat {
        self.unsigned_bits() % 0x10_0000_0000_0000
    }

    /// Neither infinite nor not-a-number.
    pub open spec fn finite(self) -> bool {
        self.exponent_field() < 0x7ff
    }

    /// Not a number.
    pub open spec fn nan(self) -> bool {
        self.exponent_field() == 0x7ff && self.fraction_field() != 0
    }

    /// The fraction with its leading bit, which subnormal numbers lack.
    pub open spec fn significand(self) -> nat {
        if self.exponent_field() == 0 {
            self.fraction_field()
        } else {
            0x10_0000_0000_0000 + self.fraction_field()
        }
    }

    /// The power of two by which the significand counts units.
    pub open spec fn scale(self) -> nat {
        if self.exponent_field() == 0 {
            0
        } else {
            (self.exponent_field() - 1) as nat
        }
    }

    /// The absolute value, in units of 2^-1074. An infinity counts as the power of
    /// two behind the largest finite number.
    pub open spec fn magnitude(self) -> nat {
        self.significand() * pow2(self.scale())
    }

    /// The value, in units of 2^-1074.
    pub open spec fn units(self) -> int {
        if self.negative() {
            -(self.magnitude() as int)
        } else {
            self.magnitude() as int
        }
    }

    /// Whether the two compare as equal numbers.
    pub open spec fn equals(self, other: Double) -> bool {
        !self.nan() && !other.nan() && self.units() == other.units()
    }

    /// Whether this number compares as less than the other.
    pub open spec fn below(self, other: Double) -> bool {
        !self.nan() && !other.nan() && self.units() < other.units()
    }

    /// The number with these bits.
    pub fn from_bits(bits: u64) -> (number: Double)
        ensures
            number.bits == bits,
    {
        Double { bits }
    }

    /// The bits of the number.
    pub fn to_bits(self) -> (bits: u64)
        ensures
            bits == self.bits,
    {
        self.bits
    }

    /// Whether the sign bit is set.
    pub fn is_negative(self) -> (yes: bool)
        ensures
            yes == self.negative(),
    {
        self.bits >= 0x8000_0000_0000_0000
    }

    /// Whether the number is zero, of either sign.
    pub fn is_zero(self) -> (yes: bool)
        ensures
            yes == (self.units() == 0),
            yes == (self.magnitude() == 0),
    {
        proof {
            lemma_magnitude_order(self, Double { bits: 0 });
            lemma_magnitude_order(Double { bits: 0 }, self);
            let zero = Double { bits: 0 };
            assert(zero.significand() * pow2(zero.scale()) == 0) by (nonlinear_arith)
                requires
                    zero.significand() == 0,
            ;
        }
        self.bits % 0x8000_0000_0000_0000 == 0
    }

    /// Whether the number is neither infinite nor not-a-number.
    pub fn is_finite(self) -> (yes: bool)
        ensures
            yes == self.finite(),
    {
        self.bits % 0x8000_0000_0000_0000 / 0x10_0000_0000_0000 < 0x7ff
    }

    /// Whether the value is not a number.
    pub fn is_nan(self) -> (yes: bool)
        ensures
            yes == self.nan(),
    {
        let unsigned: u64 = self.bits % 0x8000_0000_0000_0000;
        unsigned / 0x10_0000_0000_0000 == 0x7ff && unsigned % 0x10_0000_0000_0000 != 0
    }

    /// The significand and its scale.
    pub fn parts(self) -> (parts: (u64, u32))
        ensures
            parts.0 == self.significand(),
            parts.1 == self.scale(),
            parts.0 < 0x20_0000_0000_0000,
            parts.1 <= 2046,
            parts.1 > 0 ==> parts.0 >= 0x10_0000_0000_0000,
            self.finite() ==> parts.1 <= 2045,
    {
        let unsigned: u64 = self.bits % 0x8000_0000_0000_0000;
        let exponent: u64 = unsigned / 0x10_0000_0000_0000;
        let fraction: u64 = unsigned % 0x10_0000_0000_0000;
        if exponent == 0 {
            (fraction, 0)
        } else {
            (0x10_0000_0000_0000 + fraction, (exponent - 1) as u32)
        }
    }

    /// Compares two numbers; nothing is less than what is not a number.
    pub fn less_than(self, other: Double) -> (less: bool)
        ensures
            less == self.below(other),
    {
        if self.is_nan() || other.is_nan() {
            return false;
        }
        proof {
            lemma_magnitude_order(self, other);
            lemma_magnitude_order(other, self);
        }
        let mine: u64 = self.bits % 0x8000_0000_0000_0000;
        let its: u64 = other.bits % 0x8000_0000_0000_0000;
        match (self.is_negative(), other.is_negative()) {
            (false, false) => mine < its,
            (true, true) => its < mine,
            (true, false) => !self.is_zero() || !other.is_zero(),
            (false, true) => false,
        }
    }
}

impl PartialEq for Double {
    fn eq(&self, other: &Double) -> (same: bool) {
        let (a, b): (Double, Double) = (*self, *other);
        if a.is_nan() || b.is_nan() {
            return false;
        }
        proof {
            lemma_magnitude_order(a, b);
            lemma_magnitude_order(b, a);
        }
        a.bits == b.bits || (a.is_zero() && b.is_zero())
    }
}

impl vstd::std_specs::cmp::PartialEqSpecImpl for Double {
    open spec fn obeys_eq_spec() -> bool {
        true
    }

    open spec fn eq_spec(&self, other: &Double) -> bool {
        self.equals(*other)
    }
}

impl Default for Double {
    /// Positive zero.
    fn default() -> (zero: Double)
        ensures
            zero.bits == 0,
    {
        Double { bits: 0 }
    }
}

/// Magnitudes are ordered as the bits without the sign are.
pub proof fn lemma_magnitude_order(a: Double, b: Double)
    ensures
        a.unsigned_bits() < b.unsigned_bits() ==> a.magnitude() < b.magnitude(),
        a.unsigned_bits() == b.unsigned_bits() ==> a.magnitude() == b.magnitude(),
{
    let (ea, eb) = (a.exponent_field(), b.exponent_field());
    let (sa, sb) = (a.significand(), b.significand());
    lemma_pow2_pos(a.scale());
    lemma_pow2_pos(b.scale());
    if a.unsigned_bits() < b.unsigned_bits() {
        assert(ea <= eb);
        if ea == eb {
            assert(sa < sb);
            assert(sa * pow2(a.scale()) < sb * pow2(b.scale())) by (nonlinear_arith)
                requires
                    sa < sb,
                    pow2(a.scale()) == pow2(b.scale()),
                    pow2(a.scale()) > 0,
            ;
        } else {
            lemma2_to64();
            if ea == 0 {
                assert(sa * 1 < sb * pow2(b.scale())) by (nonlinear_arith)
                    requires
                        sa < sb,
                        pow2(b.scale()) >= 1,
                ;
            } else {
                lemma_pow2_unfold((a.scale() + 1) as nat);
                if a.scale() + 1 < b.scale() {
                    lemma_pow2_strictly_increases((a.scale() + 1) as nat, b.scale());
                }
                assert(sa * pow2(a.scale()) < sb * pow2(b.scale())) by (nonlinear_arith)
                    requires
                        sa < 0x20_0000_0000_0000,
                        sb >= 0x10_0000_0000_0000,
                        pow2(a.scale()) > 0,
                        pow2(b.scale()) >= 2 * pow2(a.scale()),
                ;
            }
        }
    }
}

impl Single {
    /// The sign bit.
    pub open spec fn negative(self) -> bool {
        self.bits >= 0x8000_0000
    }

    /// The bits without the sign.
    pub open spec fn unsigned_bits(self) -> nat {
        self.bits as nat % 0x8000_0000
    }

    /// The biased exponent.
    pub open spec fn exponent_field(self) -> nat {
        self.unsigned_bits() / 0x80_0000
    }

    /// The fraction behind the leading bit.
    pub open spec fn fraction_field(self) -> nat {
        self.unsigned_bits() % 0x80_0000
    }

    /// Neither infinite nor not-a-number.
    pub open spec fn finite(self) -> bool {
        self.exponent_field() < 0xff
    }

    /// The fraction with its leading bit, which subnormal numbers lack.
    pub open spec fn significand(self) -> nat {
        if self.exponent_field() == 0 {
            self.fraction_field()
        } else {
            0x80_0000 + self.fraction_field()
        }
    }

    /// The power of two by which the significand counts units.
    pub open spec fn scale(self) -> nat {
        if self.exponent_field() == 0 {
            0
        } else {
            (self.exponent_field() - 1) as nat
        }
    }

    /// Not a number.
    pub open spec fn nan(self) -> bool {
        self.exponent_field() == 0xff && self.fraction_field() != 0
    }

    /// Whether the two compare as equal numbers: both zero, or alike.
    pub open spec fn equals(self, other: Single) -> bool {
        &&& !self.nan() && !other.nan()
        &&& self.bits == other.bits || (self.unsigned_bits() == 0 && other.unsigned_bits() == 0)
    }

    /// The absolute value of a finite number, in units of 2^-149.
    pub open spec fn magnitude(self) -> nat {
        self.significand() * pow2(self.scale())
    }

    /// The number with these bits.
    pub fn from_bits(bits: u32) -> (number: Single)
        ensures
            number.bits == bits,
    {
        Single { bits }
    }

    /// The bits of the number.
    pub fn to_bits(self) -> (bits: u32)
        ensures
            bits == self.bits,
    {
        self.bits
    }

    /// Whether the value is not a number.
    pub fn is_nan(self) -> (yes: bool)
        ensures
            yes == self.nan(),
    {
        let unsigned: u32 = self.bits % 0x8000_0000;
        unsigned / 0x80_0000 == 0xff && unsigned % 0x80_0000 != 0
    }
}

impl PartialEq for Single {
    fn eq(&self, other: &Single) -> (same: bool) {
        let (a, b): (Single, Single) = (*self, *other);
        !a.is_nan() && !b.is_nan() && (a.bits == b.bits || (a.bits % 0x8000_0000 == 0 && b.bits
            % 0x8000_0000 == 0))
    }
}

impl vstd::std_specs::cmp::PartialEqSpecImpl for Single {
    open spec fn obeys_eq_spec() -> bool {
        true
    }

    open spec fn eq_spec(&self, other: &Single) -> bool {
        self.equals(*other)
    }
}

impl Default for Single {
    /// Positive zero.
    fn default() -> (zero: Single)
        ensures
            zero.bits == 0,
    {
        Single { bits: 0 }
    }
}

/// Two doubles compare as equal exactly if their bits are the same, or both are zero of
/// either sign; bits above those of infinity are not a number and equal nothing.
pub proof fn law_equality_by_bits(a: Double, b: Double)
    ensures
        a.equals(b) <==> {
            let (x, y) = (a.bits % 0x8000_0000_0000_0000, b.bits % 0x8000_0000_0000_0000);
            &&& x <= 0x7ff0_0000_0000_0000
            &&& y <= 0x7ff0_0000_0000_0000
            &&& a.bits == b.bits || (x == 0 && y == 0)
        },
        a.nan() <==> a.bits % 0x8000_0000_0000_0000 > 0x7ff0_0000_0000_0000,
        a.finite() <==> a.bits % 0x8000_0000_0000_0000 < 0x7ff0_0000_0000_0000,
{
    lemma_magnitude_order(a, b);
    lemma_magnitude_order(b, a);
    let zero = Double { bits: 0 };
    assert(zero.significand() * pow2(zero.scale()) == 0) by (nonlinear_arith)
        requires
            zero.significand() == 0,
    ;
    lemma_magnitude_order(a, zero);
    lemma_magnitude_order(zero, a);
    lemma_magnitude_order(zero, b);
    lemma_magnitude_order(b, zero);
}

/// Doubles that are numbers are ordered by their signs first, then by their bits.
pub proof fn law_order_by_bits(a: Double, b: Double)
    requires
        !a.nan(),
        !b.nan(),
    ensures
        a.below(b) <==> {
            let (x, y) = (a.bits % 0x8000_0000_0000_0000, b.bits % 0x8000_0000_0000_0000);
            if a.bits < 0x8000_0000_0000_0000 {
                b.bits < 0x8000_0000_0000_0000 && x < y
            } else if b.bits < 0x8000_0000_0000_0000 {
                x > 0 || y > 0
            } else {
                y < x
            }
        },
{
    lemma_magnitude_order(a, b);
    lemma_magnitude_order(b, a);
    let zero = Double { bits: 0 };
    assert(zero.significand() * pow2(zero.scale()) == 0) by (nonlinear_arith)
        requires
            zero.significand() == 0,
    ;
    lemma_magnitude_order(a, zero);
    lemma_magnitude_order(zero, a);
    lemma_magnitude_order(zero, b);
    lemma_magnitude_order(b, zero);
}

/// Two singles compare as equal exactly if their bits are the same, or both are zero of
/// either sign; bits above those of infinity are not a number and equal nothing.
pub proof fn law_single_equality_by_bits(a: Single, b: Single)
    ensures
        a.equals(b) <==> {
            let (x, y) = (a.bits % 0x8000_0000, b.bits % 0x8000_0000);
            &&& x <= 0x7f80_0000
            &&& y <= 0x7f80_0000
            &&& a.bits == b.bits || (x == 0 && y == 0)
        },
{
}

} // verus!
