//! Binary64 numbers held by their bit pattern, with the IEEE-754 ordering stated over integers.
use vstd::prelude::*;

verus! {

/// The bit that holds the sign of a binary64 number.
pub const SIGN_BIT: u64 = 0x8000_0000_0000_0000;

/// The bit pattern of positive infinity; every larger magnitude is a NaN.
pub const INFINITY_BITS: u64 = 0x7FF0_0000_0000_0000;

/// A binary64 (IEEE-754 double precision) number, held by its bit pattern.
///
/// Derived equality compares bit patterns; numeric comparison is `num_eq`, `lt`, `le`, `gt`, `ge`.
#[derive(Clone, Copy, Debug, PartialEq, Eq, Structural)]
pub struct Float64 {
    pub bits: u64,
}

impl Float64 {
    /// The bit pattern without its sign bit.
    pub open spec fn magnitude(self) -> int {
        (self.bits % SIGN_BIT) as int
    }

    /// Whether the sign bit is set.
    pub open spec fn negative(self) -> bool {
        self.bits >= SIGN_BIT
    }

    /// Whether the pattern encodes a NaN: all exponent bits set and a nonzero fraction.
    pub open spec fn nan(self) -> bool {
        self.magnitude() > INFINITY_BITS
    }

    /// An integer that orders all non-NaN numbers as their numeric values do.
    /// Both zeros have key 0.
    pub open spec fn key(self) -> int {
        if self.negative() {
            -self.magnitude()
        } else {
            self.magnitude()
        }
    }

    /// Numeric `<`: false when either side is a NaN.
    pub open spec fn spec_lt(self, other: Float64) -> bool {
        !self.nan() && !other.nan() && self.key() < other.key()
    }

    /// Numeric `<=`: false when either side is a NaN.
    pub open spec fn spec_le(self, other: Float64) -> bool {
        !self.nan() && !other.nan() && self.key() <= other.key()
    }

    /// Numeric `==`: false when either side is a NaN; the two zeros are equal.
    pub open spec fn spec_num_eq(self, other: Float64) -> bool {
        !self.nan() && !other.nan() && self.key() == other.key()
    }

    /// The number with the opposite sign: the same pattern with its sign bit flipped.
    pub open spec fn negated(self) -> Float64 {
        Float64 {
            bits: if self.bits >= SIGN_BIT {
                (self.bits - SIGN_BIT) as u64
            } else {
                (self.bits + SIGN_BIT) as u64
            },
        }
    }

    /// The number with the opposite sign.
    pub fn neg(&self) -> (r: Float64)
        ensures
            r == self.negated(),
    {
        if self.bits >= SIGN_BIT {
            Float64 { bits: self.bits - SIGN_BIT }
        } else {
            Float64 { bits: self.bits + SIGN_BIT }
        }
    }

    /// The number with the given bit pattern.
    pub fn from_bits(bits: u64) -> (r: Float64)
        ensures
            r.bits == bits,
    {
        Float64 { bits }
    }

    /// The bit pattern of the number.
    pub fn to_bits(&self) -> (r: u64)
        ensures
            r == self.bits,
    {
        self.bits
    }

    /// Whether the number is a NaN.
    pub fn is_nan(&self) -> (r: bool)
        ensures
            r == self.nan(),
    {
        self.bits % SIGN_BIT > INFINITY_BITS
    }

    fn order_key(&self) -> (k: i128)
        ensures
            k == self.key(),
    {
        let m: u64 = self.bits % SIGN_BIT;
        if self.bits >= SIGN_BIT {
            0 - (m as i128)
        } else {
            m as i128
        }
    }

    /// Numeric `self < other`.
    pub fn lt(&self, other: &Float64) -> (r: bool)
        ensures
            r == self.spec_lt(*other),
    {
        !self.is_nan() && !other.is_nan() && self.order_key() < other.order_key()
    }

    /// Numeric `self <= other`.
    pub fn le(&self, other: &Float64) -> (r: bool)
        ensures
            r == self.spec_le(*other),
    {
        !self.is_nan() && !other.is_nan() && self.order_key() <= other.order_key()
    }

    /// Numeric `self > other`.
    pub fn gt(&self, other: &Float64) -> (r: bool)
        ensures
            r == other.spec_lt(*self),
    {
        other.lt(self)
    }

    /// Numeric `self >= other`.
    pub fn ge(&self, other: &Float64) -> (r: bool)
        ensures
            r == other.spec_le(*self),
    {
        other.le(self)
    }

    /// Numeric `self == other`.
    pub fn num_eq(&self, other: &Float64) -> (r: bool)
        ensures
            r == self.spec_num_eq(*other),
    {
        !self.is_nan() && !other.is_nan() && self.order_key() == other.order_key()
    }
}

/// Negation keeps the magnitude and turns the order around.
pub proof fn lemma_negated(a: Float64, b: Float64)
    ensures
        a.negated().negated() == a,
        a.negated().nan() == a.nan(),
        a.negated().key() == -a.key(),
        a.spec_lt(b) <==> b.negated().spec_lt(a.negated()),
{
}

/// Numeric order is irreflexive and transitive, and `<=` is `<` or numeric equality.
pub proof fn lemma_float_order(a: Float64, b: Float64, c: Float64)
    ensures
        !a.spec_lt(a),
        a.spec_lt(b) && b.spec_lt(c) ==> a.spec_lt(c),
        a.spec_le(b) <==> (a.spec_lt(b) || a.spec_num_eq(b)),
        !a.nan() && !b.nan() ==> (a.spec_lt(b) || a.spec_num_eq(b) || b.spec_lt(a)),
{
}

} // verus!
