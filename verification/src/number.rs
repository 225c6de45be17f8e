//! Doubles as bit patterns, and the order among them.

use vstd::prelude::*;

verus! {

/// The sign bit of a binary64 pattern.
pub const SIGN: u64 = 0x8000_0000_0000_0000;

/// The pattern of positive infinity; every larger magnitude is a NaN.
pub const INFINITY: u64 = 0x7ff0_0000_0000_0000;

/// The pattern of positive zero.
pub const ZERO: u64 = 0;

/// The pattern of the number one.
pub const ONE: u64 = 0x3ff0_0000_0000_0000;

/// The pattern of the number minus one.
pub const MINUS_ONE: u64 = 0xbff0_0000_0000_0000;

/// A double-precision number, held by its IEEE 754 binary64 bit pattern.
///
/// Equality of two `Number`s is equality of patterns: the two zeros differ,
/// and a NaN equals itself. The numeric comparisons are the methods below.
#[derive(Clone, Copy, Debug, PartialEq, Eq, Structural)]
pub struct Number {
    pub bits: u64,
}

impl Number {
    /// The pattern without its sign bit.
    pub open spec fn magnitude(self) -> int {
        if self.bits >= SIGN {
            self.bits - SIGN
        } else {
            self.bits as int
        }
    }

    /// Whether the sign bit is set.
    pub open spec fn is_negative(self) -> bool {
        self.bits >= SIGN
    }

    /// Whether the pattern is not a number.
    pub open spec fn spec_is_nan(self) -> bool {
        self.magnitude() > INFINITY
    }

    /// Whether the pattern is one of the two zeros.
    pub open spec fn spec_is_zero(self) -> bool {
        self.magnitude() == 0
    }

    /// An integer that orders the patterns as their numbers are ordered:
    /// among patterns that are numbers, a smaller rank is a smaller number,
    /// and the two zeros share rank 0.
    pub open spec fn rank(self) -> int {
        if self.is_negative() {
            -self.magnitude()
        } else {
            self.magnitude()
        }
    }

    /// `self < other` as doubles compare: false when either is a NaN.
    pub open spec fn spec_lt(self, other: Number) -> bool {
        !self.spec_is_nan() && !other.spec_is_nan() && self.rank() < other.rank()
    }

    /// `self <= other` as doubles compare: false when either is a NaN.
    pub open spec fn spec_le(self, other: Number) -> bool {
        !self.spec_is_nan() && !other.spec_is_nan() && self.rank() <= other.rank()
    }

    pub fn from_bits(bits: u64) -> (r: Number)
        ensures
            r.bits == bits,
    {
        Number { bits }
    }

    pub fn to_bits(self) -> (r: u64)
        ensures
            r == self.bits,
    {
        self.bits
    }

    /// The number zero.
    pub fn zero() -> (r: Number)
        ensures
            r.bits == ZERO,
            r.spec_is_zero(),
    {
        Number { bits: ZERO }
    }

    /// The number one.
    pub fn one() -> (r: Number)
        ensures
            r.bits == ONE,
    {
        Number { bits: ONE }
    }

    /// The number minus one.
    pub fn minus_one() -> (r: Number)
        ensures
            r.bits == MINUS_ONE,
    {
        Number { bits: MINUS_ONE }
    }

    fn abs_bits(self) -> (r: u64)
        ensures
            r == self.magnitude(),
    {
        if self.bits >= SIGN {
            self.bits - SIGN
        } else {
            self.bits
        }
    }

    #[verifier::when_used_as_spec(spec_is_nan)]
    pub fn is_nan(self) -> (r: bool)
        ensures
            r == self.spec_is_nan(),
    {
        self.abs_bits() > INFINITY
    }

    #[verifier::when_used_as_spec(spec_is_zero)]
    pub fn is_zero(self) -> (r: bool)
        ensures
            r == self.spec_is_zero(),
    {
        self.abs_bits() == 0
    }

    #[verifier::when_used_as_spec(spec_lt)]
    pub fn lt(self, other: Number) -> (r: bool)
        ensures
            r == self.spec_lt(other),
    {
        if self.is_nan() || other.is_nan() {
            return false;
        }
        let a: u64 = self.abs_bits();
        let b: u64 = other.abs_bits();
        if self.bits >= SIGN {
            if other.bits >= SIGN {
                b < a
            } else {
                a != 0 || b != 0
            }
        } else {
            other.bits < SIGN && a < b
        }
    }

    #[verifier::when_used_as_spec(spec_le)]
    pub fn le(self, other: Number) -> (r: bool)
        ensures
            r == self.spec_le(other),
    {
        if self.is_nan() || other.is_nan() {
            return false;
        }
        let a: u64 = self.abs_bits();
        let b: u64 = other.abs_bits();
        if self.bits >= SIGN {
            other.bits < SIGN || b <= a
        } else {
            if other.bits >= SIGN {
                a == 0 && b == 0
            } else {
                a <= b
            }
        }
    }
}

/// A NaN is in no relation to anything, itself included.
pub proof fn lemma_nan_unordered(a: Number, b: Number)
    requires
        a.spec_is_nan() || b.spec_is_nan(),
    ensures
        !a.spec_lt(b),
        !a.spec_le(b),
        !b.spec_lt(a),
        !b.spec_le(a),
{
}

/// Among numbers the order is total: `a <= b` holds exactly where `b < a`
/// does not, `a < b` exactly where `a <= b` and not `b <= a`, and the two
/// zeros are equal.
pub proof fn lemma_order_total(a: Number, b: Number)
    requires
        !a.spec_is_nan(),
        !b.spec_is_nan(),
    ensures
        a.spec_le(b) <==> !b.spec_lt(a),
        a.spec_lt(b) <==> a.spec_le(b) && !b.spec_le(a),
        a.spec_is_zero() && b.spec_is_zero() ==> a.spec_le(b) && b.spec_le(a),
{
}

/// `<` and `<=` are transitive.
pub proof fn lemma_order_transitive(a: Number, b: Number, c: Number)
    ensures
        a.spec_lt(b) && b.spec_lt(c) ==> a.spec_lt(c),
        a.spec_le(b) && b.spec_le(c) ==> a.spec_le(c),
        a.spec_lt(b) && b.spec_le(c) ==> a.spec_lt(c),
        a.spec_le(b) && b.spec_lt(c) ==> a.spec_lt(c),
{
}

} // verus!
