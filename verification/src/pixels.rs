//! Lengths on the screen.

use vstd::prelude::*;

verus! {

/// A length in pixels, by the bit pattern of its single-precision
/// representation.
///
/// Lengths are compared here as the representation defines it; they are added
/// and scaled elsewhere.
#[derive(Debug, Clone, Copy, PartialEq, Eq, Structural)]
pub struct Pixels {
    pub bits: u32,
}

/// The sign bit of a representation.
pub const SIGN_BIT: u32 = 0x8000_0000;

/// The bit pattern of infinity; greater magnitudes are no numbers.
pub const INFINITY_BITS: u32 = 0x7f80_0000;

impl Pixels {
    /// The bits without the sign.
    pub open spec fn magnitude(self) -> int {
        if self.bits < SIGN_BIT {
            self.bits as int
        } else {
            self.bits - SIGN_BIT
        }
    }

    /// Whether the representation denotes no number.
    pub open spec fn is_nan(self) -> bool {
        self.magnitude() > INFINITY_BITS
    }

    /// An integer that orders the numbers; both zeros are equal.
    pub open spec fn order(self) -> int {
        if self.bits < SIGN_BIT {
            self.magnitude()
        } else {
            -self.magnitude()
        }
    }

    /// Whether one length is less than another; no length is less than what is
    /// no number, nor the other way round.
    pub open spec fn lt(self, other: Pixels) -> bool {
        !self.is_nan() && !other.is_nan() && self.order() < other.order()
    }

    /// Whether one length is at most another.
    pub open spec fn le(self, other: Pixels) -> bool {
        !self.is_nan() && !other.is_nan() && self.order() <= other.order()
    }

    /// Whether a length is greater than zero.
    pub open spec fn positive(self) -> bool {
        !self.is_nan() && self.order() > 0
    }

    /// The greater of two lengths; what is no number counts for nothing.
    pub open spec fn greatest(self, other: Pixels) -> Pixels {
        if self.is_nan() || self.lt(other) {
            other
        } else {
            self
        }
    }

    fn not_a_number(self) -> (is: bool)
        ensures
            is == self.is_nan(),
    {
        if self.bits < SIGN_BIT {
            self.bits > INFINITY_BITS
        } else {
            self.bits - SIGN_BIT > INFINITY_BITS
        }
    }

    fn order_key(self) -> (key: i64)
        ensures
            key == self.order(),
    {
        if self.bits < SIGN_BIT {
            self.bits as i64
        } else {
            -((self.bits - SIGN_BIT) as i64)
        }
    }

    /// Whether one length is less than another.
    pub fn is_less(self, other: Pixels) -> (is: bool)
        ensures
            is == self.lt(other),
    {
        !self.not_a_number() && !other.not_a_number() && self.order_key() < other.order_key()
    }

    /// Whether one length is at most another.
    pub fn is_at_most(self, other: Pixels) -> (is: bool)
        ensures
            is == self.le(other),
    {
        !self.not_a_number() && !other.not_a_number() && self.order_key() <= other.order_key()
    }

    /// Whether a length is greater than zero.
    pub fn is_positive(self) -> (is: bool)
        ensures
            is == self.positive(),
    {
        !self.not_a_number() && self.order_key() > 0
    }

    /// The greater of two lengths.
    pub fn max(self, other: Pixels) -> (most: Pixels)
        ensures
            most == self.greatest(other),
    {
        if self.not_a_number() || self.is_less(other) {
            other
        } else {
            self
        }
    }
}

/// Of two numbers exactly one is less than the other, or they compare equal both
/// ways; being less carries over.
pub proof fn lengths_are_ordered(first: Pixels, second: Pixels, third: Pixels)
    requires
        !first.is_nan(),
        !second.is_nan(),
    ensures
        first.lt(second) || second.lt(first) || (first.le(second) && second.le(first)),
        !(first.lt(second) && second.le(first)),
        first.lt(second) && second.lt(third) ==> first.lt(third),
        first.le(second) && second.le(third) ==> first.le(third),
{
}

/// Zero is below every positive length, and the greater of two lengths is below neither.
pub proof fn the_greater_length_is_below_neither(first: Pixels, second: Pixels)
    ensures
        first.positive() <==> (Pixels { bits: 0 }).lt(first),
        first.le(second) <==> !first.is_nan() && !second.is_nan() && !second.lt(first),
        first.greatest(second) == first || first.greatest(second) == second,
        !first.greatest(second).lt(first),
        !first.greatest(second).lt(second),
        first.greatest(second).is_nan() ==> second.is_nan(),
{
}

} // verus!
