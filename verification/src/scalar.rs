//! Single-precision numbers carried by their bit pattern.
//!
//! Positions, velocities and angles belong to the physics and rendering
//! layers. This library never computes with them: it stores them, sends them
//! and checks whether one differs from another. A `Scalar` therefore holds the
//! thirty-two bits of the IEEE 754 binary32 number, and nothing else.

use vstd::prelude::*;

verus! {

/// An IEEE 754 binary32 number, held as its bit pattern.
#[derive(Clone, Copy, Debug, PartialEq, Eq, Structural)]
pub struct Scalar {
    pub bits: u32,
}

impl Scalar {
    /// The pattern without its sign bit.
    pub open spec fn magnitude(self) -> int {
        self.bits as int % 0x8000_0000
    }

    /// No number at all: an all-ones exponent with a non-zero fraction.
    pub open spec fn is_nan(self) -> bool {
        self.magnitude() > 0x7f80_0000
    }

    /// Positive or negative zero.
    pub open spec fn is_zero(self) -> bool {
        self.magnitude() == 0
    }

    /// Inequality as IEEE 754 defines it: a NaN differs from everything,
    /// itself included, and the two zeros do not differ from each other.
    pub open spec fn differs(self, other: Scalar) -> bool {
        self.is_nan() || other.is_nan() || (self.bits != other.bits && !(self.is_zero()
            && other.is_zero()))
    }

    /// Wraps a bit pattern.
    pub fn from_bits(bits: u32) -> (s: Scalar)
        ensures
            s.bits == bits,
    {
        Scalar { bits }
    }

    /// Whether the two numbers are unequal in the IEEE 754 sense.
    pub fn differs_from(self, other: Scalar) -> (r: bool)
        ensures
            r == self.differs(other),
    {
        let a: u32 = self.bits % 0x8000_0000;
        let b: u32 = other.bits % 0x8000_0000;
        a > 0x7f80_0000 || b > 0x7f80_0000 || (self.bits != other.bits && !(a == 0 && b == 0))
    }
}

} // verus!
