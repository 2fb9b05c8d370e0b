//! Numbers as bit patterns.
use vstd::prelude::*;

verus! {

/// The bit that holds the sign of a binary64 value.
pub const SIGN_BIT: u64 = 0x8000_0000_0000_0000;

/// An IEEE 754 binary64 value, held as its 64-bit pattern.
///
/// The library never computes on the value; it only moves it around, flips
/// its sign and tests it for zero, all of which are exact on the pattern.
#[derive(Clone, Copy, Debug, PartialEq, Eq, Structural)]
pub struct Number {
    pub bits: u64,
}

impl Number {
    /// Both zeros of binary64: every bit clear, or only the sign bit set.
    pub open spec fn zero(self) -> bool {
        self.bits == 0 || self.bits == SIGN_BIT
    }

    /// The pattern with the sign bit flipped.
    pub open spec fn opposite(self) -> Number {
        if self.bits >= SIGN_BIT {
            Number { bits: (self.bits - SIGN_BIT) as u64 }
        } else {
            Number { bits: (self.bits + SIGN_BIT) as u64 }
        }
    }

    /// The value with the given bit pattern.
    pub fn from_bits(bits: u64) -> (n: Number)
        ensures
            n.bits == bits,
    {
        Number { bits }
    }

    /// The bit pattern of the value.
    pub fn to_bits(self) -> (bits: u64)
        ensures
            bits == self.bits,
    {
        self.bits
    }

    /// Whether the value is positive or negative zero.
    pub fn is_zero(self) -> (z: bool)
        ensures
            z == self.zero(),
    {
        self.bits == 0 || self.bits == SIGN_BIT
    }

    /// The value with its sign flipped, which is how binary64 negates.
    pub fn negated(self) -> (n: Number)
        ensures
            n == self.opposite(),
    {
        if self.bits >= SIGN_BIT {
            Number { bits: self.bits - SIGN_BIT }
        } else {
            Number { bits: self.bits + SIGN_BIT }
        }
    }
}

/// Flipping the sign twice gives the value back.
pub proof fn lemma_opposite_involutive(n: Number)
    ensures
        n.opposite().opposite() == n,
{
}

} // verus!
