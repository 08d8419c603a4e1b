//! Single-precision numbers by bit pattern.
//!
//! The store compares, keeps and passes on IEEE 754 single-precision numbers; it never
//! computes with them. `Single` holds the bit pattern, and its comparisons are those of
//! the standard: the two zeros are equal, and nothing compares with a NaN.

use vstd::prelude::*;

verus! {

/// A single-precision number.
#[derive(Clone, Copy, Debug, PartialEq, Eq, Structural, Hash)]
pub struct Single {
    bits: u32,
}

/// `0.0`.
pub const ZERO_BITS: u32 = 0x0000_0000;

/// `0.1`, rounded to single precision.
pub const TENTH_BITS: u32 = 0x3dcc_cccd;

/// `0.7`, rounded to single precision.
pub const SEVEN_TENTHS_BITS: u32 = 0x3f33_3333;

/// `1.0`.
pub const ONE_BITS: u32 = 0x3f80_0000;

/// The sign bit.
pub const SIGN_BIT: u32 = 0x8000_0000;

/// The magnitude of infinity; a larger one is a NaN.
pub const INFINITE_MAGNITUDE: u32 = 0x7f80_0000;

impl Single {
    pub closed spec fn spec_bits(self) -> u32 {
        self.bits
    }

    /// The bits without the sign.
    pub open spec fn magnitude(self) -> int {
        self.spec_bits() as int % 0x8000_0000
    }

    /// Not a number.
    pub open spec fn nan(self) -> bool {
        self.magnitude() > INFINITE_MAGNITUDE
    }

    /// A number with the same order as the value: the magnitude, under its sign.
    pub open spec fn key(self) -> int {
        if self.spec_bits() < SIGN_BIT {
            self.magnitude()
        } else {
            -self.magnitude()
        }
    }

    /// `self < other`.
    pub open spec fn below(self, other: Single) -> bool {
        !self.nan() && !other.nan() && self.key() < other.key()
    }

    /// `self <= other`.
    pub open spec fn at_most(self, other: Single) -> bool {
        !self.nan() && !other.nan() && self.key() <= other.key()
    }

    /// The number with the given bit pattern.
    pub fn from_bits(bits: u32) -> (r: Self)
        ensures
            r.spec_bits() == bits,
    {
        Single { bits }
    }

    /// The bit pattern.
    pub fn to_bits(self) -> (r: u32)
        ensures
            r == self.spec_bits(),
    {
        self.bits
    }

    /// Whether this is a NaN.
    pub fn is_nan(self) -> (r: bool)
        ensures
            r == self.nan(),
    {
        self.bits % SIGN_BIT > INFINITE_MAGNITUDE
    }

    /// A number with the same order as the value.
    pub fn order_key(self) -> (r: i64)
        ensures
            r == self.key(),
            -0x8000_0000 < r < 0x8000_0000,
    {
        let magnitude: i64 = (self.bits % SIGN_BIT) as i64;
        if self.bits < SIGN_BIT {
            magnitude
        } else {
            -magnitude
        }
    }

    /// `self < other`.
    pub fn is_below(self, other: Single) -> (r: bool)
        ensures
            r == self.below(other),
    {
        !self.is_nan() && !other.is_nan() && self.order_key() < other.order_key()
    }

    /// `self <= other`.
    pub fn is_at_most(self, other: Single) -> (r: bool)
        ensures
            r == self.at_most(other),
    {
        !self.is_nan() && !other.is_nan() && self.order_key() <= other.order_key()
    }
}

/// Two numbers with the same bits are the same number.
pub broadcast proof fn bits_determine(a: Single, b: Single)
    requires
        #[trigger] a.spec_bits() == #[trigger] b.spec_bits(),
    ensures
        a == b,
{
}

/// The number with the given bit pattern.
pub open spec fn with_bits(bits: u32) -> Single {
    choose|s: Single| s.spec_bits() == bits
}

/// `with_bits` has the bits it is asked for.
pub broadcast proof fn with_bits_has_bits(bits: u32)
    ensures
        (#[trigger] with_bits(bits)).spec_bits() == bits,
{
    let s = Single { bits };
    assert(s.spec_bits() == bits);
}

}
