//! Depth values for the canvas's depth plane.
//!
//! The depth plane stores 32-bit cells holding the bit patterns of IEEE 754
//! single-precision numbers. Depth testing needs nothing of those numbers but
//! their ordering, so this module models a depth as its raw bit pattern and
//! defines the ordering directly on the bits: every non-NaN pattern is mapped
//! to an integer key that sorts exactly as the encoded number does (the two
//! zeros share the key 0), and a NaN pattern compares false to everything —
//! the property the canvas uses as its "depth test disabled" sentinel.

use vstd::prelude::*;

verus! {

/// Bit pattern of positive infinity: the initial "infinitely far" depth.
pub const INFINITY_BITS: u32 = 0x7f80_0000;

/// Bit pattern of the quiet NaN used as the unconditional-write sentinel.
pub const NAN_BITS: u32 = 0x7fc0_0000;

/// The sign bit of a single-precision pattern.
pub const SIGN_BIT: u32 = 0x8000_0000;

/// The pattern with the sign bit cleared: exponent and fraction together.
pub open spec fn magnitude_of(bits: u32) -> int {
    if bits >= SIGN_BIT {
        bits - SIGN_BIT
    } else {
        bits as int
    }
}

/// A pattern encodes NaN exactly when its magnitude exceeds that of infinity.
pub open spec fn is_nan_bits(bits: u32) -> bool {
    magnitude_of(bits) > INFINITY_BITS
}

/// Orders every pattern as the number it encodes: non-negative patterns sort
/// by ascending magnitude, negative ones by descending magnitude, and the two
/// zeros share the key 0. Meaningful only for non-NaN patterns.
pub open spec fn depth_key(bits: u32) -> int {
    if bits >= SIGN_BIT {
        -magnitude_of(bits)
    } else {
        magnitude_of(bits)
    }
}

/// `a <= b` under IEEE 754 comparison: false whenever either side is NaN.
pub open spec fn le_bits(a: u32, b: u32) -> bool {
    &&& !is_nan_bits(a)
    &&& !is_nan_bits(b)
    &&& depth_key(a) <= depth_key(b)
}

/// `a < b` under IEEE 754 comparison: false whenever either side is NaN.
pub open spec fn lt_bits(a: u32, b: u32) -> bool {
    &&& !is_nan_bits(a)
    &&& !is_nan_bits(b)
    &&& depth_key(a) < depth_key(b)
}

/// A depth value, carried as the bit pattern of an IEEE 754 single-precision
/// number. Callers that hold depths as native floating-point values convert
/// through `from_bits` / `to_bits`.
#[derive(Clone, Copy)]
pub struct Depth {
    bits: u32,
}

impl View for Depth {
    type V = u32;

    closed spec fn view(&self) -> u32 {
        self.bits
    }
}

impl Depth {
    /// Wraps a raw single-precision bit pattern.
    pub fn from_bits(bits: u32) -> (d: Depth)
        ensures
            d@ == bits,
    {
        Depth { bits }
    }

    /// The raw bit pattern.
    pub fn to_bits(&self) -> (r: u32)
        ensures
            r == self@,
    {
        self.bits
    }

    /// Positive infinity: farther than every finite depth.
    pub fn infinity() -> (d: Depth)
        ensures
            d@ == INFINITY_BITS,
    {
        Depth { bits: INFINITY_BITS }
    }

    /// The NaN sentinel: compares false to every depth, its own pattern
    /// included, so a write carrying it always passes the depth test and
    /// disables the test at its pixel for every later write.
    pub fn nan() -> (d: Depth)
        ensures
            d@ == NAN_BITS,
    {
        Depth { bits: NAN_BITS }
    }

    /// Whether this pattern encodes NaN.
    pub fn is_nan(&self) -> (r: bool)
        ensures
            r == is_nan_bits(self@),
    {
        let m: u32 = if self.bits >= SIGN_BIT {
            self.bits - SIGN_BIT
        } else {
            self.bits
        };
        m > INFINITY_BITS
    }

    /// IEEE 754 `<=` on the encoded numbers: false whenever either side is
    /// NaN, and the two zeros compare equal.
    pub fn le(&self, other: &Depth) -> (r: bool)
        ensures
            r == le_bits(self@, other@),
    {
        let sa: bool = self.bits >= SIGN_BIT;
        let sb: bool = other.bits >= SIGN_BIT;
        let ma: u32 = if sa {
            self.bits - SIGN_BIT
        } else {
            self.bits
        };
        let mb: u32 = if sb {
            other.bits - SIGN_BIT
        } else {
            other.bits
        };
        if ma > INFINITY_BITS || mb > INFINITY_BITS {
            false
        } else if sa && sb {
            ma >= mb
        } else if sa {
            true
        } else if sb {
            ma == 0 && mb == 0
        } else {
            ma <= mb
        }
    }
}

} // verus!
