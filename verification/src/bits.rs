//! Single-precision numbers as their bit patterns. The library carries them
//! from one place to another and compares them; it never calculates with
//! them.

use vstd::prelude::*;

verus! {

/// The IEEE 754 bit pattern of a single-precision number.
#[derive(Clone, Copy, Debug, PartialEq, Eq, Structural)]
pub struct F32Bits(pub u32);

/// Three single-precision numbers.
#[derive(Clone, Copy, Debug, PartialEq, Eq, Structural)]
pub struct Vec3Bits {
    pub x: F32Bits,
    pub y: F32Bits,
    pub z: F32Bits,
}

impl F32Bits {
    /// Whether this is no number: the exponent is all ones and the fraction
    /// is not zero, whatever the sign.
    pub open spec fn spec_is_nan(self) -> bool {
        0x7f80_0000 < self.0 < 0x8000_0000 || 0xff80_0000 < self.0
    }

    /// Whether the sign bit is set.
    pub open spec fn spec_is_negative(self) -> bool {
        self.0 >= 0x8000_0000
    }

    /// Whether this is a positive finite number.
    pub open spec fn is_positive_finite(self) -> bool {
        0 < self.0 < 0x7f80_0000
    }

    /// The number, held inside the range from `low` to `high`. Numbers
    /// without the sign bit are ordered as their bit patterns are; one with
    /// it lies below any positive number. What is no number stays as it is.
    pub open spec fn spec_clamped(self, low: F32Bits, high: F32Bits) -> F32Bits {
        if self.spec_is_nan() {
            self
        } else if self.spec_is_negative() || self.0 < low.0 {
            low
        } else if self.0 > high.0 {
            high
        } else {
            self
        }
    }

    /// The number, held inside a range of positive numbers.
    pub fn clamped(self, low: F32Bits, high: F32Bits) -> (r: F32Bits)
        requires
            low.is_positive_finite(),
            high.is_positive_finite(),
            low.0 <= high.0,
        ensures
            r == self.spec_clamped(low, high),
    {
        let nan = (0x7f80_0000 < self.0 && self.0 < 0x8000_0000) || 0xff80_0000 < self.0;
        if nan {
            self
        } else if self.0 >= 0x8000_0000 || self.0 < low.0 {
            low
        } else if self.0 > high.0 {
            high
        } else {
            self
        }
    }
}

} // verus!
