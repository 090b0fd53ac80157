//! The IEEE-754 binary interchange formats, and the values that carry their
//! bit patterns.
use vstd::prelude::*;

verus! {

/// The layout of one binary floating-point format, and the range of decimal
/// exponents that its finite nonzero values reach.
#[derive(Clone, Copy, Debug, PartialEq, Eq)]
pub struct Format {
    /// Stored significand bits, below the exponent field.
    pub mantissa_bits: u64,
    /// The exponent field, all ones, once shifted down.
    pub exponent_mask: u64,
    /// The stored significand bits, in place.
    pub fraction_mask: u64,
    /// Every bit but the sign.
    pub magnitude_mask: u64,
    /// The sign bit.
    pub sign_bit: u64,
    /// The implicit leading significand bit of a normal value.
    pub hidden_bit: u64,
    /// What is added to the binary exponent before it is stored.
    pub bias: i32,
    /// The least decimal exponent of a positive value.
    pub min_e10: i32,
    /// The greatest decimal exponent of a finite value.
    pub max_e10: i32,
}

impl Format {
    pub open spec fn spec_binary64() -> Format {
        Format {
            mantissa_bits: 52,
            exponent_mask: 0x7ff,
            fraction_mask: 0xf_ffff_ffff_ffff,
            magnitude_mask: 0x7fff_ffff_ffff_ffff,
            sign_bit: 0x8000_0000_0000_0000,
            hidden_bit: 0x10_0000_0000_0000,
            bias: 1023,
            min_e10: -324i32,
            max_e10: 308,
        }
    }

    pub open spec fn spec_binary32() -> Format {
        Format {
            mantissa_bits: 23,
            exponent_mask: 0xff,
            fraction_mask: 0x7f_ffff,
            magnitude_mask: 0x7fff_ffff,
            sign_bit: 0x8000_0000,
            hidden_bit: 0x80_0000,
            bias: 127,
            min_e10: -45i32,
            max_e10: 38,
        }
    }

    /// One of the two supported formats.
    pub open spec fn wf(self) -> bool {
        self == Format::spec_binary64() || self == Format::spec_binary32()
    }

    /// The binary exponent of the least subnormal: 1 - bias - mantissa bits.
    pub open spec fn subnormal_offset(self) -> int {
        1 - self.bias - self.mantissa_bits
    }

    /// Double precision (binary64).
    pub fn binary64() -> (r: Format)
        ensures
            r == Format::spec_binary64(),
    {
        Format {
            mantissa_bits: 52,
            exponent_mask: 0x7ff,
            fraction_mask: 0xf_ffff_ffff_ffff,
            magnitude_mask: 0x7fff_ffff_ffff_ffff,
            sign_bit: 0x8000_0000_0000_0000,
            hidden_bit: 0x10_0000_0000_0000,
            bias: 1023,
            min_e10: -324,
            max_e10: 308,
        }
    }

    /// Single precision (binary32).
    pub fn binary32() -> (r: Format)
        ensures
            r == Format::spec_binary32(),
    {
        Format {
            mantissa_bits: 23,
            exponent_mask: 0xff,
            fraction_mask: 0x7f_ffff,
            magnitude_mask: 0x7fff_ffff,
            sign_bit: 0x8000_0000,
            hidden_bit: 0x80_0000,
            bias: 127,
            min_e10: -45,
            max_e10: 38,
        }
    }
}

/// A floating-point width: its format, and its values' bit patterns widened
/// to `u64`.
pub trait FloatOps: Copy + Sized {
    spec fn spec_format() -> Format;

    spec fn spec_to_bits(&self) -> u64;

    fn format() -> (r: Format)
        ensures
            r == Self::spec_format(),
            r.wf(),
    ;

    fn to_bits(self) -> (r: u64)
        ensures
            r == self.spec_to_bits(),
    ;
}

/// A double-precision value, held as its bit pattern.
#[derive(Clone, Copy, Debug, PartialEq, Eq)]
pub struct Binary64 {
    pub bits: u64,
}

/// A single-precision value, held as its bit pattern.
#[derive(Clone, Copy, Debug, PartialEq, Eq)]
pub struct Binary32 {
    pub bits: u32,
}

impl Binary64 {
    pub fn from_bits(bits: u64) -> (r: Binary64)
        ensures
            r.bits == bits,
    {
        Binary64 { bits }
    }
}

impl Binary32 {
    pub fn from_bits(bits: u32) -> (r: Binary32)
        ensures
            r.bits == bits,
    {
        Binary32 { bits }
    }
}

impl FloatOps for Binary64 {
    open spec fn spec_format() -> Format {
        Format::spec_binary64()
    }

    open spec fn spec_to_bits(&self) -> u64 {
        self.bits
    }

    fn format() -> (r: Format) {
        Format::binary64()
    }

    fn to_bits(self) -> (r: u64) {
        self.bits
    }
}

impl FloatOps for Binary32 {
    open spec fn spec_format() -> Format {
        Format::spec_binary32()
    }

    open spec fn spec_to_bits(&self) -> u64 {
        self.bits as u64
    }

    fn format() -> (r: Format) {
        Format::binary32()
    }

    fn to_bits(self) -> (r: u64) {
        self.bits as u64
    }
}

} // verus!
