//! Scalar sample types of image pixels.
use vstd::prelude::*;

verus! {

/// The primitive type of one pixel sample.
#[derive(Debug, Clone, Copy, PartialEq, Eq, Hash, Structural)]
pub enum PixelType {
    /// Unsigned 8-bit integer.
    UInt8,
    /// Unsigned 16-bit integer.
    UInt16,
    /// Unsigned 32-bit integer.
    UInt32,
    /// IEEE-754 32-bit float.
    Float32,
    /// IEEE-754 64-bit float.
    Float64,
}

/// Byte size of one sample of `t`.
pub open spec fn sample_bytes(t: PixelType) -> nat {
    match t {
        PixelType::UInt8 => 1,
        PixelType::UInt16 => 2,
        PixelType::UInt32 => 4,
        PixelType::Float32 => 4,
        PixelType::Float64 => 8,
    }
}

/// Whether `t` is an unsigned integer type.
pub open spec fn is_integer_type(t: PixelType) -> bool {
    t is UInt8 || t is UInt16 || t is UInt32
}

impl PixelType {
    /// Byte size of one sample of this type (1/2/4/8).
    pub fn bytes_per_sample(self) -> (n: u8)
        ensures
            n == sample_bytes(self),
    {
        match self {
            PixelType::UInt8 => 1,
            PixelType::UInt16 => 2,
            PixelType::UInt32 => 4,
            PixelType::Float32 => 4,
            PixelType::Float64 => 8,
        }
    }

    /// Whether this is an unsigned integer type (UInt8/UInt16/UInt32).
    pub fn is_integer(self) -> (b: bool)
        ensures
            b == is_integer_type(self),
    {
        match self {
            PixelType::UInt8 | PixelType::UInt16 | PixelType::UInt32 => true,
            _ => false,
        }
    }
}

} // verus!
