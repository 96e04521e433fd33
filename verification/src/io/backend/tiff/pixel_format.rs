//! TIFF BitsPerSample/SampleFormat to [`PixelType`] mapping.
use crate::error::{Error, ErrorCode, Result};
use crate::pixel_type::{is_integer_type, sample_bytes, PixelType};
use crate::text::str_eq;
use vstd::prelude::*;

verus! {

/// The pixel type a (BitsPerSample, SampleFormat) pair denotes in this
/// backend's subset: unsigned integers of 8/16/32 bits (format 1) or IEEE
/// floats of 32/64 bits (format 3).
pub open spec fn pixel_type_of(bits_per_sample: u64, sample_format: u64) -> Option<PixelType> {
    if sample_format == 1 {
        if bits_per_sample == 8 {
            Some(PixelType::UInt8)
        } else if bits_per_sample == 16 {
            Some(PixelType::UInt16)
        } else if bits_per_sample == 32 {
            Some(PixelType::UInt32)
        } else {
            None
        }
    } else if sample_format == 3 {
        if bits_per_sample == 32 {
            Some(PixelType::Float32)
        } else if bits_per_sample == 64 {
            Some(PixelType::Float64)
        } else {
            None
        }
    } else {
        None
    }
}

/// The storage-model name of `t` ("UInt8", ..., "Float64").
pub open spec fn pixel_type_name(t: PixelType) -> Seq<char> {
    match t {
        PixelType::UInt8 => "UInt8"@,
        PixelType::UInt16 => "UInt16"@,
        PixelType::UInt32 => "UInt32"@,
        PixelType::Float32 => "Float32"@,
        PixelType::Float64 => "Float64"@,
    }
}

/// The TIFF SampleFormat code of `t` (1 = unsigned int, 3 = IEEE float).
pub open spec fn sample_format_code(t: PixelType) -> u16 {
    if is_integer_type(t) {
        1
    } else {
        3
    }
}

/// Maps TIFF's (BitsPerSample, SampleFormat) pair to a [`PixelType`].
///
/// Fails with [`ErrorCode::InvalidArgument`] exactly when the pair is outside
/// the supported subset.
pub fn resolve_pixel_type(bits_per_sample: u64, sample_format: u64) -> (r: Result<PixelType>)
    ensures
        r is Ok <==> pixel_type_of(bits_per_sample, sample_format) is Some,
        r matches Ok(t) ==> pixel_type_of(bits_per_sample, sample_format) == Some(t),
        r matches Err(e) ==> e.kind() == ErrorCode::InvalidArgument,
{
    if sample_format != 1 && sample_format != 3 {
        return Err(Error::invalid_argument("resolve_pixel_type: unsupported SampleFormat"));
    }
    if sample_format == 3 {
        return match bits_per_sample {
            32 => Ok(PixelType::Float32),
            64 => Ok(PixelType::Float64),
            _ => Err(
                Error::invalid_argument(
                    "resolve_pixel_type: float SampleFormat requires 32-bit or 64-bit BitsPerSample",
                ),
            ),
        };
    }
    match bits_per_sample {
        8 => Ok(PixelType::UInt8),
        16 => Ok(PixelType::UInt16),
        32 => Ok(PixelType::UInt32),
        _ => Err(Error::invalid_argument("resolve_pixel_type: unsupported BitsPerSample")),
    }
}

/// Whether `values` is non-empty and all its elements are equal.
pub open spec fn uniform(values: Seq<u64>) -> bool {
    values.len() > 0 && forall|i: int| 0 <= i < values.len() ==> #[trigger] values[i] == values[0]
}

/// Fails with [`ErrorCode::InvalidArgument`] unless `values` is non-empty and
/// uniform (BitsPerSample must be the same for every sample of a pixel).
pub fn require_uniform_bits_per_sample(values: &[u64]) -> (r: Result<()>)
    ensures
        r is Ok <==> uniform(values@),
        r matches Err(e) ==> e.kind() == ErrorCode::InvalidArgument,
{
    if values.len() == 0 {
        return Err(Error::invalid_argument("require_uniform_bits_per_sample: no values"));
    }
    let first = values[0];
    let mut i: usize = 0;
    while i < values.len()
        invariant
            values@.len() > 0,
            first == values@[0],
            0 <= i <= values@.len(),
            forall|k: int| 0 <= k < i ==> #[trigger] values@[k] == values@[0],
        decreases values@.len() - i,
    {
        if values[i] != first {
            return Err(
                Error::invalid_argument(
                    "require_uniform_bits_per_sample: non-uniform BitsPerSample",
                ),
            );
        }
        i = i + 1;
    }
    Ok(())
}

/// The storage-model field value naming `pixel_type`.
pub fn pixel_type_field_value(pixel_type: PixelType) -> (s: &'static str)
    ensures
        s@ == pixel_type_name(pixel_type),
{
    match pixel_type {
        PixelType::UInt8 => "UInt8",
        PixelType::UInt16 => "UInt16",
        PixelType::UInt32 => "UInt32",
        PixelType::Float32 => "Float32",
        PixelType::Float64 => "Float64",
    }
}

/// Byte size of one sample of `pixel_type` (1/2/4/8).
pub fn bytes_per_sample(pixel_type: PixelType) -> (n: u8)
    ensures
        n == sample_bytes(pixel_type),
{
    pixel_type.bytes_per_sample()
}

/// The pixel types have pairwise distinct names.
pub proof fn lemma_pixel_type_names_distinct(a: PixelType, b: PixelType)
    ensures
        pixel_type_name(a) == pixel_type_name(b) ==> a == b,
{
    reveal_strlit("UInt8");
    reveal_strlit("UInt16");
    reveal_strlit("UInt32");
    reveal_strlit("Float32");
    reveal_strlit("Float64");
    if pixel_type_name(a) == pixel_type_name(b) && a != b {
        let na = pixel_type_name(a);
        let nb = pixel_type_name(b);
        assert(na.len() == nb.len());
        assert(na[na.len() - 1] == nb[nb.len() - 1]);
        assert(na[0] == nb[0]);
        assert(na[1] == nb[1]);
        assert(false);
    }
}

/// Parses a storage-model "pixelType" value; fails with
/// [`ErrorCode::InvalidArgument`] exactly when `value` names no pixel type.
pub fn pixel_type_from_field_value(value: &str) -> (r: Result<PixelType>)
    ensures
        r matches Ok(t) ==> pixel_type_name(t) == value@,
        r is Err <==> (forall|t: PixelType| pixel_type_name(t) != value@),
        r matches Err(e) ==> e.kind() == ErrorCode::InvalidArgument,
{
    if str_eq(value, "UInt8") {
        assert(pixel_type_name(PixelType::UInt8) == value@);
        Ok(PixelType::UInt8)
    } else if str_eq(value, "UInt16") {
        assert(pixel_type_name(PixelType::UInt16) == value@);
        Ok(PixelType::UInt16)
    } else if str_eq(value, "UInt32") {
        assert(pixel_type_name(PixelType::UInt32) == value@);
        Ok(PixelType::UInt32)
    } else if str_eq(value, "Float32") {
        assert(pixel_type_name(PixelType::Float32) == value@);
        Ok(PixelType::Float32)
    } else if str_eq(value, "Float64") {
        assert(pixel_type_name(PixelType::Float64) == value@);
        Ok(PixelType::Float64)
    } else {
        assert forall|t: PixelType| pixel_type_name(t) != value@ by {
            match t {
                PixelType::UInt8 => {},
                PixelType::UInt16 => {},
                PixelType::UInt32 => {},
                PixelType::Float32 => {},
                PixelType::Float64 => {},
            }
        }
        Err(
            Error::invalid_argument(
                "pixel_type_from_field_value: unrecognized pixelType field value",
            ),
        )
    }
}

/// The TIFF BitsPerSample value for `pixel_type`.
pub fn bits_per_sample_for(pixel_type: PixelType) -> (b: u16)
    ensures
        b == 8 * sample_bytes(pixel_type),
{
    (bytes_per_sample(pixel_type) as u16) * 8
}

/// The TIFF SampleFormat value for `pixel_type` (1 unsigned int, 3 float).
pub fn sample_format_for(pixel_type: PixelType) -> (f: u16)
    ensures
        f == sample_format_code(pixel_type),
{
    if pixel_type.is_integer() {
        1
    } else {
        3
    }
}

/// The BitsPerSample/SampleFormat pair written for a pixel type resolves back
/// to that pixel type.
pub proof fn lemma_pixel_format_round_trip(t: PixelType)
    ensures
        pixel_type_of((8 * sample_bytes(t)) as u64, sample_format_code(t) as u64) == Some(t),
{
}

/// A pixel type's storage-model name parses back to that pixel type.
pub proof fn lemma_pixel_type_name_round_trip(t: PixelType, u: PixelType)
    requires
        pixel_type_name(u) == pixel_type_name(t),
    ensures
        u == t,
{
    lemma_pixel_type_names_distinct(u, t);
}

/// Pixel type names are distinct, for all pairs at once.
pub proof fn lemma_pixel_type_name_injective()
    ensures
        forall|a: PixelType, b: PixelType| pixel_type_name(a) == pixel_type_name(b) ==> a == b,
{
    assert forall|a: PixelType, b: PixelType| pixel_type_name(a) == pixel_type_name(b) implies a == b by {
        lemma_pixel_type_names_distinct(a, b);
    }
}

/// The pixel type names are pairwise distinct.
pub proof fn lemma_pixel_names_distinct()
    ensures
        "UInt8"@ != "UInt16"@,
        "UInt8"@ != "UInt32"@,
        "UInt8"@ != "Float32"@,
        "UInt8"@ != "Float64"@,
        "UInt16"@ != "UInt32"@,
        "UInt16"@ != "Float32"@,
        "UInt16"@ != "Float64"@,
        "UInt32"@ != "Float32"@,
        "UInt32"@ != "Float64"@,
        "Float32"@ != "Float64"@,
{
    lemma_pixel_type_name_injective();
    assert(pixel_type_name(PixelType::UInt8) != pixel_type_name(PixelType::UInt16));
    assert(pixel_type_name(PixelType::UInt8) != pixel_type_name(PixelType::UInt32));
    assert(pixel_type_name(PixelType::UInt8) != pixel_type_name(PixelType::Float32));
    assert(pixel_type_name(PixelType::UInt8) != pixel_type_name(PixelType::Float64));
    assert(pixel_type_name(PixelType::UInt16) != pixel_type_name(PixelType::UInt32));
    assert(pixel_type_name(PixelType::UInt16) != pixel_type_name(PixelType::Float32));
    assert(pixel_type_name(PixelType::UInt16) != pixel_type_name(PixelType::Float64));
    assert(pixel_type_name(PixelType::UInt32) != pixel_type_name(PixelType::Float32));
    assert(pixel_type_name(PixelType::UInt32) != pixel_type_name(PixelType::Float64));
    assert(pixel_type_name(PixelType::Float32) != pixel_type_name(PixelType::Float64));
}

} // verus!
