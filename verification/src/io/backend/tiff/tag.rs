//! TIFF tag and field-type enums plus the raw on-disk entry record.
use vstd::prelude::*;

verus! {

/// Tags at or above this value are private/extension tags.
pub const K_PRIVATE_TAG_BASE: u16 = 32768;

/// Baseline TIFF 6.0 tag ids this backend reads, plus the five PTIFF
/// extension tags (65001-65005).
#[derive(Debug, Clone, Copy, PartialEq, Eq, Hash, Structural)]
pub enum TagId {
    /// Image width in pixels (256).
    ImageWidth,
    /// Image length (height) in rows (257).
    ImageLength,
    /// Bits per sample (258).
    BitsPerSample,
    /// Compression scheme (259).
    Compression,
    /// Photometric interpretation (262).
    PhotometricInterpretation,
    /// Strip byte offsets (273).
    StripOffsets,
    /// Samples per pixel (277).
    SamplesPerPixel,
    /// Rows per strip (278).
    RowsPerStrip,
    /// Strip byte counts (279).
    StripByteCounts,
    /// Planar configuration (284).
    PlanarConfiguration,
    /// Horizontal differencing predictor (317).
    Predictor,
    /// Tile width (322).
    TileWidth,
    /// Tile length (323).
    TileLength,
    /// Tile byte offsets (324).
    TileOffsets,
    /// Tile byte counts (325).
    TileByteCounts,
    /// Extra samples (338).
    ExtraSamples,
    /// Sample format (339).
    SampleFormat,
    /// Chrominance subsampling (530).
    YCbCrSubSampling,
    /// PTIFF extension: SPICE geometry/pointing kernels (65001).
    PtiffSpice,
    /// PTIFF extension: camera model and intrinsics (65002).
    PtiffCameraGeometry,
    /// PTIFF extension: planetary coordinate reference system (65003).
    PtiffCrs,
    /// PTIFF extension: derived per-pixel layers (65004).
    PtiffScientificLayers,
    /// PTIFF extension: processing history (65005).
    PtiffProvenance,
}

/// The on-disk 16-bit id of `t`.
pub open spec fn tag_code(t: TagId) -> u16 {
    match t {
        TagId::ImageWidth => 256,
        TagId::ImageLength => 257,
        TagId::BitsPerSample => 258,
        TagId::Compression => 259,
        TagId::PhotometricInterpretation => 262,
        TagId::StripOffsets => 273,
        TagId::SamplesPerPixel => 277,
        TagId::RowsPerStrip => 278,
        TagId::StripByteCounts => 279,
        TagId::PlanarConfiguration => 284,
        TagId::Predictor => 317,
        TagId::TileWidth => 322,
        TagId::TileLength => 323,
        TagId::TileOffsets => 324,
        TagId::TileByteCounts => 325,
        TagId::ExtraSamples => 338,
        TagId::SampleFormat => 339,
        TagId::YCbCrSubSampling => 530,
        TagId::PtiffSpice => 65001,
        TagId::PtiffCameraGeometry => 65002,
        TagId::PtiffCrs => 65003,
        TagId::PtiffScientificLayers => 65004,
        TagId::PtiffProvenance => 65005,
    }
}

impl TagId {
    /// The raw on-disk 16-bit tag id.
    pub fn as_u16(self) -> (v: u16)
        ensures
            v == tag_code(self),
    {
        match self {
            TagId::ImageWidth => 256,
            TagId::ImageLength => 257,
            TagId::BitsPerSample => 258,
            TagId::Compression => 259,
            TagId::PhotometricInterpretation => 262,
            TagId::StripOffsets => 273,
            TagId::SamplesPerPixel => 277,
            TagId::RowsPerStrip => 278,
            TagId::StripByteCounts => 279,
            TagId::PlanarConfiguration => 284,
            TagId::Predictor => 317,
            TagId::TileWidth => 322,
            TagId::TileLength => 323,
            TagId::TileOffsets => 324,
            TagId::TileByteCounts => 325,
            TagId::ExtraSamples => 338,
            TagId::SampleFormat => 339,
            TagId::YCbCrSubSampling => 530,
            TagId::PtiffSpice => 65001,
            TagId::PtiffCameraGeometry => 65002,
            TagId::PtiffCrs => 65003,
            TagId::PtiffScientificLayers => 65004,
            TagId::PtiffProvenance => 65005,
        }
    }
}

/// The integer field types this backend understands.
#[derive(Debug, Clone, Copy, PartialEq, Eq, Structural)]
pub enum FieldType {
    /// 8-bit unsigned integer (1).
    Byte,
    /// 16-bit unsigned integer (3).
    Short,
    /// 32-bit unsigned integer (4).
    Long,
    /// 64-bit unsigned integer, BigTIFF only (16).
    Long8,
}

/// The field type a raw on-disk type code denotes, if supported.
pub open spec fn field_type_of_code(raw: u16) -> Option<FieldType> {
    if raw == 1 {
        Some(FieldType::Byte)
    } else if raw == 3 {
        Some(FieldType::Short)
    } else if raw == 4 {
        Some(FieldType::Long)
    } else if raw == 16 {
        Some(FieldType::Long8)
    } else {
        None
    }
}

/// The raw on-disk type code of `t`.
pub open spec fn field_type_code(t: FieldType) -> u16 {
    match t {
        FieldType::Byte => 1,
        FieldType::Short => 3,
        FieldType::Long => 4,
        FieldType::Long8 => 16,
    }
}

/// Byte size of one value of `t`.
pub open spec fn field_size(t: FieldType) -> nat {
    match t {
        FieldType::Byte => 1,
        FieldType::Short => 2,
        FieldType::Long => 4,
        FieldType::Long8 => 8,
    }
}

impl FieldType {
    /// Parses a raw 16-bit field-type value, or `None` when unsupported.
    pub fn from_u16(raw: u16) -> (r: Option<Self>)
        ensures
            r == field_type_of_code(raw),
    {
        match raw {
            1 => Some(FieldType::Byte),
            3 => Some(FieldType::Short),
            4 => Some(FieldType::Long),
            16 => Some(FieldType::Long8),
            _ => None,
        }
    }
}

/// Byte size of one value of `field_type` (always `Some`).
pub fn field_type_size(field_type: FieldType) -> (r: Option<u8>)
    ensures
        r == Some(field_size(field_type) as u8),
{
    match field_type {
        FieldType::Byte => Some(1),
        FieldType::Short => Some(2),
        FieldType::Long => Some(4),
        FieldType::Long8 => Some(8),
    }
}

/// One raw, unresolved IFD entry as read from disk.
#[derive(Debug, Clone, PartialEq, Eq)]
pub struct RawTagEntry {
    /// The on-disk 16-bit tag id.
    pub tag_id: u16,
    /// The raw on-disk 16-bit field type (kept even when unsupported).
    pub field_type_raw: u16,
    /// Element count (untrusted, from the file).
    pub count: u64,
    /// The 4-byte (classic) / 8-byte (BigTIFF) value area.
    pub value_area: [u8; 8],
}

/// Byte size of one value of a raw on-disk field type, or `None` when the
/// type is not supported.
pub fn field_type_size_raw(field_type_raw: u16) -> (r: Option<u8>)
    ensures
        r == (match field_type_of_code(field_type_raw) {
            Some(t) => Some(field_size(t) as u8),
            None => None::<u8>,
        }),
{
    match FieldType::from_u16(field_type_raw) {
        Some(FieldType::Byte) => Some(1),
        Some(FieldType::Short) => Some(2),
        Some(FieldType::Long) => Some(4),
        Some(FieldType::Long8) => Some(8),
        None => None,
    }
}

} // verus!
