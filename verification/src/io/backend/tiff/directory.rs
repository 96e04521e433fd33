//! The resolved directory the TIFF backend needs from one IFD, and the
//! interpretation of a parsed IFD against the supported baseline subset.
use crate::error::{Error, ErrorCode, Result};
use crate::io::storage_model::{keys_sorted, Entries, StorageModel};
use crate::pixel_type::PixelType;
use crate::text::{decimal_chars, u32_to_string};
use crate::tile::{TileExtent, TileLayout};
use vstd::prelude::*;

use super::checked_arithmetic::K_MAX_TAG_COUNT;
use super::endian::Endian;
use super::ifd::TiffIfd;
use super::pixel_format::{
    pixel_type_field_value, pixel_type_name, pixel_type_of, require_uniform_bits_per_sample,
    resolve_pixel_type, uniform,
};
use super::ptiff_metadata::{all_bytes, byte_seq, decode_metadata_payload, domain_prefix, parse_payload, records_view, RecordsView};
use super::tag::{tag_code, TagId};

verus! {

/// One strip or tile's pixel-data byte range.
#[derive(Debug, Clone, Copy, PartialEq, Eq, Structural)]
pub struct TileByteRange {
    /// Absolute file offset of the strip/tile's pixel data.
    pub offset: u64,
    /// Number of bytes in the strip/tile.
    pub byte_count: u64,
}

impl TileByteRange {
    /// The range of `byte_count` bytes at `offset`.
    pub fn new(offset: u64, byte_count: u64) -> (r: Self)
        ensures
            r.offset == offset,
            r.byte_count == byte_count,
    {
        TileByteRange { offset, byte_count }
    }
}

/// Compression scheme (TIFF tag 259).
#[derive(Debug, Clone, Copy, PartialEq, Eq, Hash, Structural)]
pub enum TiffCompression {
    /// Uncompressed (1).
    NoCompression,
    /// TIFF LZW (5).
    Lzw,
    /// TIFF PackBits (32773).
    PackBits,
    /// zlib-wrapped Deflate (8, or the legacy 32946).
    Deflate,
    /// New-style JPEG (7).
    Jpeg,
}

/// Predictor applied before compression (TIFF tag 317).
#[derive(Debug, Clone, Copy, PartialEq, Eq, Hash, Structural)]
pub enum TiffPredictor {
    /// No predictor (1).
    NoPredictor,
    /// Horizontal differencing (2).
    HorizontalDifferencing,
}

/// Everything the TIFF backend needs from one IFD: image size and pixel
/// format, the tile grid (strips are tiles as wide as the image), each
/// strip's or tile's byte range, and the write-side patch addresses.
#[derive(Debug, PartialEq, Eq)]
pub struct TiffDirectory {
    /// Image width in pixels.
    pub image_width: u32,
    /// Image height in pixels.
    pub image_height: u32,
    /// Resolved pixel sample type.
    pub pixel_type: PixelType,
    /// Samples per pixel (1 to 512).
    pub samples_per_pixel: u32,
    /// The tile grid (strips modelled as tiles).
    pub layout: TileLayout,
    /// One byte range per strip/tile, row-major.
    pub tile_byte_ranges: Vec<TileByteRange>,
    /// Compression scheme.
    pub compression: TiffCompression,
    /// Predictor.
    pub predictor: TiffPredictor,
    /// Byte order the file declares.
    pub endian: Endian,
    /// Width in bytes of offset/byte-count value slots (4 classic, 8
    /// BigTIFF); used on the write side.
    pub offset_value_bytes: u8,
    /// Absolute file offset of the StripByteCounts value area (write side,
    /// compressed strips).
    pub strip_byte_counts_patch_offset: u64,
    /// Absolute file offset of each tile's TileOffsets value slot (write
    /// side, tiled layouts).
    pub tile_offsets_value_addresses: Vec<u64>,
    /// Absolute file offset of each tile's TileByteCounts value slot (write
    /// side, tiled layouts).
    pub tile_byte_counts_value_addresses: Vec<u64>,
    /// JPEG quality in [0, 100] (JPEG only).
    pub jpeg_quality: u32,
    /// PTIFF extension metadata read from tags 65001-65005, as fields named
    /// `ptiff.<domain>.<key>`.
    pub ptiff_fields: StorageModel,
}

impl TiffDirectory {
    /// The empty directory: zero-sized 8-bit grayscale, uncompressed, no
    /// tiles, little-endian, classic offsets, JPEG quality 90.
    pub fn empty() -> (d: Self)
        ensures
            d.image_width == 0,
            d.image_height == 0,
            d.pixel_type == PixelType::UInt8,
            d.samples_per_pixel == 1,
            d.layout == (TileLayout {
                tile_size: TileExtent { width: 0, height: 0 },
                image_width: 0,
                image_height: 0,
                level_count: 0,
            }),
            d.tile_byte_ranges@ == Seq::<TileByteRange>::empty(),
            d.compression == TiffCompression::NoCompression,
            d.predictor == TiffPredictor::NoPredictor,
            d.endian == Endian::Little,
            d.offset_value_bytes == 4,
            d.strip_byte_counts_patch_offset == 0,
            d.tile_offsets_value_addresses@ == Seq::<u64>::empty(),
            d.tile_byte_counts_value_addresses@ == Seq::<u64>::empty(),
            d.jpeg_quality == 90,
            d.ptiff_fields.entries() == Seq::<(Seq<char>, Seq<char>)>::empty(),
    {
        TiffDirectory {
            image_width: 0,
            image_height: 0,
            pixel_type: PixelType::UInt8,
            samples_per_pixel: 1,
            layout: TileLayout::new(TileExtent::new(0, 0), 0, 0, 0),
            tile_byte_ranges: Vec::new(),
            compression: TiffCompression::NoCompression,
            predictor: TiffPredictor::NoPredictor,
            endian: Endian::Little,
            offset_value_bytes: 4,
            strip_byte_counts_patch_offset: 0,
            tile_offsets_value_addresses: Vec::new(),
            tile_byte_counts_value_addresses: Vec::new(),
            jpeg_quality: 90,
            ptiff_fields: StorageModel::new(),
        }
    }
}

impl Default for TiffDirectory {
    fn default() -> (d: Self)
        ensures
            d.image_width == 0,
            d.image_height == 0,
            d.pixel_type == PixelType::UInt8,
            d.samples_per_pixel == 1,
            d.tile_byte_ranges@ == Seq::<TileByteRange>::empty(),
            d.compression == TiffCompression::NoCompression,
            d.predictor == TiffPredictor::NoPredictor,
            d.endian == Endian::Little,
            d.offset_value_bytes == 4,
            d.jpeg_quality == 90,
    {
        TiffDirectory::empty()
    }
}

// ---------------------------------------------------------------------------
// What an IFD's tags say.
// ---------------------------------------------------------------------------

/// The first value of a required tag: `None` when absent or empty.
pub open spec fn tag_single(m: Map<u16, Seq<u64>>, tag: u16) -> Option<u64> {
    if m.contains_key(tag) && m[tag].len() > 0 {
        Some(m[tag][0])
    } else {
        None
    }
}

/// The first value of an optional tag, `fallback` when absent: `None` when
/// present but empty.
pub open spec fn tag_single_or(m: Map<u16, Seq<u64>>, tag: u16, fallback: u64) -> Option<u64> {
    if !m.contains_key(tag) {
        Some(fallback)
    } else if m[tag].len() > 0 {
        Some(m[tag][0])
    } else {
        None
    }
}

/// The compression scheme a Compression tag value denotes.
pub open spec fn compression_of_code(c: u64) -> Option<TiffCompression> {
    if c == 1 {
        Some(TiffCompression::NoCompression)
    } else if c == 5 {
        Some(TiffCompression::Lzw)
    } else if c == 32773 {
        Some(TiffCompression::PackBits)
    } else if c == 8 || c == 32946 {
        Some(TiffCompression::Deflate)
    } else if c == 7 {
        Some(TiffCompression::Jpeg)
    } else {
        None
    }
}

/// The IFD's compression scheme (default uncompressed).
pub open spec fn ifd_compression(m: Map<u16, Seq<u64>>) -> TiffCompression {
    compression_of_code(tag_single_or(m, 259, 1).unwrap()).unwrap()
}

/// The IFD's pixel type, from BitsPerSample and SampleFormat (default 1).
pub open spec fn ifd_pixel_type(m: Map<u16, Seq<u64>>) -> PixelType {
    pixel_type_of(m[258][0], tag_single_or(m, 339, 1).unwrap()).unwrap()
}

/// The IFD's predictor (default none).
pub open spec fn ifd_predictor(m: Map<u16, Seq<u64>>) -> TiffPredictor {
    if tag_single_or(m, 317, 1) == Some(2u64) {
        TiffPredictor::HorizontalDifferencing
    } else {
        TiffPredictor::NoPredictor
    }
}

/// Whether the image is stored in strips (else in tiles).
pub open spec fn ifd_has_strips(m: Map<u16, Seq<u64>>) -> bool {
    m.contains_key(273)
}

/// The tags holding the strip/tile offsets and byte counts.
pub open spec fn offsets_tag(m: Map<u16, Seq<u64>>) -> u16 {
    if ifd_has_strips(m) {
        273
    } else {
        324
    }
}

/// The tag holding the strip/tile byte counts.
pub open spec fn byte_counts_tag(m: Map<u16, Seq<u64>>) -> u16 {
    if ifd_has_strips(m) {
        279
    } else {
        325
    }
}

/// The IFD's values are all within the supported baseline subset.
pub open spec fn ifd_supported(m: Map<u16, Seq<u64>>) -> bool {
    let spp = tag_single_or(m, 277, 1);
    let comp = tag_single_or(m, 259, 1);
    let photo = tag_single(m, 262);
    let pred = tag_single_or(m, 317, 1);
    let sf = tag_single_or(m, 339, 1);
    &&& tag_single(m, 256) is Some
    &&& tag_single(m, 257) is Some
    &&& spp is Some && 1 <= spp.unwrap() <= 512
    &&& m.contains_key(258) && uniform(m[258])
    &&& comp is Some && compression_of_code(comp.unwrap()) is Some
    &&& photo is Some && (photo.unwrap() == 0 || photo.unwrap() == 1 || photo.unwrap() == 2
        || photo.unwrap() == 6)
    &&& tag_single_or(m, 284, 1) == Some(1u64)
    &&& sf is Some && pixel_type_of(m[258][0], sf.unwrap()) is Some
    &&& pred is Some && (pred.unwrap() == 1 || pred.unwrap() == 2)
    &&& pred.unwrap() == 2 ==> ifd_pixel_type(m) != PixelType::Float32
    &&& pred.unwrap() == 2 ==> ifd_compression(m) != TiffCompression::Jpeg
    &&& ifd_compression(m) == TiffCompression::Jpeg ==> ifd_pixel_type(m) == PixelType::UInt8
    &&& photo.unwrap() == 6 ==> ifd_compression(m) == TiffCompression::Jpeg
    &&& ifd_compression(m) == TiffCompression::Jpeg && spp.unwrap() == 1 ==> (photo.unwrap() == 0
        || photo.unwrap() == 1)
    &&& ifd_compression(m) == TiffCompression::Jpeg && spp.unwrap() == 3 ==> photo.unwrap() == 6
    &&& m.contains_key(273) != m.contains_key(324)
    &&& ifd_has_strips(m) ==> tag_single(m, 278) is Some
    &&& !ifd_has_strips(m) ==> tag_single(m, 322) is Some && tag_single(m, 323) is Some
    &&& m.contains_key(byte_counts_tag(m))
    &&& m[offsets_tag(m)].len() == m[byte_counts_tag(m)].len()
    &&& m[offsets_tag(m)].len() <= K_MAX_TAG_COUNT
}

/// The byte ranges pairing each offset with its byte count.
pub open spec fn byte_ranges(offsets: Seq<u64>, byte_counts: Seq<u64>) -> Seq<TileByteRange> {
    Seq::new(
        offsets.len(),
        |i: int| TileByteRange { offset: offsets[i], byte_count: byte_counts[i] },
    )
}

/// The tile size of the IFD's grid: strips span the image width and
/// RowsPerStrip rows; tiles have TileWidth x TileLength.
pub open spec fn ifd_tile_size(m: Map<u16, Seq<u64>>) -> TileExtent {
    if ifd_has_strips(m) {
        TileExtent {
            width: tag_single(m, 256).unwrap() as u32,
            height: tag_single(m, 278).unwrap() as u32,
        }
    } else {
        TileExtent {
            width: tag_single(m, 322).unwrap() as u32,
            height: tag_single(m, 323).unwrap() as u32,
        }
    }
}

// ---------------------------------------------------------------------------
// PTIFF extension fields.
// ---------------------------------------------------------------------------

/// The domain name PTIFF extension tag `tag` is stored under.
pub open spec fn ptiff_domain_name(tag: u16) -> Seq<char> {
    if tag == 65001 {
        "spice"@
    } else if tag == 65002 {
        "camera"@
    } else if tag == 65003 {
        "crs"@
    } else if tag == 65004 {
        "layers"@
    } else if tag == 65005 {
        "provenance"@
    } else {
        ""@
    }
}

/// The records an IFD's extension tag decodes to (none when the tag is
/// absent or its payload does not decode).
pub open spec fn decoded_domain(m: Map<u16, Seq<u64>>, tag: u16) -> RecordsView {
    if m.contains_key(tag) && all_bytes(m[tag]) && parse_payload(byte_seq(m[tag])) is Some {
        parse_payload(byte_seq(m[tag])).unwrap()
    } else {
        Seq::empty()
    }
}

/// `f` with the first `k` records stored under `pfx` + key.
pub open spec fn with_records(f: Map<Seq<char>, Seq<char>>, pfx: Seq<char>, recs: RecordsView, k: nat) -> Map<Seq<char>, Seq<char>>
    decreases k,
{
    if k == 0 {
        f
    } else {
        with_records(f, pfx, recs, (k - 1) as nat).insert(pfx + recs[k - 1].0, recs[k - 1].1)
    }
}

/// `f` with extension tag `tag`'s records stored as `ptiff.<domain>.<key>`.
pub open spec fn with_domain(f: Map<Seq<char>, Seq<char>>, m: Map<u16, Seq<u64>>, tag: u16) -> Map<Seq<char>, Seq<char>> {
    if ptiff_domain_name(tag).len() == 0 {
        f
    } else {
        with_records(
            f,
            domain_prefix(ptiff_domain_name(tag)),
            decoded_domain(m, tag),
            decoded_domain(m, tag).len(),
        )
    }
}

/// The extension fields of an IFD: the decodable payloads of tags
/// 65001-65005 in tag order.
pub open spec fn ptiff_field_map(m: Map<u16, Seq<u64>>) -> Map<Seq<char>, Seq<char>> {
    with_domain(
        with_domain(
            with_domain(with_domain(with_domain(Map::empty(), m, 65001), m, 65002), m, 65003),
            m,
            65004,
        ),
        m,
        65005,
    )
}

/// `directory` is what the IFD with tag map `m` resolves to.
pub open spec fn interprets_as(m: Map<u16, Seq<u64>>, d: TiffDirectory) -> bool {
    let w = tag_single(m, 256).unwrap() as u32;
    let h = tag_single(m, 257).unwrap() as u32;
    &&& d.image_width == w
    &&& d.image_height == h
    &&& d.pixel_type == ifd_pixel_type(m)
    &&& d.samples_per_pixel == tag_single_or(m, 277, 1).unwrap() as u32
    &&& d.layout == (TileLayout { tile_size: ifd_tile_size(m), image_width: w, image_height: h, level_count: 1 })
    &&& d.tile_byte_ranges@ == byte_ranges(m[offsets_tag(m)], m[byte_counts_tag(m)])
    &&& d.compression == ifd_compression(m)
    &&& d.predictor == ifd_predictor(m)
    &&& d.endian == Endian::Little
    &&& d.offset_value_bytes == 4
    &&& d.strip_byte_counts_patch_offset == 0
    &&& d.tile_offsets_value_addresses@ == Seq::<u64>::empty()
    &&& d.tile_byte_counts_value_addresses@ == Seq::<u64>::empty()
    &&& d.jpeg_quality == 90
    &&& d.ptiff_fields.field_map() == ptiff_field_map(m)
}

// ---------------------------------------------------------------------------
// Interpretation.
// ---------------------------------------------------------------------------

/// The domain name of an extension tag, empty for any other tag.
fn ptiff_prefix_for_tag(tag_id: u16) -> (s: &'static str)
    ensures
        s@ == ptiff_domain_name(tag_id),
{
    match tag_id {
        65001 => "spice",
        65002 => "camera",
        65003 => "crs",
        65004 => "layers",
        65005 => "provenance",
        _ => "",
    }
}

/// Stores the decodable records of extension tag `tag_id` into `fields`; an
/// absent or undecodable payload is skipped.
fn decode_ptiff_tag(ifd: &TiffIfd, tag_id: u16, fields: &mut StorageModel)
    ensures
        final(fields).field_map() == with_domain(old(fields).field_map(), ifd.tag_map(), tag_id),
        final(fields).child_nodes() == old(fields).child_nodes(),
{
    let values = match ifd.tag(tag_id) {
        Ok(v) => v,
        Err(_) => {
            return;
        },
    };
    let records = match decode_metadata_payload(values) {
        Ok(r) => r,
        Err(_) => {
            return;
        },
    };
    let prefix = ptiff_prefix_for_tag(tag_id);
    if prefix.unicode_len() == 0 {
        return;
    }
    let mut pfx = String::from_str("ptiff.");
    pfx.append(prefix);
    pfx.append(".");
    proof {
        reveal_strlit("ptiff.");
        reveal_strlit(".");
        assert(pfx@ =~= domain_prefix(prefix@));
    }
    let ghost recs = records_view(records@);
    let ghost base = fields.field_map();
    let mut i: usize = 0;
    while i < records.len()
        invariant
            0 <= i <= records@.len(),
            recs == records_view(records@),
            pfx@ == domain_prefix(prefix@),
            fields.field_map() == with_records(base, pfx@, recs, i as nat),
            fields.child_nodes() == old(fields).child_nodes(),
        decreases records@.len() - i,
    {
        let mut key = String::from_str(pfx.as_str());
        key.append(records[i].key.as_str());
        fields.set_field(key.as_str(), records[i].value.as_str());
        i = i + 1;
    }
}

/// The first value of a required tag; [`ErrorCode::InvalidArgument`] when
/// it is missing or empty.
fn require_single_value(ifd: &TiffIfd, id: TagId) -> (r: Result<u64>)
    ensures
        r is Ok <==> tag_single(ifd.tag_map(), tag_code(id)) is Some,
        r matches Ok(v) ==> tag_single(ifd.tag_map(), tag_code(id)) == Some(v),
        r matches Err(e) ==> e.kind() == ErrorCode::InvalidArgument,
{
    match ifd.single_value(id.as_u16()) {
        Ok(v) => Ok(v),
        Err(e) => {
            if e.code() == ErrorCode::NotFound {
                Err(Error::invalid_argument("interpretTiffIfd: required tag is missing"))
            } else {
                Err(e)
            }
        },
    }
}

/// The values of a required tag; [`ErrorCode::InvalidArgument`] when it is
/// missing.
fn require_tag(ifd: &TiffIfd, id: TagId) -> (r: Result<Vec<u64>>)
    ensures
        r is Ok <==> ifd.tag_map().contains_key(tag_code(id)),
        r matches Ok(v) ==> v@ == ifd.tag_map()[tag_code(id)],
        r matches Err(e) ==> e.kind() == ErrorCode::InvalidArgument,
{
    match ifd.tag(id.as_u16()) {
        Ok(v) => Ok(vstd::slice::slice_to_vec(v)),
        Err(_) => Err(Error::invalid_argument("interpretTiffIfd: required tag is missing")),
    }
}

/// Pairs each offset with its byte count; [`ErrorCode::InvalidArgument`]
/// when the arrays differ in length or exceed the tag element bound.
fn build_byte_ranges(offsets: &[u64], byte_counts: &[u64]) -> (r: Result<Vec<TileByteRange>>)
    ensures
        r is Ok <==> offsets@.len() == byte_counts@.len() && offsets@.len() <= K_MAX_TAG_COUNT,
        r matches Ok(v) ==> v@ == byte_ranges(offsets@, byte_counts@),
        r matches Err(e) ==> e.kind() == ErrorCode::InvalidArgument,
{
    if offsets.len() != byte_counts.len() {
        return Err(
            Error::invalid_argument(
                "interpretTiffIfd: offsets and byteCounts arrays have mismatched lengths",
            ),
        );
    }
    if offsets.len() as u64 > K_MAX_TAG_COUNT {
        return Err(
            Error::invalid_argument(
                "interpretTiffIfd: strip/tile table exceeds a safe element bound",
            ),
        );
    }
    let mut ranges: Vec<TileByteRange> = Vec::new();
    let mut i: usize = 0;
    while i < offsets.len()
        invariant
            offsets@.len() == byte_counts@.len(),
            0 <= i <= offsets@.len(),
            ranges@ == byte_ranges(offsets@, byte_counts@).subrange(0, i as int),
        decreases offsets@.len() - i,
    {
        ranges.push(TileByteRange::new(offsets[i], byte_counts[i]));
        assert(ranges@ =~= byte_ranges(offsets@, byte_counts@).subrange(0, i + 1));
        i = i + 1;
    }
    assert(byte_ranges(offsets@, byte_counts@).subrange(0, i as int) =~= byte_ranges(
        offsets@,
        byte_counts@,
    ));
    Ok(ranges)
}

/// SamplesPerPixel (default 1), which must be in 1..=512.
fn resolve_samples_per_pixel(ifd: &TiffIfd) -> (r: Result<u64>)
    ensures
        r is Ok <==> (tag_single_or(ifd.tag_map(), 277, 1) matches Some(n) && 1 <= n <= 512),
        r matches Ok(n) ==> tag_single_or(ifd.tag_map(), 277, 1) == Some(n),
        r matches Err(e) ==> e.kind() == ErrorCode::InvalidArgument,
{
    let spp = ifd.single_value_or(TagId::SamplesPerPixel.as_u16(), 1)?;
    if spp < 1 || spp > 512 {
        return Err(Error::invalid_argument("interpretTiffIfd: unsupported SamplesPerPixel"));
    }
    Ok(spp)
}

/// Compression (default 1), which must be a supported scheme.
fn resolve_compression(ifd: &TiffIfd) -> (r: Result<TiffCompression>)
    ensures
        r is Ok <==> (tag_single_or(ifd.tag_map(), 259, 1) matches Some(c) && compression_of_code(c) is Some),
        r matches Ok(c) ==> c == ifd_compression(ifd.tag_map()),
        r matches Err(e) ==> e.kind() == ErrorCode::InvalidArgument,
{
    let compression = ifd.single_value_or(TagId::Compression.as_u16(), 1)?;
    match compression {
        1 => Ok(TiffCompression::NoCompression),
        5 => Ok(TiffCompression::Lzw),
        32773 => Ok(TiffCompression::PackBits),
        8 | 32946 => Ok(TiffCompression::Deflate),
        7 => Ok(TiffCompression::Jpeg),
        _ => Err(Error::invalid_argument("interpretTiffIfd: unsupported Compression value")),
    }
}

/// Predictor (default 1): none, or horizontal differencing, which is
/// rejected for float32 samples and for JPEG.
fn resolve_predictor(ifd: &TiffIfd, pixel_type: PixelType, compression: TiffCompression) -> (r: Result<TiffPredictor>)
    ensures
        r is Ok <==> (tag_single_or(ifd.tag_map(), 317, 1) matches Some(p) && (p == 1 || (p == 2
            && pixel_type != PixelType::Float32 && compression != TiffCompression::Jpeg))),
        r matches Ok(p) ==> p == ifd_predictor(ifd.tag_map()),
        r matches Err(e) ==> e.kind() == ErrorCode::InvalidArgument,
{
    let predictor = ifd.single_value_or(TagId::Predictor.as_u16(), 1)?;
    match predictor {
        1 => Ok(TiffPredictor::NoPredictor),
        2 => {
            if pixel_type == PixelType::Float32 {
                return Err(
                    Error::invalid_argument(
                        "interpretTiffIfd: Predictor=2 is not defined for float32 samples",
                    ),
                );
            }
            if compression == TiffCompression::Jpeg {
                return Err(
                    Error::invalid_argument(
                        "interpretTiffIfd: Predictor=2 is not defined for Jpeg compression",
                    ),
                );
            }
            Ok(TiffPredictor::HorizontalDifferencing)
        },
        _ => Err(Error::invalid_argument("interpretTiffIfd: unsupported Predictor value")),
    }
}

/// PhotometricInterpretation (required): 0, 1, 2 or 6.
fn resolve_photometric_interpretation(ifd: &TiffIfd) -> (r: Result<u64>)
    ensures
        r is Ok <==> (tag_single(ifd.tag_map(), 262) matches Some(p) && (p == 0 || p == 1 || p == 2
            || p == 6)),
        r matches Ok(p) ==> tag_single(ifd.tag_map(), 262) == Some(p),
        r matches Err(e) ==> e.kind() == ErrorCode::InvalidArgument,
{
    let photometric = require_single_value(ifd, TagId::PhotometricInterpretation)?;
    if photometric != 0 && photometric != 1 && photometric != 2 && photometric != 6 {
        return Err(
            Error::invalid_argument("interpretTiffIfd: unsupported PhotometricInterpretation"),
        );
    }
    Ok(photometric)
}

/// PlanarConfiguration (default 1), which must be chunky (1).
fn resolve_planar_configuration(ifd: &TiffIfd) -> (r: Result<u64>)
    ensures
        r is Ok <==> tag_single_or(ifd.tag_map(), 284, 1) == Some(1u64),
        r matches Ok(p) ==> p == 1,
        r matches Err(e) ==> e.kind() == ErrorCode::InvalidArgument,
{
    let planar_config = ifd.single_value_or(TagId::PlanarConfiguration.as_u16(), 1)?;
    if planar_config != 1 {
        return Err(Error::invalid_argument("interpretTiffIfd: unsupported PlanarConfiguration"));
    }
    Ok(planar_config)
}

/// The grid cell size and the tags holding the byte offsets/counts of a
/// stripped or tiled image.
struct StripOrTileLayout {
    tile_width: u32,
    tile_height: u32,
    offsets_tag: TagId,
    byte_counts_tag: TagId,
}

/// Resolves the strip or tile grid.
fn resolve_strip_or_tile_layout(ifd: &TiffIfd, has_strips: bool, image_width: u32) -> (r: Result<StripOrTileLayout>)
    ensures
        r is Ok <==> if has_strips {
            tag_single(ifd.tag_map(), 278) is Some
        } else {
            tag_single(ifd.tag_map(), 322) is Some && tag_single(ifd.tag_map(), 323) is Some
        },
        r matches Ok(l) ==> if has_strips {
            &&& l.tile_width == image_width
            &&& l.tile_height == tag_single(ifd.tag_map(), 278).unwrap() as u32
            &&& tag_code(l.offsets_tag) == 273
            &&& tag_code(l.byte_counts_tag) == 279
        } else {
            &&& l.tile_width == tag_single(ifd.tag_map(), 322).unwrap() as u32
            &&& l.tile_height == tag_single(ifd.tag_map(), 323).unwrap() as u32
            &&& tag_code(l.offsets_tag) == 324
            &&& tag_code(l.byte_counts_tag) == 325
        },
        r matches Err(e) ==> e.kind() == ErrorCode::InvalidArgument,
{
    if has_strips {
        let rows_per_strip = require_single_value(ifd, TagId::RowsPerStrip)?;
        return Ok(
            StripOrTileLayout {
                tile_width: image_width,
                tile_height: rows_per_strip as u32,
                offsets_tag: TagId::StripOffsets,
                byte_counts_tag: TagId::StripByteCounts,
            },
        );
    }
    let tile_width = require_single_value(ifd, TagId::TileWidth)?;
    let tile_length = require_single_value(ifd, TagId::TileLength)?;
    Ok(
        StripOrTileLayout {
            tile_width: tile_width as u32,
            tile_height: tile_length as u32,
            offsets_tag: TagId::TileOffsets,
            byte_counts_tag: TagId::TileByteCounts,
        },
    )
}

/// Interprets a parsed IFD against the supported baseline subset: the
/// result is exactly the directory [`interprets_as`] describes, and
/// [`ErrorCode::InvalidArgument`] comes exactly when a required tag is
/// missing or a tag holds an unsupported value ([`ifd_supported`]).
pub fn interpret_tiff_ifd(ifd: &TiffIfd) -> (r: Result<TiffDirectory>)
    ensures
        r is Ok <==> ifd_supported(ifd.tag_map()),
        r matches Ok(d) ==> interprets_as(ifd.tag_map(), d),
        r matches Err(e) ==> e.kind() == ErrorCode::InvalidArgument,
{
    let ghost m = ifd.tag_map();
    let width = require_single_value(ifd, TagId::ImageWidth)?;
    let height = require_single_value(ifd, TagId::ImageLength)?;
    let samples_per_pixel = resolve_samples_per_pixel(ifd)?;
    let bits_per_sample_values = require_tag(ifd, TagId::BitsPerSample)?;
    require_uniform_bits_per_sample(bits_per_sample_values.as_slice())?;
    let compression = resolve_compression(ifd)?;
    let photometric = resolve_photometric_interpretation(ifd)?;
    resolve_planar_configuration(ifd)?;
    let sample_format = ifd.single_value_or(TagId::SampleFormat.as_u16(), 1)?;
    let pixel_type = resolve_pixel_type(bits_per_sample_values[0], sample_format)?;
    let predictor = resolve_predictor(ifd, pixel_type, compression)?;
    if compression == TiffCompression::Jpeg && pixel_type != PixelType::UInt8 {
        return Err(Error::invalid_argument("interpretTiffIfd: Jpeg compression requires UInt8 samples"));
    }
    if photometric == 6 && compression != TiffCompression::Jpeg {
        return Err(
            Error::invalid_argument(
                "interpretTiffIfd: PhotometricInterpretation=YCbCr(6) requires Jpeg compression",
            ),
        );
    }
    if compression == TiffCompression::Jpeg && samples_per_pixel == 1 && photometric != 0
        && photometric != 1 {
        return Err(
            Error::invalid_argument(
                "interpretTiffIfd: Jpeg grayscale requires PhotometricInterpretation WhiteIsZero(0) or BlackIsZero(1)",
            ),
        );
    }
    if compression == TiffCompression::Jpeg && samples_per_pixel == 3 && photometric != 6 {
        return Err(
            Error::invalid_argument(
                "interpretTiffIfd: Jpeg RGB requires PhotometricInterpretation YCbCr(6)",
            ),
        );
    }
    let has_strips = ifd.tag(TagId::StripOffsets.as_u16()).is_ok();
    let has_tiles = ifd.tag(TagId::TileOffsets.as_u16()).is_ok();
    if has_strips == has_tiles {
        return Err(
            Error::invalid_argument("interpretTiffIfd: image must be exactly one of stripped or tiled"),
        );
    }
    let mut directory = TiffDirectory::empty();
    directory.image_width = width as u32;
    directory.image_height = height as u32;
    directory.pixel_type = pixel_type;
    directory.samples_per_pixel = samples_per_pixel as u32;
    let strip_or_tile = resolve_strip_or_tile_layout(ifd, has_strips, directory.image_width)?;
    let offsets = require_tag(ifd, strip_or_tile.offsets_tag)?;
    let byte_counts = require_tag(ifd, strip_or_tile.byte_counts_tag)?;
    let byte_ranges = build_byte_ranges(offsets.as_slice(), byte_counts.as_slice())?;
    directory.layout = TileLayout::new(
        TileExtent::new(strip_or_tile.tile_width, strip_or_tile.tile_height),
        directory.image_width,
        directory.image_height,
        1,
    );
    directory.tile_byte_ranges = byte_ranges;
    directory.compression = compression;
    directory.predictor = predictor;
    proof {
        assert(directory.ptiff_fields.field_map() =~= Map::<Seq<char>, Seq<char>>::empty());
    }
    decode_ptiff_tag(ifd, TagId::PtiffSpice.as_u16(), &mut directory.ptiff_fields);
    decode_ptiff_tag(ifd, TagId::PtiffCameraGeometry.as_u16(), &mut directory.ptiff_fields);
    decode_ptiff_tag(ifd, TagId::PtiffCrs.as_u16(), &mut directory.ptiff_fields);
    decode_ptiff_tag(ifd, TagId::PtiffScientificLayers.as_u16(), &mut directory.ptiff_fields);
    decode_ptiff_tag(ifd, TagId::PtiffProvenance.as_u16(), &mut directory.ptiff_fields);
    Ok(directory)
}

// ---------------------------------------------------------------------------
// Storage model.
// ---------------------------------------------------------------------------

/// The name a compression scheme is stored under.
pub open spec fn compression_name(c: TiffCompression) -> Seq<char> {
    match c {
        TiffCompression::NoCompression => "None"@,
        TiffCompression::Lzw => "Lzw"@,
        TiffCompression::PackBits => "PackBits"@,
        TiffCompression::Deflate => "Deflate"@,
        TiffCompression::Jpeg => "Jpeg"@,
    }
}

/// The name a predictor is stored under.
pub open spec fn predictor_name(p: TiffPredictor) -> Seq<char> {
    match p {
        TiffPredictor::NoPredictor => "None"@,
        TiffPredictor::HorizontalDifferencing => "HorizontalDifferencing"@,
    }
}

fn compression_field_value(compression: TiffCompression) -> (s: &'static str)
    ensures
        s@ == compression_name(compression),
{
    match compression {
        TiffCompression::NoCompression => "None",
        TiffCompression::Lzw => "Lzw",
        TiffCompression::PackBits => "PackBits",
        TiffCompression::Deflate => "Deflate",
        TiffCompression::Jpeg => "Jpeg",
    }
}

fn predictor_field_value(predictor: TiffPredictor) -> (s: &'static str)
    ensures
        s@ == predictor_name(predictor),
{
    match predictor {
        TiffPredictor::NoPredictor => "None",
        TiffPredictor::HorizontalDifferencing => "HorizontalDifferencing",
    }
}

/// `f` with the first `k` entries of `e` stored in order.
pub open spec fn with_entries(f: Map<Seq<char>, Seq<char>>, e: Entries, k: nat) -> Map<Seq<char>, Seq<char>>
    decreases k,
{
    if k == 0 {
        f
    } else {
        with_entries(f, e, (k - 1) as nat).insert(e[k - 1].0, e[k - 1].1)
    }
}

/// The fields a directory is stored as, before its extension fields.
pub open spec fn directory_base_fields(d: TiffDirectory) -> Map<Seq<char>, Seq<char>> {
    Map::empty().insert("imageWidth"@, decimal_chars(d.image_width as nat)).insert(
        "imageHeight"@,
        decimal_chars(d.image_height as nat),
    ).insert("samplesPerPixel"@, decimal_chars(d.samples_per_pixel as nat)).insert(
        "pixelType"@,
        pixel_type_name(d.pixel_type),
    ).insert("compression"@, compression_name(d.compression)).insert(
        "predictor"@,
        predictor_name(d.predictor),
    ).insert("jpegQuality"@, decimal_chars(d.jpeg_quality as nat))
}

/// The format-neutral [`StorageModel`] of a directory: "imageWidth",
/// "imageHeight", "samplesPerPixel" and "jpegQuality" in decimal,
/// "pixelType", "compression" and "predictor" by name, then every
/// extension field; the model has no children.
pub fn to_storage_model(directory: &TiffDirectory) -> (model: StorageModel)
    ensures
        model.field_map() == with_entries(
            directory_base_fields(*directory),
            directory.ptiff_fields.entries(),
            directory.ptiff_fields.entries().len(),
        ),
        model.child_nodes() == Seq::<StorageModel>::empty(),
{
    let mut model = StorageModel::new();
    model.set_field("imageWidth", u32_to_string(directory.image_width).as_str());
    model.set_field("imageHeight", u32_to_string(directory.image_height).as_str());
    model.set_field("samplesPerPixel", u32_to_string(directory.samples_per_pixel).as_str());
    model.set_field("pixelType", pixel_type_field_value(directory.pixel_type));
    model.set_field("compression", compression_field_value(directory.compression));
    model.set_field("predictor", predictor_field_value(directory.predictor));
    model.set_field("jpegQuality", u32_to_string(directory.jpeg_quality).as_str());
    assert(model.field_map() =~= directory_base_fields(*directory));
    let n = directory.ptiff_fields.field_count();
    let mut i: usize = 0;
    while i < n
        invariant
            n == directory.ptiff_fields.entries().len(),
            0 <= i <= n,
            model.field_map() == with_entries(
                directory_base_fields(*directory),
                directory.ptiff_fields.entries(),
                i as nat,
            ),
            model.child_nodes() == Seq::<StorageModel>::empty(),
        decreases n - i,
    {
        let (key, value) = directory.ptiff_fields.field_at(i);
        model.set_field(key, value);
        i = i + 1;
    }
    model
}

} // verus!
