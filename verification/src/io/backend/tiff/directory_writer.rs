//! Builds the write plan for one or more baseline TIFF/BigTIFF images from
//! a format-neutral [`StorageModel`].
use crate::error::{Error, ErrorCode, Result};
use crate::io::storage_model::StorageModel;
use crate::pixel_type::{is_integer_type, sample_bytes, PixelType};
use crate::text::{parse_decimal, parse_u32_str, str_eq, utf8};
use crate::tile::{TileExtent, TileLayout};
use vstd::prelude::*;

use super::directory::{ptiff_domain_name, TiffCompression, TiffDirectory, TiffPredictor, TileByteRange};
use super::endian::Endian;
use super::header::{K_BIG_TIFF_HEADER_SIZE, K_CLASSIC_TIFF_HEADER_SIZE};
use super::ifd::{count_field_size, table_size, value_area_size};
use super::ifd_writer::{
    fixed_part_size, ifd_size, lemma_out_of_line_total_monotone, lemma_slot_map_bound, out_of_line_size, out_of_line_total,
    slot_map, sorted_by_tag, tiff_ifd_byte_size, value_byte_size, value_slot_offsets_relative,
    TiffIfdEntryToWrite,
};
use super::pixel_format::{bits_per_sample_for, bytes_per_sample, lemma_pixel_type_name_round_trip, pixel_type_from_field_value, pixel_type_name, sample_format_code, sample_format_for};
use super::ptiff_metadata::{
    domain_prefix, encodable, encode_metadata_payload, metadata_payload, records_from_storage_model,
    records_view, records_with_prefix, sorted_by_key, RecordsView,
};
use super::ifd_writer::{lemma_ifd_size_order_free, lemma_tag_order_exists};
use super::tag::{field_size, tag_code, FieldType, TagId};
use crate::io::storage_model::Entries;
use crate::tile::tiles_across;
use std::collections::BTreeMap;

verus! {

/// Everything needed to write one baseline TIFF file: the resolved
/// directory (shared with the read path) and the IFD entries to write.
#[derive(Debug, PartialEq, Eq)]
pub struct TiffWritePlan {
    /// The resolved directory.
    pub directory: TiffDirectory,
    /// The IFD entries to serialize.
    pub entries: Vec<TiffIfdEntryToWrite>,
    /// Whether the file uses the BigTIFF container.
    pub is_big_tiff: bool,
}

/// The layout of a whole TIFF file that may hold several images.
#[derive(Debug, PartialEq, Eq)]
pub struct TiffFileWritePlan {
    /// One plan per image, in chain order.
    pub images: Vec<TiffWritePlan>,
    /// Whether the file uses the BigTIFF container (shared by every image).
    pub is_big_tiff: bool,
}

// ---------------------------------------------------------------------------
// Reading the model's fields.
// ---------------------------------------------------------------------------

/// Fields of a model, by name.
pub type Fields = Map<Seq<char>, Seq<char>>;

/// The `u32` value of field `key`: `None` when absent or not a decimal
/// `u32` numeral.
pub open spec fn field_u32(f: Fields, key: Seq<char>) -> Option<u32> {
    if f.contains_key(key) {
        match parse_decimal(utf8(f[key]), u32::MAX as nat) {
            Some(n) => Some(n as u32),
            None => None,
        }
    } else {
        None
    }
}

/// The pixel type a "pixelType" value names.
pub open spec fn pixel_type_named(v: Seq<char>) -> Option<PixelType> {
    if exists|t: PixelType| pixel_type_name(t) == v {
        Some(choose|t: PixelType| pixel_type_name(t) == v)
    } else {
        None
    }
}

/// The compression scheme a "compression" value names.
pub open spec fn compression_named(v: Seq<char>) -> Option<TiffCompression> {
    if v == "None"@ {
        Some(TiffCompression::NoCompression)
    } else if v == "PackBits"@ {
        Some(TiffCompression::PackBits)
    } else if v == "LZW"@ {
        Some(TiffCompression::Lzw)
    } else if v == "Deflate"@ {
        Some(TiffCompression::Deflate)
    } else if v == "Jpeg"@ {
        Some(TiffCompression::Jpeg)
    } else {
        None
    }
}

/// The predictor a "predictor" value names.
pub open spec fn predictor_named(v: Seq<char>) -> Option<TiffPredictor> {
    if v == "None"@ {
        Some(TiffPredictor::NoPredictor)
    } else if v == "HorizontalDifferencing"@ {
        Some(TiffPredictor::HorizontalDifferencing)
    } else {
        None
    }
}

/// The container a "container" value names (true for BigTIFF).
pub open spec fn container_named(v: Seq<char>) -> Option<bool> {
    if v == "Classic"@ {
        Some(false)
    } else if v == "BigTiff"@ {
        Some(true)
    } else {
        None
    }
}

/// An optional named field: `fallback` when absent, `None` when its value
/// names nothing.
pub open spec fn optional_named<T>(f: Fields, key: Seq<char>, named: spec_fn(Seq<char>) -> Option<T>, fallback: T) -> Option<T> {
    if f.contains_key(key) {
        named(f[key])
    } else {
        Some(fallback)
    }
}

/// The tile size: `Some(None)` for a stripped image (neither "tileWidth"
/// nor "tileHeight"), `Some(Some((w, h)))` for nonzero multiples of 16,
/// `None` otherwise.
pub open spec fn tile_size_field(f: Fields) -> Option<Option<(u32, u32)>> {
    let has_w = f.contains_key("tileWidth"@);
    let has_h = f.contains_key("tileHeight"@);
    if !has_w && !has_h {
        Some(None)
    } else if has_w != has_h {
        None
    } else {
        match (field_u32(f, "tileWidth"@), field_u32(f, "tileHeight"@)) {
            (Some(w), Some(h)) => if w != 0 && h != 0 && w % 16 == 0 && h % 16 == 0 {
                Some(Some((w, h)))
            } else {
                None
            },
            _ => None,
        }
    }
}

/// The JPEG quality: 90 when absent, `None` unless a `u32` up to 100.
pub open spec fn jpeg_quality_field(f: Fields) -> Option<u32> {
    if !f.contains_key("jpegQuality"@) {
        Some(90)
    } else {
        match field_u32(f, "jpegQuality"@) {
            Some(q) => if q <= 100 {
                Some(q)
            } else {
                None
            },
            None => None,
        }
    }
}

/// The required `u32` field `key`; [`ErrorCode::InvalidArgument`] when
/// missing or not a decimal `u32`.
fn require_uint32_field(model: &StorageModel, key: &str) -> (r: Result<u32>)
    ensures
        r is Ok <==> field_u32(model.field_map(), key@) is Some,
        r matches Ok(v) ==> field_u32(model.field_map(), key@) == Some(v),
        r matches Err(e) ==> e.kind() == ErrorCode::InvalidArgument,
{
    let value = match model.field(key) {
        Ok(v) => v,
        Err(_) => {
            return Err(Error::invalid_argument("planTiffWrite: missing required field"));
        },
    };
    match parse_u32_str(value) {
        Some(v) => Ok(v),
        None => Err(
            Error::invalid_argument("planTiffWrite: field is not a valid unsigned integer"),
        ),
    }
}

/// "compression": `None` when absent.
fn parse_compression(model: &StorageModel) -> (r: Result<Option<TiffCompression>>)
    ensures
        r is Ok <==> (!model.field_map().contains_key("compression"@) || compression_named(
            model.field_map()["compression"@],
        ) is Some),
        r matches Ok(c) ==> c == (if model.field_map().contains_key("compression"@) {
            compression_named(model.field_map()["compression"@])
        } else {
            None
        }),
        r matches Err(e) ==> e.kind() == ErrorCode::InvalidArgument,
{
    let value = match model.field("compression") {
        Ok(v) => v,
        Err(_) => {
            return Ok(None);
        },
    };
    if str_eq(value, "None") {
        Ok(Some(TiffCompression::NoCompression))
    } else if str_eq(value, "PackBits") {
        Ok(Some(TiffCompression::PackBits))
    } else if str_eq(value, "LZW") {
        Ok(Some(TiffCompression::Lzw))
    } else if str_eq(value, "Deflate") {
        Ok(Some(TiffCompression::Deflate))
    } else if str_eq(value, "Jpeg") {
        Ok(Some(TiffCompression::Jpeg))
    } else {
        Err(Error::invalid_argument("planTiffWrite: unsupported compression"))
    }
}

/// "predictor": `None` when absent.
fn parse_predictor(model: &StorageModel) -> (r: Result<Option<TiffPredictor>>)
    ensures
        r is Ok <==> (!model.field_map().contains_key("predictor"@) || predictor_named(
            model.field_map()["predictor"@],
        ) is Some),
        r matches Ok(p) ==> p == (if model.field_map().contains_key("predictor"@) {
            predictor_named(model.field_map()["predictor"@])
        } else {
            None
        }),
        r matches Err(e) ==> e.kind() == ErrorCode::InvalidArgument,
{
    let value = match model.field("predictor") {
        Ok(v) => v,
        Err(_) => {
            return Ok(None);
        },
    };
    if str_eq(value, "None") {
        Ok(Some(TiffPredictor::NoPredictor))
    } else if str_eq(value, "HorizontalDifferencing") {
        Ok(Some(TiffPredictor::HorizontalDifferencing))
    } else {
        Err(Error::invalid_argument("planTiffWrite: unsupported predictor"))
    }
}

/// "jpegQuality", defaulting to 90; must be a `u32` in [0, 100].
fn parse_jpeg_quality(model: &StorageModel) -> (r: Result<u32>)
    ensures
        r is Ok <==> jpeg_quality_field(model.field_map()) is Some,
        r matches Ok(q) ==> jpeg_quality_field(model.field_map()) == Some(q),
        r matches Err(e) ==> e.kind() == ErrorCode::InvalidArgument,
{
    let value = match model.field("jpegQuality") {
        Ok(v) => v,
        Err(_) => {
            return Ok(90);
        },
    };
    let parsed = match parse_u32_str(value) {
        Some(q) => q,
        None => {
            return Err(
                Error::invalid_argument(
                    "planTiffWrite: field \"jpegQuality\" is not a valid unsigned integer",
                ),
            );
        },
    };
    if parsed > 100 {
        return Err(Error::invalid_argument("planTiffWrite: jpegQuality must be in [0, 100]"));
    }
    Ok(parsed)
}

/// "container": classic (false) when absent, "Classic" or "BigTiff".
fn parse_container(model: &StorageModel) -> (r: Result<bool>)
    ensures
        r is Ok <==> optional_named(model.field_map(), "container"@, |v| container_named(v), false) is Some,
        r matches Ok(b) ==> optional_named(model.field_map(), "container"@, |v| container_named(v), false)
            == Some(b),
        r matches Err(e) ==> e.kind() == ErrorCode::InvalidArgument,
{
    let value = match model.field("container") {
        Ok(v) => v,
        Err(_) => {
            return Ok(false);
        },
    };
    if str_eq(value, "Classic") {
        Ok(false)
    } else if str_eq(value, "BigTiff") {
        Ok(true)
    } else {
        Err(Error::invalid_argument("planTiffWrite: unsupported container"))
    }
}

/// "tileWidth"/"tileHeight": `None` when both are absent (strips).
fn parse_tile_size(model: &StorageModel) -> (r: Result<Option<(u32, u32)>>)
    ensures
        r is Ok <==> tile_size_field(model.field_map()) is Some,
        r matches Ok(t) ==> tile_size_field(model.field_map()) == Some(t),
        r matches Err(e) ==> e.kind() == ErrorCode::InvalidArgument,
{
    let has_width = model.field("tileWidth").is_ok();
    let has_height = model.field("tileHeight").is_ok();
    if !has_width && !has_height {
        return Ok(None);
    }
    if has_width != has_height {
        return Err(
            Error::invalid_argument(
                "planTiffWrite: \"tileWidth\" and \"tileHeight\" must both be set or both be absent",
            ),
        );
    }
    let width = require_uint32_field(model, "tileWidth")?;
    let height = require_uint32_field(model, "tileHeight")?;
    if width == 0 || height == 0 || width % 16 != 0 || height % 16 != 0 {
        return Err(
            Error::invalid_argument("planTiffWrite: tileWidth/tileHeight must be nonzero multiples of 16"),
        );
    }
    Ok(Some((width, height)))
}

/// Rejects a value beyond the 32-bit range of classic TIFF offsets and
/// byte counts.
fn require_classic_u32(value: u64) -> (r: Result<()>)
    ensures
        r is Ok <==> value <= u32::MAX,
        r matches Err(e) ==> e.kind() == ErrorCode::InvalidArgument,
{
    if value > 0xFFFF_FFFFu64 {
        return Err(
            Error::invalid_argument(
                "planTiffWrite: value exceeds the 32-bit range of the classic TIFF container; select container \"BigTiff\" for files beyond 4 GiB",
            ),
        );
    }
    Ok(())
}

/// `a * b`, or [`ErrorCode::InvalidArgument`] on overflow.
fn checked_multiply(a: u64, b: u64) -> (r: Result<u64>)
    ensures
        r is Ok <==> a * b <= u64::MAX,
        r matches Ok(v) ==> v == a * b,
        r matches Err(e) ==> e.kind() == ErrorCode::InvalidArgument,
{
    match a.checked_mul(b) {
        Some(v) => Ok(v),
        None => Err(Error::invalid_argument("planTiffWrite: strip size computation overflows")),
    }
}

/// Field type of offsets and byte counts: LONG8 in BigTIFF, else LONG.
fn offset_field_type(is_big_tiff: bool) -> (t: FieldType)
    ensures
        t == (if is_big_tiff {
            FieldType::Long8
        } else {
            FieldType::Long
        }),
{
    if is_big_tiff {
        FieldType::Long8
    } else {
        FieldType::Long
    }
}

// ---------------------------------------------------------------------------
// The plan's inputs.
// ---------------------------------------------------------------------------

/// What a model asks to write: size, samples, pixel type, optional tile
/// size, compression, predictor, JPEG quality and container.
#[derive(Debug, Clone, Copy)]
pub struct PlanInputs {
    /// Image width.
    pub width: u32,
    /// Image height.
    pub height: u32,
    /// Samples per pixel.
    pub samples_per_pixel: u32,
    /// Pixel type.
    pub pixel_type: PixelType,
    /// Tile width and height, or `None` for a single strip.
    pub tile: Option<(u32, u32)>,
    /// Compression.
    pub compression: TiffCompression,
    /// Predictor.
    pub predictor: TiffPredictor,
    /// JPEG quality.
    pub jpeg_quality: u32,
    /// Whether the file is BigTIFF.
    pub is_big_tiff: bool,
}

/// The inputs a model's fields give, or `None` when a field is missing or
/// malformed.
pub open spec fn plan_inputs(f: Fields) -> Option<PlanInputs> {
    let w = field_u32(f, "imageWidth"@);
    let h = field_u32(f, "imageHeight"@);
    let spp = field_u32(f, "samplesPerPixel"@);
    let pt = if f.contains_key("pixelType"@) {
        pixel_type_named(f["pixelType"@])
    } else {
        None
    };
    let tile = tile_size_field(f);
    let comp = optional_named(f, "compression"@, |v| compression_named(v), TiffCompression::NoCompression);
    let pred = optional_named(f, "predictor"@, |v| predictor_named(v), TiffPredictor::NoPredictor);
    let q = jpeg_quality_field(f);
    let big = optional_named(f, "container"@, |v| container_named(v), false);
    if w is Some && h is Some && spp is Some && pt is Some && tile is Some && comp is Some && pred is Some
        && q is Some && big is Some {
        Some(
            PlanInputs {
                width: w.unwrap(),
                height: h.unwrap(),
                samples_per_pixel: spp.unwrap(),
                pixel_type: pt.unwrap(),
                tile: tile.unwrap(),
                compression: comp.unwrap(),
                predictor: pred.unwrap(),
                jpeg_quality: q.unwrap(),
                is_big_tiff: big.unwrap(),
            },
        )
    } else {
        None
    }
}

/// The inputs describe a writable image: 1 to 512 samples, JPEG only for
/// 8-bit samples, horizontal differencing only for integer samples and not
/// with JPEG, and no predictor on uncompressed tiles.
pub open spec fn inputs_consistent(p: PlanInputs) -> bool {
    &&& 1 <= p.samples_per_pixel <= 512
    &&& p.compression == TiffCompression::Jpeg ==> p.pixel_type == PixelType::UInt8
    &&& p.predictor == TiffPredictor::HorizontalDifferencing ==> is_integer_type(p.pixel_type)
    &&& p.predictor == TiffPredictor::HorizontalDifferencing ==> p.compression != TiffCompression::Jpeg
    &&& p.tile is Some && p.predictor != TiffPredictor::NoPredictor ==> p.compression
        != TiffCompression::NoCompression
}

/// Bytes of one tile (tiled) or of the single strip.
pub open spec fn cell_bytes(p: PlanInputs) -> nat {
    let bps = sample_bytes(p.pixel_type);
    match p.tile {
        Some((tw, th)) => (tw * p.samples_per_pixel * bps * th) as nat,
        None => (p.width * p.samples_per_pixel * bps * p.height) as nat,
    }
}

/// Number of tiles (tiled) or 1 (strip).
pub open spec fn cell_count(p: PlanInputs) -> nat {
    match p.tile {
        Some((tw, th)) => tiles_across(p.width as nat, tw as nat) * tiles_across(p.height as nat, th as nat),
        None => 1,
    }
}

/// PhotometricInterpretation: YCbCr (6) for JPEG RGB, RGB (2) for three
/// samples, else BlackIsZero (1).
pub open spec fn photometric_of(p: PlanInputs) -> u64 {
    if p.compression == TiffCompression::Jpeg && p.samples_per_pixel == 3 {
        6
    } else if p.samples_per_pixel == 3 {
        2
    } else {
        1
    }
}

/// The Compression tag value.
pub open spec fn compression_code(c: TiffCompression) -> u64 {
    match c {
        TiffCompression::Lzw => 5,
        TiffCompression::PackBits => 32773,
        TiffCompression::Deflate => 8,
        TiffCompression::Jpeg => 7,
        TiffCompression::NoCompression => 1,
    }
}

/// An entry as (tag, field type, values).
pub type EntryView = (u16, FieldType, Seq<u64>);

/// The views of a sequence of entries.
pub open spec fn entry_views(s: Seq<TiffIfdEntryToWrite>) -> Seq<EntryView> {
    s.map_values(|e: TiffIfdEntryToWrite| (e.tag_id, e.field_type, e.values@))
}

/// The field type of offsets and byte counts.
pub open spec fn offset_type(is_big_tiff: bool) -> FieldType {
    if is_big_tiff {
        FieldType::Long8
    } else {
        FieldType::Long
    }
}

/// The entries every image carries, plus ExtraSamples when there are more
/// samples than the photometric interpretation accounts for.
pub open spec fn base_entries(p: PlanInputs) -> Seq<EntryView> {
    let spp = p.samples_per_pixel as nat;
    let baseline: nat = if photometric_of(p) == 2 {
        3
    } else {
        1
    };
    seq![
        (256u16, FieldType::Long, seq![p.width as u64]),
        (257u16, FieldType::Long, seq![p.height as u64]),
        (258u16, FieldType::Short, Seq::new(spp, |i: int| (8 * sample_bytes(p.pixel_type)) as u64)),
        (259u16, FieldType::Long, seq![compression_code(p.compression)]),
        (262u16, FieldType::Long, seq![photometric_of(p)]),
        (277u16, FieldType::Long, seq![p.samples_per_pixel as u64]),
        (339u16, FieldType::Short, seq![sample_format_code(p.pixel_type) as u64]),
    ] + if spp > baseline {
        seq![(338u16, FieldType::Short, Seq::new((spp - baseline) as nat, |i: int| 0u64))]
    } else {
        Seq::empty()
    }
}

/// The absolute offset of every tile (or of the strip) when pixel data
/// starts at `data_offset` and the cells are laid out back to back.
pub open spec fn data_offsets(p: PlanInputs, data_offset: nat) -> Seq<u64> {
    Seq::new(cell_count(p), |i: int| (data_offset + i * cell_bytes(p)) as u64)
}

/// The grid entries with cell offsets `offsets`: tile size, tile offsets
/// and byte counts; or strip offset, rows per strip and strip byte count
/// (0 when compressed, patched after encoding).
pub open spec fn layout_entries(p: PlanInputs, offsets: Seq<u64>) -> Seq<EntryView> {
    let ft = offset_type(p.is_big_tiff);
    match p.tile {
        Some((tw, th)) => seq![
            (322u16, FieldType::Long, seq![tw as u64]),
            (323u16, FieldType::Long, seq![th as u64]),
            (324u16, ft, offsets),
            (325u16, ft, Seq::new(cell_count(p), |i: int| cell_bytes(p) as u64)),
        ],
        None => seq![
            (273u16, ft, offsets),
            (278u16, FieldType::Long, seq![p.height as u64]),
            (279u16, ft, seq![
                if p.compression == TiffCompression::NoCompression {
                    cell_bytes(p) as u64
                } else {
                    0u64
                },
            ]),
        ],
    }
}

/// The Predictor and YCbCrSubSampling entries, when they apply.
pub open spec fn option_entries(p: PlanInputs) -> Seq<EntryView> {
    (if p.predictor != TiffPredictor::NoPredictor {
        seq![(317u16, FieldType::Long, seq![2u64])]
    } else {
        Seq::empty()
    }) + if photometric_of(p) == 6 {
        seq![(530u16, FieldType::Short, seq![1u64, 1u64])]
    } else {
        Seq::empty()
    }
}

/// The records of PTIFF domain `name` in the model's fields.
pub open spec fn domain_records(e: Entries, name: Seq<char>) -> RecordsView {
    records_with_prefix(e, domain_prefix(name), e.len())
}

/// The entry of PTIFF extension tag `tag` for domain `name`: its payload
/// bytes, when the model holds any of the domain's fields.
pub open spec fn domain_entry(e: Entries, tag: u16, name: Seq<char>) -> Seq<EntryView> {
    let r = domain_records(e, name);
    if r.len() == 0 {
        Seq::empty()
    } else {
        seq![(tag, FieldType::Byte, metadata_payload(sorted_by_key(r)).map_values(|b: u8| b as u64))]
    }
}

/// Every PTIFF domain with fields fits the payload format.
pub open spec fn domains_encodable(e: Entries) -> bool {
    &&& encodable(domain_records(e, "spice"@))
    &&& encodable(domain_records(e, "camera"@))
    &&& encodable(domain_records(e, "crs"@))
    &&& encodable(domain_records(e, "layers"@))
    &&& encodable(domain_records(e, "provenance"@))
}

/// The PTIFF extension entries, in tag order 65001-65005.
pub open spec fn ptiff_entries(e: Entries) -> Seq<EntryView> {
    domain_entry(e, 65001, "spice"@) + domain_entry(e, 65002, "camera"@) + domain_entry(
        e,
        65003,
        "crs"@,
    ) + domain_entry(e, 65004, "layers"@) + domain_entry(e, 65005, "provenance"@)
}

/// All entries of the plan, with cell offsets `offsets`.
#[verifier::opaque]
pub open spec fn planned_entries(p: PlanInputs, e: Entries, offsets: Seq<u64>) -> Seq<EntryView> {
    base_entries(p) + layout_entries(p, offsets) + option_entries(p) + ptiff_entries(e)
}

/// Header size of the container.
pub open spec fn header_size(is_big_tiff: bool) -> nat {
    if is_big_tiff {
        16
    } else {
        8
    }
}

// ---------------------------------------------------------------------------
// Sizes of entry views.
// ---------------------------------------------------------------------------

/// Out-of-line byte size of an entry view.
pub open spec fn view_out_of_line_size(v: EntryView, is_big_tiff: bool) -> nat {
    let size = field_size(v.1) * v.2.len();
    if size > value_area_size(is_big_tiff) {
        size
    } else {
        0
    }
}

/// Out-of-line total of the first `k` entry views.
pub open spec fn view_out_of_line_total(s: Seq<EntryView>, k: nat, is_big_tiff: bool) -> nat
    decreases k,
{
    if k == 0 {
        0
    } else {
        view_out_of_line_total(s, (k - 1) as nat, is_big_tiff) + view_out_of_line_size(
            s[k - 1],
            is_big_tiff,
        )
    }
}

/// Byte size of the IFD holding entries with views `s`.
pub open spec fn view_ifd_size(s: Seq<EntryView>, is_big_tiff: bool) -> nat {
    fixed_part_size(s.len(), is_big_tiff) + view_out_of_line_total(s, s.len(), is_big_tiff)
}

/// Out-of-line totals depend on the entries' views alone.
proof fn lemma_view_total(s: Seq<TiffIfdEntryToWrite>, k: nat, is_big_tiff: bool)
    requires
        k <= s.len(),
    ensures
        out_of_line_total(s, k, is_big_tiff) == view_out_of_line_total(entry_views(s), k, is_big_tiff),
    decreases k,
{
    if k > 0 {
        lemma_view_total(s, (k - 1) as nat, is_big_tiff);
    }
}

/// An IFD's size depends on its entries' views alone.
proof fn lemma_view_ifd_size(s: Seq<TiffIfdEntryToWrite>, is_big_tiff: bool)
    ensures
        ifd_size(s, is_big_tiff) == view_ifd_size(entry_views(s), is_big_tiff),
{
    lemma_view_total(s, s.len(), is_big_tiff);
}

/// The number of views in `s` whose tag is below `tag`.
pub open spec fn tags_below(s: Seq<EntryView>, tag: u16) -> nat
    decreases s.len(),
{
    if s.len() == 0 {
        0
    } else {
        tags_below(s.drop_last(), tag) + if s.last().0 < tag {
            1nat
        } else {
            0nat
        }
    }
}

/// Absolute addresses of the value slots of `tag` in the IFD of `entries`
/// placed at `base`; empty when no entry has that tag.
pub open spec fn value_addresses(entries: Seq<TiffIfdEntryToWrite>, is_big_tiff: bool, tag: u16, base: nat) -> Seq<u64> {
    let m = slot_map(sorted_by_tag(entries), entries.len(), is_big_tiff);
    if m.contains_key(tag) {
        m[tag].map_values(|x: u64| (base + x) as u64)
    } else {
        Seq::empty()
    }
}

// ---------------------------------------------------------------------------
// The plan.
// ---------------------------------------------------------------------------

/// Where pixel data starts: right after the header and the IFD.
pub open spec fn planned_data_offset(p: PlanInputs, e: Entries) -> nat {
    header_size(p.is_big_tiff) + view_ifd_size(
        planned_entries(p, e, Seq::new(cell_count(p), |i: int| 0u64)),
        p.is_big_tiff,
    )
}

/// The largest offset or byte count the container holds.
pub open spec fn container_limit(is_big_tiff: bool) -> nat {
    if is_big_tiff {
        u64::MAX as nat
    } else {
        u32::MAX as nat
    }
}

/// A model can be planned: its inputs are consistent, a cell's byte count
/// and every cell's offset fit the container, the IFD fits the address
/// range, and every PTIFF domain fits the payload format.
pub open spec fn plan_ok(f: Fields, e: Entries) -> bool {
    let p = plan_inputs(f).unwrap();
    let d = planned_data_offset(p, e);
    &&& plan_inputs(f) is Some
    &&& inputs_consistent(p)
    &&& cell_bytes(p) <= container_limit(p.is_big_tiff)
    &&& domains_encodable(e)
    &&& d <= u64::MAX
    &&& cell_count(p) > 0 ==> d + (cell_count(p) - 1) * cell_bytes(p) <= container_limit(p.is_big_tiff)
}

/// `plan` is the plan of the model with fields `f` and field table `e`.
pub open spec fn plan_matches(f: Fields, e: Entries, plan: TiffWritePlan) -> bool {
    let p = plan_inputs(f).unwrap();
    let big = p.is_big_tiff;
    let d = planned_data_offset(p, e);
    let dir = plan.directory;
    let header = header_size(big);
    &&& plan.is_big_tiff == big
    &&& entry_views(plan.entries@) == planned_entries(p, e, data_offsets(p, d))
    &&& dir.image_width == p.width
    &&& dir.image_height == p.height
    &&& dir.pixel_type == p.pixel_type
    &&& dir.samples_per_pixel == p.samples_per_pixel
    &&& dir.layout == (TileLayout {
        tile_size: match p.tile {
            Some((tw, th)) => TileExtent { width: tw, height: th },
            None => TileExtent { width: p.width, height: p.height },
        },
        image_width: p.width,
        image_height: p.height,
        level_count: 1,
    })
    &&& dir.tile_byte_ranges@ == Seq::new(
        cell_count(p),
        |i: int| TileByteRange { offset: data_offsets(p, d)[i], byte_count: cell_bytes(p) as u64 },
    )
    &&& dir.compression == p.compression
    &&& dir.predictor == p.predictor
    &&& dir.endian == Endian::Little
    &&& dir.offset_value_bytes == (if big {
        8u8
    } else {
        4u8
    })
    &&& dir.strip_byte_counts_patch_offset == (if p.tile is Some {
        0
    } else {
        header + count_field_size(big) + table_size(tags_below(entry_views(plan.entries@), 279), big)
            + if big {
            12nat
        } else {
            8nat
        }
    })
    &&& dir.tile_offsets_value_addresses@ == (if p.tile is Some {
        value_addresses(plan.entries@, big, 324, header)
    } else {
        Seq::empty()
    })
    &&& dir.tile_byte_counts_value_addresses@ == (if p.tile is Some {
        value_addresses(plan.entries@, big, 325, header)
    } else {
        Seq::empty()
    })
    &&& dir.jpeg_quality == p.jpeg_quality
    &&& dir.ptiff_fields.entries() == Seq::<(Seq<char>, Seq<char>)>::empty()
}

// ---------------------------------------------------------------------------
// Planning.
// ---------------------------------------------------------------------------

/// Reads the model's inputs and checks that they describe a writable image.
fn read_plan_inputs(model: &StorageModel) -> (r: Result<PlanInputs>)
    ensures
        r is Ok <==> plan_inputs(model.field_map()) is Some && inputs_consistent(
            plan_inputs(model.field_map()).unwrap(),
        ),
        r matches Ok(p) ==> plan_inputs(model.field_map()) == Some(p),
        r matches Err(e) ==> e.kind() == ErrorCode::InvalidArgument,
{
    let ghost f = model.field_map();
    let image_width = require_uint32_field(model, "imageWidth")?;
    let image_height = require_uint32_field(model, "imageHeight")?;
    let samples_per_pixel = require_uint32_field(model, "samplesPerPixel")?;
    if samples_per_pixel < 1 || samples_per_pixel > 512 {
        return Err(Error::invalid_argument("planTiffWrite: unsupported samplesPerPixel"));
    }
    let pixel_type_field = match model.field("pixelType") {
        Ok(v) => v,
        Err(_) => {
            return Err(Error::invalid_argument("planTiffWrite: missing required field \"pixelType\""));
        },
    };
    let pixel_type = pixel_type_from_field_value(pixel_type_field)?;
    proof {
        assert(pixel_type_name(pixel_type) == f["pixelType"@]);
        let t = choose|t: PixelType| pixel_type_name(t) == f["pixelType"@];
        lemma_pixel_type_name_round_trip(pixel_type, t);
        assert(pixel_type_named(f["pixelType"@]) == Some(pixel_type));
    }
    let tile = parse_tile_size(model)?;
    let compression = match parse_compression(model)? {
        Some(c) => c,
        None => TiffCompression::NoCompression,
    };
    let predictor = match parse_predictor(model)? {
        Some(p) => p,
        None => TiffPredictor::NoPredictor,
    };
    if compression == TiffCompression::Jpeg && pixel_type != PixelType::UInt8 {
        return Err(Error::invalid_argument("planTiffWrite: Jpeg compression requires UInt8 pixelType"));
    }
    let jpeg_quality = parse_jpeg_quality(model)?;
    let is_big_tiff = parse_container(model)?;
    if predictor == TiffPredictor::HorizontalDifferencing && !pixel_type.is_integer() {
        return Err(
            Error::invalid_argument(
                "planTiffWrite: horizontal differencing requires integer samples (UInt8/UInt16/UInt32)",
            ),
        );
    }
    if predictor == TiffPredictor::HorizontalDifferencing && compression == TiffCompression::Jpeg {
        return Err(Error::invalid_argument("planTiffWrite: Predictor is not defined for Jpeg compression"));
    }
    if tile.is_some() && predictor != TiffPredictor::NoPredictor && compression
        == TiffCompression::NoCompression {
        return Err(
            Error::invalid_argument(
                "planTiffWrite: a predictor requires a compression scheme; uncompressed tiled write cannot carry one",
            ),
        );
    }
    Ok(
        PlanInputs {
            width: image_width,
            height: image_height,
            samples_per_pixel,
            pixel_type,
            tile,
            compression,
            predictor,
            jpeg_quality,
            is_big_tiff,
        },
    )
}

/// Bytes of one tile or of the strip; [`ErrorCode::InvalidArgument`] when
/// beyond the container's range.
fn cell_byte_size(p: PlanInputs) -> (r: Result<u64>)
    requires
        inputs_consistent(p),
    ensures
        r is Ok <==> cell_bytes(p) <= container_limit(p.is_big_tiff),
        r matches Ok(v) ==> v == cell_bytes(p),
        r matches Err(e) ==> e.kind() == ErrorCode::InvalidArgument,
{
    let bps = bytes_per_sample(p.pixel_type) as u64;
    let spp = p.samples_per_pixel as u64;
    let (a, b): (u64, u64) = match p.tile {
        Some((tw, th)) => (tw as u64, th as u64),
        None => (p.width as u64, p.height as u64),
    };
    proof {
        assert(a * spp <= 0xFFFF_FFFF * 512) by (nonlinear_arith)
            requires
                a <= 0xFFFF_FFFF,
                spp <= 512,
        ;
        assert(a * spp * bps <= 0xFFFF_FFFF * 512 * 8) by (nonlinear_arith)
            requires
                a * spp <= 0xFFFF_FFFF * 512,
                bps <= 8,
        ;
    }
    let row = checked_multiply(checked_multiply(a, spp)?, bps)?;
    let size = checked_multiply(row, b)?;
    if !p.is_big_tiff {
        require_classic_u32(size)?;
    }
    Ok(size)
}

/// Number of tiles, or 1 for the strip.
fn cell_total(p: PlanInputs) -> (n: u64)
    requires
        p.tile matches Some((tw, th)) ==> tw > 0 && th > 0,
    ensures
        n == cell_count(p),
{
    match p.tile {
        Some((tw, th)) => {
            let columns = (p.width as u64 + tw as u64 - 1) / tw as u64;
            let rows = (p.height as u64 + th as u64 - 1) / th as u64;
            proof {
                assert(columns <= 0xFFFF_FFFF) by (nonlinear_arith)
                    requires
                        columns == (p.width as u64 + tw as u64 - 1) as int / tw as int,
                        tw >= 1,
                        p.width <= 0xFFFF_FFFF,
                ;
                assert(rows <= 0xFFFF_FFFF) by (nonlinear_arith)
                    requires
                        rows == (p.height as u64 + th as u64 - 1) as int / th as int,
                        th >= 1,
                        p.height <= 0xFFFF_FFFF,
                ;
                assert(columns * rows <= 0xFFFF_FFFF * 0xFFFF_FFFF) by (nonlinear_arith)
                    requires
                        columns <= 0xFFFF_FFFF,
                        rows <= 0xFFFF_FFFF,
                ;
            }
            columns * rows
        },
        None => 1,
    }
}

/// `n` copies of `v`.
fn repeat_value(v: u64, n: u64) -> (r: Vec<u64>)
    ensures
        r@ == Seq::new(n as nat, |i: int| v),
{
    let mut r: Vec<u64> = Vec::new();
    let mut i: u64 = 0;
    while i < n
        invariant
            i <= n,
            r@ == Seq::new(i as nat, |k: int| v),
        decreases n - i,
    {
        r.push(v);
        assert(r@ =~= Seq::new((i + 1) as nat, |k: int| v));
        i = i + 1;
    }
    r
}

/// The one-element vector holding `v`.
fn single_value(v: u64) -> (r: Vec<u64>)
    ensures
        r@ == seq![v],
{
    let mut r: Vec<u64> = Vec::new();
    r.push(v);
    assert(r@ =~= seq![v]);
    r
}

/// Appends the entry (`tag`, `field_type`, `values`).
fn push_entry(entries: &mut Vec<TiffIfdEntryToWrite>, tag: u16, field_type: FieldType, values: Vec<u64>)
    ensures
        entry_views(final(entries)@) == entry_views(old(entries)@).push((tag, field_type, values@)),
{
    entries.push(TiffIfdEntryToWrite::new_u64(tag, field_type, values));
    assert(entry_views(entries@) =~= entry_views(old(entries)@).push((tag, field_type, values@)));
}

/// Appends the entries every image carries.
fn push_base_entries(p: PlanInputs, entries: &mut Vec<TiffIfdEntryToWrite>)
    requires
        inputs_consistent(p),
    ensures
        entry_views(final(entries)@) == entry_views(old(entries)@) + base_entries(p),
{
    let photometric: u64 = if p.compression == TiffCompression::Jpeg && p.samples_per_pixel == 3 {
        6
    } else if p.samples_per_pixel == 3 {
        2
    } else {
        1
    };
    let compression_tag: u64 = match p.compression {
        TiffCompression::Lzw => 5,
        TiffCompression::PackBits => 32773,
        TiffCompression::Deflate => 8,
        TiffCompression::Jpeg => 7,
        TiffCompression::NoCompression => 1,
    };
    let ghost start = entry_views(entries@);
    push_entry(entries, TagId::ImageWidth.as_u16(), FieldType::Long, single_value(p.width as u64));
    push_entry(entries, TagId::ImageLength.as_u16(), FieldType::Long, single_value(p.height as u64));
    push_entry(
        entries,
        TagId::BitsPerSample.as_u16(),
        FieldType::Short,
        repeat_value(bits_per_sample_for(p.pixel_type) as u64, p.samples_per_pixel as u64),
    );
    push_entry(entries, TagId::Compression.as_u16(), FieldType::Long, single_value(compression_tag));
    push_entry(
        entries,
        TagId::PhotometricInterpretation.as_u16(),
        FieldType::Long,
        single_value(photometric),
    );
    push_entry(
        entries,
        TagId::SamplesPerPixel.as_u16(),
        FieldType::Long,
        single_value(p.samples_per_pixel as u64),
    );
    push_entry(
        entries,
        TagId::SampleFormat.as_u16(),
        FieldType::Short,
        single_value(sample_format_for(p.pixel_type) as u64),
    );
    let baseline_samples: u32 = if photometric == 2 { 3 } else { 1 };
    if p.samples_per_pixel > baseline_samples {
        push_entry(
            entries,
            TagId::ExtraSamples.as_u16(),
            FieldType::Short,
            repeat_value(0, (p.samples_per_pixel - baseline_samples) as u64),
        );
    }
    assert(entry_views(entries@) =~= start + base_entries(p));
}

/// Appends the grid entries with every cell offset 0 (placed later);
/// returns the index of the offsets entry.
fn push_layout_entries(p: PlanInputs, cell: u64, count: u64, entries: &mut Vec<TiffIfdEntryToWrite>) -> (k: usize)
    requires
        cell == cell_bytes(p),
        count == cell_count(p),
    ensures
        entry_views(final(entries)@) == entry_views(old(entries)@) + layout_entries(
            p,
            Seq::new(cell_count(p), |i: int| 0u64),
        ),
        k == old(entries)@.len() + if p.tile is Some {
            2nat
        } else {
            0nat
        },
{
    let ghost start = entry_views(entries@);
    let ft = offset_field_type(p.is_big_tiff);
    match p.tile {
        Some((tw, th)) => {
            push_entry(entries, TagId::TileWidth.as_u16(), FieldType::Long, single_value(tw as u64));
            push_entry(entries, TagId::TileLength.as_u16(), FieldType::Long, single_value(th as u64));
            let k = entries.len();
            push_entry(entries, TagId::TileOffsets.as_u16(), ft, repeat_value(0, count));
            push_entry(entries, TagId::TileByteCounts.as_u16(), ft, repeat_value(cell, count));
            assert(entry_views(entries@) =~= start + layout_entries(p, Seq::new(cell_count(p), |i: int| 0u64)));
            k
        },
        None => {
            let k = entries.len();
            push_entry(entries, TagId::StripOffsets.as_u16(), ft, single_value(0));
            push_entry(entries, TagId::RowsPerStrip.as_u16(), FieldType::Long, single_value(p.height as u64));
            let count_value: u64 = if p.compression == TiffCompression::NoCompression {
                cell
            } else {
                0
            };
            push_entry(entries, TagId::StripByteCounts.as_u16(), ft, single_value(count_value));
            assert(seq![0u64] =~= Seq::new(1, |i: int| 0u64));
            assert(entry_views(entries@) =~= start + layout_entries(p, Seq::new(cell_count(p), |i: int| 0u64)));
            k
        },
    }
}

/// Appends the Predictor and YCbCrSubSampling entries when they apply.
fn push_option_entries(p: PlanInputs, entries: &mut Vec<TiffIfdEntryToWrite>)
    ensures
        entry_views(final(entries)@) == entry_views(old(entries)@) + option_entries(p),
{
    let ghost start = entry_views(entries@);
    if p.predictor != TiffPredictor::NoPredictor {
        push_entry(entries, TagId::Predictor.as_u16(), FieldType::Long, single_value(2));
    }
    let ghost mid = entry_views(entries@);
    if p.compression == TiffCompression::Jpeg && p.samples_per_pixel == 3 {
        let mut sub: Vec<u64> = Vec::new();
        sub.push(1);
        sub.push(1);
        assert(sub@ =~= seq![1u64, 1u64]);
        push_entry(entries, TagId::YCbCrSubSampling.as_u16(), FieldType::Short, sub);
    }
    assert(entry_views(entries@) =~= start + option_entries(p));
}

/// Appends the entry of PTIFF domain `prefix` under `tag` when the model
/// holds any of its fields.
fn append_ptiff_tag(model: &StorageModel, tag: u16, prefix: &str, entries: &mut Vec<TiffIfdEntryToWrite>) -> (r: Result<()>)
    ensures
        r is Ok <==> encodable(domain_records(model.entries(), prefix@)),
        r is Ok ==> entry_views(final(entries)@) == entry_views(old(entries)@) + domain_entry(
            model.entries(),
            tag,
            prefix@,
        ),
        r matches Err(e) ==> e.kind() == ErrorCode::InvalidArgument,
{
    let records = records_from_storage_model(model, prefix);
    if records.len() == 0 {
        assert(entry_views(entries@) =~= entry_views(old(entries)@) + domain_entry(model.entries(), tag, prefix@));
        return Ok(());
    }
    let payload = encode_metadata_payload(records.as_slice())?;
    let mut byte_values: Vec<u64> = Vec::new();
    let mut i: usize = 0;
    while i < payload.len()
        invariant
            0 <= i <= payload@.len(),
            byte_values@ == payload@.subrange(0, i as int).map_values(|b: u8| b as u64),
        decreases payload@.len() - i,
    {
        byte_values.push(payload[i] as u64);
        assert(byte_values@ =~= payload@.subrange(0, i + 1).map_values(|b: u8| b as u64));
        i = i + 1;
    }
    assert(payload@.subrange(0, i as int) =~= payload@);
    push_entry(entries, tag, FieldType::Byte, byte_values);
    Ok(())
}

/// Appends the PTIFF extension entries (tags 65001-65005) for every domain
/// the model holds fields of.
fn append_ptiff_tags(model: &StorageModel, entries: &mut Vec<TiffIfdEntryToWrite>) -> (r: Result<()>)
    ensures
        r is Ok <==> domains_encodable(model.entries()),
        r is Ok ==> entry_views(final(entries)@) == entry_views(old(entries)@) + ptiff_entries(model.entries()),
        r matches Err(e) ==> e.kind() == ErrorCode::InvalidArgument,
{
    let ghost start = entry_views(entries@);
    let ghost e = model.entries();
    append_ptiff_tag(model, TagId::PtiffSpice.as_u16(), "spice", entries)?;
    append_ptiff_tag(model, TagId::PtiffCameraGeometry.as_u16(), "camera", entries)?;
    append_ptiff_tag(model, TagId::PtiffCrs.as_u16(), "crs", entries)?;
    append_ptiff_tag(model, TagId::PtiffScientificLayers.as_u16(), "layers", entries)?;
    append_ptiff_tag(model, TagId::PtiffProvenance.as_u16(), "provenance", entries)?;
    assert(entry_views(entries@) =~= start + ptiff_entries(e));
    Ok(())
}

/// Whether the IFD of `entries` takes at most `budget` bytes.
fn ifd_size_at_most(entries: &[TiffIfdEntryToWrite], is_big_tiff: bool, budget: u64) -> (r: bool)
    ensures
        r == (ifd_size(entries@, is_big_tiff) <= budget),
{
    let n = entries.len();
    let entry_size: u128 = if is_big_tiff { 20 } else { 12 };
    let fixed: u128 = (if is_big_tiff { 16u128 } else { 6u128 }) + (n as u128) * entry_size;
    assert(fixed == fixed_part_size(n as nat, is_big_tiff));
    let mut total: u128 = fixed;
    let area: u128 = if is_big_tiff { 8 } else { 4 };
    if total > budget as u128 {
        proof {
            lemma_out_of_line_total_monotone(entries@, 0, n as nat, is_big_tiff);
        }
        return false;
    }
    let mut i: usize = 0;
    while i < n
        invariant
            n == entries@.len(),
            0 <= i <= n,
            area == value_area_size(is_big_tiff),
            total == fixed_part_size(n as nat, is_big_tiff) + out_of_line_total(entries@, i as nat, is_big_tiff),
            total <= budget,
        decreases n - i,
    {
        let e = &entries[i];
        let size = (match e.field_type {
            FieldType::Byte => 1u128,
            FieldType::Short => 2u128,
            FieldType::Long => 4u128,
            FieldType::Long8 => 8u128,
        }) * (e.values.len() as u128);
        assert(size == value_byte_size(*e));
        if size > area {
            total = total + size;
        }
        if total > budget as u128 {
            proof {
                lemma_out_of_line_total_monotone(entries@, (i + 1) as nat, n as nat, is_big_tiff);
            }
            return false;
        }
        i = i + 1;
    }
    if total > budget as u128 {
        return false;
    }
    true
}

/// Changing one entry view for one of the same field type and length
/// keeps the IFD size.
proof fn lemma_view_total_update(s: Seq<EntryView>, k: int, x: EntryView, n: nat, is_big_tiff: bool)
    requires
        0 <= k < s.len(),
        n <= s.len(),
        x.1 == s[k].1,
        x.2.len() == s[k].2.len(),
    ensures
        view_out_of_line_total(s.update(k, x), n, is_big_tiff) == view_out_of_line_total(s, n, is_big_tiff),
    decreases n,
{
    if n > 0 {
        lemma_view_total_update(s, k, x, (n - 1) as nat, is_big_tiff);
    }
}

/// No more views are below `tag` than there are views.
proof fn lemma_tags_below_len(s: Seq<EntryView>, tag: u16)
    ensures
        tags_below(s, tag) <= s.len(),
    decreases s.len(),
{
    if s.len() > 0 {
        lemma_tags_below_len(s.drop_last(), tag);
    }
}

/// A view with a tag at or above `tag` is not counted.
proof fn lemma_tags_below_lt(s: Seq<EntryView>, tag: u16, j: int)
    requires
        0 <= j < s.len(),
        s[j].0 >= tag,
    ensures
        tags_below(s, tag) < s.len(),
    decreases s.len(),
{
    if j == s.len() - 1 {
        lemma_tags_below_len(s.drop_last(), tag);
    } else {
        lemma_tags_below_lt(s.drop_last(), tag, j);
    }
}

/// The number of entries whose tag is below `tag`.
fn count_tags_below(entries: &[TiffIfdEntryToWrite], tag: u16) -> (n: usize)
    ensures
        n == tags_below(entry_views(entries@), tag),
{
    let mut n: usize = 0;
    let mut i: usize = 0;
    while i < entries.len()
        invariant
            0 <= i <= entries@.len(),
            n == tags_below(entry_views(entries@).subrange(0, i as int), tag),
            n <= i,
        decreases entries@.len() - i,
    {
        proof {
            assert(entry_views(entries@).subrange(0, i + 1).drop_last() =~= entry_views(entries@).subrange(
                0,
                i as int,
            ));
        }
        if entries[i].tag_id < tag {
            n = n + 1;
        }
        i = i + 1;
    }
    assert(entry_views(entries@).subrange(0, i as int) =~= entry_views(entries@));
    n
}

/// `base` plus each slot offset the map holds for `tag`.
fn slot_addresses(slots: &BTreeMap<u16, Vec<u64>>, tag: u16, base: u64) -> (r: Vec<u64>)
    requires
        forall|j: int|
            slots@.contains_key(tag) && 0 <= j < slots@[tag]@.len() ==> base + #[trigger] slots@[tag]@[j]
                <= u64::MAX,
    ensures
        r@ == (if slots@.contains_key(tag) {
            slots@[tag]@.map_values(|x: u64| (base + x) as u64)
        } else {
            Seq::empty()
        }),
{
    let mut r: Vec<u64> = Vec::new();
    match slots.get(&tag) {
        Some(v) => {
            let mut i: usize = 0;
            while i < v.len()
                invariant
                    slots@.contains_key(tag),
                    *v == slots@[tag],
                    forall|j: int| 0 <= j < v@.len() ==> base + #[trigger] v@[j] <= u64::MAX,
                    0 <= i <= v@.len(),
                    r@ == v@.subrange(0, i as int).map_values(|x: u64| (base + x) as u64),
                decreases v@.len() - i,
            {
                r.push(base + v[i]);
                assert(r@ =~= v@.subrange(0, i + 1).map_values(|x: u64| (base + x) as u64));
                i = i + 1;
            }
            assert(v@.subrange(0, i as int) =~= v@);
        },
        None => {},
    }
    r
}

/// The offset of every cell, back to back from `data_offset`, and the
/// cells' byte ranges; [`ErrorCode::InvalidArgument`] when the last offset
/// is beyond the container's range.
fn cell_offsets(p: PlanInputs, cell: u64, count: u64, data_offset: u64) -> (r: Result<(Vec<u64>, Vec<TileByteRange>)>)
    requires
        count == cell_count(p),
        cell == cell_bytes(p),
    ensures
        r is Ok <==> (count > 0 ==> data_offset + (count - 1) * cell <= container_limit(p.is_big_tiff)),
        r matches Ok((offsets, ranges)) ==> {
            &&& offsets@ == data_offsets(p, data_offset as nat)
            &&& ranges@ == Seq::new(
                cell_count(p),
                |k: int|
                    TileByteRange {
                        offset: data_offsets(p, data_offset as nat)[k],
                        byte_count: cell_bytes(p) as u64,
                    },
            )
        },
        r matches Err(e) ==> e.kind() == ErrorCode::InvalidArgument,
{
    let ghost d = data_offset as nat;
    let big = p.is_big_tiff;
    let ghost limit = container_limit(big);
    let mut offsets: Vec<u64> = Vec::new();
    let mut ranges: Vec<TileByteRange> = Vec::new();
    let mut i: u64 = 0;
    while i < count
        invariant
            count == cell_count(p),
            cell == cell_bytes(p),
            d == data_offset,
            limit == container_limit(big),
            big == p.is_big_tiff,
            0 <= i <= count,
            offsets@ == data_offsets(p, d).subrange(0, i as int),
            ranges@ == Seq::new(
                i as nat,
                |k: int| TileByteRange { offset: data_offsets(p, d)[k], byte_count: cell_bytes(p) as u64 },
            ),
            i > 0 ==> d + (i - 1) * cell <= limit,
        decreases count - i,
    {
        proof {
            assert(i * cell <= (count - 1) * cell) by (nonlinear_arith)
                requires
                    i <= count - 1,
            ;
        }
        let step = checked_multiply(i, cell)?;
        let offset = match data_offset.checked_add(step) {
            Some(o) => o,
            None => {
                return Err(Error::invalid_argument("planTiffWrite: tile data offset overflows"));
            },
        };
        if !big {
            require_classic_u32(offset)?;
        }
        offsets.push(offset);
        ranges.push(TileByteRange::new(offset, cell));
        assert(offsets@ =~= data_offsets(p, d).subrange(0, i + 1));
        assert(ranges@ =~= Seq::new(
            (i + 1) as nat,
            |k: int| TileByteRange { offset: data_offsets(p, d)[k], byte_count: cell_bytes(p) as u64 },
        ));
        i = i + 1;
    }
    assert(offsets@ =~= data_offsets(p, d));
    Ok((offsets, ranges))
}

/// The absolute addresses of every TileOffsets and TileByteCounts value
/// slot when the IFD follows a `header`-byte header.
fn tile_patch_addresses(entries: &Vec<TiffIfdEntryToWrite>, is_big_tiff: bool, header: u64) -> (r: (Vec<u64>, Vec<u64>))
    requires
        header + ifd_size(entries@, is_big_tiff) <= u64::MAX,
    ensures
        r.0@ == value_addresses(entries@, is_big_tiff, 324, header as nat),
        r.1@ == value_addresses(entries@, is_big_tiff, 325, header as nat),
{
    let n = entries.len();
    let slots = value_slot_offsets_relative(entries.as_slice(), is_big_tiff);
    proof {
        lemma_ifd_size_order_free(entries@, is_big_tiff, 0, 0);
        lemma_tag_order_exists(entries@);
        lemma_slot_map_bound(sorted_by_tag(entries@), entries@.len(), is_big_tiff);
        assert forall|t: u16, j: int| slots@.contains_key(t) && 0 <= j < slots@[t]@.len() implies header
            + #[trigger] slots@[t]@[j] <= u64::MAX by {
            assert(slots@.map_values(|v: Vec<u64>| v@)[t] == slots@[t]@);
        }
    }
    let a = slot_addresses(&slots, TagId::TileOffsets.as_u16(), header);
    let c = slot_addresses(&slots, TagId::TileByteCounts.as_u16(), header);
    proof {
        assert(slots@.map_values(|v: Vec<u64>| v@).contains_key(324) == slots@.contains_key(324));
        assert(slots@.map_values(|v: Vec<u64>| v@).contains_key(325) == slots@.contains_key(325));
        if slots@.contains_key(324) {
            assert(slots@.map_values(|v: Vec<u64>| v@)[324] == slots@[324]@);
        }
        if slots@.contains_key(325) {
            assert(slots@.map_values(|v: Vec<u64>| v@)[325] == slots@[325]@);
        }
    }
    (a, c)
}

/// The absolute address of the StripByteCounts value area, whose entry is
/// entry `k`, when the IFD follows a `header`-byte header.
fn strip_patch_offset(entries: &Vec<TiffIfdEntryToWrite>, is_big_tiff: bool, header: u64, k: usize) -> (r: u64)
    requires
        k < entries@.len(),
        entries@[k as int].tag_id == 279,
        header + ifd_size(entries@, is_big_tiff) <= u64::MAX,
    ensures
        r == header + count_field_size(is_big_tiff) + table_size(
            tags_below(entry_views(entries@), 279),
            is_big_tiff,
        ) + if is_big_tiff {
            12nat
        } else {
            8nat
        },
{
    let index = count_tags_below(entries.as_slice(), TagId::StripByteCounts.as_u16());
    let entry_record_size: u64 = if is_big_tiff { 20 } else { 12 };
    let entry_count_field_size: u64 = if is_big_tiff { 8 } else { 2 };
    let value_area_offset_within_record: u64 = if is_big_tiff { 12 } else { 8 };
    proof {
        assert(entry_views(entries@)[k as int].0 == 279);
        lemma_tags_below_lt(entry_views(entries@), 279, k as int);
        assert(index * entry_record_size + entry_record_size <= entries@.len() * entry_record_size)
            by (nonlinear_arith)
            requires
                index < entries@.len(),
        ;
        lemma_out_of_line_total_monotone(entries@, 0, entries@.len(), is_big_tiff);
    }
    header + entry_count_field_size + (index as u64) * entry_record_size + value_area_offset_within_record
}

/// Position of the offsets entry among the planned entries.
pub open spec fn offsets_position(p: PlanInputs) -> nat {
    base_entries(p).len() + if p.tile is Some {
        2nat
    } else {
        0nat
    }
}

/// The tag of the offsets entry.
pub open spec fn offsets_tag(p: PlanInputs) -> u16 {
    if p.tile is Some {
        324
    } else {
        273
    }
}

/// Setting the offsets entry's values turns the plan with zero offsets into
/// the plan with those offsets; the StripByteCounts entry of a stripped
/// plan sits two entries later.
#[verifier::spinoff_prover]
#[verifier::rlimit(30)]
proof fn lemma_place_offsets(p: PlanInputs, e: Entries, offsets: Seq<u64>)
    requires
        offsets.len() == cell_count(p),
    ensures
        ({
            let zeros = Seq::new(cell_count(p), |i: int| 0u64);
            let pos = offsets_position(p) as int;
            let view: EntryView = (offsets_tag(p), offset_type(p.is_big_tiff), offsets);
            &&& pos < planned_entries(p, e, zeros).len()
            &&& planned_entries(p, e, zeros)[pos].1 == view.1
            &&& planned_entries(p, e, zeros)[pos].2.len() == view.2.len()
            &&& planned_entries(p, e, zeros).update(pos, view) == planned_entries(p, e, offsets)
            &&& p.tile is None ==> pos + 2 < planned_entries(p, e, offsets).len()
                && planned_entries(p, e, offsets)[pos + 2].0 == 279
        }),
{
    reveal(planned_entries);
    let zeros = Seq::new(cell_count(p), |i: int| 0u64);
    let pos = offsets_position(p) as int;
    let view: EntryView = (offsets_tag(p), offset_type(p.is_big_tiff), offsets);
    assert(planned_entries(p, e, zeros).update(pos, view) =~= planned_entries(p, e, offsets));
}

/// The plan's entries with every cell offset 0, and the position of the
/// offsets entry; [`ErrorCode::InvalidArgument`] exactly when a PTIFF
/// domain does not fit the payload format.
fn build_entries(model: &StorageModel, p: PlanInputs, cell: u64, count: u64) -> (r: Result<(Vec<TiffIfdEntryToWrite>, usize)>)
    requires
        inputs_consistent(p),
        cell == cell_bytes(p),
        count == cell_count(p),
    ensures
        r is Ok <==> domains_encodable(model.entries()),
        r matches Ok((entries, k)) ==> {
            &&& entry_views(entries@) == planned_entries(
                p,
                model.entries(),
                Seq::new(cell_count(p), |i: int| 0u64),
            )
            &&& k == offsets_position(p)
        },
        r matches Err(e) ==> e.kind() == ErrorCode::InvalidArgument,
{
    let mut entries: Vec<TiffIfdEntryToWrite> = Vec::new();
    assert(entry_views(entries@) =~= Seq::<EntryView>::empty());
    push_base_entries(p, &mut entries);
    let k = push_layout_entries(p, cell, count, &mut entries);
    push_option_entries(p, &mut entries);
    append_ptiff_tags(model, &mut entries)?;
    proof {
        reveal(planned_entries);
        assert(entry_views(entries@) =~= planned_entries(
            p,
            model.entries(),
            Seq::new(cell_count(p), |i: int| 0u64),
        ));
    }
    Ok((entries, k))
}

/// Builds the write plan of one baseline image from a format-neutral
/// model.
///
/// Required fields: "imageWidth", "imageHeight", "samplesPerPixel" (1 to
/// 512) and "pixelType" ("UInt8", "UInt16", "UInt32", "Float32",
/// "Float64"). Optional: "compression" ("None", "PackBits", "LZW",
/// "Deflate", "Jpeg"), "predictor" ("None", "HorizontalDifferencing"),
/// "jpegQuality" (0 to 100, default 90), "container" ("Classic" default,
/// "BigTiff"), "tileWidth"/"tileHeight" (both or neither; nonzero multiples
/// of 16), and `ptiff.<domain>.<key>` extension fields. Pixel data follows
/// the header and the IFD, tile after tile. The plan is exactly
/// [`plan_matches`]; [`ErrorCode::InvalidArgument`] comes exactly when
/// [`plan_ok`] fails.
#[verifier::rlimit(40)]
#[verifier::spinoff_prover]
pub fn plan_tiff_write(model: &StorageModel) -> (r: Result<TiffWritePlan>)
    ensures
        r is Ok <==> plan_ok(model.field_map(), model.entries()),
        r matches Ok(plan) ==> plan_matches(model.field_map(), model.entries(), plan),
        r matches Err(e) ==> e.kind() == ErrorCode::InvalidArgument,
{
    let ghost f = model.field_map();
    let ghost e = model.entries();
    let p = read_plan_inputs(model)?;
    proof {
        assert(tile_size_field(f) == Some(p.tile));
    }
    let cell = cell_byte_size(p)?;
    let count = cell_total(p);
    let (mut entries, offsets_index) = build_entries(model, p, cell, count)?;
    let ghost zeros = Seq::new(cell_count(p), |i: int| 0u64);
    let ghost placeholder = planned_entries(p, e, zeros);
    let big = p.is_big_tiff;
    let header: u64 = if big {
        K_BIG_TIFF_HEADER_SIZE
    } else {
        K_CLASSIC_TIFF_HEADER_SIZE
    };
    proof {
        lemma_view_ifd_size(entries@, big);
    }
    if !ifd_size_at_most(entries.as_slice(), big, u64::MAX - header) {
        return Err(Error::invalid_argument("planTiffWrite: IFD layout overflows"));
    }
    let data_offset = header + tiff_ifd_byte_size(entries.as_slice(), big);
    let ghost d = data_offset as nat;
    assert(d == planned_data_offset(p, e));
    let (offsets, ranges) = cell_offsets(p, cell, count, data_offset)?;
    // Place the cell offsets.
    let ft = offset_field_type(big);
    let offsets_tag_id = if p.tile.is_some() {
        TagId::TileOffsets.as_u16()
    } else {
        TagId::StripOffsets.as_u16()
    };
    let ghost new_view: EntryView = (offsets_tag_id, ft, offsets@);
    proof {
        lemma_place_offsets(p, e, data_offsets(p, d));
    }
    entries.set(offsets_index, TiffIfdEntryToWrite::new_u64(offsets_tag_id, ft, offsets));
    proof {
        assert(entry_views(entries@) =~= placeholder.update(offsets_index as int, new_view));
        lemma_view_total_update(placeholder, offsets_index as int, new_view, placeholder.len(), big);
        lemma_view_ifd_size(entries@, big);
    }
    // Write-side patch addresses.
    let mut tile_offsets_value_addresses: Vec<u64> = Vec::new();
    let mut tile_byte_counts_value_addresses: Vec<u64> = Vec::new();
    let mut byte_count_patch_offset: u64 = 0;
    if p.tile.is_some() {
        let (a, c) = tile_patch_addresses(&entries, big, header);
        tile_offsets_value_addresses = a;
        tile_byte_counts_value_addresses = c;
    } else {
        proof {
            let k2 = offsets_index + 2;
            assert(entry_views(entries@)[k2 as int] == planned_entries(p, e, data_offsets(p, d))[k2 as int]);
        }
        byte_count_patch_offset = strip_patch_offset(&entries, big, header, offsets_index + 2);
    }
    let tile_size = match p.tile {
        Some((tw, th)) => TileExtent::new(tw, th),
        None => TileExtent::new(p.width, p.height),
    };
    let mut directory = TiffDirectory::empty();
    directory.image_width = p.width;
    directory.image_height = p.height;
    directory.pixel_type = p.pixel_type;
    directory.samples_per_pixel = p.samples_per_pixel;
    directory.layout = TileLayout::new(tile_size, p.width, p.height, 1);
    directory.tile_byte_ranges = ranges;
    directory.compression = p.compression;
    directory.predictor = p.predictor;
    directory.endian = Endian::Little;
    directory.offset_value_bytes = if big { 8 } else { 4 };
    directory.strip_byte_counts_patch_offset = byte_count_patch_offset;
    directory.tile_offsets_value_addresses = tile_offsets_value_addresses;
    directory.tile_byte_counts_value_addresses = tile_byte_counts_value_addresses;
    directory.jpeg_quality = p.jpeg_quality;
    Ok(TiffWritePlan { directory, entries, is_big_tiff: big })
}

// ---------------------------------------------------------------------------
// Several images in one file.
// ---------------------------------------------------------------------------

/// The inputs of model `m`.
pub open spec fn image_inputs(m: StorageModel) -> PlanInputs {
    plan_inputs(m.field_map()).unwrap()
}

/// Byte size of model `m`'s IFD.
pub open spec fn image_ifd_size(m: StorageModel) -> nat {
    let p = image_inputs(m);
    view_ifd_size(planned_entries(p, m.entries(), Seq::new(cell_count(p), |i: int| 0u64)), p.is_big_tiff)
}

/// Bytes of model `m`'s pixel data (every cell uncompressed).
pub open spec fn image_span(m: StorageModel) -> nat {
    cell_count(image_inputs(m)) * cell_bytes(image_inputs(m))
}

/// Total IFD size of the first `k` models.
pub open spec fn ifd_sizes_upto(ms: Seq<StorageModel>, k: nat) -> nat
    decreases k,
{
    if k == 0 {
        0
    } else {
        ifd_sizes_upto(ms, (k - 1) as nat) + image_ifd_size(ms[k - 1])
    }
}

/// Total pixel data size of the first `k` models.
pub open spec fn spans_upto(ms: Seq<StorageModel>, k: nat) -> nat
    decreases k,
{
    if k == 0 {
        0
    } else {
        spans_upto(ms, (k - 1) as nat) + image_span(ms[k - 1])
    }
}

/// The image is tiled and compressed.
pub open spec fn tiled_compressed(p: PlanInputs) -> bool {
    &&& p.tile is Some
    &&& p.compression != TiffCompression::NoCompression
}

/// Where the first image's pixel data starts: after the header and every
/// IFD.
pub open spec fn first_data_byte(ms: Seq<StorageModel>) -> nat {
    header_size(image_inputs(ms[0]).is_big_tiff) + ifd_sizes_upto(ms, ms.len())
}

/// Several models can be written into one file: there is at least one,
/// each can be planned, all use the same container, none is tiled and
/// compressed, the whole layout fits the address range, and every image's
/// last cell offset fits the container.
pub open spec fn multi_ok(ms: Seq<StorageModel>) -> bool {
    let big = image_inputs(ms[0]).is_big_tiff;
    let first = first_data_byte(ms);
    &&& ms.len() > 0
    &&& forall|i: int| 0 <= i < ms.len() ==> plan_ok(#[trigger] ms[i].field_map(), ms[i].entries())
    &&& forall|i: int| 0 <= i < ms.len() ==> (#[trigger] image_inputs(ms[i])).is_big_tiff == big
    &&& forall|i: int| 0 <= i < ms.len() ==> !tiled_compressed(#[trigger] image_inputs(ms[i]))
    &&& first + spans_upto(ms, ms.len()) <= u64::MAX
    &&& forall|i: int|
        0 <= i < ms.len() && cell_count(#[trigger] image_inputs(ms[i])) > 0 ==> first + spans_upto(
            ms,
            i as nat,
        ) + (cell_count(image_inputs(ms[i])) - 1) * cell_bytes(image_inputs(ms[i]))
            <= container_limit(big)
}

/// `r` is the single-image plan `q` moved so that its IFD starts at
/// `ifd_at` and its pixel data at `data_at`: cell offsets and byte ranges
/// rebased, the StripByteCounts patch address moved with the IFD, all else
/// kept.
pub open spec fn plan_rebased(q: TiffWritePlan, r: TiffWritePlan, p: PlanInputs, e: Entries, ifd_at: nat, data_at: nat) -> bool {
    let header = header_size(p.is_big_tiff);
    &&& r.is_big_tiff == q.is_big_tiff
    &&& entry_views(r.entries@) == planned_entries(p, e, data_offsets(p, data_at))
    &&& r.directory.image_width == q.directory.image_width
    &&& r.directory.image_height == q.directory.image_height
    &&& r.directory.pixel_type == q.directory.pixel_type
    &&& r.directory.samples_per_pixel == q.directory.samples_per_pixel
    &&& r.directory.layout == q.directory.layout
    &&& r.directory.tile_byte_ranges@ == Seq::new(
        cell_count(p),
        |k: int| TileByteRange { offset: data_offsets(p, data_at)[k], byte_count: cell_bytes(p) as u64 },
    )
    &&& r.directory.compression == q.directory.compression
    &&& r.directory.predictor == q.directory.predictor
    &&& r.directory.endian == q.directory.endian
    &&& r.directory.offset_value_bytes == q.directory.offset_value_bytes
    &&& r.directory.strip_byte_counts_patch_offset == (if q.directory.strip_byte_counts_patch_offset != 0 {
        (q.directory.strip_byte_counts_patch_offset + ifd_at - header) as u64
    } else {
        0
    })
    &&& r.directory.tile_offsets_value_addresses@ == q.directory.tile_offsets_value_addresses@
    &&& r.directory.tile_byte_counts_value_addresses@ == q.directory.tile_byte_counts_value_addresses@
    &&& r.directory.jpeg_quality == q.directory.jpeg_quality
    &&& r.directory.ptiff_fields == q.directory.ptiff_fields
}

/// Image `i` of `fp` is model `i`'s own single-image plan rebased to its
/// place in the file.
pub open spec fn image_placed(ms: Seq<StorageModel>, fp: TiffFileWritePlan, i: int) -> bool {
    let header = header_size(image_inputs(ms[0]).is_big_tiff);
    exists|q: TiffWritePlan|
        #![trigger plan_matches(ms[i].field_map(), ms[i].entries(), q)]
        plan_matches(ms[i].field_map(), ms[i].entries(), q) && plan_rebased(
            q,
            fp.images@[i],
            image_inputs(ms[i]),
            ms[i].entries(),
            header + ifd_sizes_upto(ms, i as nat),
            first_data_byte(ms) + spans_upto(ms, i as nat),
        )
}

/// `fp` is the file plan of the models `ms`: the header, the IFDs of every
/// image back to back, then every image's pixel data back to back; image
/// `i` is its own single-image plan rebased there.
pub open spec fn multi_matches(ms: Seq<StorageModel>, fp: TiffFileWritePlan) -> bool {
    &&& fp.is_big_tiff == image_inputs(ms[0]).is_big_tiff
    &&& fp.images@.len() == ms.len()
    &&& forall|i: int| 0 <= i < ms.len() ==> #[trigger] image_placed(ms, fp, i)
}

/// The IFD size of the plan with any cell offsets is the one with zero
/// offsets.
proof fn lemma_planned_size(p: PlanInputs, e: Entries, offsets: Seq<u64>)
    requires
        offsets.len() == cell_count(p),
    ensures
        view_ifd_size(planned_entries(p, e, offsets), p.is_big_tiff) == view_ifd_size(
            planned_entries(p, e, Seq::new(cell_count(p), |i: int| 0u64)),
            p.is_big_tiff,
        ),
{
    let zeros = Seq::new(cell_count(p), |i: int| 0u64);
    let pos = offsets_position(p) as int;
    let view: EntryView = (offsets_tag(p), offset_type(p.is_big_tiff), offsets);
    lemma_place_offsets(p, e, offsets);
    let z = planned_entries(p, e, zeros);
    lemma_view_total_update(z, pos, view, z.len(), p.is_big_tiff);
}

/// Only the offsets entry of a plan carries the StripOffsets or TileOffsets
/// tag.
#[verifier::spinoff_prover]
#[verifier::rlimit(40)]
proof fn lemma_offsets_entry_unique(p: PlanInputs, e: Entries, offsets: Seq<u64>, j: int)
    requires
        0 <= j < planned_entries(p, e, offsets).len(),
    ensures
        (planned_entries(p, e, offsets)[j].0 == 273 || planned_entries(p, e, offsets)[j].0 == 324) <==> j
            == offsets_position(p),
{
    reveal(planned_entries);
    let b = base_entries(p);
    let l = layout_entries(p, offsets);
    let o = option_entries(p);
    let t = ptiff_entries(e);
    let all = b + l + o + t;
    if j < b.len() {
        assert(all[j] == b[j]);
    } else if j < b.len() + l.len() {
        assert(all[j] == l[j - b.len()]);
    } else if j < b.len() + l.len() + o.len() {
        assert(all[j] == o[j - b.len() - l.len()]);
    } else {
        let k = j - b.len() - l.len() - o.len();
        assert(all[j] == t[k]);
        let e1 = domain_entry(e, 65001, "spice"@);
        let e2 = domain_entry(e, 65002, "camera"@);
        let e3 = domain_entry(e, 65003, "crs"@);
        let e4 = domain_entry(e, 65004, "layers"@);
        let e5 = domain_entry(e, 65005, "provenance"@);
        assert(t[k].0 >= 65001) by {
            if k < e1.len() {
                assert(t[k] == e1[k]);
            } else if k < e1.len() + e2.len() {
                assert(t[k] == e2[k - e1.len()]);
            } else if k < e1.len() + e2.len() + e3.len() {
                assert(t[k] == e3[k - e1.len() - e2.len()]);
            } else if k < e1.len() + e2.len() + e3.len() + e4.len() {
                assert(t[k] == e4[k - e1.len() - e2.len() - e3.len()]);
            } else {
                assert(t[k] == e5[k - e1.len() - e2.len() - e3.len() - e4.len()]);
            }
        }
    }
}

/// Partial IFD-size sums grow.
pub proof fn lemma_ifd_sizes_monotone(ms: Seq<StorageModel>, j: nat, k: nat)
    requires
        j <= k,
    ensures
        ifd_sizes_upto(ms, j) <= ifd_sizes_upto(ms, k),
    decreases k,
{
    if j < k {
        lemma_ifd_sizes_monotone(ms, j, (k - 1) as nat);
    }
}

/// Partial span sums grow.
pub proof fn lemma_spans_monotone(ms: Seq<StorageModel>, j: nat, k: nat)
    requires
        j <= k,
    ensures
        spans_upto(ms, j) <= spans_upto(ms, k),
    decreases k,
{
    if j < k {
        lemma_spans_monotone(ms, j, (k - 1) as nat);
    }
}

/// A planned image's IFD takes [`image_ifd_size`] bytes.
pub proof fn lemma_plan_ifd_size(m: StorageModel, plan: TiffWritePlan)
    requires
        plan_ok(m.field_map(), m.entries()),
        plan_matches(m.field_map(), m.entries(), plan),
    ensures
        ifd_size(plan.entries@, image_inputs(m).is_big_tiff) == image_ifd_size(m),
        header_size(image_inputs(m).is_big_tiff) + image_ifd_size(m) <= u64::MAX,
        header_size(image_inputs(m).is_big_tiff) + image_ifd_size(m) == planned_data_offset(
            image_inputs(m),
            m.entries(),
        ),
{
    let p = image_inputs(m);
    let d = planned_data_offset(p, m.entries());
    lemma_view_ifd_size(plan.entries@, p.is_big_tiff);
    lemma_planned_size(p, m.entries(), data_offsets(p, d));
}

/// Image `i` of a file plan: its IFD takes [`image_ifd_size`] bytes of
/// model `i`, and it has one byte range per cell, the first at the start
/// of its pixel data.
pub proof fn lemma_multi_image(ms: Seq<StorageModel>, fp: TiffFileWritePlan, i: int)
    requires
        multi_ok(ms),
        multi_matches(ms, fp),
        0 <= i < ms.len(),
    ensures
        ifd_size(fp.images@[i].entries@, fp.is_big_tiff) == image_ifd_size(ms[i]),
        fp.images@[i].directory.tile_byte_ranges@.len() == cell_count(image_inputs(ms[i])),
        cell_count(image_inputs(ms[i])) > 0 ==> fp.images@[i].directory.tile_byte_ranges@[0].offset
            == first_data_byte(ms) + spans_upto(ms, i as nat),
{
    assert(image_placed(ms, fp, i));
    let p = image_inputs(ms[i]);
    let header = header_size(image_inputs(ms[0]).is_big_tiff);
    let data_at = first_data_byte(ms) + spans_upto(ms, i as nat);
    let q = choose|q: TiffWritePlan|
        plan_matches(ms[i].field_map(), ms[i].entries(), q) && plan_rebased(
            q,
            fp.images@[i],
            p,
            ms[i].entries(),
            header + ifd_sizes_upto(ms, i as nat),
            data_at,
        );
    lemma_view_ifd_size(fp.images@[i].entries@, p.is_big_tiff);
    lemma_planned_size(p, ms[i].entries(), data_offsets(p, data_at));
    lemma_spans_monotone(ms, i as nat, ms.len());
    if cell_count(p) > 0 {
        assert(fp.images@[i].directory.tile_byte_ranges@[0] == TileByteRange { offset: data_offsets(p, data_at)[0], byte_count: cell_bytes(p) as u64 });
    }
}

/// One plan per model, and the container of the first.
fn collect_plans(models: &[StorageModel]) -> (r: Result<(Vec<TiffWritePlan>, bool)>)
    requires
        models@.len() > 0,
    ensures
        r is Ok <==> (forall|i: int|
            0 <= i < models@.len() ==> plan_ok(#[trigger] models@[i].field_map(), models@[i].entries()))
            && (forall|i: int|
            0 <= i < models@.len() ==> (#[trigger] image_inputs(models@[i])).is_big_tiff == image_inputs(
                models@[0],
            ).is_big_tiff),
        r matches Ok((plans, big)) ==> {
            &&& plans@.len() == models@.len()
            &&& big == image_inputs(models@[0]).is_big_tiff
            &&& forall|i: int|
                0 <= i < models@.len() ==> plan_matches(
                    models@[i].field_map(),
                    models@[i].entries(),
                    #[trigger] plans@[i],
                )
        },
        r matches Err(e) ==> e.kind() == ErrorCode::InvalidArgument,
{
    let n = models.len();
    let mut plans: Vec<TiffWritePlan> = Vec::new();
    let mut is_big_tiff = false;
    let mut i: usize = 0;
    while i < n
        invariant
            n == models@.len(),
            n > 0,
            0 <= i <= n,
            plans@.len() == i,
            i > 0 ==> is_big_tiff == image_inputs(models@[0]).is_big_tiff,
            forall|j: int| 0 <= j < i ==> plan_ok(#[trigger] models@[j].field_map(), models@[j].entries()),
            forall|j: int| 0 <= j < i ==> (#[trigger] image_inputs(models@[j])).is_big_tiff == is_big_tiff,
            forall|j: int|
                0 <= j < i ==> plan_matches(models@[j].field_map(), models@[j].entries(), #[trigger] plans@[j]),
        decreases n - i,
    {
        let plan = plan_tiff_write(&models[i]);
        let plan = match plan {
            Ok(pl) => pl,
            Err(e) => {
                assert(!plan_ok(models@[i as int].field_map(), models@[i as int].entries()));
                return Err(e);
            },
        };
        if i == 0 {
            is_big_tiff = plan.is_big_tiff;
        } else if plan.is_big_tiff != is_big_tiff {
            assert(image_inputs(models@[i as int]).is_big_tiff != image_inputs(models@[0]).is_big_tiff);
            return Err(
                Error::invalid_argument(
                    "planTiffWriteMulti: all images must agree on a container kind (classic or BigTIFF)",
                ),
            );
        }
        plans.push(plan);
        i = i + 1;
    }
    Ok((plans, is_big_tiff))
}

/// Rejects an image that is tiled (tiles narrower than the image) and
/// compressed.
#[verifier::spinoff_prover]
#[verifier::rlimit(30)]
fn check_not_tiled_compressed(models: &[StorageModel], plans: &Vec<TiffWritePlan>) -> (r: Result<()>)
    requires
        plans@.len() == models@.len(),
        forall|i: int|
            0 <= i < models@.len() ==> plan_matches(models@[i].field_map(), models@[i].entries(), #[trigger] plans@[i]),
        forall|i: int| 0 <= i < models@.len() ==> plan_ok(#[trigger] models@[i].field_map(), models@[i].entries()),
    ensures
        r is Ok <==> forall|i: int| 0 <= i < models@.len() ==> !tiled_compressed(#[trigger] image_inputs(models@[i])),
        r matches Err(e) ==> e.kind() == ErrorCode::InvalidArgument,
{
    let mut i: usize = 0;
    while i < plans.len()
        invariant
            plans@.len() == models@.len(),
            forall|j: int|
                0 <= j < models@.len() ==> plan_matches(models@[j].field_map(), models@[j].entries(), #[trigger] plans@[j]),
            forall|j: int| 0 <= j < models@.len() ==> plan_ok(#[trigger] models@[j].field_map(), models@[j].entries()),
            0 <= i <= plans@.len(),
            forall|j: int| 0 <= j < i ==> !tiled_compressed(#[trigger] image_inputs(models@[j])),
        decreases plans@.len() - i,
    {
        assert(plan_ok(models@[i as int].field_map(), models@[i as int].entries()));
        let inputs = match read_plan_inputs(&models[i]) {
            Ok(p) => p,
            Err(e) => {
                return Err(e);
            },
        };
        if inputs.tile.is_some() && inputs.compression != TiffCompression::NoCompression {
            assert(tiled_compressed(image_inputs(models@[i as int])));
            return Err(
                Error::invalid_argument(
                    "planTiffWriteMulti: an image is tiled and compressed; multi-image tiled+compressed is not yet supported (write it as a single image)",
                ),
            );
        }
        i = i + 1;
    }
    Ok(())
}

/// Every IFD's absolute offset, chained from the header on, and the end of
/// the last.
fn ifd_chain(models: &[StorageModel], plans: &Vec<TiffWritePlan>, is_big_tiff: bool, header: u64) -> (r: Result<(Vec<u64>, u64)>)
    requires
        plans@.len() == models@.len(),
        header == header_size(is_big_tiff),
        forall|i: int| 0 <= i < models@.len() ==> plan_ok(#[trigger] models@[i].field_map(), models@[i].entries()),
        forall|i: int| 0 <= i < models@.len() ==> (#[trigger] image_inputs(models@[i])).is_big_tiff == is_big_tiff,
        forall|i: int|
            0 <= i < models@.len() ==> plan_matches(models@[i].field_map(), models@[i].entries(), #[trigger] plans@[i]),
    ensures
        r is Ok <==> header + ifd_sizes_upto(models@, models@.len()) <= u64::MAX,
        r matches Ok((offsets, end)) ==> {
            &&& offsets@.len() == models@.len()
            &&& forall|i: int| 0 <= i < models@.len() ==> #[trigger] offsets@[i] == header + ifd_sizes_upto(models@, i as nat)
            &&& end == header + ifd_sizes_upto(models@, models@.len())
        },
        r matches Err(e) ==> e.kind() == ErrorCode::InvalidArgument,
{
    let n = plans.len();
    let mut offsets: Vec<u64> = Vec::new();
    let mut cursor = header;
    let mut i: usize = 0;
    while i < n
        invariant
            n == models@.len(),
            plans@.len() == n,
            header == header_size(is_big_tiff),
            forall|j: int| 0 <= j < n ==> plan_ok(#[trigger] models@[j].field_map(), models@[j].entries()),
            forall|j: int| 0 <= j < n ==> (#[trigger] image_inputs(models@[j])).is_big_tiff == is_big_tiff,
            forall|j: int|
                0 <= j < n ==> plan_matches(models@[j].field_map(), models@[j].entries(), #[trigger] plans@[j]),
            0 <= i <= n,
            offsets@.len() == i,
            forall|j: int| 0 <= j < i ==> #[trigger] offsets@[j] == header + ifd_sizes_upto(models@, j as nat),
            cursor == header + ifd_sizes_upto(models@, i as nat),
        decreases n - i,
    {
        offsets.push(cursor);
        proof {
            lemma_plan_ifd_size(models@[i as int], plans@[i as int]);
            assert(image_inputs(models@[i as int]).is_big_tiff == is_big_tiff);
        }
        let size = tiff_ifd_byte_size(plans[i].entries.as_slice(), is_big_tiff);
        cursor = match cursor.checked_add(size) {
            Some(c) => c,
            None => {
                proof {
                    lemma_ifd_sizes_monotone(models@, (i + 1) as nat, n as nat);
                }
                return Err(Error::invalid_argument("planTiffWriteMulti: IFD layout overflows"));
            },
        };
        i = i + 1;
    }
    Ok((offsets, cursor))
}

/// The bytes of a planned image's pixel data (the sum of its byte
/// ranges), or `None` when that overflows.
fn plan_span(model: &StorageModel, plan: &TiffWritePlan) -> (r: Option<u64>)
    requires
        plan_ok(model.field_map(), model.entries()),
        plan_matches(model.field_map(), model.entries(), *plan),
    ensures
        r is Some <==> image_span(*model) <= u64::MAX,
        r matches Some(v) ==> v == image_span(*model),
{
    let ghost p = image_inputs(*model);
    let ghost cell = cell_bytes(p);
    let ranges = &plan.directory.tile_byte_ranges;
    let mut span: u64 = 0;
    let mut k: usize = 0;
    while k < ranges.len()
        invariant
            ranges@.len() == cell_count(p),
            forall|j: int| 0 <= j < ranges@.len() ==> (#[trigger] ranges@[j]).byte_count == cell as u64,
            cell == cell_bytes(p),
            cell <= u64::MAX,
            p == image_inputs(*model),
            0 <= k <= ranges@.len(),
            span == k * cell,
        decreases ranges@.len() - k,
    {
        proof {
            assert((k + 1) * cell <= cell_count(p) * cell) by (nonlinear_arith)
                requires
                    k + 1 <= cell_count(p),
            ;
            assert((k + 1) * cell == k * cell + cell) by (nonlinear_arith);
        }
        span = match span.checked_add(ranges[k].byte_count) {
            Some(v) => v,
            None => {
                return None;
            },
        };
        k = k + 1;
    }
    Some(span)
}

/// Every image's pixel-data offset, back to back from `first`.
fn data_chain(models: &[StorageModel], plans: &Vec<TiffWritePlan>, first: u64) -> (r: Result<Vec<u64>>)
    requires
        plans@.len() == models@.len(),
        forall|i: int| 0 <= i < models@.len() ==> plan_ok(#[trigger] models@[i].field_map(), models@[i].entries()),
        forall|i: int|
            0 <= i < models@.len() ==> plan_matches(models@[i].field_map(), models@[i].entries(), #[trigger] plans@[i]),
    ensures
        r is Ok <==> first + spans_upto(models@, models@.len()) <= u64::MAX,
        r matches Ok(offsets) ==> {
            &&& offsets@.len() == models@.len()
            &&& forall|i: int| 0 <= i < models@.len() ==> #[trigger] offsets@[i] == first + spans_upto(models@, i as nat)
        },
        r matches Err(e) ==> e.kind() == ErrorCode::InvalidArgument,
{
    let n = plans.len();
    let mut offsets: Vec<u64> = Vec::new();
    let mut cursor = first;
    let mut i: usize = 0;
    while i < n
        invariant
            n == models@.len(),
            plans@.len() == n,
            forall|j: int| 0 <= j < n ==> plan_ok(#[trigger] models@[j].field_map(), models@[j].entries()),
            forall|j: int|
                0 <= j < n ==> plan_matches(models@[j].field_map(), models@[j].entries(), #[trigger] plans@[j]),
            0 <= i <= n,
            offsets@.len() == i,
            forall|j: int| 0 <= j < i ==> #[trigger] offsets@[j] == first + spans_upto(models@, j as nat),
            cursor == first + spans_upto(models@, i as nat),
        decreases n - i,
    {
        offsets.push(cursor);
        let span = match plan_span(&models[i], &plans[i]) {
            Some(v) => v,
            None => {
                proof {
                    lemma_spans_monotone(models@, (i + 1) as nat, n as nat);
                }
                return Err(Error::invalid_argument("planTiffWriteMulti: image data region overflows"));
            },
        };
        cursor = match cursor.checked_add(span) {
            Some(c) => c,
            None => {
                proof {
                    lemma_spans_monotone(models@, (i + 1) as nat, n as nat);
                }
                return Err(Error::invalid_argument("planTiffWriteMulti: file data layout overflows"));
            },
        };
        i = i + 1;
    }
    Ok(offsets)
}

/// The cell offsets of a planned image moved from data offset `d` to
/// `data_at`; [`ErrorCode::InvalidArgument`] when one is beyond the
/// container's range.
fn rebase_values(Ghost(p): Ghost<PlanInputs>, is_big_tiff: bool, values: &Vec<u64>, d: u64, data_at: u64) -> (r: Result<Vec<u64>>)
    requires
        is_big_tiff == p.is_big_tiff,
        values@ == data_offsets(p, d as nat),
        d <= data_at,
        cell_count(p) > 0 ==> d + (cell_count(p) - 1) * cell_bytes(p) <= u64::MAX,
        data_at + cell_count(p) * cell_bytes(p) <= u64::MAX,
    ensures
        r is Ok <==> (cell_count(p) > 0 ==> data_at + (cell_count(p) - 1) * cell_bytes(p) <= container_limit(
            p.is_big_tiff,
        )),
        r matches Ok(v) ==> v@ == data_offsets(p, data_at as nat),
        r matches Err(e) ==> e.kind() == ErrorCode::InvalidArgument,
{
    let delta = data_at - d;
    let ghost count = cell_count(p);
    let ghost cell = cell_bytes(p);
    let mut out: Vec<u64> = Vec::new();
    let mut k: usize = 0;
    while k < values.len()
        invariant
            values@ == data_offsets(p, d as nat),
            is_big_tiff == p.is_big_tiff,
            count == cell_count(p),
            cell == cell_bytes(p),
            values@.len() == count,
            delta == data_at - d,
            count > 0 ==> d + (count - 1) * cell <= u64::MAX,
            data_at + count * cell <= u64::MAX,
            0 <= k <= values@.len(),
            out@ == data_offsets(p, data_at as nat).subrange(0, k as int),
            k > 0 ==> data_at + (k - 1) * cell <= container_limit(p.is_big_tiff),
        decreases values@.len() - k,
    {
        proof {
            assert(k * cell <= (count - 1) * cell) by (nonlinear_arith)
                requires
                    k <= count - 1,
            ;
            assert(k * cell + cell <= count * cell) by (nonlinear_arith)
                requires
                    k + 1 <= count,
            ;
        }
        let value = match values[k].checked_add(delta) {
            Some(v) => v,
            None => {
                return Err(Error::invalid_argument("planTiffWriteMulti: offset rebase overflows"));
            },
        };
        if !is_big_tiff {
            require_classic_u32(value)?;
        }
        out.push(value);
        assert(out@ =~= data_offsets(p, data_at as nat).subrange(0, k + 1));
        k = k + 1;
    }
    assert(out@ =~= data_offsets(p, data_at as nat));
    Ok(out)
}

/// A planned image moved so that its IFD starts at `ifd_at` and its pixel
/// data at `data_at`; [`ErrorCode::InvalidArgument`] when a moved cell
/// offset is beyond the container's range.
#[verifier::rlimit(30)]
#[verifier::spinoff_prover]
fn rebase_plan(model: &StorageModel, plan: TiffWritePlan, header: u64, ifd_at: u64, data_at: u64) -> (r: Result<TiffWritePlan>)
    requires
        plan_ok(model.field_map(), model.entries()),
        plan_matches(model.field_map(), model.entries(), plan),
        header == header_size(image_inputs(*model).is_big_tiff),
        header <= ifd_at,
        ifd_at + image_ifd_size(*model) <= u64::MAX,
        header + image_ifd_size(*model) <= data_at,
        data_at + image_span(*model) <= u64::MAX,
    ensures
        r is Ok <==> (cell_count(image_inputs(*model)) > 0 ==> data_at + (cell_count(image_inputs(*model)) - 1)
            * cell_bytes(image_inputs(*model)) <= container_limit(image_inputs(*model).is_big_tiff)),
        r matches Ok(rp) ==> plan_rebased(plan, rp, image_inputs(*model), model.entries(), ifd_at as nat, data_at as nat),
        r matches Err(e) ==> e.kind() == ErrorCode::InvalidArgument,
{
    let ghost q = plan;
    let ghost p = image_inputs(*model);
    let ghost e = model.entries();
    let ghost d = planned_data_offset(p, e);
    let ghost count = cell_count(p);
    let ghost cell = cell_bytes(p);
    let big = plan.is_big_tiff;
    let mut plan = plan;
    proof {
        lemma_plan_ifd_size(*model, q);
        lemma_place_offsets(p, e, data_offsets(p, d));
        lemma_place_offsets(p, e, data_offsets(p, data_at as nat));
    }
    let original_data_base = header + tiff_ifd_byte_size(plan.entries.as_slice(), big);
    let data_delta = data_at - original_data_base;
    // Byte ranges.
    let n_ranges = plan.directory.tile_byte_ranges.len();
    let mut ranges: Vec<TileByteRange> = Vec::new();
    let mut k: usize = 0;
    while k < n_ranges
        invariant
            n_ranges == count,
            count == cell_count(p),
            cell == cell_bytes(p),
            cell <= u64::MAX,
            plan.directory.tile_byte_ranges@ == q.directory.tile_byte_ranges@,
            q.directory.tile_byte_ranges@ == Seq::new(
                count,
                |j: int| TileByteRange { offset: data_offsets(p, d)[j], byte_count: cell as u64 },
            ),
            original_data_base == d,
            data_delta == data_at - d,
            count > 0 ==> d + (count - 1) * cell <= u64::MAX,
            data_at + count * cell <= u64::MAX,
            0 <= k <= count,
            ranges@ == Seq::new(
                k as nat,
                |j: int| TileByteRange { offset: data_offsets(p, data_at as nat)[j], byte_count: cell as u64 },
            ),
        decreases count - k,
    {
        proof {
            assert(k * cell <= (count - 1) * cell) by (nonlinear_arith)
                requires
                    k <= count - 1,
            ;
            assert(k * cell + cell <= count * cell) by (nonlinear_arith)
                requires
                    k + 1 <= count,
            ;
        }
        let rg = plan.directory.tile_byte_ranges[k];
        ranges.push(TileByteRange::new(rg.offset + data_delta, rg.byte_count));
        assert(ranges@ =~= Seq::new(
            (k + 1) as nat,
            |j: int| TileByteRange { offset: data_offsets(p, data_at as nat)[j], byte_count: cell as u64 },
        ));
        k = k + 1;
    }
    plan.directory.tile_byte_ranges = ranges;
    // Cell offsets.
    let ghost dir = plan.directory;
    let ghost pos = offsets_position(p) as int;
    let ghost old_views = planned_entries(p, e, data_offsets(p, d));
    let ghost new_views = planned_entries(p, e, data_offsets(p, data_at as nat));
    assert(new_views =~= old_views.update(pos, (offsets_tag(p), offset_type(p.is_big_tiff), data_offsets(p, data_at as nat))));
    let n = plan.entries.len();
    let mut j: usize = 0;
    while j < n
        invariant
            n == old_views.len(),
            p == image_inputs(*model),
            pos == offsets_position(p),
            0 <= pos < n,
            old_views == planned_entries(p, e, data_offsets(p, d)),
            new_views == planned_entries(p, e, data_offsets(p, data_at as nat)),
            new_views == old_views.update(pos, (offsets_tag(p), offset_type(p.is_big_tiff), data_offsets(p, data_at as nat))),
            old_views[pos] == (offsets_tag(p), offset_type(p.is_big_tiff), data_offsets(p, d)),
            plan.directory == dir,
            plan.is_big_tiff == big,
            big == p.is_big_tiff,
            original_data_base == d,
            d <= data_at,
            count == cell_count(p),
            cell == cell_bytes(p),
            count > 0 ==> d + (count - 1) * cell <= u64::MAX,
            data_at + count * cell <= u64::MAX,
            0 <= j <= n,
            plan.entries@.len() == n,
            j > pos ==> (count > 0 ==> data_at + (count - 1) * cell <= container_limit(big)),
            entry_views(plan.entries@) == (if j > pos {
                new_views
            } else {
                old_views
            }),
        decreases n - j,
    {
        let tag = plan.entries[j].tag_id;
        proof {
            lemma_offsets_entry_unique(p, e, data_offsets(p, d), j as int);
            assert(entry_views(plan.entries@)[j as int] == old_views[j as int]);
        }
        if tag == TagId::StripOffsets.as_u16() || tag == TagId::TileOffsets.as_u16() {
            let field_type = plan.entries[j].field_type;
            proof {
                assert(entry_views(plan.entries@)[j as int] == (
                    plan.entries@[j as int].tag_id,
                    plan.entries@[j as int].field_type,
                    plan.entries@[j as int].values@,
                ));
                assert(old_views[j as int].0 == 273 || old_views[j as int].0 == 324);
                assert(j == pos);
                assert(plan.entries@[j as int].values@ == data_offsets(p, d));
                assert(tag == offsets_tag(p));
                assert(field_type == offset_type(p.is_big_tiff));
            }
            let ghost before = plan.entries@;
            let values = rebase_values(Ghost(p), big, &plan.entries[j].values, original_data_base, data_at)?;
            plan.entries.set(j, TiffIfdEntryToWrite::new_u64(tag, field_type, values));
            proof {
                assert(plan.entries@ == before.update(j as int, plan.entries@[j as int]));
                assert(entry_views(plan.entries@) =~= entry_views(before).update(
                    j as int,
                    (tag, field_type, data_offsets(p, data_at as nat)),
                ));
            }
        }
        j = j + 1;
    }
    // StripByteCounts patch address.
    if plan.directory.strip_byte_counts_patch_offset != 0 {
        proof {
            if p.tile is None {
                let views = entry_views(q.entries@);
                lemma_tags_below_lt(views, 279, pos + 2);
                let tb = tags_below(views, 279);
                let es = table_size(1, big);
                assert(tb * es + es <= views.len() * es) by (nonlinear_arith)
                    requires
                        tb < views.len(),
                ;
                lemma_out_of_line_total_monotone(q.entries@, 0, q.entries@.len(), big);
            }
        }
        plan.directory.strip_byte_counts_patch_offset = plan.directory.strip_byte_counts_patch_offset + (ifd_at
            - header);
    }
    Ok(plan)
}

/// Builds the layout of a whole TIFF file holding several images: the
/// header, the IFD of every image back to back (each chained to the
/// next), then every image's pixel data back to back, each image being its
/// own single-image plan rebased there ([`multi_matches`]). All images must
/// use the same container and none may be tiled and compressed;
/// [`ErrorCode::InvalidArgument`] comes exactly when [`multi_ok`] fails.
#[verifier::rlimit(100)]
#[verifier::spinoff_prover]
pub fn plan_tiff_write_multi(models: &[StorageModel]) -> (r: Result<TiffFileWritePlan>)
    ensures
        r is Ok <==> multi_ok(models@),
        r matches Ok(fp) ==> multi_matches(models@, fp),
        r matches Err(e) ==> e.kind() == ErrorCode::InvalidArgument,
{
    if models.len() == 0 {
        return Err(Error::invalid_argument("planTiffWriteMulti: at least one model is required"));
    }
    let (mut plans, is_big_tiff) = collect_plans(models)?;
    check_not_tiled_compressed(models, &plans)?;
    let header: u64 = if is_big_tiff {
        K_BIG_TIFF_HEADER_SIZE
    } else {
        K_CLASSIC_TIFF_HEADER_SIZE
    };
    let (ifd_offsets, first) = ifd_chain(models, &plans, is_big_tiff, header)?;
    let data_offsets_v = data_chain(models, &plans, first)?;
    let ghost ms = models@;
    let ghost singles = plans@;
    let n = models.len();
    let mut images: Vec<TiffWritePlan> = Vec::new();
    let mut i: usize = 0;
    while i < n
        invariant
            n == ms.len(),
            ms == models@,
            singles.len() == n,
            plans@ == singles.subrange(i as int, n as int),
            images@.len() == i,
            0 <= i <= n,
            header == header_size(is_big_tiff),
            is_big_tiff == image_inputs(ms[0]).is_big_tiff,
            first == header + ifd_sizes_upto(ms, n as nat),
            first + spans_upto(ms, n as nat) <= u64::MAX,
            ifd_offsets@.len() == n,
            data_offsets_v@.len() == n,
            forall|j: int| 0 <= j < n ==> #[trigger] ifd_offsets@[j] == header + ifd_sizes_upto(ms, j as nat),
            forall|j: int| 0 <= j < n ==> #[trigger] data_offsets_v@[j] == first + spans_upto(ms, j as nat),
            forall|j: int| 0 <= j < n ==> plan_ok(#[trigger] ms[j].field_map(), ms[j].entries()),
            forall|j: int| 0 <= j < n ==> (#[trigger] image_inputs(ms[j])).is_big_tiff == is_big_tiff,
            forall|j: int| 0 <= j < n ==> plan_matches(ms[j].field_map(), ms[j].entries(), #[trigger] singles[j]),
            forall|j: int|
                0 <= j < i ==> plan_rebased(
                    singles[j],
                    #[trigger] images@[j],
                    image_inputs(ms[j]),
                    ms[j].entries(),
                    (header + ifd_sizes_upto(ms, j as nat)) as nat,
                    (first + spans_upto(ms, j as nat)) as nat,
                ),
            forall|j: int|
                0 <= j < i && cell_count(#[trigger] image_inputs(ms[j])) > 0 ==> first + spans_upto(ms, j as nat)
                    + (cell_count(image_inputs(ms[j])) - 1) * cell_bytes(image_inputs(ms[j])) <= container_limit(
                    is_big_tiff,
                ),
        decreases n - i,
    {
        let plan = plans.remove(0);
        proof {
            assert(plan == singles[i as int]);
            lemma_ifd_sizes_monotone(ms, (i + 1) as nat, n as nat);
            lemma_ifd_sizes_monotone(ms, i as nat, n as nat);
            lemma_spans_monotone(ms, (i + 1) as nat, n as nat);
            assert(plans@ =~= singles.subrange(i + 1, n as int));
            assert(image_inputs(ms[i as int]).is_big_tiff == is_big_tiff);
        }
        let rebased = rebase_plan(&models[i], plan, header, ifd_offsets[i], data_offsets_v[i])?;
        images.push(rebased);
        i = i + 1;
    }
    let fp = TiffFileWritePlan { images, is_big_tiff };
    proof {
        assert forall|j: int| 0 <= j < ms.len() implies #[trigger] image_placed(ms, fp, j) by {
            assert(plan_matches(ms[j].field_map(), ms[j].entries(), singles[j]));
        }
    }
    Ok(fp)
}

/// Each extension entry a plan writes carries, under its tag, the payload
/// of the very domain that a reader files that tag's records under
/// ([`ptiff_domain_name`]): reading the extension tags back puts every
/// domain's records under its own name.
pub proof fn lemma_ptiff_entries_read_back(e: Entries, i: int)
    requires
        0 <= i < ptiff_entries(e).len(),
    ensures
        ({
            let entry = ptiff_entries(e)[i];
            let name = ptiff_domain_name(entry.0);
            &&& name.len() > 0
            &&& domain_records(e, name).len() > 0
            &&& entry.2 == metadata_payload(sorted_by_key(domain_records(e, name))).map_values(|b: u8| b as u64)
        }),
{
    let d1 = domain_entry(e, 65001, "spice"@);
    let d2 = domain_entry(e, 65002, "camera"@);
    let d3 = domain_entry(e, 65003, "crs"@);
    let d4 = domain_entry(e, 65004, "layers"@);
    let d5 = domain_entry(e, 65005, "provenance"@);
    let all = ptiff_entries(e);
    assert(all == d1 + d2 + d3 + d4 + d5);
    assert(ptiff_domain_name(65001) == "spice"@);
    assert(ptiff_domain_name(65002) == "camera"@);
    assert(ptiff_domain_name(65003) == "crs"@);
    assert(ptiff_domain_name(65004) == "layers"@);
    assert(ptiff_domain_name(65005) == "provenance"@);
    reveal_strlit("spice");
    reveal_strlit("camera");
    reveal_strlit("crs");
    reveal_strlit("layers");
    reveal_strlit("provenance");
    let n1 = d1.len() as int;
    let n2 = n1 + d2.len();
    let n3 = n2 + d3.len();
    let n4 = n3 + d4.len();
    if i < n1 {
        assert(all[i] == d1[i]);
    } else if i < n2 {
        assert(all[i] == d2[i - n1]);
    } else if i < n3 {
        assert(all[i] == d3[i - n2]);
    } else if i < n4 {
        assert(all[i] == d4[i - n3]);
    } else {
        assert(all[i] == d5[i - n4]);
    }
}

} // verus!
