//! Zarr-style single-file container header.
//!
//! A document is an 8-byte little-endian length `H`, then `H` bytes of
//! JSON array header (shape, chunks, dtype, compressor), then fixed-size
//! chunk slots, each a 4-byte length and the chunk's (possibly compressed)
//! bytes. A chunk is one tile.
use super::codec::{payload_bound, payload_bound_of};
use crate::error::{Error, ErrorCode, Result};
use crate::io::backend::tiff::endian::{read_u64, uint_value, Endian};
use crate::io::backend::tiff::pixel_format::{
    lemma_pixel_names_distinct, lemma_pixel_type_name_injective, pixel_type_from_field_value, pixel_type_name,
};
use crate::io::binary_reader::BinaryReader;
use crate::io::storage_model::StorageModel;
use crate::pixel_type::{is_integer_type, sample_bytes, PixelType};
use crate::text::{decimal_chars, parse_decimal, parse_decimal_str, str_eq, str_from_utf8, u32_to_string, utf8};
use crate::tile::{TileExtent, TileLayout};
use vstd::prelude::*;
use vstd::utf8::*;

verus! {

broadcast use vstd::utf8::group_utf8_lib;

/// Byte length of the length prefix before the JSON header.
pub const HEADER_SIZE: u64 = 8;

/// The longest JSON header accepted.
pub const MAX_HEADER_BYTES: u64 = 16777216;

/// How chunks are stored.
#[derive(Debug, Clone, Copy, PartialEq, Eq, Structural)]
pub enum Compressor {
    /// Raw bytes.
    NoCompression,
    /// zstd.
    Zstd,
    /// zlib (RFC 1950).
    Zlib,
}

/// The header and chunk geometry of a Zarr document.
#[derive(Debug)]
pub struct ZarrLayout {
    /// The flat per-image fields a parsed header gives (empty when the
    /// layout was built from a model).
    pub image: StorageModel,
    /// The JSON array header (without the length prefix).
    pub header: Vec<u8>,
    /// The tile grid (a chunk is a tile).
    pub layout: TileLayout,
    /// The chunk compressor.
    pub compressor: Compressor,
    /// Raw bytes per chunk.
    pub chunk_bytes: u32,
    /// On-disk size of one chunk slot.
    pub slot_size: u32,
}

// ---------------------------------------------------------------------------
// The JSON header, through serde_json.
// ---------------------------------------------------------------------------

/// The values the JSON value of `text` holds under the keys `a1` and `a2`
/// (arrays, each element a `u64` or `None`), `s1` and `s2` (strings); each
/// `None` when absent or of another kind. `None` when the text is not a
/// JSON value.
pub uninterp spec fn json_header_fields(
    text: Seq<char>,
    a1: Seq<char>,
    a2: Seq<char>,
    s1: Seq<char>,
    s2: Seq<char>,
) -> Option<(Option<Seq<Option<u64>>>, Option<Seq<Option<u64>>>, Option<Seq<char>>, Option<Seq<char>>)>;

/// The JSON text `serde_json` writes for the object mapping `k1` and `k2`
/// to the strings `v1` and `v2`, and `k3` and `k4` to the number arrays
/// `v3` and `v4`.
pub uninterp spec fn json_header_text(
    k1: Seq<char>,
    v1: Seq<char>,
    k2: Seq<char>,
    v2: Seq<char>,
    k3: Seq<char>,
    v3: Seq<u64>,
    k4: Seq<char>,
    v4: Seq<u64>,
) -> Seq<u8>;

/// The values a header's JSON holds under "shape", "chunks", "dtype" and
/// "compressor".
pub open spec fn header_fields(text: Seq<char>) -> Option<
    (Option<Seq<Option<u64>>>, Option<Seq<Option<u64>>>, Option<Seq<char>>, Option<Seq<char>>),
> {
    json_header_fields(text, "shape"@, "chunks"@, "dtype"@, "compressor"@)
}

/// The JSON text of a header with these compressor, dtype, shape and
/// chunks.
pub open spec fn header_text(compressor: Seq<char>, dtype: Seq<char>, shape: Seq<u64>, chunks: Seq<u64>) -> Seq<u8> {
    json_header_text("compressor"@, compressor, "dtype"@, dtype, "shape"@, shape, "chunks"@, chunks)
}

/// The fields of a parsed header, as plain values.
pub struct JsonHeaderFields {
    /// The "shape" array.
    pub shape: Option<Vec<Option<u64>>>,
    /// The "chunks" array.
    pub chunks: Option<Vec<Option<u64>>>,
    /// The "dtype" string.
    pub dtype: Option<String>,
    /// The "compressor" string.
    pub compressor: Option<String>,
}

/// The plain values of parsed header fields.
pub open spec fn fields_view(f: JsonHeaderFields) -> (
    Option<Seq<Option<u64>>>,
    Option<Seq<Option<u64>>>,
    Option<Seq<char>>,
    Option<Seq<char>>,
) {
    (
        match f.shape {
            Some(v) => Some(v@),
            None => None,
        },
        match f.chunks {
            Some(v) => Some(v@),
            None => None,
        },
        match f.dtype {
            Some(s) => Some(s@),
            None => None,
        },
        match f.compressor {
            Some(s) => Some(s@),
            None => None,
        },
    )
}

/// Parses `text` with `serde_json::from_str` into a `serde_json::Value` and
/// reads the keys `a1` and `a2` (`get`, `as_array`, each element `as_u64`),
/// `s1` and `s2` (`get`, `as_str`); the contract only names the result.
#[verifier::external_body]
fn parse_json_header(text: &str, a1: &str, a2: &str, s1: &str, s2: &str) -> (r: Option<JsonHeaderFields>)
    ensures
        r matches Some(f) ==> json_header_fields(text@, a1@, a2@, s1@, s2@) == Some(fields_view(f)),
        r is None ==> json_header_fields(text@, a1@, a2@, s1@, s2@) is None,
{
    let j: serde_json::Value = serde_json::from_str(text).ok()?;
    Some(JsonHeaderFields {
        shape: j.get(a1).and_then(serde_json::Value::as_array).map(|a| a.iter().map(serde_json::Value::as_u64).collect()),
        chunks: j.get(a2).and_then(serde_json::Value::as_array).map(|a| a.iter().map(serde_json::Value::as_u64).collect()),
        dtype: j.get(s1).and_then(serde_json::Value::as_str).map(String::from),
        compressor: j.get(s2).and_then(serde_json::Value::as_str).map(String::from),
    })
}

/// Writes the JSON object mapping `k1`, `k2` to the strings `v1`, `v2`
/// and `k3`, `k4` to the number arrays `v3`, `v4`, with
/// `serde_json::to_vec` of a `serde_json::Value::Object`. The contract
/// names the text and states what `serde_json` documents: it is UTF-8 and
/// parses back to those values, the four keys being distinct. It also
/// states that the call succeeds: `to_vec` of a `Value` whose map keys are
/// strings writes into a `Vec<u8>` and has no failing case.
#[verifier::external_body]
fn write_json_header(
    k1: &str,
    v1: &str,
    k2: &str,
    v2: &str,
    k3: &str,
    v3: &[u64],
    k4: &str,
    v4: &[u64],
) -> (r: Option<Vec<u8>>)
    requires
        k1@ != k2@ && k1@ != k3@ && k1@ != k4@ && k2@ != k3@ && k2@ != k4@ && k3@ != k4@,
    ensures
        r is Some,
        r matches Some(v) ==> {
            &&& v@ == json_header_text(k1@, v1@, k2@, v2@, k3@, v3@, k4@, v4@)
            &&& valid_utf8(v@)
            &&& json_header_fields(decode_utf8(v@), k3@, k4@, k2@, k1@) == Some(
                (
                    Some(v3@.map_values(|x: u64| Some(x))),
                    Some(v4@.map_values(|x: u64| Some(x))),
                    Some(v2@),
                    Some(v1@),
                ),
            )
        },
{
    let mut map = serde_json::Map::new();
    map.insert(k1.to_string(), serde_json::Value::from(v1));
    map.insert(k2.to_string(), serde_json::Value::from(v2));
    map.insert(k3.to_string(), serde_json::Value::from(v3.to_vec()));
    map.insert(k4.to_string(), serde_json::Value::from(v4.to_vec()));
    serde_json::to_vec(&serde_json::Value::Object(map)).ok()
}

// ---------------------------------------------------------------------------
// Names.
// ---------------------------------------------------------------------------

/// The Zarr dtype of a pixel type name.
pub open spec fn dtype_of(pt: Seq<char>) -> Option<Seq<char>> {
    if pt == "UInt8"@ {
        Some("|u1"@)
    } else if pt == "UInt16"@ {
        Some("<u2"@)
    } else if pt == "UInt32"@ {
        Some("<u4"@)
    } else if pt == "Float32"@ {
        Some("<f4"@)
    } else if pt == "Float64"@ {
        Some("<f8"@)
    } else {
        None
    }
}

/// The pixel type name of a Zarr dtype.
pub open spec fn pixel_of_dtype(d: Seq<char>) -> Option<Seq<char>> {
    if d == "|u1"@ {
        Some("UInt8"@)
    } else if d == "<u2"@ {
        Some("UInt16"@)
    } else if d == "<u4"@ {
        Some("UInt32"@)
    } else if d == "<f4"@ {
        Some("Float32"@)
    } else if d == "<f8"@ {
        Some("Float64"@)
    } else {
        None
    }
}

/// The compressor a storage field or header names.
pub open spec fn compressor_of(v: Seq<char>) -> Option<Compressor> {
    if v == "None"@ || v == "none"@ {
        Some(Compressor::NoCompression)
    } else if v == "zstd"@ {
        Some(Compressor::Zstd)
    } else if v == "zlib"@ {
        Some(Compressor::Zlib)
    } else {
        None
    }
}

fn pixel_type_to_dtype(pt: &str) -> (r: Option<&'static str>)
    ensures
        r matches Some(s) ==> dtype_of(pt@) == Some(s@),
        r is None ==> dtype_of(pt@) is None,
{
    if str_eq(pt, "UInt8") {
        Some("|u1")
    } else if str_eq(pt, "UInt16") {
        Some("<u2")
    } else if str_eq(pt, "UInt32") {
        Some("<u4")
    } else if str_eq(pt, "Float32") {
        Some("<f4")
    } else if str_eq(pt, "Float64") {
        Some("<f8")
    } else {
        None
    }
}

fn dtype_to_pixel_type(dtype: &str) -> (r: Option<&'static str>)
    ensures
        r matches Some(s) ==> pixel_of_dtype(dtype@) == Some(s@),
        r is None ==> pixel_of_dtype(dtype@) is None,
{
    if str_eq(dtype, "|u1") {
        Some("UInt8")
    } else if str_eq(dtype, "<u2") {
        Some("UInt16")
    } else if str_eq(dtype, "<u4") {
        Some("UInt32")
    } else if str_eq(dtype, "<f4") {
        Some("Float32")
    } else if str_eq(dtype, "<f8") {
        Some("Float64")
    } else {
        None
    }
}

/// Reads a compressor from its storage field spelling (`"None"`) or its
/// header spelling (`"none"`), or `"zstd"` / `"zlib"`;
/// [`ErrorCode::InvalidArgument`] for anything else.
pub fn parse_compressor(value: &str) -> (r: Result<Compressor>)
    ensures
        r matches Ok(c) ==> compressor_of(value@) == Some(c),
        r is Err ==> compressor_of(value@) is None,
        r matches Err(e) ==> e.kind() == ErrorCode::InvalidArgument,
{
    if str_eq(value, "None") || str_eq(value, "none") {
        Ok(Compressor::NoCompression)
    } else if str_eq(value, "zstd") {
        Ok(Compressor::Zstd)
    } else if str_eq(value, "zlib") {
        Ok(Compressor::Zlib)
    } else {
        Err(Error::invalid_argument("zarr: unsupported compression (expected None/zstd/zlib)"))
    }
}

/// The pixel type a (known) pixel type name names.
fn pixel_type_named(pt: &str) -> (t: PixelType)
    requires
        exists|t: PixelType| pixel_type_name(t) == pt@,
    ensures
        pixel_type_name(t) == pt@,
{
    match pixel_type_from_field_value(pt) {
        Ok(t) => t,
        Err(_) => PixelType::UInt8,
    }
}

/// The storage spelling of a compressor.
pub open spec fn compressor_field(c: Compressor) -> Seq<char> {
    match c {
        Compressor::Zstd => "zstd"@,
        Compressor::Zlib => "zlib"@,
        Compressor::NoCompression => "None"@,
    }
}

/// Raw bytes per chunk: the product of the tile size, samples and sample
/// bytes, in wrapping `u64` arithmetic, truncated to 32 bits.
pub open spec fn chunk_bytes_of(tw: u32, th: u32, spp: u64, bps: nat) -> u32 {
    (tw as u64).wrapping_mul(th as u64).wrapping_mul(spp).wrapping_mul(bps as u64) as u32
}

/// The on-disk size of a chunk slot: the length prefix and the worst-case
/// payload, truncated to 32 bits.
pub open spec fn slot_size_of(c: Compressor, chunk_bytes: u32) -> u32 {
    (4 + payload_bound_of(c, chunk_bytes as nat)) as u32
}

fn slot_geometry(c: Compressor, tw: u32, th: u32, spp: u64, pixel_type: PixelType) -> (r: Result<(u32, u32)>)
    ensures
        r matches Ok(v) ==> v.0 == chunk_bytes_of(tw, th, spp, sample_bytes(pixel_type)) && v.1
            == slot_size_of(c, v.0),
        r is Err <==> chunk_bytes_of(tw, th, spp, sample_bytes(pixel_type)) > usize::MAX / 2,
        r matches Err(e) ==> e.kind() == ErrorCode::InvalidArgument,
{
    let bps = pixel_type.bytes_per_sample() as u64;
    let chunk_bytes = (tw as u64).wrapping_mul(th as u64).wrapping_mul(spp).wrapping_mul(bps) as u32;
    if chunk_bytes as u64 > (usize::MAX / 2) as u64 {
        return Err(Error::invalid_argument("zarr: pixel geometry overflow"));
    }
    let bound = payload_bound(c, chunk_bytes as usize);
    let slot_size = (4u64 + bound as u64) as u32;
    Ok((chunk_bytes, slot_size))
}

/// The header spelling of a compressor.
pub open spec fn compressor_header_name(c: Compressor) -> Seq<char> {
    match c {
        Compressor::Zstd => "zstd"@,
        Compressor::Zlib => "zlib"@,
        Compressor::NoCompression => "none"@,
    }
}

/// A dtype reads back as the pixel type it was written for.
proof fn lemma_dtype_round_trip(pt: Seq<char>)
    ensures
        dtype_of(pt) is Some ==> pixel_of_dtype(dtype_of(pt)->0) == Some(pt),
{
    reveal_strlit("UInt8");
    reveal_strlit("UInt16");
    reveal_strlit("UInt32");
    reveal_strlit("Float32");
    reveal_strlit("Float64");
    reveal_strlit("|u1");
    reveal_strlit("<u2");
    reveal_strlit("<u4");
    reveal_strlit("<f4");
    reveal_strlit("<f8");
    assert("<u2"@ != "|u1"@ && "<u4"@ != "|u1"@ && "<f4"@ != "|u1"@ && "<f8"@ != "|u1"@) by {
        assert("<u2"@[0] != "|u1"@[0]);
        assert("<u4"@[0] != "|u1"@[0]);
        assert("<f4"@[0] != "|u1"@[0]);
        assert("<f8"@[0] != "|u1"@[0]);
    }
    assert("<u4"@ != "<u2"@ && "<f4"@ != "<u2"@ && "<f8"@ != "<u2"@) by {
        assert("<u4"@[2] != "<u2"@[2]);
        assert("<f4"@[1] != "<u2"@[1]);
        assert("<f8"@[1] != "<u2"@[1]);
    }
    assert("<f4"@ != "<u4"@ && "<f8"@ != "<u4"@ && "<f8"@ != "<f4"@) by {
        assert("<f4"@[1] != "<u4"@[1]);
        assert("<f8"@[1] != "<u4"@[1]);
        assert("<f8"@[2] != "<f4"@[2]);
    }
}

/// A compressor's header spelling reads back as that compressor.
proof fn lemma_compressor_round_trip(c: Compressor)
    ensures
        compressor_of(compressor_header_name(c)) == Some(c),
{
    reveal_strlit("None");
    reveal_strlit("none");
    reveal_strlit("zstd");
    reveal_strlit("zlib");
    assert("zstd"@ != "None"@ && "zstd"@ != "none"@ && "zlib"@ != "None"@ && "zlib"@ != "none"@) by {
        assert("zstd"@[0] != "None"@[0]);
        assert("zstd"@[0] != "none"@[0]);
        assert("zlib"@[0] != "None"@[0]);
        assert("zlib"@[0] != "none"@[0]);
    }
    assert("zlib"@ != "zstd"@) by {
        assert("zlib"@[1] != "zstd"@[1]);
    }
}

/// The samples field `"1"` reads as 1.
proof fn lemma_one_reads_as_one()
    ensures
        parse_decimal(utf8("1"@), u64::MAX as nat) == Some(1nat),
{
    reveal_strlit("1");
    assert("1"@ =~= seq!['1']);
    assert(leading_byte_width_1(49u32) == 49u8) by (bit_vector);
    assert(encode_utf8(seq!['1']) =~= seq![49u8]) by {
        reveal_with_fuel(encode_utf8, 2);
        assert(seq!['1'].drop_first() =~= Seq::<char>::empty());
    }
    let d = seq![49u8];
    assert(crate::text::numeral_digits(d) =~= d);
    assert(crate::text::digits_value(d) == 1) by {
        reveal_with_fuel(crate::text::digits_value, 2);
        assert(d.drop_last() =~= Seq::<u8>::empty());
    }
}

// ---------------------------------------------------------------------------
// Building a header from a model.
// ---------------------------------------------------------------------------

/// Whether a flat image model has what a Zarr header needs: the six
/// geometry fields, a pixel type with a dtype, a known compression (if
/// any), numeric sizes (`u32`, samples `u64`) and a chunk size a slot can
/// hold.
pub open spec fn layout_buildable(m: Map<Seq<char>, Seq<char>>) -> bool {
    &&& m.contains_key("imageWidth"@) && m.contains_key("imageHeight"@)
    &&& m.contains_key("samplesPerPixel"@) && m.contains_key("pixelType"@)
    &&& m.contains_key("tileWidth"@) && m.contains_key("tileHeight"@)
    &&& dtype_of(m["pixelType"@]) is Some
    &&& m.contains_key("compression"@) ==> compressor_of(m["compression"@]) is Some
    &&& parse_decimal(utf8(m["imageWidth"@]), u32::MAX as nat) is Some
    &&& parse_decimal(utf8(m["imageHeight"@]), u32::MAX as nat) is Some
    &&& parse_decimal(utf8(m["tileWidth"@]), u32::MAX as nat) is Some
    &&& parse_decimal(utf8(m["tileHeight"@]), u32::MAX as nat) is Some
    &&& parse_decimal(utf8(m["samplesPerPixel"@]), u64::MAX as nat) is Some
}

fn required_numeric(value: &str, field: &str, max: u64) -> (r: Result<u64>)
    ensures
        r matches Ok(v) ==> parse_decimal(utf8(value@), max as nat) == Some(v as nat) && v <= max,
        r is Err ==> parse_decimal(utf8(value@), max as nat) is None,
        r matches Err(e) ==> e.kind() == ErrorCode::InvalidArgument,
{
    match parse_decimal_str(value, max) {
        Some(v) => Ok(v),
        None => {
            let mut message = String::from_str("zarr: non-numeric field \"");
            message.append(field);
            message.append("\"");
            Err(Error::invalid_argument(message.as_str()))
        },
    }
}

/// Whether the chunk size of a buildable flat image model with fields `m`
/// is at most half the address range.
pub open spec fn layout_chunk_fits(m: Map<Seq<char>, Seq<char>>) -> bool {
    let tw = parse_decimal(utf8(m["tileWidth"@]), u32::MAX as nat)->0;
    let th = parse_decimal(utf8(m["tileHeight"@]), u32::MAX as nat)->0;
    let spp = parse_decimal(utf8(m["samplesPerPixel"@]), u64::MAX as nat)->0;
    chunk_bytes_of(tw as u32, th as u32, spp as u64, sample_bytes(named_pixel_type(m["pixelType"@])))
        <= usize::MAX / 2
}

/// `l` is the layout [`build_layout`] makes of a flat image model with
/// fields `m`.
pub open spec fn built_layout(m: Map<Seq<char>, Seq<char>>, l: ZarrLayout) -> bool {
    let w = parse_decimal(utf8(m["imageWidth"@]), u32::MAX as nat)->0;
    let h = parse_decimal(utf8(m["imageHeight"@]), u32::MAX as nat)->0;
    let tw = parse_decimal(utf8(m["tileWidth"@]), u32::MAX as nat)->0;
    let th = parse_decimal(utf8(m["tileHeight"@]), u32::MAX as nat)->0;
    let spp = parse_decimal(utf8(m["samplesPerPixel"@]), u64::MAX as nat)->0;
    let c = if m.contains_key("compression"@) {
        compressor_of(m["compression"@])->0
    } else {
        Compressor::NoCompression
    };
    let pt = named_pixel_type(m["pixelType"@]);
    &&& layout_buildable(m)
    &&& l.image.field_map() == Map::<Seq<char>, Seq<char>>::empty()
    &&& l.layout == TileLayout {
        tile_size: TileExtent { width: tw as u32, height: th as u32 },
        image_width: w as u32,
        image_height: h as u32,
        level_count: 1,
    }
    &&& l.compressor == c
    &&& l.chunk_bytes == chunk_bytes_of(tw as u32, th as u32, spp as u64, sample_bytes(pt))
    &&& l.slot_size == slot_size_of(c, l.chunk_bytes)
    &&& l.header@ == header_text(
        compressor_header_name(c),
        dtype_of(m["pixelType"@])->0,
        if m["samplesPerPixel"@] == "1"@ {
            seq![h as u64, w as u64]
        } else {
            seq![spp as u64, h as u64, w as u64]
        },
        seq![th as u64, tw as u64],
    )
    &&& spp <= u32::MAX ==> {
        &&& header_readable(l.header@)
        &&& header_params(decode_utf8(l.header@)) == Some(layout_params(m))
    }
}

/// The header parameters a flat image model with fields `m` declares:
/// width, height, tile width and height, samples (1 when the field reads
/// `"1"`), pixel type name and compressor.
pub open spec fn layout_params(m: Map<Seq<char>, Seq<char>>) -> (u32, u32, u32, u32, u32, Seq<char>, Compressor) {
    let w = parse_decimal(utf8(m["imageWidth"@]), u32::MAX as nat)->0;
    let h = parse_decimal(utf8(m["imageHeight"@]), u32::MAX as nat)->0;
    let tw = parse_decimal(utf8(m["tileWidth"@]), u32::MAX as nat)->0;
    let th = parse_decimal(utf8(m["tileHeight"@]), u32::MAX as nat)->0;
    let spp = parse_decimal(utf8(m["samplesPerPixel"@]), u64::MAX as nat)->0;
    let c = if m.contains_key("compression"@) {
        compressor_of(m["compression"@])->0
    } else {
        Compressor::NoCompression
    };
    (
        w as u32,
        h as u32,
        tw as u32,
        th as u32,
        if m["samplesPerPixel"@] == "1"@ {
            1u32
        } else {
            spp as u32
        },
        m["pixelType"@],
        c,
    )
}

/// Builds the JSON array header and chunk geometry of a flat image model:
/// shape `[height, width]` (or `[samples, height, width]` unless the
/// samples field reads `"1"`), chunks `[tileHeight, tileWidth]`, the dtype
/// and the compressor. [`ErrorCode::InvalidArgument`] exactly when the
/// model lacks what [`layout_buildable`] asks or its chunk size is over
/// half the address range ([`layout_chunk_fits`]).
pub fn build_layout(model: &StorageModel) -> (r: Result<ZarrLayout>)
    ensures
        r is Ok <==> layout_buildable(model.field_map()) && layout_chunk_fits(model.field_map()),
        r matches Ok(l) ==> built_layout(model.field_map(), l),
        r matches Err(e) ==> e.kind() == ErrorCode::InvalidArgument,
{
    let w = model.field("imageWidth");
    let h = model.field("imageHeight");
    let b = model.field("samplesPerPixel");
    let pt = model.field("pixelType");
    let tw = model.field("tileWidth");
    let th = model.field("tileHeight");
    let (w, h, b, pt, tw, th) = match (w, h, b, pt, tw, th) {
        (Ok(w), Ok(h), Ok(b), Ok(pt), Ok(tw), Ok(th)) => (w, h, b, pt, tw, th),
        _ => {
            return Err(Error::invalid_argument("zarr: missing geometry/frame fields"));
        },
    };
    let dtype = match pixel_type_to_dtype(pt) {
        Some(d) => d,
        None => {
            return Err(Error::invalid_argument("zarr: unsupported pixelType"));
        },
    };
    let mut compressor = Compressor::NoCompression;
    match model.field("compression") {
        Ok(c) => {
            compressor = parse_compressor(c)?;
        },
        Err(_) => {},
    }
    let w_u32 = required_numeric(w, "imageWidth", 0xFFFF_FFFF)? as u32;
    let h_u32 = required_numeric(h, "imageHeight", 0xFFFF_FFFF)? as u32;
    let tw_u32 = required_numeric(tw, "tileWidth", 0xFFFF_FFFF)? as u32;
    let th_u32 = required_numeric(th, "tileHeight", 0xFFFF_FFFF)? as u32;
    let spp_u64 = required_numeric(b, "samplesPerPixel", 0xFFFF_FFFF_FFFF_FFFF)?;
    proof {
        reveal_strlit("UInt8");
        reveal_strlit("UInt16");
        reveal_strlit("UInt32");
        reveal_strlit("Float32");
        reveal_strlit("Float64");
        lemma_pixel_type_name_injective();
        assert(pixel_type_name(PixelType::UInt8) == "UInt8"@);
        assert(exists|t: PixelType| pixel_type_name(t) == pt@) by {
            if pt@ == "UInt8"@ {
                assert(pixel_type_name(PixelType::UInt8) == pt@);
            } else if pt@ == "UInt16"@ {
                assert(pixel_type_name(PixelType::UInt16) == pt@);
            } else if pt@ == "UInt32"@ {
                assert(pixel_type_name(PixelType::UInt32) == pt@);
            } else if pt@ == "Float32"@ {
                assert(pixel_type_name(PixelType::Float32) == pt@);
            } else {
                assert(pixel_type_name(PixelType::Float64) == pt@);
            }
        }
    }
    let pixel_type = pixel_type_named(pt);
    assert(named_pixel_type(pt@) == pixel_type);
    let (chunk_bytes, slot_size) = slot_geometry(compressor, tw_u32, th_u32, spp_u64, pixel_type)?;
    let compressor_str = match compressor {
        Compressor::Zstd => "zstd",
        Compressor::Zlib => "zlib",
        Compressor::NoCompression => "none",
    };
    let mut shape: Vec<u64> = Vec::new();
    if str_eq(b, "1") {
        shape.push(h_u32 as u64);
        shape.push(w_u32 as u64);
        assert(shape@ =~= seq![h_u32 as u64, w_u32 as u64]);
    } else {
        shape.push(spp_u64);
        shape.push(h_u32 as u64);
        shape.push(w_u32 as u64);
        assert(shape@ =~= seq![spp_u64, h_u32 as u64, w_u32 as u64]);
    }
    let mut chunks: Vec<u64> = Vec::new();
    chunks.push(th_u32 as u64);
    chunks.push(tw_u32 as u64);
    assert(chunks@ =~= seq![th_u32 as u64, tw_u32 as u64]);
    proof {
        reveal_strlit("compressor");
        reveal_strlit("dtype");
        reveal_strlit("shape");
        reveal_strlit("chunks");
        assert("dtype"@[0] != "shape"@[0]);
        assert("compressor"@.len() != "dtype"@.len() && "compressor"@.len() != "shape"@.len());
        assert("compressor"@.len() != "chunks"@.len() && "chunks"@.len() != "dtype"@.len());
        assert("chunks"@.len() != "shape"@.len());
    }
    let header = match write_json_header(
        "compressor",
        compressor_str,
        "dtype",
        dtype,
        "shape",
        shape.as_slice(),
        "chunks",
        chunks.as_slice(),
    ) {
        Some(v) => v,
        None => {
            return Err(Error::unknown("zarr: encode header failed"));
        },
    };
    proof {
        lemma_dtype_round_trip(pt@);
        lemma_compressor_round_trip(compressor);
        assert(compressor_str@ == compressor_header_name(compressor));
        lemma_one_reads_as_one();
    }
    Ok(ZarrLayout {
        image: StorageModel::new(),
        header,
        layout: TileLayout::new(TileExtent::new(tw_u32, th_u32), w_u32, h_u32, 1),
        compressor,
        chunk_bytes,
        slot_size,
    })
}

// ---------------------------------------------------------------------------
// Parsing a header.
// ---------------------------------------------------------------------------

/// Element `i` of a JSON number array when it is a `u32`.
pub open spec fn elem_u32(a: Seq<Option<u64>>, i: int) -> Option<u32> {
    if 0 <= i < a.len() {
        match a[i] {
            Some(n) => if n <= u32::MAX {
                Some(n as u32)
            } else {
                None
            },
            None => None,
        }
    } else {
        None
    }
}

/// What a JSON array header describes: width, height, tile width, tile
/// height, bands, pixel type name and compressor; `None` when the JSON
/// lacks shape/chunks/dtype, the shape is not of rank 2 or 3, a size is
/// not a `u32`, the chunks have fewer than two entries, the dtype is
/// unknown or the compressor unsupported.
pub open spec fn header_params(text: Seq<char>) -> Option<(u32, u32, u32, u32, u32, Seq<char>, Compressor)> {
    match header_fields(text) {
        None => None,
        Some(f) => fields_params(f),
    }
}

/// What the values read from a JSON array header describe (see
/// [`header_params`]).
pub open spec fn fields_params(
    f: (Option<Seq<Option<u64>>>, Option<Seq<Option<u64>>>, Option<Seq<char>>, Option<Seq<char>>),
) -> Option<(u32, u32, u32, u32, u32, Seq<char>, Compressor)> {
    {
        {
            let (shape, chunks, dtype, comp) = f;
            if shape is None || chunks is None || dtype is None {
                None
            } else {
                let s = shape->0;
                let c = chunks->0;
                let nd = s.len() as int;
                let cn = c.len() as int;
                if nd != 2 && nd != 3 {
                    None
                } else if elem_u32(s, nd - 1) is None || elem_u32(s, nd - 2) is None {
                    None
                } else if cn < 2 || elem_u32(c, cn - 1) is None || elem_u32(c, cn - 2) is None {
                    None
                } else if nd == 3 && elem_u32(s, 0) is None {
                    None
                } else if pixel_of_dtype(dtype->0) is None {
                    None
                } else if comp is Some && compressor_of(comp->0) is None {
                    None
                } else {
                    Some(
                        (
                            elem_u32(s, nd - 1)->0,
                            elem_u32(s, nd - 2)->0,
                            elem_u32(c, cn - 1)->0,
                            elem_u32(c, cn - 2)->0,
                            if nd == 3 {
                                elem_u32(s, 0)->0
                            } else {
                                1u32
                            },
                            pixel_of_dtype(dtype->0)->0,
                            if comp is Some {
                                compressor_of(comp->0)->0
                            } else {
                                Compressor::NoCompression
                            },
                        ),
                    )
                }
            }
        }
    }
}

/// The pixel type a known pixel type name names.
pub open spec fn named_pixel_type(name: Seq<char>) -> PixelType {
    choose|t: PixelType| pixel_type_name(t) == name
}

/// Whether the bytes hold a readable JSON array header whose chunk size a
/// slot can hold.
pub open spec fn header_readable(bytes: Seq<u8>) -> bool {
    &&& valid_utf8(bytes)
    &&& header_params(decode_utf8(bytes)) is Some
    &&& {
        let p = header_params(decode_utf8(bytes))->0;
        chunk_bytes_of(p.2, p.3, p.4 as u64, sample_bytes(named_pixel_type(p.5))) <= usize::MAX / 2
    }
}

/// The fields of the flat image model a header with parameters `p` gives.
pub open spec fn header_model(p: (u32, u32, u32, u32, u32, Seq<char>, Compressor)) -> Map<Seq<char>, Seq<char>> {
    Map::<Seq<char>, Seq<char>>::empty().insert("imageWidth"@, decimal_chars(p.0 as nat)).insert(
        "imageHeight"@,
        decimal_chars(p.1 as nat),
    ).insert("tileWidth"@, decimal_chars(p.2 as nat)).insert("tileHeight"@, decimal_chars(p.3 as nat)).insert(
        "samplesPerPixel"@,
        decimal_chars(p.4 as nat),
    ).insert("pixelType"@, p.5).insert("compression"@, compressor_field(p.6))
}

fn json_u32_at(array: &Vec<Option<u64>>, index: usize, what: &str) -> (r: Result<u32>)
    ensures
        r matches Ok(v) ==> elem_u32(array@, index as int) == Some(v),
        r is Err ==> elem_u32(array@, index as int) is None,
        r matches Err(e) ==> e.kind() == ErrorCode::InvalidArgument,
{
    if index < array.len() {
        match array[index] {
            Some(n) => {
                if n <= 0xFFFF_FFFF {
                    return Ok(n as u32);
                }
            },
            None => {},
        }
    }
    let mut message = String::from_str("zarr: malformed ");
    message.append(what);
    Err(Error::invalid_argument(message.as_str()))
}

/// Reads a JSON array header back into the flat image model and chunk
/// geometry it describes ([`header_params`], [`header_model`]).
/// [`ErrorCode::InvalidArgument`] exactly when [`header_readable`] fails.
pub fn parse_header(json_header: &[u8]) -> (r: Result<ZarrLayout>)
    ensures
        r is Ok <==> header_readable(json_header@),
        r matches Ok(l) ==> {
            let p = header_params(decode_utf8(json_header@))->0;
            &&& l.image.field_map() == header_model(p)
            &&& l.image.child_nodes().len() == 0
            &&& l.header@.len() == 0
            &&& l.layout == TileLayout {
                tile_size: TileExtent { width: p.2, height: p.3 },
                image_width: p.0,
                image_height: p.1,
                level_count: 1,
            }
            &&& l.compressor == p.6
            &&& l.chunk_bytes == chunk_bytes_of(p.2, p.3, p.4 as u64, sample_bytes(named_pixel_type(p.5)))
            &&& l.slot_size == slot_size_of(p.6, l.chunk_bytes)
        },
        r matches Err(e) ==> e.kind() == ErrorCode::InvalidArgument,
{
    let text = match str_from_utf8(json_header) {
        Some(t) => t,
        None => {
            return Err(Error::invalid_argument("zarr: malformed JSON array header"));
        },
    };
    proof {
        assert(decode_utf8(json_header@) == text@) by {
            assert(decode_utf8(utf8(text@)) == text@);
        }
    }
    let fields = match parse_json_header(text, "shape", "chunks", "dtype", "compressor") {
        Some(f) => f,
        None => {
            return Err(Error::invalid_argument("zarr: malformed JSON array header"));
        },
    };
    layout_from_fields(fields)
}

/// Whether header parameters describe a chunk size a slot can hold.
pub open spec fn params_fit(p: (u32, u32, u32, u32, u32, Seq<char>, Compressor)) -> bool {
    chunk_bytes_of(p.2, p.3, p.4 as u64, sample_bytes(named_pixel_type(p.5))) <= usize::MAX / 2
}

/// `l` is the flat image model and chunk geometry of header parameters
/// `p`, with no header bytes.
pub open spec fn params_layout(p: (u32, u32, u32, u32, u32, Seq<char>, Compressor), l: ZarrLayout) -> bool {
    &&& l.image.field_map() == header_model(p)
    &&& l.image.child_nodes().len() == 0
    &&& l.header@.len() == 0
    &&& l.layout == TileLayout {
        tile_size: TileExtent { width: p.2, height: p.3 },
        image_width: p.0,
        image_height: p.1,
        level_count: 1,
    }
    &&& l.compressor == p.6
    &&& l.chunk_bytes == chunk_bytes_of(p.2, p.3, p.4 as u64, sample_bytes(named_pixel_type(p.5)))
    &&& l.slot_size == slot_size_of(p.6, l.chunk_bytes)
}

/// Turns the values read from a JSON array header into the flat image
/// model and chunk geometry they describe ([`fields_params`]):
/// [`ErrorCode::InvalidArgument`] exactly when they describe none or its
/// chunk size does not fit ([`params_fit`]).
pub fn layout_from_fields(fields: JsonHeaderFields) -> (r: Result<ZarrLayout>)
    ensures
        r is Ok <==> fields_params(fields_view(fields)) is Some && params_fit(fields_params(fields_view(fields))->0),
        r matches Ok(l) ==> params_layout(fields_params(fields_view(fields))->0, l),
        r matches Err(e) ==> e.kind() == ErrorCode::InvalidArgument,
{
    let JsonHeaderFields { shape, chunks, dtype, compressor: comp } = fields;
    let (shape, chunks, dtype) = match (shape, chunks, dtype) {
        (Some(s), Some(c), Some(d)) => (s, c, d),
        _ => {
            return Err(Error::invalid_argument("zarr: header missing shape/chunks/dtype"));
        },
    };
    let ndim = shape.len();
    if ndim != 2 && ndim != 3 {
        return Err(Error::invalid_argument("zarr: unsupported shape rank"));
    }
    let w = json_u32_at(&shape, ndim - 1, "shape")?;
    let h = json_u32_at(&shape, ndim - 2, "shape")?;
    let cndim = chunks.len();
    if cndim < 2 {
        return Err(Error::invalid_argument("zarr: malformed chunks"));
    }
    let tw = json_u32_at(&chunks, cndim - 1, "chunks")?;
    let th = json_u32_at(&chunks, cndim - 2, "chunks")?;
    let bands = if ndim == 3 {
        json_u32_at(&shape, 0, "shape")?
    } else {
        1
    };
    let pt = match dtype_to_pixel_type(dtype.as_str()) {
        Some(p) => p,
        None => {
            return Err(Error::invalid_argument("zarr: unrecognized dtype"));
        },
    };
    let mut compressor = Compressor::NoCompression;
    match comp {
        Some(c) => {
            compressor = parse_compressor(c.as_str())?;
        },
        None => {},
    }
    proof {
        reveal_strlit("UInt8");
        reveal_strlit("UInt16");
        reveal_strlit("UInt32");
        reveal_strlit("Float32");
        reveal_strlit("Float64");
        lemma_pixel_type_name_injective();
        assert(exists|t: PixelType| pixel_type_name(t) == pt@) by {
            if pt@ == "UInt8"@ {
                assert(pixel_type_name(PixelType::UInt8) == pt@);
            } else if pt@ == "UInt16"@ {
                assert(pixel_type_name(PixelType::UInt16) == pt@);
            } else if pt@ == "UInt32"@ {
                assert(pixel_type_name(PixelType::UInt32) == pt@);
            } else if pt@ == "Float32"@ {
                assert(pixel_type_name(PixelType::Float32) == pt@);
            } else {
                assert(pixel_type_name(PixelType::Float64) == pt@);
            }
        }
    }
    let pixel_type = pixel_type_named(pt);
    assert(named_pixel_type(pt@) == pixel_type);
    let (chunk_bytes, slot_size) = slot_geometry(compressor, tw, th, bands as u64, pixel_type)?;
    let mut image = StorageModel::new();
    image.set_field("imageWidth", u32_to_string(w).as_str());
    image.set_field("imageHeight", u32_to_string(h).as_str());
    image.set_field("tileWidth", u32_to_string(tw).as_str());
    image.set_field("tileHeight", u32_to_string(th).as_str());
    image.set_field("samplesPerPixel", u32_to_string(bands).as_str());
    image.set_field("pixelType", pt);
    let compression_name = match compressor {
        Compressor::Zstd => "zstd",
        Compressor::Zlib => "zlib",
        Compressor::NoCompression => "None",
    };
    image.set_field("compression", compression_name);
    Ok(ZarrLayout {
        image,
        header: Vec::new(),
        layout: TileLayout::new(TileExtent::new(tw, th), w, h, 1),
        compressor,
        chunk_bytes,
        slot_size,
    })
}

// ---------------------------------------------------------------------------
// Reading a document's header.
// ---------------------------------------------------------------------------

/// The JSON header length a document of `bytes` declares.
pub open spec fn declared_header_len(bytes: Seq<u8>) -> nat {
    uint_value(bytes, 8, Endian::Little)
}

/// Whether a document's front holds a readable header: the length prefix,
/// a declared length in `1..=MAX_HEADER_BYTES`, that many bytes, and a
/// readable JSON header in them.
pub open spec fn document_readable(bytes: Seq<u8>) -> bool {
    &&& bytes.len() >= 8
    &&& 0 < declared_header_len(bytes) <= MAX_HEADER_BYTES
    &&& bytes.len() >= 8 + declared_header_len(bytes)
    &&& header_readable(bytes.subrange(8, 8 + declared_header_len(bytes) as int))
}

/// `l` is the layout [`read_document`] reads from the document `b`.
pub open spec fn document_layout(b: Seq<u8>, l: ZarrLayout) -> bool {
    let hb = b.subrange(8, 8 + declared_header_len(b) as int);
    let p = header_params(decode_utf8(hb))->0;
    &&& document_readable(b)
    &&& l.header@ == hb
    &&& l.image.field_map() == header_model(p)
    &&& l.layout == TileLayout {
        tile_size: TileExtent { width: p.2, height: p.3 },
        image_width: p.0,
        image_height: p.1,
        level_count: 1,
    }
    &&& l.compressor == p.6
    &&& l.chunk_bytes == chunk_bytes_of(p.2, p.3, p.4 as u64, sample_bytes(named_pixel_type(p.5)))
    &&& l.slot_size == slot_size_of(p.6, l.chunk_bytes)
}

/// Reads the length prefix and JSON header at the start of a document and
/// parses it ([`parse_header`]), keeping the header bytes. On a reliable
/// reader this succeeds exactly when [`document_readable`] holds;
/// [`ErrorCode::InvalidArgument`] otherwise. A failing reader's error is
/// passed on.
pub fn read_document<R: BinaryReader>(reader: &mut R) -> (r: Result<ZarrLayout>)
    ensures
        final(reader).bytes() == old(reader).bytes(),
        final(reader).reliable() == old(reader).reliable(),
        old(reader).reliable() ==> (r is Ok <==> document_readable(old(reader).bytes())),
        r matches Ok(l) ==> document_layout(old(reader).bytes(), l),
        old(reader).reliable() ==> (r matches Err(e) ==> e.kind() == ErrorCode::InvalidArgument),
        ({
            let b = old(reader).bytes();
            let l = declared_header_len(b);
            &&& old(reader).reliable() && b.len() < 8 ==> (r matches Err(e) && e.text()
                == "zarr: truncated seek header"@)
            &&& old(reader).reliable() && b.len() >= 8 && (l == 0 || l > MAX_HEADER_BYTES) ==> (r matches Err(e)
                && e.text() == "zarr: implausible header length"@)
            &&& old(reader).reliable() && b.len() >= 8 && 0 < l <= MAX_HEADER_BYTES && b.len() < 8 + l ==> (r matches Err(
                e,
            ) && e.text() == "zarr: truncated header"@)
        }),
{
    reader.seek(0)?;
    let ghost b = reader.bytes();
    let mut size_bytes: Vec<u8> = vec![0u8; 8];
    let read_size = reader.read(size_bytes.as_mut_slice())?;
    if read_size != 8 {
        return Err(Error::invalid_argument("zarr: truncated seek header"));
    }
    assert(size_bytes@ =~= b.subrange(0, 8));
    let json_len = read_u64(size_bytes.as_slice(), Endian::Little);
    proof {
        assert(uint_value(size_bytes@, 8, Endian::Little) == uint_value(b, 8, Endian::Little)) by {
            assert(size_bytes@.subrange(0, 8) =~= b.subrange(0, 8));
        }
    }
    if json_len == 0 || json_len > MAX_HEADER_BYTES {
        return Err(Error::invalid_argument("zarr: implausible header length"));
    }
    let mut json: Vec<u8> = vec![0u8; json_len as usize];
    let read_json = reader.read(json.as_mut_slice())?;
    if read_json != json.len() {
        return Err(Error::invalid_argument("zarr: truncated header"));
    }
    assert(json@ =~= b.subrange(8, 8 + json_len));
    let mut parsed = parse_header(json.as_slice())?;
    parsed.header = json;
    Ok(parsed)
}

/// The width digit of a sample of `n` bytes, as a typestr writes it.
pub open spec fn width_digit(n: nat) -> char {
    if n == 1 {
        '1'
    } else if n == 2 {
        '2'
    } else if n == 4 {
        '4'
    } else {
        '8'
    }
}

/// A Zarr dtype is a NumPy typestr: the byte order (`|` when a sample is
/// one byte, else `<` for little-endian), the kind (`u` unsigned integer,
/// `f` float) and the sample's byte width. The dtype written for every
/// pixel type describes that type, and reads back as it.
pub proof fn lemma_dtype_describes_pixel_type(t: PixelType)
    ensures
        dtype_of(pixel_type_name(t)) is Some,
        ({
            let d = dtype_of(pixel_type_name(t))->0;
            &&& d.len() == 3
            &&& d[0] == (if sample_bytes(t) == 1 {
                '|'
            } else {
                '<'
            })
            &&& d[1] == (if is_integer_type(t) {
                'u'
            } else {
                'f'
            })
            &&& d[2] == width_digit(sample_bytes(t))
            &&& pixel_of_dtype(d) == Some(pixel_type_name(t))
        }),
{
    reveal_strlit("UInt8");
    reveal_strlit("UInt16");
    reveal_strlit("UInt32");
    reveal_strlit("Float32");
    reveal_strlit("Float64");
    reveal_strlit("|u1");
    reveal_strlit("<u2");
    reveal_strlit("<u4");
    reveal_strlit("<f4");
    reveal_strlit("<f8");
    lemma_pixel_names_distinct();
    match t {
        PixelType::UInt8 => {
            assert(dtype_of(pixel_type_name(t)) == Some("|u1"@));
        },
        PixelType::UInt16 => {
            assert(dtype_of(pixel_type_name(t)) == Some("<u2"@));
        },
        PixelType::UInt32 => {
            assert(dtype_of(pixel_type_name(t)) == Some("<u4"@));
        },
        PixelType::Float32 => {
            assert(dtype_of(pixel_type_name(t)) == Some("<f4"@));
        },
        PixelType::Float64 => {
            assert(dtype_of(pixel_type_name(t)) == Some("<f8"@));
        },
    }
}

/// A dtype that is read as a pixel type describes that type: its kind and
/// byte width are the type's.
pub proof fn lemma_read_dtype_describes_pixel_type(d: Seq<char>, t: PixelType)
    requires
        pixel_of_dtype(d) == Some(pixel_type_name(t)),
    ensures
        d.len() == 3,
        d[1] == (if is_integer_type(t) {
            'u'
        } else {
            'f'
        }),
        d[2] == width_digit(sample_bytes(t)),
{
    reveal_strlit("UInt8");
    reveal_strlit("UInt16");
    reveal_strlit("UInt32");
    reveal_strlit("Float32");
    reveal_strlit("Float64");
    reveal_strlit("|u1");
    reveal_strlit("<u2");
    reveal_strlit("<u4");
    reveal_strlit("<f4");
    reveal_strlit("<f8");
    lemma_pixel_names_distinct();
    match t {
        PixelType::UInt8 => {
            assert(d == "|u1"@);
        },
        PixelType::UInt16 => {
            assert(d == "<u2"@);
        },
        PixelType::UInt32 => {
            assert(d == "<u4"@);
        },
        PixelType::Float32 => {
            assert(d == "<f4"@);
        },
        PixelType::Float64 => {
            assert(d == "<f8"@);
        },
    }
}

} // verus!
