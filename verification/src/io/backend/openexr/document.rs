//! The EXR image an image model describes: whole-image, uncompressed,
//! gray (Y), RGB or RGBA channels of 32-bit float or unsigned samples.
use crate::error::{Error, ErrorCode, Result};
use crate::io::storage_model::StorageModel;
use crate::pixel_type::{sample_bytes, PixelType};
use crate::text::{decimal_chars, lemma_parse_decimal_chars, parse_decimal, parse_decimal_str, u32_to_string, utf8};
use vstd::prelude::*;

verus! {

/// The size, channel count and sample type of an EXR image.
#[derive(Debug, Clone, PartialEq, Eq, Structural)]
pub struct OpenExrImageInfo {
    /// Width in pixels.
    pub width: u32,
    /// Height in pixels.
    pub height: u32,
    /// Channels per pixel: 1 (Y), 3 (RGB) or 4 (RGBA).
    pub samples_per_pixel: u32,
    /// `Float32` or `UInt32`.
    pub pixel_type: PixelType,
}

/// The EXR channel names for `samples_per_pixel`, padded with empty names
/// to four; `None` for a count other than 1, 3 or 4.
pub open spec fn channel_names_of(samples_per_pixel: u32) -> Option<Seq<Seq<char>>> {
    if samples_per_pixel == 1 {
        Some(seq!["Y"@, ""@, ""@, ""@])
    } else if samples_per_pixel == 3 {
        Some(seq!["R"@, "G"@, "B"@, ""@])
    } else if samples_per_pixel == 4 {
        Some(seq!["R"@, "G"@, "B"@, "A"@])
    } else {
        None
    }
}

/// The channel names of an image of `samples_per_pixel` channels
/// ([`channel_names_of`]); another count fails with
/// [`ErrorCode::InvalidArgument`].
pub fn channel_names_for(samples_per_pixel: u32) -> (r: Result<[&'static str; 4]>)
    ensures
        r is Ok <==> channel_names_of(samples_per_pixel) is Some,
        r matches Ok(names) ==> names@.map_values(|s: &str| s@) == channel_names_of(samples_per_pixel)->0,
        r matches Err(e) ==> e.kind() == ErrorCode::InvalidArgument,
{
    proof {
        reveal_strlit("Y");
        reveal_strlit("R");
        reveal_strlit("G");
        reveal_strlit("B");
        reveal_strlit("A");
        reveal_strlit("");
    }
    let names: [&'static str; 4] = if samples_per_pixel == 1 {
        ["Y", "", "", ""]
    } else if samples_per_pixel == 3 {
        ["R", "G", "B", ""]
    } else if samples_per_pixel == 4 {
        ["R", "G", "B", "A"]
    } else {
        return Err(Error::invalid_argument("openexr: only samplesPerPixel 1 (Y), 3 (RGB) or 4 (RGBA) are supported"));
    };
    assert(names@.map_values(|s: &str| s@) =~= channel_names_of(samples_per_pixel)->0);
    Ok(names)
}

/// The pixel type a `pixelType` field names, of the two EXR supports.
pub open spec fn exr_pixel_type(v: Seq<char>) -> Option<PixelType> {
    if v == "Float32"@ {
        Some(PixelType::Float32)
    } else if v == "UInt32"@ {
        Some(PixelType::UInt32)
    } else {
        None
    }
}

/// The `u32` value of field `key`, `None` when absent or not a `u32`
/// numeral.
pub open spec fn exr_u32(m: Map<Seq<char>, Seq<char>>, key: Seq<char>) -> Option<u32> {
    if m.contains_key(key) {
        match parse_decimal(utf8(m[key]), u32::MAX as nat) {
            Some(v) => Some(v as u32),
            None => None,
        }
    } else {
        None
    }
}

/// An optional tile dimension `key` is absent or equals `dim`.
pub open spec fn whole_image_tile(m: Map<Seq<char>, Seq<char>>, key: Seq<char>, dim: u32) -> bool {
    m.contains_key(key) ==> exr_u32(m, key) == Some(dim)
}

/// The EXR image a flat model with fields `m` describes: numeric size and
/// channel count, a supported channel count and pixel type, tiles (if
/// given) covering the whole image, and no compression other than
/// `"None"`/`"none"`; `None` otherwise.
pub open spec fn exr_info(m: Map<Seq<char>, Seq<char>>) -> Option<OpenExrImageInfo> {
    let w = exr_u32(m, "imageWidth"@);
    let h = exr_u32(m, "imageHeight"@);
    let spp = exr_u32(m, "samplesPerPixel"@);
    let pt = if m.contains_key("pixelType"@) {
        exr_pixel_type(m["pixelType"@])
    } else {
        None
    };
    if w is Some && h is Some && spp is Some && channel_names_of(spp->0) is Some && pt is Some
        && whole_image_tile(m, "tileWidth"@, w->0) && whole_image_tile(m, "tileHeight"@, h->0)
        && (m.contains_key("compression"@) ==> (m["compression"@] == "None"@ || m["compression"@] == "none"@)) {
        Some(OpenExrImageInfo { width: w->0, height: h->0, samples_per_pixel: spp->0, pixel_type: pt->0 })
    } else {
        None
    }
}

/// Reads the numeric field `field`.
fn required_u32(model: &StorageModel, field: &str, missing: &str, non_numeric: &str) -> (r: Result<u32>)
    ensures
        r matches Ok(v) ==> exr_u32(model.field_map(), field@) == Some(v),
        r is Err ==> exr_u32(model.field_map(), field@) is None,
        r matches Err(e) ==> e.kind() == ErrorCode::InvalidArgument,
{
    let value = match model.field(field) {
        Ok(v) => v,
        Err(_) => {
            return Err(Error::invalid_argument(missing));
        },
    };
    match parse_decimal_str(value, 0xFFFF_FFFFu64) {
        Some(v) => Ok(v as u32),
        None => Err(Error::invalid_argument(non_numeric)),
    }
}

/// The pixel type of a `pixelType` field ([`exr_pixel_type`]).
fn pixel_type_from_field(value: &str) -> (r: Option<PixelType>)
    ensures
        r == exr_pixel_type(value@),
{
    proof {
        reveal_strlit("Float32");
        reveal_strlit("UInt32");
    }
    if crate::text::str_eq(value, "Float32") {
        Some(PixelType::Float32)
    } else if crate::text::str_eq(value, "UInt32") {
        Some(PixelType::UInt32)
    } else {
        None
    }
}

/// Checks an optional tile dimension against the image dimension.
fn check_whole_tile(model: &StorageModel, field: &str, dim: u32, non_numeric: &str, mismatch: &str) -> (r: Result<()>)
    ensures
        r is Ok <==> whole_image_tile(model.field_map(), field@, dim),
        r matches Err(e) ==> e.kind() == ErrorCode::InvalidArgument,
{
    if let Ok(t) = model.field(field) {
        let parsed = match parse_decimal_str(t, 0xFFFF_FFFFu64) {
            Some(v) => v,
            None => {
                return Err(Error::invalid_argument(non_numeric));
            },
        };
        if parsed != dim as u64 {
            return Err(Error::invalid_argument(mismatch));
        }
    }
    Ok(())
}

/// The EXR image a flat model describes ([`exr_info`]); a model that
/// describes none fails with [`ErrorCode::InvalidArgument`], naming the
/// first field at fault.
pub fn image_info_from_model(model: &StorageModel) -> (r: Result<OpenExrImageInfo>)
    ensures
        r is Ok <==> exr_info(model.field_map()) is Some,
        r matches Ok(info) ==> exr_info(model.field_map()) == Some(info),
        r matches Err(e) ==> e.kind() == ErrorCode::InvalidArgument,
{
    let width = required_u32(model, "imageWidth", "openexr: missing imageWidth", "openexr: non-numeric imageWidth")?;
    let height = required_u32(model, "imageHeight", "openexr: missing imageHeight", "openexr: non-numeric imageHeight")?;
    let samples_per_pixel = required_u32(
        model,
        "samplesPerPixel",
        "openexr: missing samplesPerPixel",
        "openexr: non-numeric samplesPerPixel",
    )?;
    channel_names_for(samples_per_pixel)?;
    let pixel_type_field = match model.field("pixelType") {
        Ok(v) => v,
        Err(_) => {
            return Err(Error::invalid_argument("openexr: missing pixelType"));
        },
    };
    let pixel_type = match pixel_type_from_field(pixel_type_field) {
        Some(p) => p,
        None => {
            return Err(Error::invalid_argument("openexr: unrecognized pixelType"));
        },
    };
    check_whole_tile(
        model,
        "tileWidth",
        width,
        "openexr: non-numeric tileWidth",
        "openexr: tileWidth must equal imageWidth (whole-image tile only)",
    )?;
    check_whole_tile(
        model,
        "tileHeight",
        height,
        "openexr: non-numeric tileHeight",
        "openexr: tileHeight must equal imageHeight (whole-image tile only)",
    )?;
    proof {
        reveal_strlit("None");
        reveal_strlit("none");
    }
    if let Ok(compression) = model.field("compression") {
        if !crate::text::str_eq(compression, "None") && !crate::text::str_eq(compression, "none") {
            return Err(Error::invalid_argument("openexr: only uncompressed (compression==None) images are supported"));
        }
    }
    Ok(OpenExrImageInfo { width, height, samples_per_pixel, pixel_type })
}

/// The `pixelType` field text of an EXR pixel type (`"Float32"` for any
/// type other than `UInt32`).
pub open spec fn exr_pixel_type_name(t: PixelType) -> Seq<char> {
    if t == PixelType::UInt32 {
        "UInt32"@
    } else {
        "Float32"@
    }
}

/// The fields of the image model of `info`.
pub open spec fn info_fields(info: OpenExrImageInfo) -> Map<Seq<char>, Seq<char>> {
    Map::empty().insert("imageWidth"@, decimal_chars(info.width as nat)).insert(
        "imageHeight"@,
        decimal_chars(info.height as nat),
    ).insert("samplesPerPixel"@, decimal_chars(info.samples_per_pixel as nat)).insert(
        "pixelType"@,
        exr_pixel_type_name(info.pixel_type),
    )
}

/// The model of an EXR image: a root with no fields of its own and one
/// child holding the image's size, channel count and pixel type.
pub fn model_from_image_info(info: &OpenExrImageInfo) -> (root: StorageModel)
    ensures
        root.field_map() == Map::<Seq<char>, Seq<char>>::empty(),
        root.child_nodes().len() == 1,
        root.child_nodes()[0].field_map() == info_fields(*info),
{
    proof {
        reveal_strlit("UInt32");
        reveal_strlit("Float32");
    }
    let mut image = StorageModel::new();
    image.set_field("imageWidth", u32_to_string(info.width).as_str());
    image.set_field("imageHeight", u32_to_string(info.height).as_str());
    image.set_field("samplesPerPixel", u32_to_string(info.samples_per_pixel).as_str());
    let name = match info.pixel_type {
        PixelType::UInt32 => "UInt32",
        _ => "Float32",
    };
    image.set_field("pixelType", name);
    let mut root = StorageModel::new();
    root.add_child(image);
    root
}

/// The image model of an EXR image describes that image again: reading
/// the fields [`model_from_image_info`] writes gives back the same size,
/// channel count and pixel type.
pub proof fn lemma_info_fields_round_trip(info: OpenExrImageInfo)
    requires
        channel_names_of(info.samples_per_pixel) is Some,
        info.pixel_type == PixelType::Float32 || info.pixel_type == PixelType::UInt32,
    ensures
        exr_info(info_fields(info)) == Some(info),
{
    let m = info_fields(info);
    reveal_strlit("imageWidth");
    reveal_strlit("imageHeight");
    reveal_strlit("samplesPerPixel");
    reveal_strlit("pixelType");
    reveal_strlit("tileWidth");
    reveal_strlit("tileHeight");
    reveal_strlit("compression");
    assert("imageWidth"@.len() == 10 && "imageHeight"@.len() == 11 && "samplesPerPixel"@.len() == 15
        && "pixelType"@.len() == 9);
    assert("imageWidth"@ != "imageHeight"@ && "imageWidth"@ != "samplesPerPixel"@ && "imageWidth"@ != "pixelType"@);
    assert("imageHeight"@ != "samplesPerPixel"@ && "imageHeight"@ != "pixelType"@ && "samplesPerPixel"@ != "pixelType"@);
    lemma_parse_decimal_chars(info.width as nat, u32::MAX as nat);
    lemma_parse_decimal_chars(info.height as nat, u32::MAX as nat);
    lemma_parse_decimal_chars(info.samples_per_pixel as nat, u32::MAX as nat);
    assert(m["imageWidth"@] == decimal_chars(info.width as nat));
    assert(m["imageHeight"@] == decimal_chars(info.height as nat));
    assert(m["samplesPerPixel"@] == decimal_chars(info.samples_per_pixel as nat));
    assert(m["pixelType"@] == exr_pixel_type_name(info.pixel_type));
    assert("tileWidth"@[0] != "pixelType"@[0] && "tileHeight"@[0] != "imageWidth"@[0]
        && "compression"@[0] != "imageHeight"@[0]);
    assert("tileWidth"@ != "pixelType"@ && "tileHeight"@ != "imageWidth"@ && "compression"@ != "imageHeight"@);
    assert(!m.contains_key("tileWidth"@));
    assert(!m.contains_key("tileHeight"@));
    assert(!m.contains_key("compression"@));
    reveal_strlit("UInt32");
    reveal_strlit("Float32");
    assert("UInt32"@.len() != "Float32"@.len());
}

/// Bytes of the pixel data of `info`: width * height * channels * sample
/// bytes, each product step within `usize`; [`ErrorCode::InvalidArgument`]
/// when one overflows.
pub fn expected_pixel_bytes(info: &OpenExrImageInfo) -> (r: Result<usize>)
    ensures
        ({
            let wh = info.width * info.height;
            let whs = wh * info.samples_per_pixel;
            let total = whs * sample_bytes(info.pixel_type);
            &&& r is Ok <==> (wh <= usize::MAX && whs <= usize::MAX && total <= usize::MAX)
            &&& r matches Ok(n) ==> n == total
        }),
        r matches Err(e) ==> e.kind() == ErrorCode::InvalidArgument,
{
    let w = info.width as usize;
    let h = info.height as usize;
    let spp = info.samples_per_pixel as usize;
    let bps = info.pixel_type.bytes_per_sample() as usize;
    let wh = match w.checked_mul(h) {
        Some(v) => v,
        None => {
            return Err(Error::invalid_argument("openexr: image too large"));
        },
    };
    let whs = match wh.checked_mul(spp) {
        Some(v) => v,
        None => {
            return Err(Error::invalid_argument("openexr: image too large"));
        },
    };
    match whs.checked_mul(bps) {
        Some(v) => Ok(v),
        None => Err(Error::invalid_argument("openexr: image too large")),
    }
}

} // verus!
