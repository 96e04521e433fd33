//! Per-image pixel layout for the in-memory backend: the tile grid and
//! byte sizes an image's flat model describes, so tiles sit at fixed
//! linear byte offsets.
use crate::error::{Error, ErrorCode, Result};
use crate::io::backend::tiff::pixel_format::{
    lemma_pixel_type_name_injective, pixel_type_from_field_value, pixel_type_name,
};
use crate::io::storage_model::StorageModel;
use crate::pixel_type::{sample_bytes, PixelType};
use crate::text::{parse_decimal, parse_decimal_str, utf8};
use crate::tile::{level_dim, tiles_across, TileExtent, TileLayout};
use vstd::prelude::*;

verus! {

/// An image's tile grid, sample format and byte sizes.
#[derive(Debug, Clone)]
pub struct MemoryImageInfo {
    /// The image's tiling (one level).
    pub layout: TileLayout,
    /// Samples per pixel.
    pub samples_per_pixel: u32,
    /// The sample type.
    pub pixel_type: PixelType,
    /// Bytes of one tile: tile width * tile height * samples * sample bytes.
    pub tile_bytes: u64,
    /// Bytes of the whole image: columns * rows * tile bytes.
    pub image_pixel_bytes: u64,
}

/// The value of the numeric field `key` of `m` when it is present, reads as
/// a `u64` and fits in a `u32`.
pub open spec fn u32_field(m: Map<Seq<char>, Seq<char>>, key: Seq<char>) -> Option<nat> {
    if !m.contains_key(key) {
        None
    } else {
        match parse_decimal(utf8(m[key]), u64::MAX as nat) {
            Some(v) => if v <= u32::MAX {
                Some(v)
            } else {
                None
            },
            None => None,
        }
    }
}

/// The byte sizes of an image of `w` x `h` pixels in `tw` x `th` tiles of
/// `spp` samples of `bps` bytes: (tile bytes, image bytes), each product
/// step within `u64`, or `None`.
pub open spec fn memory_sizes(w: nat, h: nat, tw: nat, th: nat, spp: nat, bps: nat) -> Option<(nat, nat)> {
    let per_tile = tw * th;
    let per_tile_samples = per_tile * spp;
    let tile_bytes = per_tile_samples * bps;
    let cols = tiles_across(level_dim(w, 0), tw);
    let rows = tiles_across(level_dim(h, 0), th);
    let image_tiles = cols * rows;
    let image_bytes = image_tiles * tile_bytes;
    if per_tile <= u64::MAX && per_tile_samples <= u64::MAX && tile_bytes <= u64::MAX && image_tiles
        <= u64::MAX && image_bytes <= u64::MAX {
        Some((tile_bytes, image_bytes))
    } else {
        None
    }
}

/// Whether a flat image model describes an image the in-memory backend can
/// hold: numeric dimensions, tile size and samples per pixel, a nonzero
/// tile size, a known pixel type, no compression other than `"None"`, and
/// byte sizes within `u64`.
pub open spec fn memory_image_ok(m: Map<Seq<char>, Seq<char>>) -> bool {
    &&& u32_field(m, "imageWidth"@) is Some
    &&& u32_field(m, "imageHeight"@) is Some
    &&& u32_field(m, "tileWidth"@) is Some
    &&& u32_field(m, "tileHeight"@) is Some
    &&& u32_field(m, "tileWidth"@)->0 > 0
    &&& u32_field(m, "tileHeight"@)->0 > 0
    &&& u32_field(m, "samplesPerPixel"@) is Some
    &&& m.contains_key("pixelType"@)
    &&& exists|t: PixelType| pixel_type_name(t) == m["pixelType"@]
    &&& m.contains_key("compression"@) ==> m["compression"@] == "None"@
    &&& memory_sizes(
        u32_field(m, "imageWidth"@)->0,
        u32_field(m, "imageHeight"@)->0,
        u32_field(m, "tileWidth"@)->0,
        u32_field(m, "tileHeight"@)->0,
        u32_field(m, "samplesPerPixel"@)->0,
        sample_bytes(choose|t: PixelType| pixel_type_name(t) == m["pixelType"@]),
    ) is Some
}

/// Reads the numeric field `key`.
fn required_u32_field(node: &StorageModel, key: &str) -> (r: Result<u32>)
    ensures
        r matches Ok(v) ==> u32_field(node.field_map(), key@) == Some(v as nat),
        r is Err ==> u32_field(node.field_map(), key@) is None,
        r matches Err(e) ==> e.kind() == ErrorCode::InvalidArgument,
{
    let field = match node.field(key) {
        Ok(f) => f,
        Err(_) => {
            let mut message = String::from_str("memory: missing required field \"");
            message.append(key);
            message.append("\"");
            return Err(Error::invalid_argument(message.as_str()));
        },
    };
    let parsed = match parse_decimal_str(field, u64::MAX) {
        Some(v) => v,
        None => {
            let mut message = String::from_str("memory: non-numeric field \"");
            message.append(key);
            message.append("\"");
            return Err(Error::invalid_argument(message.as_str()));
        },
    };
    if parsed > u32::MAX as u64 {
        let mut message = String::from_str("memory: field \"");
        message.append(key);
        message.append("\" out of range");
        return Err(Error::invalid_argument(message.as_str()));
    }
    Ok(parsed as u32)
}

fn checked_mul(a: u64, b: u64) -> (r: Result<u64>)
    ensures
        r is Ok <==> a * b <= u64::MAX,
        r matches Ok(v) ==> v == a * b,
        r matches Err(e) ==> e.kind() == ErrorCode::InvalidArgument,
{
    match a.checked_mul(b) {
        Some(v) => Ok(v),
        None => Err(Error::invalid_argument("memory: pixel geometry overflow")),
    }
}

/// Derives an image's tile grid and byte sizes from its flat model.
/// [`ErrorCode::InvalidArgument`] exactly when [`memory_image_ok`] fails: a
/// field is missing, not numeric or beyond `u32`, the tile size is zero,
/// the pixel type is unknown, the compression is not `"None"`, or a byte
/// size overflows.
pub fn image_info_from_model(model: &StorageModel) -> (r: Result<MemoryImageInfo>)
    ensures
        r is Ok <==> memory_image_ok(model.field_map()),
        r matches Ok(info) ==> {
            let m = model.field_map();
            &&& info.layout == TileLayout {
                tile_size: TileExtent {
                    width: u32_field(m, "tileWidth"@)->0 as u32,
                    height: u32_field(m, "tileHeight"@)->0 as u32,
                },
                image_width: u32_field(m, "imageWidth"@)->0 as u32,
                image_height: u32_field(m, "imageHeight"@)->0 as u32,
                level_count: 1,
            }
            &&& info.samples_per_pixel == u32_field(m, "samplesPerPixel"@)->0
            &&& pixel_type_name(info.pixel_type) == m["pixelType"@]
            &&& memory_sizes(
                info.layout.image_width as nat,
                info.layout.image_height as nat,
                info.layout.tile_size.width as nat,
                info.layout.tile_size.height as nat,
                info.samples_per_pixel as nat,
                sample_bytes(info.pixel_type),
            ) == Some((info.tile_bytes as nat, info.image_pixel_bytes as nat))
        },
        r matches Err(e) ==> e.kind() == ErrorCode::InvalidArgument,
{
    let width = required_u32_field(model, "imageWidth")?;
    let height = required_u32_field(model, "imageHeight")?;
    let tile_width = required_u32_field(model, "tileWidth")?;
    let tile_height = required_u32_field(model, "tileHeight")?;
    if tile_width == 0 || tile_height == 0 {
        return Err(Error::invalid_argument("memory: non-tiled images are not supported"));
    }
    let samples_per_pixel = required_u32_field(model, "samplesPerPixel")?;
    let pixel_type_field = match model.field("pixelType") {
        Ok(f) => f,
        Err(_) => {
            return Err(Error::invalid_argument("memory: missing pixelType"));
        },
    };
    let pixel_type = match pixel_type_from_field_value(pixel_type_field) {
        Ok(t) => t,
        Err(_) => {
            return Err(Error::invalid_argument("memory: unrecognized pixelType"));
        },
    };
    proof {
        lemma_pixel_type_name_injective();
    }
    match model.field("compression") {
        Ok(compression) => {
            if !crate::text::str_eq(compression, "None") {
                return Err(
                    Error::invalid_argument(
                        "memory: only uncompressed (compression==None) images are supported",
                    ),
                );
            }
        },
        Err(_) => {},
    }
    let layout = TileLayout::new(TileExtent::new(tile_width, tile_height), width, height, 1);
    let bytes_per_sample = pixel_type.bytes_per_sample() as u64;
    let per_tile = checked_mul(tile_width as u64, tile_height as u64)?;
    let per_tile_samples = checked_mul(per_tile, samples_per_pixel as u64)?;
    let tile_bytes = checked_mul(per_tile_samples, bytes_per_sample)?;
    let columns = layout.columns(0);
    let rows = layout.rows(0);
    let image_tiles = checked_mul(columns as u64, rows as u64)?;
    let image_pixel_bytes = checked_mul(image_tiles, tile_bytes)?;
    Ok(MemoryImageInfo { layout, samples_per_pixel, pixel_type, tile_bytes, image_pixel_bytes })
}

/// The sum of the pixel byte sizes of the first `n` images.
pub open spec fn pixel_bytes_before(infos: Seq<MemoryImageInfo>, n: int) -> int
    decreases n,
{
    if n <= 0 {
        0
    } else {
        pixel_bytes_before(infos, n - 1) + infos[n - 1].image_pixel_bytes
    }
}

/// The absolute byte offset of image `image_index`'s pixels in a document
/// whose model bytes take `doc_prefix` bytes at the front: the prefix plus
/// the pixel bytes of every earlier image.
pub fn image_pixel_offset(infos: &[MemoryImageInfo], image_index: usize, doc_prefix: u64) -> (r: u64)
    requires
        doc_prefix + pixel_bytes_before(
            infos@,
            if image_index < infos@.len() {
                image_index as int
            } else {
                infos@.len() as int
            },
        ) <= u64::MAX,
    ensures
        r == doc_prefix + pixel_bytes_before(
            infos@,
            if image_index < infos@.len() {
                image_index as int
            } else {
                infos@.len() as int
            },
        ),
{
    let n = if image_index < infos.len() {
        image_index
    } else {
        infos.len()
    };
    let ghost limit = doc_prefix + pixel_bytes_before(infos@, n as int);
    let mut offset = doc_prefix;
    let mut i: usize = 0;
    while i < n
        invariant
            n <= infos@.len(),
            i <= n,
            limit == doc_prefix + pixel_bytes_before(infos@, n as int),
            limit <= u64::MAX,
            offset == doc_prefix + pixel_bytes_before(infos@, i as int),
        decreases n - i,
    {
        proof {
            lemma_pixel_bytes_before_monotone(infos@, i + 1, n as int);
        }
        offset = offset + infos[i].image_pixel_bytes;
        i = i + 1;
    }
    offset
}

proof fn lemma_pixel_bytes_before_monotone(infos: Seq<MemoryImageInfo>, a: int, b: int)
    requires
        0 <= a <= b <= infos.len(),
    ensures
        pixel_bytes_before(infos, a) <= pixel_bytes_before(infos, b),
    decreases b - a,
{
    if a < b {
        lemma_pixel_bytes_before_monotone(infos, a, b - 1);
    }
}

} // verus!
