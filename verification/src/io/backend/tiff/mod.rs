//! TIFF/BigTIFF on-disk format layer: byte order, header, tags, pixel
//! format, IFD read/write, directory interpretation and write planning.

pub mod checked_arithmetic;
pub mod compression;
pub mod directory;
pub mod directory_writer;
pub mod endian;
pub mod header;
pub mod image_sink;
pub mod image_source;
pub mod ifd;
pub mod ifd_round_trip;
pub mod ifd_writer;
pub mod pixel_format;
pub mod ptiff_metadata;
pub mod tag;
pub mod tiff_backend;
pub mod tile_codec;

pub use checked_arithmetic::{checked_add_u64, checked_mul_u64, K_MAX_TAG_COUNT};
pub use endian::{read_u16, read_u32, read_u64, write_u16, write_u32, write_u64, Endian};
pub use tag::{field_type_size, field_type_size_raw, FieldType, RawTagEntry, TagId, K_PRIVATE_TAG_BASE};
pub use pixel_format::{
    bits_per_sample_for, bytes_per_sample, pixel_type_field_value, pixel_type_from_field_value,
    require_uniform_bits_per_sample, resolve_pixel_type, sample_format_for,
};
pub use header::{read_tiff_header, write_tiff_header, TiffHeader};
pub use directory::{interpret_tiff_ifd, to_storage_model, TiffCompression, TiffDirectory, TiffPredictor, TileByteRange};
pub use directory_writer::{plan_tiff_write, plan_tiff_write_multi, TiffFileWritePlan, TiffWritePlan};
pub use ifd::{read_tiff_ifd, TiffIfd};
pub use ifd_writer::{tiff_ifd_byte_size, write_tiff_ifd, TiffIfdEntryToWrite};
pub use image_sink::TiffImageSink;
pub use image_source::TiffImageSource;
pub use tiff_backend::TiffBackend;
