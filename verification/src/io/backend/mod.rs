//! Concrete storage backends.

pub mod isis;
pub mod memory_image_sink;
pub mod memory_image_source;
pub mod memory_layout;
pub mod openexr;
pub mod pds4;
pub mod tiff;
pub mod zarr;
