//! OpenEXR image description: how a flat model maps to an EXR image's
//! size, channels and sample type.

pub mod document;

pub use document::{channel_names_for, expected_pixel_bytes, image_info_from_model, model_from_image_info, OpenExrImageInfo};
