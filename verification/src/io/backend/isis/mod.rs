//! ISIS3 cube documents: a PDS3 text label followed by the pixel block.

pub mod document;
pub mod label;
pub mod round_trip;

pub use document::{pixel_origin, read_document, IsisDocument};
pub use label::{parse_label, write_label};
