//! PTIFF core: a verified TIFF/BigTIFF format layer over in-memory byte
//! transports, a format-neutral storage model, and dependency-light codecs.

pub mod error;
pub mod io;
pub mod logging;
pub mod pixel_type;
pub mod text;
pub mod tile;

pub use error::{Error, ErrorCode, Result};

pub use pixel_type::PixelType;
pub use logging::LogLevel;
