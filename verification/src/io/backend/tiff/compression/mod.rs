//! TIFF compression codecs: PackBits, LZW and the horizontal-differencing
//! predictor, verified here, plus Deflate and JPEG through their crates.

pub mod deflate;
pub mod jpeg;
pub mod lzw;
pub mod packbits;
pub mod predictor;

pub use deflate::{decode_deflate, encode_deflate};
pub use jpeg::{decode_jpeg, encode_jpeg};
pub use lzw::{decode_lzw, encode_lzw};
pub use packbits::{decode_pack_bits, encode_pack_bits};
pub use predictor::{apply_horizontal_differencing, undo_horizontal_differencing};
