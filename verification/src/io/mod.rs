//! Byte transport and format-neutral storage abstractions.

pub mod backend;
pub mod backend_capabilities;
pub mod backend_factory;
pub mod binary_reader;
pub mod binary_writer;
pub mod image_sink;
pub mod image_source;
pub mod memory_binary_reader;
pub mod memory_binary_writer;
pub mod storage_backend;
pub mod storage_model;
pub mod tile_provider;

pub use binary_reader::{read_exact_or, BinaryReader};
pub use binary_writer::{write_all_or, BinaryWriter};
pub use memory_binary_reader::MemoryBinaryReader;
pub use memory_binary_writer::MemoryBinaryWriter;
pub use backend_capabilities::BackendCapabilities;
pub use backend_factory::BackendFactory;
pub use storage_backend::StorageBackend;
pub use image_sink::ImageSink;
pub use image_source::ImageSource;
pub use storage_model::StorageModel;
pub use tile_provider::TileProvider;

