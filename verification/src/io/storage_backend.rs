//! The interface every on-disk format implements: byte transport to
//! format-neutral model and back.
use crate::error::{Error, ErrorCode, Result};
use crate::io::backend_capabilities::BackendCapabilities;
use crate::io::binary_reader::BinaryReader;
use crate::io::binary_writer::BinaryWriter;
use crate::io::storage_model::StorageModel;
use vstd::prelude::*;

verus! {

/// A storage backend that understands one on-disk format: it maps the bytes
/// of a transport to a format-neutral [`StorageModel`] and back.
///
/// Each backend also offers tile access to the images of a document through
/// its own image sources and sinks.
pub trait StorageBackend {
    /// The canonical name of the backend, also its registry key.
    fn name(&self) -> (n: &'static str);

    /// The capabilities the backend advertises.
    fn capabilities(&self) -> (c: BackendCapabilities);

    /// Reads a document's model from `reader`.
    fn deserialize_model<R: BinaryReader>(&self, reader: &mut R) -> (r: Result<StorageModel>);

    /// Writes `model` to `writer` in the backend's format.
    fn serialize_model<W: BinaryWriter>(&self, model: &StorageModel, writer: &mut W) -> (r: Result<
        (),
    >);

    /// Writes several images, one per model, as one multi-image document.
    /// A backend that only understands single images keeps this default,
    /// which fails with [`ErrorCode::NotImplemented`] and writes nothing.
    fn serialize_model_list<W: BinaryWriter>(
        &self,
        models: &[StorageModel],
        writer: &mut W,
    ) -> (r: Result<()>)
        default_ensures
            r matches Err(e) && e.kind() == ErrorCode::NotImplemented,
            *final(writer) == *old(writer),
    {
        Err(Error::not_implemented("StorageBackend: serializeModelList() not supported"))
    }
}

} // verus!
