use ptiff_core::io::{BackendCapabilities, BinaryReader, BinaryWriter, MemoryBinaryWriter, StorageBackend, StorageModel};
use ptiff_core::{ErrorCode, Result};

/// A trivial stateless backend to probe the trait's default methods.
struct ProbeBackend;

impl StorageBackend for ProbeBackend {
    fn name(&self) -> &'static str {
        "probe"
    }

    fn capabilities(&self) -> BackendCapabilities {
        BackendCapabilities::default()
    }

    fn deserialize_model<R: BinaryReader>(&self, _reader: &mut R) -> Result<StorageModel> {
        Ok(StorageModel::new())
    }

    fn serialize_model<W: BinaryWriter>(&self, _model: &StorageModel, _writer: &mut W) -> Result<()> {
        Ok(())
    }
}

#[test]
fn default_multi_image_methods_return_not_implemented() {
    let backend = ProbeBackend;
    let mut writer = MemoryBinaryWriter::new();
    let err = backend.serialize_model_list(&[], &mut writer).expect_err("must be NotImplemented");
    assert_eq!(err.code(), ErrorCode::NotImplemented);
    assert_eq!(err.message(), "StorageBackend: serializeModelList() not supported");
    assert!(writer.is_empty());
    assert_eq!(backend.name(), "probe");
}

#[test]
fn capabilities_are_structural_and_defaultable() {
    let a = BackendCapabilities { supports_tiling: true, ..BackendCapabilities::default() };
    let b = BackendCapabilities::default();
    assert_ne!(a, b);
    let c = a;
    assert_eq!(a, c);
    assert_eq!(
        b,
        BackendCapabilities {
            supports_tiling: false,
            supports_streaming: false,
            supports_random_access: false,
            supports_cloud_streaming: false,
        }
    );
}
