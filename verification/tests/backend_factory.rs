use ptiff_core::io::{BackendCapabilities, BackendFactory, BinaryReader, BinaryWriter, StorageBackend, StorageModel};
use ptiff_core::{Error, ErrorCode, Result};

#[derive(Default)]
struct Probe;

impl StorageBackend for Probe {
    fn name(&self) -> &'static str {
        "probe"
    }
    fn capabilities(&self) -> BackendCapabilities {
        BackendCapabilities::default()
    }
    fn deserialize_model<R: BinaryReader>(&self, _reader: &mut R) -> Result<StorageModel> {
        Err(Error::not_implemented("probe"))
    }
    fn serialize_model<W: BinaryWriter>(&self, _model: &StorageModel, _writer: &mut W) -> Result<()> {
        Err(Error::not_implemented("probe"))
    }
}

type Builder = Box<dyn Fn() -> Probe>;

fn probe_builder() -> Builder {
    Box::new(|| Probe)
}

#[test]
fn create_unknown_backend_is_not_found() {
    let factory: BackendFactory<Builder> = BackendFactory::new();
    let err = match factory.create("no-such-backend") {
        Ok(_) => panic!("expected error"),
        Err(e) => e,
    };
    assert_eq!(err.code(), ErrorCode::NotFound);
    assert_eq!(err.message(), "BackendFactory::create: no such backend");
}

#[test]
fn register_then_create_round_trips() {
    let mut factory: BackendFactory<Builder> = BackendFactory::new();
    factory.register("probe", probe_builder()).expect("register");
    let backend = match factory.create("probe") {
        Ok(b) => b,
        Err(e) => panic!("create failed: {}", e.message()),
    };
    assert_eq!(backend.name(), "probe");
}

#[test]
fn duplicate_registration_is_invalid_argument() {
    let mut factory: BackendFactory<Builder> = BackendFactory::new();
    factory.register("probe", probe_builder()).expect("first");
    let err = factory.register("probe", probe_builder()).unwrap_err();
    assert_eq!(err.code(), ErrorCode::InvalidArgument);
    assert_eq!(err.message(), "BackendFactory::registerBackend: name already registered");
}

#[test]
fn registered_backends_lists_names() {
    let mut factory: BackendFactory<Builder> = BackendFactory::new();
    factory.register("alpha", probe_builder()).expect("alpha");
    factory.register("beta", probe_builder()).expect("beta");
    let mut names = factory.registered_backends();
    names.sort();
    assert_eq!(names, vec!["alpha", "beta"]);
}

#[test]
fn each_create_builds_a_fresh_backend() {
    let mut factory: BackendFactory<Builder> = BackendFactory::new();
    factory.register("probe", probe_builder()).expect("register");
    let a = match factory.create("probe") {
        Ok(b) => b,
        Err(e) => panic!("create failed: {}", e.message()),
    };
    let b = match factory.create("probe") {
        Ok(v) => v,
        Err(e) => panic!("create failed: {}", e.message()),
    };
    assert_eq!(a.name(), "probe");
    assert_eq!(b.name(), "probe");
}

#[test]
fn registered_names_come_out_in_byte_order() {
    let mut factory: BackendFactory<Builder> = BackendFactory::default();
    for name in ["zarr", "memory", "tiff", "Zeta", "isis"] {
        factory.register(name, probe_builder()).unwrap();
    }
    assert_eq!(factory.registered_backends(), vec!["Zeta", "isis", "memory", "tiff", "zarr"]);
}

#[test]
fn builders_are_kept_with_their_names() {
    let mut factory: BackendFactory<Box<dyn Fn() -> u32>> = BackendFactory::new();
    factory.register("two", Box::new(|| 2)).unwrap();
    factory.register("one", Box::new(|| 1)).unwrap();
    factory.register("three", Box::new(|| 3)).unwrap();
    assert_eq!(factory.create("one").unwrap(), 1);
    assert_eq!(factory.create("two").unwrap(), 2);
    assert_eq!(factory.create("three").unwrap(), 3);
}
