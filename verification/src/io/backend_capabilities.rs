//! What a storage backend can do.
use vstd::prelude::*;

verus! {

/// The features a storage backend advertises.
#[derive(Debug, Clone, Copy, PartialEq, Eq, Structural)]
pub struct BackendCapabilities {
    /// Images can be split into tiles.
    pub supports_tiling: bool,
    /// The format can be produced and consumed as a small forward-only stream.
    pub supports_streaming: bool,
    /// Any tile can be read without reading the ones before it.
    pub supports_random_access: bool,
    /// Reads can be served by ranged requests against object storage.
    pub supports_cloud_streaming: bool,
}

impl Default for BackendCapabilities {
    /// No capability advertised.
    fn default() -> (c: Self)
        ensures
            c == (BackendCapabilities {
                supports_tiling: false,
                supports_streaming: false,
                supports_random_access: false,
                supports_cloud_streaming: false,
            }),
    {
        BackendCapabilities {
            supports_tiling: false,
            supports_streaming: false,
            supports_random_access: false,
            supports_cloud_streaming: false,
        }
    }
}

} // verus!
