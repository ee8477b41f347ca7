//! Failure taxonomy of the render pass.

use vstd::prelude::*;

verus! {

/// The kind of GPU resource a cache manages; names the failing resource in
/// a realization error.
#[derive(Clone, Copy, Debug, PartialEq, Eq, Structural)]
pub enum ResourceKind {
    Geometry,
    Shader,
    Texture,
    UniformBuffer,
}

/// A resource cache could not turn a logical description into a realized
/// GPU resource (shader compile error, upload error, device out of memory).
#[derive(Clone, Copy, Debug, PartialEq, Eq, Structural)]
pub enum CacheError {
    RealizationFailed(ResourceKind),
}

/// A whole render pass fails with one of these; no partial statistics are
/// ever returned alongside an error.
#[derive(Clone, Copy, Debug, PartialEq, Eq, Structural)]
pub enum RenderError {
    /// The camera's view matrix has no resolvable inverse.
    InvalidCameraState,
    /// A resource realization failed inside one of the caches.
    Cache(CacheError),
    /// The graphics server rejected a draw submission.
    GpuSubmission,
}

} // verus!
