//! Execution core of a frame-synchronous render-bundle pipeline.
//!
//! A frame's draw requests arrive as an ordered storage of render data
//! bundles.  A forward pass filters that storage by render path and by a
//! caller-supplied predicate, resolves each selected bundle's GPU resources
//! through per-frame caches, allocates frame-scoped uniform memory, submits
//! draw commands to a framebuffer through a graphics server, and accumulates
//! per-pass statistics.

pub mod bundle;
pub mod cache;
pub mod camera;
pub mod error;
pub mod math;
pub mod renderer;
pub mod server;
pub mod stats;
pub mod uniform;
