//! The camera input of a pass, and the per-frame-constant configuration
//! snapshots read by every bundle render call.

use crate::math::{Matrix4, Vector3};
use vstd::prelude::*;

verus! {

/// Per-frame-constant quality configuration read during a pass.
#[derive(Clone, Copy, Debug, PartialEq, Eq, Structural)]
pub struct QualitySettings {
    pub use_parallax_mapping: bool,
}

/// Pre-realized stand-in resources used where a bundle leaves a texture
/// slot empty.
#[derive(Clone, Copy, Debug, PartialEq, Eq, Structural)]
pub struct FallbackResources {
    pub white_texture: u64,
}

/// A read-only camera: view and projection matrices, the inverse view
/// matrix where it is resolvable, and the derived per-pass scalars.  All
/// of it is immutable for the duration of a pass.
#[derive(Debug)]
pub struct Camera {
    pub view_matrix: Matrix4,
    pub projection_matrix: Matrix4,
    /// `None` while the view matrix is singular or unset, for example
    /// when the camera is not yet attached to a scene transform.
    pub inv_view_matrix: Option<Matrix4>,
    pub global_position: Vector3,
    pub z_near: i64,
    pub z_far: i64,
}

impl Camera {
    /// The matrices are complete and small enough to multiply.
    pub open spec fn wf(self) -> bool {
        &&& self.view_matrix.bounded()
        &&& self.projection_matrix.bounded()
        &&& (self.inv_view_matrix matches Some(m) ==> m.wf())
    }

    /// The combined view-projection matrix, `projection * view`.
    pub fn view_projection_matrix(&self) -> (r: Matrix4)
        requires
            self.wf(),
        ensures
            r.wf(),
            forall|row: int, col: int|
                0 <= row < 4 && 0 <= col < 4 ==> #[trigger] r.at(row, col)
                    == self.projection_matrix.product_entry(self.view_matrix, row, col),
    {
        self.projection_matrix.multiply(&self.view_matrix)
    }

    /// The inverse view matrix, when the camera has one.
    pub fn inv_view_matrix(&self) -> (r: &Option<Matrix4>)
        ensures
            r == &self.inv_view_matrix,
    {
        &self.inv_view_matrix
    }
}

} // verus!
