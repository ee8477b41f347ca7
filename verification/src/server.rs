//! The GPU abstraction consumed by a pass: draw commands, the framebuffer
//! they land in, and the graphics server that submits them.

use crate::error::RenderError;
use crate::math::{Color, Matrix4, Rect, Vector3};
use crate::uniform::UniformRegion;
use vstd::prelude::*;

verus! {

/// The per-draw uniform data written into a bundle's uniform region.
#[derive(Debug)]
pub struct UniformBlock {
    pub view_projection: Matrix4,
    pub camera_position: Vector3,
    pub camera_up: Vector3,
    pub camera_side: Vector3,
    pub z_near: i64,
    pub z_far: i64,
    pub use_parallax_mapping: bool,
    pub ambient_light: Color,
    pub scene_depth_texture: u64,
}

/// One draw submitted to the framebuffer: realized resource handles, the
/// uniform region and data backing the draw, and the instance count.
#[derive(Debug)]
pub struct DrawCommand {
    /// The pass label the draw was recorded under; namespaces the shader
    /// pass selection per render pass.
    pub render_pass_name: String,
    pub viewport: Rect,
    pub geometry: u64,
    pub shader: u64,
    pub textures: Vec<u64>,
    pub uniform_buffer: u64,
    pub uniform_region: UniformRegion,
    pub instance_count: u64,
    pub uniform_block: UniformBlock,
}

/// A draw target; its observable content for this core is the ordered
/// list of draw commands issued into it.
#[derive(Debug)]
pub struct FrameBuffer {
    pub commands: Vec<DrawCommand>,
}

impl FrameBuffer {
    /// An empty draw target.
    pub fn new() -> (r: FrameBuffer)
        ensures
            r.commands@.len() == 0,
    {
        FrameBuffer { commands: Vec::new() }
    }
}

/// The device context draws are issued through.  Its command queue holds
/// at most `command_capacity` draws per target; submission past that
/// limit is rejected.
#[derive(Clone, Copy, Debug)]
pub struct GraphicsServer {
    pub command_capacity: u64,
}

impl GraphicsServer {
    /// Issues one draw into the framebuffer.  Succeeds exactly while the
    /// target's command queue has room; a rejected submission leaves the
    /// target untouched.
    pub fn submit_draw(&self, framebuffer: &mut FrameBuffer, command: DrawCommand) -> (r:
        Result<(), RenderError>)
        ensures
            r is Ok <==> old(framebuffer).commands@.len() < self.command_capacity,
            r is Ok ==> final(framebuffer).commands@ == old(framebuffer).commands@.push(
                command,
            ),
            r is Err ==> final(framebuffer).commands@ == old(framebuffer).commands@ && r
                == Err::<(), RenderError>(RenderError::GpuSubmission),
    {
        if (framebuffer.commands.len() as u64) < self.command_capacity {
            framebuffer.commands.push(command);
            Ok(())
        } else {
            Err(RenderError::GpuSubmission)
        }
    }
}

} // verus!
