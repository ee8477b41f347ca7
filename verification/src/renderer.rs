//! The forward pass: filters a frame's bundle storage down to the
//! forward-shaded bundles the caller's predicate selects and drives them
//! through the caches to the framebuffer.

use crate::bundle::{
    cache_extends_is_reflexive, command_resolves, pass_admissible, pass_inserts_realizable,
    pass_offsets_ok, selected_bundles, total_block_bytes, total_draw_calls, total_triangles,
    BundlePredicate, BundleRenderContext, RenderDataBundleStorage, RenderPath,
};
use crate::cache::ResourceCache;
use crate::camera::{Camera, FallbackResources, QualitySettings};
use crate::error::{CacheError, RenderError, ResourceKind};
use crate::math::{Color, Rect, Vector3};
use crate::server::{DrawCommand, FrameBuffer, GraphicsServer};
use crate::stats::{saturate_u64, RenderPassStatistics};
use crate::uniform::UniformMemoryAllocator;
use vstd::prelude::*;
use vstd::string::StringExecFns;

verus! {

/// The read-only inputs of one forward pass; the mutable collaborators
/// (framebuffer, caches, uniform memory) are passed alongside.
#[derive(Debug)]
pub struct ForwardRenderContext {
    pub camera: Camera,
    pub viewport: Rect,
    pub quality_settings: QualitySettings,
    pub fallback_resources: FallbackResources,
    /// Shared handle to the scene depth texture produced by the depth
    /// pre-pass; this pass only reads it.
    pub scene_depth: u64,
    pub ambient_light: Color,
}

/// The per-pass uniform data of a command carries exactly the camera and
/// configuration values of the pass inputs.
pub open spec fn command_from_pass(c: DrawCommand, args: ForwardRenderContext) -> bool {
    &&& c.viewport == args.viewport
    &&& c.uniform_block.view_projection.wf()
    &&& forall|row: int, col: int|
        0 <= row < 4 && 0 <= col < 4 ==> #[trigger] c.uniform_block.view_projection.at(row, col)
            == args.camera.projection_matrix.product_entry(args.camera.view_matrix, row, col)
    &&& (args.camera.inv_view_matrix matches Some(inv) ==> c.uniform_block.camera_up == (Vector3 {
        x: inv.at(0, 1),
        y: inv.at(1, 1),
        z: inv.at(2, 1),
    }) && c.uniform_block.camera_side == (Vector3 {
        x: inv.at(0, 0),
        y: inv.at(1, 0),
        z: inv.at(2, 0),
    }))
    &&& c.uniform_block.camera_position == args.camera.global_position
    &&& c.uniform_block.z_near == args.camera.z_near
    &&& c.uniform_block.z_far == args.camera.z_far
    &&& c.uniform_block.use_parallax_mapping == args.quality_settings.use_parallax_mapping
    &&& c.uniform_block.ambient_light == args.ambient_light
    &&& c.uniform_block.scene_depth_texture == args.scene_depth
}

/// Renders the forward-shaded slice of a frame's bundles.  Stateless but
/// for the fixed pass label used for cache namespacing and debugging.
#[derive(Debug)]
pub struct ForwardRenderer {
    pub render_pass_name: String,
}

impl ForwardRenderer {
    /// A forward renderer under its fixed pass label.
    pub fn new() -> (r: ForwardRenderer)
        ensures
            r.render_pass_name@ == "Forward"@,
    {
        ForwardRenderer { render_pass_name: String::from_str("Forward") }
    }

    /// Executes one forward pass: renders, in storage order, exactly the
    /// bundles tagged `Forward` that `predicate` selects, resolving
    /// resources through the caches and drawing into `framebuffer`, and
    /// returns the accumulated statistics.  Fails with
    /// `InvalidCameraState`, before touching anything, exactly when the
    /// camera has no resolvable inverse view matrix; any realization or
    /// submission failure aborts the pass with the underlying error and
    /// no statistics.
    #[verifier::spinoff_prover]
    #[verifier::rlimit(100)]
    pub fn render(
        &self,
        args: &ForwardRenderContext,
        predicate: &BundlePredicate,
        storage: &RenderDataBundleStorage,
        server: &GraphicsServer,
        framebuffer: &mut FrameBuffer,
        geometry_cache: &mut ResourceCache,
        shader_cache: &mut ResourceCache,
        texture_cache: &mut ResourceCache,
        uniform_buffer_cache: &mut ResourceCache,
        uniform_memory_allocator: &mut UniformMemoryAllocator,
    ) -> (r: Result<RenderPassStatistics, RenderError>)
        requires
            storage.wf(),
            args.camera.wf(),
            old(geometry_cache)@.inv(),
            old(shader_cache)@.inv(),
            old(texture_cache)@.inv(),
            old(uniform_buffer_cache)@.inv(),
            old(geometry_cache)@.kind == ResourceKind::Geometry,
            old(shader_cache)@.kind == ResourceKind::Shader,
            old(texture_cache)@.kind == ResourceKind::Texture,
            old(uniform_buffer_cache)@.kind == ResourceKind::UniformBuffer,
            old(uniform_memory_allocator).inv(),
        ensures
            r == Err::<RenderPassStatistics, RenderError>(RenderError::InvalidCameraState)
                <==> args.camera.inv_view_matrix is None,
            args.camera.inv_view_matrix is None ==> {
                &&& final(framebuffer).commands@ == old(framebuffer).commands@
                &&& final(geometry_cache)@ == old(geometry_cache)@
                &&& final(shader_cache)@ == old(shader_cache)@
                &&& final(texture_cache)@ == old(texture_cache)@
                &&& final(uniform_buffer_cache)@ == old(uniform_buffer_cache)@
                &&& *final(uniform_memory_allocator) == *old(uniform_memory_allocator)
            },
            crate::bundle::cache_extends(old(geometry_cache)@, final(geometry_cache)@),
            crate::bundle::cache_extends(old(shader_cache)@, final(shader_cache)@),
            crate::bundle::cache_extends(old(texture_cache)@, final(texture_cache)@),
            crate::bundle::cache_extends(old(uniform_buffer_cache)@, final(uniform_buffer_cache)@),
            final(uniform_memory_allocator).capacity == old(uniform_memory_allocator).capacity,
            final(uniform_memory_allocator).inv(),
            final(uniform_memory_allocator).cursor >= old(uniform_memory_allocator).cursor,
            final(framebuffer).commands@.len() >= old(framebuffer).commands@.len(),
            final(framebuffer).commands@.subrange(0, old(framebuffer).commands@.len() as int)
                == old(framebuffer).commands@,
            r matches Err(e) ==> (e == RenderError::InvalidCameraState || e
                == RenderError::GpuSubmission || e matches RenderError::Cache(
                CacheError::RealizationFailed(_),
            )),
            pass_inserts_realizable(
                storage.bundles@,
                RenderPath::Forward,
                *predicate,
                old(geometry_cache)@,
                old(shader_cache)@,
                old(texture_cache)@,
                final(geometry_cache)@,
                final(shader_cache)@,
                final(texture_cache)@,
            ),
            r matches Ok(stats) ==> {
                let sel = selected_bundles(storage.bundles@, RenderPath::Forward, *predicate);
                &&& stats.draw_calls == saturate_u64(
                    total_draw_calls(storage.bundles@, RenderPath::Forward, *predicate),
                )
                &&& stats.triangles_rendered == saturate_u64(
                    total_triangles(storage.bundles@, RenderPath::Forward, *predicate),
                )
                &&& final(framebuffer).commands@.len() == old(framebuffer).commands@.len()
                    + sel.len()
                &&& forall|i: int|
                    #![trigger sel[i]]
                    0 <= i < sel.len() ==> command_resolves(
                        final(framebuffer).commands@[old(framebuffer).commands@.len() + i],
                        sel[i],
                        final(geometry_cache)@,
                        final(shader_cache)@,
                        final(texture_cache)@,
                        final(uniform_buffer_cache)@,
                        args.fallback_resources,
                    ) && command_from_pass(
                        final(framebuffer).commands@[old(framebuffer).commands@.len() + i],
                        *args,
                    ) && final(framebuffer).commands@[old(framebuffer).commands@.len()
                        + i].render_pass_name@ == self.render_pass_name@
                &&& pass_offsets_ok(
                    final(framebuffer).commands@,
                    old(framebuffer).commands@.len() as int,
                    sel,
                    old(uniform_memory_allocator).cursor,
                )
                &&& final(uniform_memory_allocator).cursor == old(
                    uniform_memory_allocator,
                ).cursor + total_block_bytes(storage.bundles@, RenderPath::Forward, *predicate)
            },
            (args.camera.inv_view_matrix is Some && pass_admissible(
                storage.bundles@,
                RenderPath::Forward,
                *predicate,
                old(geometry_cache)@,
                old(shader_cache)@,
                old(texture_cache)@,
                old(uniform_buffer_cache)@,
                *old(uniform_memory_allocator),
                old(framebuffer).commands@.len() as int,
                *server,
            )) ==> r is Ok,
    {
        let inv_view = match args.camera.inv_view_matrix() {
            Some(m) => m,
            None => {
                proof {
                    cache_extends_is_reflexive(old(geometry_cache)@);
                    cache_extends_is_reflexive(old(shader_cache)@);
                    cache_extends_is_reflexive(old(texture_cache)@);
                    cache_extends_is_reflexive(old(uniform_buffer_cache)@);
                    assert(framebuffer.commands@.subrange(0, framebuffer.commands@.len() as int)
                        =~= framebuffer.commands@);
                }
                return Err(RenderError::InvalidCameraState);
            },
        };
        let view_projection = args.camera.view_projection_matrix();
        let camera_up = inv_view.up();
        let camera_side = inv_view.side();
        let context = BundleRenderContext {
            render_pass_name: self.render_pass_name.clone(),
            viewport: args.viewport,
            view_projection,
            camera_position: args.camera.global_position,
            camera_up,
            camera_side,
            z_near: args.camera.z_near,
            z_far: args.camera.z_far,
            use_parallax_mapping: args.quality_settings.use_parallax_mapping,
            ambient_light: args.ambient_light,
            scene_depth_texture: args.scene_depth,
            fallback_resources: args.fallback_resources,
        };
        let result = storage.render_to_frame_buffer(
            server,
            RenderPath::Forward,
            predicate,
            &context,
            framebuffer,
            geometry_cache,
            shader_cache,
            texture_cache,
            uniform_buffer_cache,
            uniform_memory_allocator,
        );
        match result {
            Ok(statistics) => {
                proof {
                    let sel = selected_bundles(storage.bundles@, RenderPath::Forward, *predicate);
                    assert(pass_offsets_ok(
                        framebuffer.commands@,
                        old(framebuffer).commands@.len() as int,
                        sel,
                        old(uniform_memory_allocator).cursor,
                    ));
                    assert forall|i: int|
                        #![trigger sel[i]]
                        0 <= i < sel.len() implies command_resolves(
                        framebuffer.commands@[old(framebuffer).commands@.len() + i],
                        sel[i],
                        geometry_cache@,
                        shader_cache@,
                        texture_cache@,
                        uniform_buffer_cache@,
                        args.fallback_resources,
                    ) && command_from_pass(
                        framebuffer.commands@[old(framebuffer).commands@.len() + i],
                        *args,
                    ) && framebuffer.commands@[old(framebuffer).commands@.len()
                        + i].render_pass_name@ == self.render_pass_name@ by {
                        let c = framebuffer.commands@[old(framebuffer).commands@.len() + i];
                        assert(command_resolves(
                            c,
                            sel[i],
                            geometry_cache@,
                            shader_cache@,
                            texture_cache@,
                            uniform_buffer_cache@,
                            context.fallback_resources,
                        ) && crate::bundle::command_in_context(c, context));
                        assert(c.render_pass_name@ == self.render_pass_name@);
                        assert(c.uniform_block.view_projection.entries@
                            == context.view_projection.entries@);
                        assert forall|row: int, col: int|
                            0 <= row < 4 && 0 <= col < 4 implies #[trigger] c.uniform_block.view_projection.at(
                            row,
                            col,
                        ) == args.camera.projection_matrix.product_entry(
                            args.camera.view_matrix,
                            row,
                            col,
                        ) by {
                            assert(context.view_projection.at(row, col)
                                == args.camera.projection_matrix.product_entry(
                                args.camera.view_matrix,
                                row,
                                col,
                            ));
                        }
                        assert(c.uniform_block.camera_up == (Vector3 {
                            x: inv_view.at(0, 1),
                            y: inv_view.at(1, 1),
                            z: inv_view.at(2, 1),
                        }));
                        assert(c.uniform_block.camera_side == (Vector3 {
                            x: inv_view.at(0, 0),
                            y: inv_view.at(1, 0),
                            z: inv_view.at(2, 0),
                        }));
                    }
                }
                Ok(statistics)
            },
            Err(e) => Err(e),
        }
    }
}

} // verus!
