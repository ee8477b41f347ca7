use forward_pass::bundle::{
    BundlePredicate, InstanceData, Material, RenderDataBundle, RenderDataBundleStorage,
    RenderPath,
};
use forward_pass::cache::{ResourceCache, ResourceDescriptor};
use forward_pass::camera::{Camera, FallbackResources, QualitySettings};
use forward_pass::error::{CacheError, RenderError, ResourceKind};
use forward_pass::math::{Color, Matrix4, Rect, Vector3};
use forward_pass::renderer::{ForwardRenderContext, ForwardRenderer};
use forward_pass::server::{FrameBuffer, GraphicsServer};
use forward_pass::stats::RenderPassStatistics;
use forward_pass::uniform::UniformMemoryAllocator;

fn identity() -> Matrix4 {
    Matrix4 { entries: vec![1, 0, 0, 0, 0, 1, 0, 0, 0, 0, 1, 0, 0, 0, 0, 1] }
}

fn camera() -> Camera {
    Camera {
        view_matrix: identity(),
        projection_matrix: identity(),
        inv_view_matrix: Some(identity()),
        global_position: Vector3 { x: 10, y: 20, z: 30 },
        z_near: 1,
        z_far: 1024,
    }
}

fn pass_inputs() -> ForwardRenderContext {
    ForwardRenderContext {
        camera: camera(),
        viewport: Rect { x: 0, y: 0, width: 800, height: 600 },
        quality_settings: QualitySettings { use_parallax_mapping: true },
        fallback_resources: FallbackResources { white_texture: 999 },
        scene_depth: 777,
        ambient_light: Color { r: 30, g: 30, b: 30, a: 255 },
    }
}

fn bundle(path: RenderPath, geometry_key: u64, triangle_count: u64, instances: usize) -> RenderDataBundle {
    RenderDataBundle {
        render_path: path,
        geometry: ResourceDescriptor { key: geometry_key, realizable: true },
        triangle_count,
        material: Material {
            shader: ResourceDescriptor { key: 100 + geometry_key, realizable: true },
            texture_slots: vec![],
        },
        instances: vec![InstanceData { position: Vector3 { x: 0, y: 0, z: 0 } }; instances],
    }
}

struct PassState {
    framebuffer: FrameBuffer,
    geometry_cache: ResourceCache,
    shader_cache: ResourceCache,
    texture_cache: ResourceCache,
    uniform_buffer_cache: ResourceCache,
    allocator: UniformMemoryAllocator,
}

fn fresh_state() -> PassState {
    PassState {
        framebuffer: FrameBuffer::new(),
        geometry_cache: ResourceCache::new(ResourceKind::Geometry),
        shader_cache: ResourceCache::new(ResourceKind::Shader),
        texture_cache: ResourceCache::new(ResourceKind::Texture),
        uniform_buffer_cache: ResourceCache::new(ResourceKind::UniformBuffer),
        allocator: UniformMemoryAllocator::new(1 << 20),
    }
}

fn run_pass(
    storage: &RenderDataBundleStorage,
    predicate: &BundlePredicate,
    args: &ForwardRenderContext,
    server: &GraphicsServer,
    state: &mut PassState,
) -> Result<RenderPassStatistics, RenderError> {
    let renderer = ForwardRenderer::new();
    renderer.render(
        args,
        predicate,
        storage,
        server,
        &mut state.framebuffer,
        &mut state.geometry_cache,
        &mut state.shader_cache,
        &mut state.texture_cache,
        &mut state.uniform_buffer_cache,
        &mut state.allocator,
    )
}

#[test]
fn renderer_carries_its_pass_label() {
    let renderer = ForwardRenderer::new();
    assert_eq!(renderer.render_pass_name, "Forward");
}

#[test]
fn forward_bundles_are_rendered_deferred_ones_are_not() {
    // storage tagged [Forward, Deferred, Forward] with an always-true
    // predicate: exactly 2 draws
    let mut storage = RenderDataBundleStorage::new();
    storage.push(bundle(RenderPath::Forward, 1, 10, 1));
    storage.push(bundle(RenderPath::Deferred, 2, 10, 1));
    storage.push(bundle(RenderPath::Forward, 3, 12, 2));
    let mut state = fresh_state();
    let stats = run_pass(
        &storage,
        &BundlePredicate::All,
        &pass_inputs(),
        &GraphicsServer { command_capacity: 100 },
        &mut state,
    )
    .unwrap();
    assert_eq!(stats.draw_calls, 2);
    assert_eq!(stats.triangles_rendered, 10 * 1 + 12 * 2);
    assert_eq!(state.framebuffer.commands.len(), 2);
    // draws are submitted in storage order
    assert_eq!(state.framebuffer.commands[0].instance_count, 1);
    assert_eq!(state.framebuffer.commands[1].instance_count, 2);
    // deferred bundle's resources were never realized
    assert_eq!(state.geometry_cache.entries.len(), 2);
    assert!(state.geometry_cache.entries.iter().all(|e| e.key != 2));
}

#[test]
fn caller_predicate_restricts_the_selection() {
    let mut storage = RenderDataBundleStorage::new();
    storage.push(bundle(RenderPath::Forward, 1, 10, 1));
    storage.push(bundle(RenderPath::Forward, 2, 20, 1));
    storage.push(bundle(RenderPath::Forward, 3, 30, 1));
    let mut state = fresh_state();
    let stats = run_pass(
        &storage,
        &BundlePredicate::GeometryKeyEquals(2),
        &pass_inputs(),
        &GraphicsServer { command_capacity: 100 },
        &mut state,
    )
    .unwrap();
    assert_eq!(stats.draw_calls, 1);
    assert_eq!(stats.triangles_rendered, 20);
    assert_eq!(state.framebuffer.commands.len(), 1);
    assert_eq!(state.framebuffer.commands[0].instance_count, 1);
}

#[test]
fn statistics_do_not_depend_on_storage_order() {
    let b1 = bundle(RenderPath::Forward, 1, 10, 3);
    let b2 = bundle(RenderPath::Deferred, 2, 50, 1);
    let b3 = bundle(RenderPath::Forward, 3, 7, 2);
    let mut s1 = RenderDataBundleStorage::new();
    s1.push(b1.clone());
    s1.push(b2.clone());
    s1.push(b3.clone());
    let mut s2 = RenderDataBundleStorage::new();
    s2.push(b3);
    s2.push(b1);
    s2.push(b2);
    let server = GraphicsServer { command_capacity: 100 };
    let mut state1 = fresh_state();
    let mut state2 = fresh_state();
    let r1 = run_pass(&s1, &BundlePredicate::All, &pass_inputs(), &server, &mut state1).unwrap();
    let r2 = run_pass(&s2, &BundlePredicate::All, &pass_inputs(), &server, &mut state2).unwrap();
    assert_eq!(r1, r2);
}

#[test]
fn singular_camera_aborts_before_any_work() {
    let mut storage = RenderDataBundleStorage::new();
    storage.push(bundle(RenderPath::Forward, 1, 10, 1));
    let mut args = pass_inputs();
    args.camera.inv_view_matrix = None;
    let mut state = fresh_state();
    let r = run_pass(
        &storage,
        &BundlePredicate::All,
        &args,
        &GraphicsServer { command_capacity: 100 },
        &mut state,
    );
    assert_eq!(r, Err(RenderError::InvalidCameraState));
    // zero GPU commands issued, caches and allocator untouched
    assert_eq!(state.framebuffer.commands.len(), 0);
    assert_eq!(state.geometry_cache.entries.len(), 0);
    assert_eq!(state.shader_cache.entries.len(), 0);
    assert_eq!(state.texture_cache.entries.len(), 0);
    assert_eq!(state.uniform_buffer_cache.entries.len(), 0);
    assert_eq!(state.allocator.cursor, 0);
}

#[test]
fn shader_failure_aborts_the_pass_without_statistics() {
    // five forward bundles; the fourth one's shader does not compile
    let mut storage = RenderDataBundleStorage::new();
    for key in 1..=5u64 {
        let mut b = bundle(RenderPath::Forward, key, 10, 1);
        if key == 4 {
            b.material.shader.realizable = false;
        }
        storage.push(b);
    }
    let mut state = fresh_state();
    let r = run_pass(
        &storage,
        &BundlePredicate::All,
        &pass_inputs(),
        &GraphicsServer { command_capacity: 100 },
        &mut state,
    );
    assert_eq!(
        r,
        Err(RenderError::Cache(CacheError::RealizationFailed(ResourceKind::Shader)))
    );
    // the failing shader was not cached, so the next pass retries it
    assert!(state.shader_cache.entries.iter().all(|e| e.key != 104));
}

#[test]
fn rejected_submission_surfaces_as_gpu_error() {
    let mut storage = RenderDataBundleStorage::new();
    storage.push(bundle(RenderPath::Forward, 1, 10, 1));
    let mut state = fresh_state();
    let r = run_pass(
        &storage,
        &BundlePredicate::All,
        &pass_inputs(),
        &GraphicsServer { command_capacity: 0 },
        &mut state,
    );
    assert_eq!(r, Err(RenderError::GpuSubmission));
}

#[test]
fn uniform_memory_exhaustion_aborts_the_pass() {
    let mut storage = RenderDataBundleStorage::new();
    storage.push(bundle(RenderPath::Forward, 1, 10, 1));
    let mut state = fresh_state();
    state.allocator = UniformMemoryAllocator::new(64);
    let r = run_pass(
        &storage,
        &BundlePredicate::All,
        &pass_inputs(),
        &GraphicsServer { command_capacity: 100 },
        &mut state,
    );
    assert_eq!(
        r,
        Err(RenderError::Cache(CacheError::RealizationFailed(ResourceKind::UniformBuffer)))
    );
}

#[test]
fn draw_commands_carry_the_pass_uniform_data() {
    let mut storage = RenderDataBundleStorage::new();
    storage.push(bundle(RenderPath::Forward, 1, 10, 3));
    let args = pass_inputs();
    let mut state = fresh_state();
    run_pass(
        &storage,
        &BundlePredicate::All,
        &args,
        &GraphicsServer { command_capacity: 100 },
        &mut state,
    )
    .unwrap();
    let command = &state.framebuffer.commands[0];
    assert_eq!(command.render_pass_name, "Forward");
    assert_eq!(command.viewport, args.viewport);
    assert_eq!(command.instance_count, 3);
    // identity view and projection: the product is the identity again
    assert_eq!(command.uniform_block.view_projection.entries, identity().entries);
    assert_eq!(command.uniform_block.camera_position, Vector3 { x: 10, y: 20, z: 30 });
    assert_eq!(command.uniform_block.camera_up, Vector3 { x: 0, y: 1, z: 0 });
    assert_eq!(command.uniform_block.camera_side, Vector3 { x: 1, y: 0, z: 0 });
    assert_eq!(command.uniform_block.z_near, 1);
    assert_eq!(command.uniform_block.z_far, 1024);
    assert!(command.uniform_block.use_parallax_mapping);
    assert_eq!(command.uniform_block.ambient_light, Color { r: 30, g: 30, b: 30, a: 255 });
    assert_eq!(command.uniform_block.scene_depth_texture, 777);
    // the uniform region is sized for three instances and starts the frame
    assert_eq!(command.uniform_region.offset, 0);
    assert_eq!(command.uniform_region.size, 256 + 3 * 128);
    assert_eq!(state.allocator.cursor, 256 + 3 * 128);
}

#[test]
fn empty_texture_slots_fall_back_to_the_stand_in() {
    let mut storage = RenderDataBundleStorage::new();
    let mut b = bundle(RenderPath::Forward, 1, 10, 1);
    b.material.texture_slots = vec![
        Some(ResourceDescriptor { key: 500, realizable: true }),
        None,
    ];
    storage.push(b);
    let mut state = fresh_state();
    run_pass(
        &storage,
        &BundlePredicate::All,
        &pass_inputs(),
        &GraphicsServer { command_capacity: 100 },
        &mut state,
    )
    .unwrap();
    let command = &state.framebuffer.commands[0];
    assert_eq!(command.textures.len(), 2);
    assert_eq!(command.textures[0], state.texture_cache.entries[0].handle);
    assert_eq!(command.textures[1], 999);
}

#[test]
fn repeated_passes_share_realized_resources() {
    let mut storage = RenderDataBundleStorage::new();
    storage.push(bundle(RenderPath::Forward, 1, 10, 1));
    let server = GraphicsServer { command_capacity: 100 };
    let mut state = fresh_state();
    run_pass(&storage, &BundlePredicate::All, &pass_inputs(), &server, &mut state).unwrap();
    let shader_handle = state.framebuffer.commands[0].shader;
    run_pass(&storage, &BundlePredicate::All, &pass_inputs(), &server, &mut state).unwrap();
    // the second pass hits the caches: same handle, no new entries
    assert_eq!(state.framebuffer.commands[1].shader, shader_handle);
    assert_eq!(state.shader_cache.entries.len(), 1);
    assert_eq!(state.geometry_cache.entries.len(), 1);
}

#[test]
fn empty_storage_renders_nothing() {
    let storage = RenderDataBundleStorage::new();
    let mut state = fresh_state();
    let stats = run_pass(
        &storage,
        &BundlePredicate::All,
        &pass_inputs(),
        &GraphicsServer { command_capacity: 100 },
        &mut state,
    )
    .unwrap();
    assert_eq!(stats, RenderPassStatistics::default());
    assert_eq!(state.framebuffer.commands.len(), 0);
}

#[test]
fn uniform_regions_lie_back_to_back() {
    let mut storage = RenderDataBundleStorage::new();
    storage.push(bundle(RenderPath::Forward, 1, 10, 2));
    storage.push(bundle(RenderPath::Forward, 2, 10, 5));
    let mut state = fresh_state();
    run_pass(
        &storage,
        &BundlePredicate::All,
        &pass_inputs(),
        &GraphicsServer { command_capacity: 100 },
        &mut state,
    )
    .unwrap();
    let first = state.framebuffer.commands[0].uniform_region;
    let second = state.framebuffer.commands[1].uniform_region;
    assert_eq!(first.offset, 0);
    assert_eq!(first.size, 256 + 2 * 128);
    assert_eq!(second.offset, first.size);
    assert_eq!(second.size, 256 + 5 * 128);
    assert_eq!(state.allocator.cursor, first.size + second.size);
}

#[test]
fn sweep_after_a_pass_keeps_every_resource_the_pass_used() {
    let mut storage = RenderDataBundleStorage::new();
    let mut b = bundle(RenderPath::Forward, 1, 10, 1);
    b.material.texture_slots = vec![Some(ResourceDescriptor { key: 500, realizable: true })];
    storage.push(b);
    let mut state = fresh_state();
    // several frames pass before this one; the caches are stamped at
    // frame 4 when the pass runs
    for cache in [
        &mut state.geometry_cache,
        &mut state.shader_cache,
        &mut state.texture_cache,
        &mut state.uniform_buffer_cache,
    ] {
        for _ in 0..4 {
            cache.begin_frame();
        }
    }
    run_pass(
        &storage,
        &BundlePredicate::All,
        &pass_inputs(),
        &GraphicsServer { command_capacity: 100 },
        &mut state,
    )
    .unwrap();
    // an eviction sweep triggered immediately after the pass, even with a
    // zero-frame threshold, removes nothing the pass touched
    state.geometry_cache.sweep(0);
    state.shader_cache.sweep(0);
    state.texture_cache.sweep(0);
    state.uniform_buffer_cache.sweep(0);
    assert_eq!(state.geometry_cache.entries.len(), 1);
    assert_eq!(state.shader_cache.entries.len(), 1);
    assert_eq!(state.texture_cache.entries.len(), 1);
    assert_eq!(state.uniform_buffer_cache.entries.len(), 1);
}
