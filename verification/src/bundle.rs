//! Render data bundles, their per-frame storage, and the execution driver
//! that renders a filtered selection of bundles to a framebuffer.

use crate::cache::{lemma_step, lemma_sweep_protects_current, CacheModel, ResourceCache, ResourceDescriptor};
use crate::camera::FallbackResources;
use crate::error::{CacheError, RenderError, ResourceKind};
use crate::math::{Color, Matrix4, Rect, Vector3};
use crate::server::{DrawCommand, FrameBuffer, GraphicsServer, UniformBlock};
use crate::stats::{saturate_u64, RenderPassStatistics};
use crate::uniform::UniformMemoryAllocator;
use vstd::prelude::*;

verus! {

/// Bytes of uniform memory a bundle needs independently of its instances.
pub const UNIFORM_BLOCK_BASE_SIZE: u64 = 256;

/// Bytes of uniform memory each rendered instance adds.
pub const PER_INSTANCE_UNIFORM_SIZE: u64 = 128;

/// How a bundle must be shaded.
#[derive(Clone, Copy, Debug, PartialEq, Eq, Structural)]
pub enum RenderPath {
    Forward,
    Deferred,
}

/// Per-instance data of a bundle: the instance's world position.
#[derive(Clone, Copy, Debug, PartialEq, Eq, Structural)]
pub struct InstanceData {
    pub position: Vector3,
}

/// A bundle's material: the shader it is drawn with and its texture
/// slots, where an empty slot falls back to a stand-in texture.
#[derive(Clone, Debug, PartialEq, Eq)]
pub struct Material {
    pub shader: ResourceDescriptor,
    pub texture_slots: Vec<Option<ResourceDescriptor>>,
}

/// A batched draw request: geometry, material, render path tag and the
/// ordered per-instance data.  Immutable once placed in storage.
#[derive(Clone, Debug, PartialEq, Eq)]
pub struct RenderDataBundle {
    pub render_path: RenderPath,
    pub geometry: ResourceDescriptor,
    /// Triangles drawn per instance of this bundle's geometry.
    pub triangle_count: u64,
    pub material: Material,
    pub instances: Vec<InstanceData>,
}

impl RenderDataBundle {
    /// The machine limit of the uniform arithmetic: the bundle's uniform
    /// block size fits the allocator's byte counter.
    pub open spec fn wf(self) -> bool {
        self.block_size() <= u64::MAX
    }

    /// Bytes of uniform memory this bundle's draw needs.
    pub open spec fn block_size(self) -> int {
        UNIFORM_BLOCK_BASE_SIZE + PER_INSTANCE_UNIFORM_SIZE * self.instances@.len()
    }
}

/// The caller-supplied selection predicate of a pass, as data, so that a
/// pass's contract is purely input to output.
#[derive(Clone, Copy, Debug, PartialEq, Eq, Structural)]
pub enum BundlePredicate {
    /// Selects every bundle.
    All,
    /// Selects bundles drawing one particular geometry.
    GeometryKeyEquals(u64),
    /// Selects bundles drawn with one particular shader.
    ShaderKeyEquals(u64),
}

impl BundlePredicate {
    /// Which bundles the predicate selects.
    pub open spec fn spec_accepts(self, b: RenderDataBundle) -> bool {
        match self {
            BundlePredicate::All => true,
            BundlePredicate::GeometryKeyEquals(k) => b.geometry.key == k,
            BundlePredicate::ShaderKeyEquals(k) => b.material.shader.key == k,
        }
    }

    /// Decides the predicate on one bundle.
    pub fn accepts(&self, bundle: &RenderDataBundle) -> (r: bool)
        ensures
            r == self.spec_accepts(*bundle),
    {
        match self {
            BundlePredicate::All => true,
            BundlePredicate::GeometryKeyEquals(k) => bundle.geometry.key == *k,
            BundlePredicate::ShaderKeyEquals(k) => bundle.material.shader.key == *k,
        }
    }
}

/// A bundle is rendered by a pass exactly when its render path matches
/// the pass and the caller's predicate selects it.
pub open spec fn bundle_selected(b: RenderDataBundle, path: RenderPath, p: BundlePredicate) -> bool {
    b.render_path == path && p.spec_accepts(b)
}

/// The subsequence of bundles a pass renders, in storage order.
pub open spec fn selected_bundles(
    s: Seq<RenderDataBundle>,
    path: RenderPath,
    p: BundlePredicate,
) -> Seq<RenderDataBundle>
    decreases s.len(),
{
    if s.len() == 0 {
        s
    } else {
        let rest = selected_bundles(s.drop_last(), path, p);
        if bundle_selected(s.last(), path, p) {
            rest.push(s.last())
        } else {
            rest
        }
    }
}

/// Filter correctness as set membership: the rendered selection holds
/// bundles of the storage that match the render path and predicate, and
/// every matching bundle of the storage, and nothing else.
pub proof fn lemma_selected_bundles_exact(
    s: Seq<RenderDataBundle>,
    path: RenderPath,
    p: BundlePredicate,
)
    ensures
        forall|i: int|
            0 <= i < selected_bundles(s, path, p).len() ==> bundle_selected(
                #[trigger] selected_bundles(s, path, p)[i],
                path,
                p,
            ),
        forall|i: int|
            0 <= i < selected_bundles(s, path, p).len() ==> s.contains(
                #[trigger] selected_bundles(s, path, p)[i],
            ),
        forall|j: int|
            0 <= j < s.len() && bundle_selected(#[trigger] s[j], path, p) ==> selected_bundles(
                s,
                path,
                p,
            ).contains(s[j]),
    decreases s.len(),
{
    let sel = selected_bundles(s, path, p);
    if s.len() > 0 {
        let sd = s.drop_last();
        let seld = selected_bundles(sd, path, p);
        lemma_selected_bundles_exact(sd, path, p);
        assert(sd.push(s.last()) =~= s);
        assert forall|i: int| 0 <= i < sel.len() implies bundle_selected(
            #[trigger] sel[i],
            path,
            p,
        ) && s.contains(sel[i]) by {
            if bundle_selected(s.last(), path, p) && i == sel.len() - 1 {
                assert(sel[i] == s[s.len() - 1]);
            } else {
                assert(sel[i] == seld[i]);
                assert(sd.contains(seld[i]));
                let j = choose|j: int| 0 <= j < sd.len() && sd[j] == seld[i];
                assert(s[j] == sel[i]);
            }
        }
        assert forall|j: int|
            0 <= j < s.len() && bundle_selected(#[trigger] s[j], path, p) implies sel.contains(
            s[j],
        ) by {
            if j < s.len() - 1 {
                assert(sd[j] == s[j]);
                assert(seld.contains(sd[j]));
                let i = choose|i: int| 0 <= i < seld.len() && seld[i] == sd[j];
                assert(sel[i] == s[j]);
            } else {
                assert(sel[sel.len() - 1] == s[j]);
            }
        }
    }
}

/// The sum of a per-bundle weight over a sequence of bundles.
pub open spec fn weight_sum(s: Seq<RenderDataBundle>, w: spec_fn(RenderDataBundle) -> int) -> int
    decreases s.len(),
{
    if s.len() == 0 {
        0
    } else {
        weight_sum(s.drop_last(), w) + w(s.last())
    }
}

/// Draw calls a bundle contributes to the pass total: one when selected.
pub open spec fn draw_weight_fn(path: RenderPath, p: BundlePredicate) -> spec_fn(
    RenderDataBundle,
) -> int {
    |b: RenderDataBundle|
        if bundle_selected(b, path, p) {
            1
        } else {
            0
        }
}

/// Triangles a bundle contributes: triangles per instance times instances,
/// when selected.
pub open spec fn triangle_weight_fn(path: RenderPath, p: BundlePredicate) -> spec_fn(
    RenderDataBundle,
) -> int {
    |b: RenderDataBundle|
        if bundle_selected(b, path, p) {
            b.triangle_count * b.instances@.len()
        } else {
            0
        }
}

/// Uniform memory a bundle consumes, when selected.
pub open spec fn block_weight_fn(path: RenderPath, p: BundlePredicate) -> spec_fn(
    RenderDataBundle,
) -> int {
    |b: RenderDataBundle|
        if bundle_selected(b, path, p) {
            b.block_size()
        } else {
            0
        }
}

/// Texture slots a bundle resolves, when selected.
pub open spec fn texture_slot_weight_fn(path: RenderPath, p: BundlePredicate) -> spec_fn(
    RenderDataBundle,
) -> int {
    |b: RenderDataBundle|
        if bundle_selected(b, path, p) {
            b.material.texture_slots@.len() as int
        } else {
            0
        }
}

/// Draw calls a pass over `s` issues.
pub open spec fn total_draw_calls(
    s: Seq<RenderDataBundle>,
    path: RenderPath,
    p: BundlePredicate,
) -> int {
    weight_sum(s, draw_weight_fn(path, p))
}

/// Triangles a pass over `s` draws.
pub open spec fn total_triangles(
    s: Seq<RenderDataBundle>,
    path: RenderPath,
    p: BundlePredicate,
) -> int {
    weight_sum(s, triangle_weight_fn(path, p))
}

/// Uniform memory a pass over `s` allocates.
pub open spec fn total_block_bytes(
    s: Seq<RenderDataBundle>,
    path: RenderPath,
    p: BundlePredicate,
) -> int {
    weight_sum(s, block_weight_fn(path, p))
}

/// Texture slots a pass over `s` resolves.
pub open spec fn total_texture_slots(
    s: Seq<RenderDataBundle>,
    path: RenderPath,
    p: BundlePredicate,
) -> int {
    weight_sum(s, texture_slot_weight_fn(path, p))
}

/// Extending a prefix by one bundle adds that bundle's weight.
pub proof fn lemma_weight_sum_take_succ(
    s: Seq<RenderDataBundle>,
    w: spec_fn(RenderDataBundle) -> int,
    i: int,
)
    requires
        0 <= i < s.len(),
    ensures
        weight_sum(s.take(i + 1), w) == weight_sum(s.take(i), w) + w(s[i]),
{
    assert(s.take(i + 1).drop_last() =~= s.take(i));
    assert(s.take(i + 1).last() == s[i]);
}

/// With non-negative weights, a prefix sum never exceeds the whole sum.
pub proof fn lemma_weight_sum_take_le(
    s: Seq<RenderDataBundle>,
    w: spec_fn(RenderDataBundle) -> int,
    i: int,
)
    requires
        0 <= i <= s.len(),
        forall|j: int| 0 <= j < s.len() ==> #[trigger] w(s[j]) >= 0,
    ensures
        weight_sum(s.take(i), w) <= weight_sum(s, w),
    decreases s.len() - i,
{
    if i == s.len() {
        assert(s.take(i) =~= s);
    } else {
        lemma_weight_sum_take_succ(s, w, i);
        lemma_weight_sum_take_le(s, w, i + 1);
    }
}

/// With non-negative weights, every prefix sum is non-negative.
pub proof fn lemma_weight_sum_take_nonneg(
    s: Seq<RenderDataBundle>,
    w: spec_fn(RenderDataBundle) -> int,
    i: int,
)
    requires
        0 <= i <= s.len(),
        forall|j: int| 0 <= j < s.len() ==> #[trigger] w(s[j]) >= 0,
    ensures
        weight_sum(s.take(i), w) >= 0,
    decreases i,
{
    if i > 0 {
        lemma_weight_sum_take_succ(s, w, i - 1);
        lemma_weight_sum_take_nonneg(s, w, i - 1);
    }
}

/// Removing one bundle removes exactly its weight from the sum.
pub proof fn lemma_weight_sum_remove(
    s: Seq<RenderDataBundle>,
    w: spec_fn(RenderDataBundle) -> int,
    i: int,
)
    requires
        0 <= i < s.len(),
    ensures
        weight_sum(s, w) == weight_sum(s.remove(i), w) + w(s[i]),
    decreases s.len(),
{
    if i == s.len() - 1 {
        assert(s.remove(i) =~= s.drop_last());
    } else {
        assert(s.remove(i).drop_last() =~= s.drop_last().remove(i));
        assert(s.remove(i).last() == s.last());
        lemma_weight_sum_remove(s.drop_last(), w, i);
    }
}

/// A weight sum depends only on which bundles occur how often, not on
/// their order.
pub proof fn lemma_weight_sum_permutation(
    s1: Seq<RenderDataBundle>,
    s2: Seq<RenderDataBundle>,
    w: spec_fn(RenderDataBundle) -> int,
)
    requires
        s1.to_multiset() == s2.to_multiset(),
    ensures
        weight_sum(s1, w) == weight_sum(s2, w),
    decreases s1.len(),
{
    s1.to_multiset_ensures();
    s2.to_multiset_ensures();
    if s1.len() == 0 {
        assert(s2.len() == 0);
    } else {
        let b = s1.last();
        let d1 = s1.drop_last();
        assert(d1.push(b) =~= s1);
        assert(s1.to_multiset().count(b) > 0) by {
            assert(s1.contains(b));
        }
        assert(s2.contains(b));
        let j = choose|j: int| 0 <= j < s2.len() && s2[j] == b;
        let d2 = s2.remove(j);
        assert(d1.to_multiset() =~= s1.to_multiset().remove(b)) by {
            vstd::seq_lib::to_multiset_build(d1, b);
        }
        assert(d2.to_multiset() =~= s2.to_multiset().remove(b)) by {
            vstd::seq_lib::to_multiset_remove(s2, j);
        }
        lemma_weight_sum_permutation(d1, d2, w);
        lemma_weight_sum_remove(s2, w, j);
    }
}

/// Order independence of the pass totals: storages holding the same
/// bundles in any order yield the same draw-call and triangle totals, for
/// every render path and predicate.
pub proof fn lemma_statistics_order_independent(
    s1: Seq<RenderDataBundle>,
    s2: Seq<RenderDataBundle>,
    path: RenderPath,
    p: BundlePredicate,
)
    requires
        s1.to_multiset() == s2.to_multiset(),
    ensures
        total_draw_calls(s1, path, p) == total_draw_calls(s2, path, p),
        total_triangles(s1, path, p) == total_triangles(s2, path, p),
{
    lemma_weight_sum_permutation(s1, s2, draw_weight_fn(path, p));
    lemma_weight_sum_permutation(s1, s2, triangle_weight_fn(path, p));
}

/// The number of selected bundles is the draw-call total.
pub proof fn lemma_selected_len(s: Seq<RenderDataBundle>, path: RenderPath, p: BundlePredicate)
    ensures
        selected_bundles(s, path, p).len() == total_draw_calls(s, path, p),
    decreases s.len(),
{
    if s.len() > 0 {
        lemma_selected_len(s.drop_last(), path, p);
    }
}

/// Extending a prefix extends its selection by the new bundle when it is
/// selected.
pub proof fn lemma_selected_take_succ(
    s: Seq<RenderDataBundle>,
    path: RenderPath,
    p: BundlePredicate,
    i: int,
)
    requires
        0 <= i < s.len(),
    ensures
        selected_bundles(s.take(i + 1), path, p) == if bundle_selected(s[i], path, p) {
            selected_bundles(s.take(i), path, p).push(s[i])
        } else {
            selected_bundles(s.take(i), path, p)
        },
{
    assert(s.take(i + 1).drop_last() =~= s.take(i));
    assert(s.take(i + 1).last() == s[i]);
}

/// All weights a pass sums are non-negative.
pub proof fn lemma_weights_nonneg(s: Seq<RenderDataBundle>, path: RenderPath, p: BundlePredicate)
    ensures
        forall|j: int|
            0 <= j < s.len() ==> #[trigger] draw_weight_fn(path, p)(s[j]) >= 0,
        forall|j: int|
            0 <= j < s.len() ==> #[trigger] triangle_weight_fn(path, p)(s[j]) >= 0,
        forall|j: int|
            0 <= j < s.len() ==> #[trigger] block_weight_fn(path, p)(s[j]) >= 0,
        forall|j: int|
            0 <= j < s.len() ==> #[trigger] texture_slot_weight_fn(path, p)(s[j]) >= 0,
{
    assert forall|j: int|
        0 <= j < s.len() implies #[trigger] triangle_weight_fn(path, p)(s[j]) >= 0 by {
        if bundle_selected(s[j], path, p) {
            assert(s[j].triangle_count * s[j].instances@.len() >= 0) by (nonlinear_arith);
        }
    }
    assert forall|j: int|
        0 <= j < s.len() implies #[trigger] block_weight_fn(path, p)(s[j]) >= 0 by {
        if bundle_selected(s[j], path, p) {
            assert(PER_INSTANCE_UNIFORM_SIZE * s[j].instances@.len() >= 0) by (nonlinear_arith);
        }
    }
}

/// The per-pass values every bundle draw reads: viewport, camera-derived
/// matrices and vectors, quality flags, ambient light, the shared scene
/// depth texture and the fallback resources.
#[derive(Debug)]
pub struct BundleRenderContext {
    /// The pass label under which resources are resolved and draws are
    /// recorded.
    pub render_pass_name: String,
    pub viewport: Rect,
    pub view_projection: Matrix4,
    pub camera_position: Vector3,
    pub camera_up: Vector3,
    pub camera_side: Vector3,
    pub z_near: i64,
    pub z_far: i64,
    pub use_parallax_mapping: bool,
    pub ambient_light: Color,
    pub scene_depth_texture: u64,
    pub fallback_resources: FallbackResources,
}

impl BundleRenderContext {
    /// The context carries a complete view-projection matrix.
    pub open spec fn wf(self) -> bool {
        self.view_projection.wf()
    }
}

/// How a draw command relates to the bundle it renders: every resource
/// handle in the command is the one the caches associate with the
/// bundle's resource keys and every such entry carries the current
/// frame's last-used stamp, empty texture slots fall back to the stand-in
/// texture, and the uniform region and instance count fit the bundle.
pub open spec fn command_resolves(
    c: DrawCommand,
    b: RenderDataBundle,
    geo: CacheModel,
    sh: CacheModel,
    tex: CacheModel,
    ub: CacheModel,
    fallback: FallbackResources,
) -> bool {
    &&& geo.has_key(b.geometry.key) && c.geometry == geo.handle_of(b.geometry.key)
        && geo.stamp_of(b.geometry.key) == geo.current_frame
    &&& sh.has_key(b.material.shader.key) && c.shader == sh.handle_of(b.material.shader.key)
        && sh.stamp_of(b.material.shader.key) == sh.current_frame
    &&& c.textures@.len() == b.material.texture_slots@.len()
    &&& forall|j: int|
        0 <= j < b.material.texture_slots@.len() ==> match #[trigger] b.material.texture_slots@[j] {
            Some(d) => tex.has_key(d.key) && c.textures@[j] == tex.handle_of(d.key)
                && tex.stamp_of(d.key) == tex.current_frame,
            None => c.textures@[j] == fallback.white_texture,
        }
    &&& ub.has_key(b.block_size() as u64) && c.uniform_buffer == ub.handle_of(
        b.block_size() as u64,
    ) && ub.stamp_of(b.block_size() as u64) == ub.current_frame
    &&& c.uniform_region.size == b.block_size()
    &&& c.instance_count == b.instances@.len()
}

/// The per-pass uniform data of a command matches the pass context.
pub open spec fn command_in_context(c: DrawCommand, ctx: BundleRenderContext) -> bool {
    &&& c.render_pass_name@ == ctx.render_pass_name@
    &&& c.viewport == ctx.viewport
    &&& c.uniform_block.view_projection.entries@ == ctx.view_projection.entries@
    &&& c.uniform_block.camera_position == ctx.camera_position
    &&& c.uniform_block.camera_up == ctx.camera_up
    &&& c.uniform_block.camera_side == ctx.camera_side
    &&& c.uniform_block.z_near == ctx.z_near
    &&& c.uniform_block.z_far == ctx.z_far
    &&& c.uniform_block.use_parallax_mapping == ctx.use_parallax_mapping
    &&& c.uniform_block.ambient_light == ctx.ambient_light
    &&& c.uniform_block.scene_depth_texture == ctx.scene_depth_texture
}

/// The commands from `base` on render exactly the selected bundles, in
/// order, against the given cache states and pass context.
pub open spec fn pass_commands_ok(
    commands: Seq<DrawCommand>,
    base: int,
    sel: Seq<RenderDataBundle>,
    geo: CacheModel,
    sh: CacheModel,
    tex: CacheModel,
    ub: CacheModel,
    ctx: BundleRenderContext,
) -> bool {
    forall|i: int|
        #![trigger sel[i]]
        0 <= i < sel.len() ==> command_resolves(
            commands[base + i],
            sel[i],
            geo,
            sh,
            tex,
            ub,
            ctx.fallback_resources,
        ) && command_in_context(commands[base + i], ctx)
}

/// Every resource a bundle asks for can be realized.
pub open spec fn bundle_fully_realizable(b: RenderDataBundle) -> bool {
    &&& b.geometry.realizable
    &&& b.material.shader.realizable
    &&& forall|j: int|
        0 <= j < b.material.texture_slots@.len() ==> match #[trigger] b.material.texture_slots@[j] {
            Some(d) => d.realizable,
            None => true,
        }
}

/// A cache state reached from `m0` by pass work: same kind and frame, the
/// invariant kept, every association `m0` held still in place, and every
/// entry stamped at the current frame still so stamped.
pub open spec fn cache_extends(m0: CacheModel, m1: CacheModel) -> bool {
    &&& m1.inv()
    &&& m1.kind == m0.kind
    &&& m1.current_frame == m0.current_frame
    &&& m1.next_handle >= m0.next_handle
    &&& forall|k: u64|
        m0.has_key(k) ==> #[trigger] m1.has_key(k) && m1.handle_of(k) == m0.handle_of(k)
    &&& forall|k: u64|
        m0.has_key(k) && m0.stamp_of(k) == m0.current_frame ==> #[trigger] m1.stamp_of(k)
            == m1.current_frame
}

/// Every cache state with its invariant extends itself.
pub proof fn cache_extends_is_reflexive(m: CacheModel)
    requires
        m.inv(),
    ensures
        cache_extends(m, m),
{
}

/// `cache_extends` composes.
pub proof fn lemma_cache_extends_trans(m0: CacheModel, m1: CacheModel, m2: CacheModel)
    requires
        cache_extends(m0, m1),
        cache_extends(m1, m2),
    ensures
        cache_extends(m0, m2),
{
    assert forall|k: u64| m0.has_key(k) implies #[trigger] m2.has_key(k) && m2.handle_of(k)
        == m0.handle_of(k) by {
        assert(m1.has_key(k));
        assert(m1.handle_of(k) == m0.handle_of(k));
        assert(m2.has_key(k));
        assert(m2.handle_of(k) == m1.handle_of(k));
    }
    assert forall|k: u64|
        m0.has_key(k) && m0.stamp_of(k) == m0.current_frame implies #[trigger] m2.stamp_of(k)
        == m2.current_frame by {
        assert(m1.has_key(k));
        assert(m1.stamp_of(k) == m1.current_frame);
        assert(m2.stamp_of(k) == m2.current_frame);
    }
}

/// One `get_or_create` transition extends the cache state.
pub proof fn lemma_step_extends(m: CacheModel, desc: ResourceDescriptor)
    requires
        m.inv(),
    ensures
        cache_extends(m, m.step(desc).0),
{
    lemma_step(m, desc);
    let (m2, r) = m.step(desc);
    assert forall|k: u64|
        m.has_key(k) && m.stamp_of(k) == m.current_frame implies #[trigger] m2.stamp_of(k)
        == m2.current_frame by {
        if k == desc.key {
            assert(r is Ok);
            assert(m2.stamp_of(k) == m.current_frame);
        } else {
            assert(m2.stamp_of(k) == m.stamp_of(k));
        }
    }
}

/// A command that resolves against some cache states still resolves
/// against any states the pass extends them to.
#[verifier::spinoff_prover]
#[verifier::rlimit(50)]
pub proof fn lemma_command_resolves_extends(
    c: DrawCommand,
    b: RenderDataBundle,
    geo0: CacheModel,
    sh0: CacheModel,
    tex0: CacheModel,
    ub0: CacheModel,
    geo1: CacheModel,
    sh1: CacheModel,
    tex1: CacheModel,
    ub1: CacheModel,
    fallback: FallbackResources,
)
    requires
        command_resolves(c, b, geo0, sh0, tex0, ub0, fallback),
        cache_extends(geo0, geo1),
        cache_extends(sh0, sh1),
        cache_extends(tex0, tex1),
        cache_extends(ub0, ub1),
    ensures
        command_resolves(c, b, geo1, sh1, tex1, ub1, fallback),
{
    assert(geo1.stamp_of(b.geometry.key) == geo1.current_frame);
    assert(sh1.stamp_of(b.material.shader.key) == sh1.current_frame);
    assert(ub1.stamp_of(b.block_size() as u64) == ub1.current_frame);
    assert forall|j: int|
        0 <= j < b.material.texture_slots@.len() implies match #[trigger] b.material.texture_slots@[j] {
        Some(d) => tex1.has_key(d.key) && c.textures@[j] == tex1.handle_of(d.key)
            && tex1.stamp_of(d.key) == tex1.current_frame,
        None => c.textures@[j] == fallback.white_texture,
    } by {
        match b.material.texture_slots@[j] {
            Some(d) => {
                assert(tex0.has_key(d.key) && c.textures@[j] == tex0.handle_of(d.key)
                    && tex0.stamp_of(d.key) == tex0.current_frame);
                assert(tex1.has_key(d.key));
                assert(tex1.handle_of(d.key) == tex0.handle_of(d.key));
                assert(tex1.stamp_of(d.key) == tex1.current_frame);
            },
            None => {},
        }
    }
}

/// A bundle's uniform block size, as a weight over selected bundles.
pub open spec fn bundle_block_fn() -> spec_fn(RenderDataBundle) -> int {
    |b: RenderDataBundle| b.block_size()
}

/// A weight summed over a storage, zero outside the selection, equals the
/// plain weight summed over the selected subsequence.
pub proof fn lemma_weight_sum_selected(
    s: Seq<RenderDataBundle>,
    path: RenderPath,
    p: BundlePredicate,
    w1: spec_fn(RenderDataBundle) -> int,
    w2: spec_fn(RenderDataBundle) -> int,
)
    requires
        forall|b: RenderDataBundle| bundle_selected(b, path, p) ==> #[trigger] w1(b) == w2(b),
        forall|b: RenderDataBundle| !bundle_selected(b, path, p) ==> #[trigger] w1(b) == 0,
    ensures
        weight_sum(s, w1) == weight_sum(selected_bundles(s, path, p), w2),
    decreases s.len(),
{
    if s.len() > 0 {
        lemma_weight_sum_selected(s.drop_last(), path, p, w1, w2);
        if bundle_selected(s.last(), path, p) {
            let seld = selected_bundles(s.drop_last(), path, p);
            assert(seld.push(s.last()).drop_last() =~= seld);
        }
    }
}

/// The uniform regions of the commands from `base` on lie back to back:
/// command `i` starts where the blocks of the selected bundles before it
/// end.  With the regions' sizes this makes them pairwise disjoint, and
/// puts the first region of a freshly reset frame at offset zero.
pub open spec fn pass_offsets_ok(
    commands: Seq<DrawCommand>,
    base: int,
    sel: Seq<RenderDataBundle>,
    start_cursor: u64,
) -> bool {
    forall|i: int|
        #![trigger sel.take(i)]
        0 <= i < sel.len() ==> commands[base + i].uniform_region.offset == start_cursor
            + weight_sum(sel.take(i), bundle_block_fn())
}

/// Appending one command whose region starts at the end of the previous
/// blocks keeps the back-to-back layout of the pass's uniform regions.
pub proof fn lemma_offsets_push(
    commands_pre: Seq<DrawCommand>,
    cmd: DrawCommand,
    base: int,
    sel_pre: Seq<RenderDataBundle>,
    b: RenderDataBundle,
    start_cursor: u64,
)
    requires
        pass_offsets_ok(commands_pre, base, sel_pre, start_cursor),
        commands_pre.len() == base + sel_pre.len(),
        base >= 0,
        cmd.uniform_region.offset == start_cursor + weight_sum(sel_pre, bundle_block_fn()),
    ensures
        pass_offsets_ok(commands_pre.push(cmd), base, sel_pre.push(b), start_cursor),
{
    let sel_next = sel_pre.push(b);
    let commands = commands_pre.push(cmd);
    assert forall|i: int|
        #![trigger sel_next.take(i)]
        0 <= i < sel_next.len() implies commands[base + i].uniform_region.offset == start_cursor
        + weight_sum(sel_next.take(i), bundle_block_fn()) by {
        if i < sel_pre.len() {
            assert(sel_pre[i] == sel_next[i]);
            assert(sel_next.take(i) =~= sel_pre.take(i));
            assert(commands[base + i] == commands_pre[base + i]);
        } else {
            assert(sel_next.take(i) =~= sel_pre);
            assert(commands[base + i] == cmd);
        }
    }
}

/// Eviction protection at the pass level: every cache entry a rendered
/// command resolved against carries the current frame's last-used stamp,
/// so an eviction sweep run directly after the pass, with any threshold,
/// keeps every one of those entries with its handle.
pub proof fn lemma_pass_resources_survive_sweep(
    c: DrawCommand,
    b: RenderDataBundle,
    geo: CacheModel,
    sh: CacheModel,
    tex: CacheModel,
    ub: CacheModel,
    fallback: FallbackResources,
    max_age: u64,
)
    requires
        geo.inv(),
        sh.inv(),
        tex.inv(),
        ub.inv(),
        command_resolves(c, b, geo, sh, tex, ub, fallback),
    ensures
        geo.sweep_model(max_age).has_key(b.geometry.key),
        geo.sweep_model(max_age).handle_of(b.geometry.key) == geo.handle_of(b.geometry.key),
        sh.sweep_model(max_age).has_key(b.material.shader.key),
        sh.sweep_model(max_age).handle_of(b.material.shader.key) == sh.handle_of(
            b.material.shader.key,
        ),
        ub.sweep_model(max_age).has_key(b.block_size() as u64),
        ub.sweep_model(max_age).handle_of(b.block_size() as u64) == ub.handle_of(
            b.block_size() as u64,
        ),
        forall|j: int|
            0 <= j < b.material.texture_slots@.len() ==> (#[trigger] b.material.texture_slots@[j]
                matches Some(d) ==> tex.sweep_model(max_age).has_key(d.key)
                && tex.sweep_model(max_age).handle_of(d.key) == tex.handle_of(d.key)),
{
    lemma_sweep_protects_current(geo, max_age, b.geometry.key);
    lemma_sweep_protects_current(sh, max_age, b.material.shader.key);
    lemma_sweep_protects_current(ub, max_age, b.block_size() as u64);
    assert forall|j: int|
        0 <= j < b.material.texture_slots@.len() implies (#[trigger] b.material.texture_slots@[j]
        matches Some(d) ==> tex.sweep_model(max_age).has_key(d.key) && tex.sweep_model(
        max_age,
    ).handle_of(d.key) == tex.handle_of(d.key)) by {
        match b.material.texture_slots@[j] {
            Some(d) => {
                assert(tex.has_key(d.key) && tex.stamp_of(d.key) == tex.current_frame);
                lemma_sweep_protects_current(tex, max_age, d.key);
            },
            None => {},
        }
    }
}

/// Every key a pass adds to the geometry, shader or texture cache stems
/// from a realizable descriptor of a selected bundle: an unrealizable
/// resource is never inserted, so a selected bundle with an unrealizable,
/// uncached resource forces the pass to fail.
pub open spec fn pass_inserts_realizable(
    s: Seq<RenderDataBundle>,
    path: RenderPath,
    p: BundlePredicate,
    geo0: CacheModel,
    sh0: CacheModel,
    tex0: CacheModel,
    geo1: CacheModel,
    sh1: CacheModel,
    tex1: CacheModel,
) -> bool {
    &&& forall|k: u64|
        #[trigger] geo1.has_key(k) && !geo0.has_key(k) ==> (exists|i: int|
            0 <= i < s.len() && bundle_selected(#[trigger] s[i], path, p) && s[i].geometry.key
                == k && s[i].geometry.realizable)
    &&& forall|k: u64|
        #[trigger] sh1.has_key(k) && !sh0.has_key(k) ==> (exists|i: int|
            0 <= i < s.len() && bundle_selected(#[trigger] s[i], path, p)
                && s[i].material.shader.key == k && s[i].material.shader.realizable)
    &&& forall|k: u64|
        #[trigger] tex1.has_key(k) && !tex0.has_key(k) ==> (exists|i: int, j: int|
            #![trigger s[i].material.texture_slots@[j]]
            0 <= i < s.len() && bundle_selected(s[i], path, p) && 0 <= j
                < s[i].material.texture_slots@.len() && s[i].material.texture_slots@[j] == Some(
                ResourceDescriptor { key: k, realizable: true },
            ))
}

/// When a pass cannot fail: every selected bundle is fully realizable,
/// the uniform memory left covers the selected bundles' blocks, the
/// command queue has room for every selected draw, and each cache has
/// handles left for every realization the pass can at most perform.
pub open spec fn pass_admissible(
    s: Seq<RenderDataBundle>,
    path: RenderPath,
    p: BundlePredicate,
    geo: CacheModel,
    sh: CacheModel,
    tex: CacheModel,
    ub: CacheModel,
    alloc: UniformMemoryAllocator,
    fb_len: int,
    server: GraphicsServer,
) -> bool {
    &&& forall|i: int|
        0 <= i < s.len() && bundle_selected(#[trigger] s[i], path, p) ==> bundle_fully_realizable(
            s[i],
        )
    &&& alloc.cursor + total_block_bytes(s, path, p) <= alloc.capacity
    &&& fb_len + total_draw_calls(s, path, p) <= server.command_capacity
    &&& geo.next_handle + total_draw_calls(s, path, p) <= u64::MAX
    &&& sh.next_handle + total_draw_calls(s, path, p) <= u64::MAX
    &&& ub.next_handle + total_draw_calls(s, path, p) <= u64::MAX
    &&& tex.next_handle + total_texture_slots(s, path, p) <= u64::MAX
}

/// The ordered collection of a frame's bundles, built once per frame by
/// the collection stage and read by the passes of that frame.
#[derive(Debug)]
pub struct RenderDataBundleStorage {
    pub bundles: Vec<RenderDataBundle>,
}

impl RenderDataBundleStorage {
    /// Every bundle respects the pass limits.
    pub open spec fn wf(self) -> bool {
        forall|i: int| 0 <= i < self.bundles@.len() ==> (#[trigger] self.bundles@[i]).wf()
    }

    /// An empty storage.
    pub fn new() -> (r: RenderDataBundleStorage)
        ensures
            r.bundles@.len() == 0,
            r.wf(),
    {
        RenderDataBundleStorage { bundles: Vec::new() }
    }

    /// Appends one bundle collected from the scene.
    pub fn push(&mut self, bundle: RenderDataBundle)
        requires
            bundle.wf(),
        ensures
            final(self).bundles@ == old(self).bundles@.push(bundle),
            old(self).wf() ==> final(self).wf(),
    {
        self.bundles.push(bundle);
    }

    /// Renders, in storage order, exactly the bundles whose render path
    /// matches the pass and that the caller's predicate selects: resolves
    /// each one's geometry, shader and textures through the caches,
    /// obtains a uniform buffer and a fresh uniform region sized for the
    /// bundle, submits one draw per bundle through the graphics server,
    /// and accumulates the pass statistics.  The first failure aborts the
    /// pass and returns the underlying error; no statistics are returned
    /// then, though work already done (cache inserts, allocator cursor,
    /// submitted draws) stands.
    #[verifier::loop_isolation(false)]
    #[verifier::spinoff_prover]
    #[verifier::rlimit(100)]
    pub fn render_to_frame_buffer(
        &self,
        server: &GraphicsServer,
        render_path: RenderPath,
        predicate: &BundlePredicate,
        context: &BundleRenderContext,
        framebuffer: &mut FrameBuffer,
        geometry_cache: &mut ResourceCache,
        shader_cache: &mut ResourceCache,
        texture_cache: &mut ResourceCache,
        uniform_buffer_cache: &mut ResourceCache,
        uniform_memory_allocator: &mut UniformMemoryAllocator,
    ) -> (r: Result<RenderPassStatistics, RenderError>)
        requires
            self.wf(),
            context.wf(),
            old(geometry_cache)@.inv(),
            old(shader_cache)@.inv(),
            old(texture_cache)@.inv(),
            old(uniform_buffer_cache)@.inv(),
            old(geometry_cache)@.kind == ResourceKind::Geometry,
            old(shader_cache)@.kind == ResourceKind::Shader,
            old(texture_cache)@.kind == ResourceKind::Texture,
            old(uniform_buffer_cache)@.kind == ResourceKind::UniformBuffer,
            old(uniform_memory_allocator).inv(),
        ensures
            cache_extends(old(geometry_cache)@, final(geometry_cache)@),
            cache_extends(old(shader_cache)@, final(shader_cache)@),
            cache_extends(old(texture_cache)@, final(texture_cache)@),
            cache_extends(old(uniform_buffer_cache)@, final(uniform_buffer_cache)@),
            final(uniform_memory_allocator).capacity == old(uniform_memory_allocator).capacity,
            final(uniform_memory_allocator).inv(),
            final(uniform_memory_allocator).cursor >= old(uniform_memory_allocator).cursor,
            final(framebuffer).commands@.len() >= old(framebuffer).commands@.len(),
            final(framebuffer).commands@.subrange(
                0,
                old(framebuffer).commands@.len() as int,
            ) == old(framebuffer).commands@,
            r matches Err(e) ==> (e == RenderError::GpuSubmission || e matches RenderError::Cache(
                CacheError::RealizationFailed(_),
            )),
            pass_inserts_realizable(
                self.bundles@,
                render_path,
                *predicate,
                old(geometry_cache)@,
                old(shader_cache)@,
                old(texture_cache)@,
                final(geometry_cache)@,
                final(shader_cache)@,
                final(texture_cache)@,
            ),
            r matches Ok(stats) ==> {
                let sel = selected_bundles(self.bundles@, render_path, *predicate);
                &&& stats.draw_calls == saturate_u64(
                    total_draw_calls(self.bundles@, render_path, *predicate),
                )
                &&& stats.triangles_rendered == saturate_u64(
                    total_triangles(self.bundles@, render_path, *predicate),
                )
                &&& final(framebuffer).commands@.len() == old(framebuffer).commands@.len()
                    + sel.len()
                &&& pass_commands_ok(
                    final(framebuffer).commands@,
                    old(framebuffer).commands@.len() as int,
                    sel,
                    final(geometry_cache)@,
                    final(shader_cache)@,
                    final(texture_cache)@,
                    final(uniform_buffer_cache)@,
                    *context,
                )
                &&& pass_offsets_ok(
                    final(framebuffer).commands@,
                    old(framebuffer).commands@.len() as int,
                    sel,
                    old(uniform_memory_allocator).cursor,
                )
                &&& final(uniform_memory_allocator).cursor == old(
                    uniform_memory_allocator,
                ).cursor + total_block_bytes(self.bundles@, render_path, *predicate)
            },
            pass_admissible(
                self.bundles@,
                render_path,
                *predicate,
                old(geometry_cache)@,
                old(shader_cache)@,
                old(texture_cache)@,
                old(uniform_buffer_cache)@,
                *old(uniform_memory_allocator),
                old(framebuffer).commands@.len() as int,
                *server,
            ) ==> r is Ok,
    {
        let ghost s = self.bundles@;
        let ghost p = *predicate;
        let ghost ctx = *context;
        let ghost g0 = old(geometry_cache)@;
        let ghost sh0 = old(shader_cache)@;
        let ghost t0 = old(texture_cache)@;
        let ghost ub0 = old(uniform_buffer_cache)@;
        let ghost a0 = *old(uniform_memory_allocator);
        let ghost fb0 = old(framebuffer).commands@;
        let ghost dw = draw_weight_fn(render_path, p);
        let ghost tw = triangle_weight_fn(render_path, p);
        let ghost bw = block_weight_fn(render_path, p);
        let ghost xw = texture_slot_weight_fn(render_path, p);
        let ghost adm = pass_admissible(
            s,
            render_path,
            p,
            g0,
            sh0,
            t0,
            ub0,
            a0,
            fb0.len() as int,
            *server,
        );
        proof {
            lemma_weights_nonneg(s, render_path, p);
        }
        let mut statistics = RenderPassStatistics::default();
        let mut idx: usize = 0;
        while idx < self.bundles.len()
            invariant
                idx <= s.len(),
                cache_extends(g0, geometry_cache@),
                cache_extends(sh0, shader_cache@),
                cache_extends(t0, texture_cache@),
                cache_extends(ub0, uniform_buffer_cache@),
                geometry_cache@.next_handle <= g0.next_handle + total_draw_calls(
                    s.take(idx as int),
                    render_path,
                    p,
                ),
                shader_cache@.next_handle <= sh0.next_handle + total_draw_calls(
                    s.take(idx as int),
                    render_path,
                    p,
                ),
                uniform_buffer_cache@.next_handle <= ub0.next_handle + total_draw_calls(
                    s.take(idx as int),
                    render_path,
                    p,
                ),
                texture_cache@.next_handle <= t0.next_handle + total_texture_slots(
                    s.take(idx as int),
                    render_path,
                    p,
                ),
                uniform_memory_allocator.capacity == a0.capacity,
                uniform_memory_allocator.inv(),
                uniform_memory_allocator.cursor == a0.cursor + total_block_bytes(
                    s.take(idx as int),
                    render_path,
                    p,
                ),
                framebuffer.commands@.len() == fb0.len() + selected_bundles(
                    s.take(idx as int),
                    render_path,
                    p,
                ).len(),
                framebuffer.commands@.subrange(0, fb0.len() as int) == fb0,
                pass_commands_ok(
                    framebuffer.commands@,
                    fb0.len() as int,
                    selected_bundles(s.take(idx as int), render_path, p),
                    geometry_cache@,
                    shader_cache@,
                    texture_cache@,
                    uniform_buffer_cache@,
                    ctx,
                ),
                pass_offsets_ok(
                    framebuffer.commands@,
                    fb0.len() as int,
                    selected_bundles(s.take(idx as int), render_path, p),
                    a0.cursor,
                ),
                pass_inserts_realizable(
                    s,
                    render_path,
                    p,
                    g0,
                    sh0,
                    t0,
                    geometry_cache@,
                    shader_cache@,
                    texture_cache@,
                ),
                statistics.draw_calls == saturate_u64(
                    total_draw_calls(s.take(idx as int), render_path, p),
                ),
                statistics.triangles_rendered == saturate_u64(
                    total_triangles(s.take(idx as int), render_path, p),
                ),
            decreases s.len() - idx,
        {
            let bundle = &self.bundles[idx];
            let ghost b = s[idx as int];
            let ghost sel_pre = selected_bundles(s.take(idx as int), render_path, p);
            proof {
                assert(b.wf());
                lemma_weight_sum_take_succ(s, dw, idx as int);
                lemma_weight_sum_take_succ(s, tw, idx as int);
                lemma_weight_sum_take_succ(s, bw, idx as int);
                lemma_weight_sum_take_succ(s, xw, idx as int);
                lemma_weight_sum_take_le(s, dw, idx as int + 1);
                lemma_weight_sum_take_le(s, tw, idx as int + 1);
                lemma_weight_sum_take_le(s, bw, idx as int + 1);
                lemma_weight_sum_take_le(s, xw, idx as int + 1);
                lemma_weight_sum_take_nonneg(s, dw, idx as int);
                lemma_weight_sum_take_nonneg(s, tw, idx as int);
                lemma_weight_sum_take_nonneg(s, bw, idx as int);
                lemma_selected_take_succ(s, render_path, p, idx as int);
                lemma_selected_len(s.take(idx as int), render_path, p);
                lemma_weight_sum_selected(
                    s.take(idx as int),
                    render_path,
                    p,
                    bw,
                    bundle_block_fn(),
                );
            }
            if bundle.render_path == render_path && predicate.accepts(bundle) {
                let ghost g_head = geometry_cache@;
                let ghost sh_head = shader_cache@;
                let ghost tex_head = texture_cache@;
                let ghost ub_head = uniform_buffer_cache@;
                let geometry_handle = match geometry_cache.get_or_create(&bundle.geometry) {
                    Ok(h) => h,
                    Err(e) => {
                        proof {
                            lemma_step(g_head, b.geometry);
                            if adm {
                                assert(bundle_fully_realizable(b));
                                assert(false);
                            }
                        }
                        return Err(RenderError::Cache(e));
                    },
                };
                proof {
                    lemma_step(g_head, b.geometry);
                    lemma_step_extends(g_head, b.geometry);
                    lemma_cache_extends_trans(g0, g_head, geometry_cache@);
                    assert forall|k: u64|
                        #[trigger] geometry_cache@.has_key(k) && !g0.has_key(k) implies (exists|i: int|
                        0 <= i < s.len() && bundle_selected(#[trigger] s[i], render_path, p)
                            && s[i].geometry.key == k && s[i].geometry.realizable) by {
                        if g_head.has_key(k) {
                        } else {
                            assert(k == b.geometry.key);
                            assert(b.geometry.realizable);
                            assert(0 <= idx < s.len() && bundle_selected(
                                s[idx as int],
                                render_path,
                                p,
                            ) && s[idx as int].geometry.key == k
                                && s[idx as int].geometry.realizable);
                        }
                    }
                }
                let shader_handle = match shader_cache.get_or_create(&bundle.material.shader) {
                    Ok(h) => h,
                    Err(e) => {
                        proof {
                            lemma_step(sh_head, b.material.shader);
                            if adm {
                                assert(bundle_fully_realizable(b));
                                assert(false);
                            }
                        }
                        return Err(RenderError::Cache(e));
                    },
                };
                proof {
                    lemma_step(sh_head, b.material.shader);
                    lemma_step_extends(sh_head, b.material.shader);
                    lemma_cache_extends_trans(sh0, sh_head, shader_cache@);
                    assert forall|k: u64|
                        #[trigger] shader_cache@.has_key(k) && !sh0.has_key(k) implies (exists|i: int|
                        0 <= i < s.len() && bundle_selected(#[trigger] s[i], render_path, p)
                            && s[i].material.shader.key == k
                            && s[i].material.shader.realizable) by {
                        if sh_head.has_key(k) {
                        } else {
                            assert(k == b.material.shader.key);
                            assert(b.material.shader.realizable);
                            assert(0 <= idx < s.len() && bundle_selected(
                                s[idx as int],
                                render_path,
                                p,
                            ) && s[idx as int].material.shader.key == k
                                && s[idx as int].material.shader.realizable);
                        }
                    }
                }
                let slot_count = bundle.material.texture_slots.len();
                let mut textures: Vec<u64> = Vec::new();
                let mut t: usize = 0;
                while t < slot_count
                    invariant
                        t <= slot_count,
                        cache_extends(tex_head, texture_cache@),
                        cache_extends(t0, texture_cache@),
                        texture_cache@.next_handle <= t0.next_handle + total_texture_slots(
                            s.take(idx as int),
                            render_path,
                            p,
                        ) + t,
                        textures@.len() == t,
                        forall|j: int|
                            0 <= j < t ==> match #[trigger] b.material.texture_slots@[j] {
                                Some(d) => texture_cache@.has_key(d.key) && textures@[j]
                                    == texture_cache@.handle_of(d.key) && texture_cache@.stamp_of(
                                    d.key,
                                ) == texture_cache@.current_frame,
                                None => textures@[j] == ctx.fallback_resources.white_texture,
                            },
                        pass_inserts_realizable(
                            s,
                            render_path,
                            p,
                            g0,
                            sh0,
                            t0,
                            geometry_cache@,
                            shader_cache@,
                            texture_cache@,
                        ),
                    decreases slot_count - t,
                {
                    let ghost tex_before = texture_cache@;
                    match &bundle.material.texture_slots[t] {
                        Some(desc) => {
                            match texture_cache.get_or_create(desc) {
                                Ok(h) => {
                                    proof {
                                        lemma_step(tex_before, *desc);
                                        lemma_step_extends(tex_before, *desc);
                                        assert(cache_extends(tex_before, texture_cache@));
                                        lemma_cache_extends_trans(
                                            tex_head,
                                            tex_before,
                                            texture_cache@,
                                        );
                                        lemma_cache_extends_trans(
                                            t0,
                                            tex_before,
                                            texture_cache@,
                                        );
                                    }
                                    textures.push(h);
                                    proof {
                                        assert forall|k: u64|
                                            #[trigger] texture_cache@.has_key(k) && !t0.has_key(
                                            k,
                                        ) implies (exists|i: int, j: int|
                                            #![trigger s[i].material.texture_slots@[j]]
                                            0 <= i < s.len() && bundle_selected(
                                                s[i],
                                                render_path,
                                                p,
                                            ) && 0 <= j < s[i].material.texture_slots@.len()
                                                && s[i].material.texture_slots@[j] == Some(
                                                ResourceDescriptor { key: k, realizable: true },
                                            )) by {
                                            if tex_before.has_key(k) {
                                            } else {
                                                assert(k == desc.key);
                                                assert(desc.realizable);
                                                assert(0 <= idx < s.len() && bundle_selected(
                                                    s[idx as int],
                                                    render_path,
                                                    p,
                                                ) && 0 <= t
                                                    < s[idx as int].material.texture_slots@.len()
                                                    && s[idx as int].material.texture_slots@[t as int]
                                                    == Some(
                                                    ResourceDescriptor {
                                                        key: k,
                                                        realizable: true,
                                                    },
                                                ));
                                            }
                                        }
                                        assert forall|j: int|
                                            0 <= j < t + 1 implies match #[trigger] b.material.texture_slots@[j] {
                                            Some(d) => texture_cache@.has_key(d.key)
                                                && textures@[j] == texture_cache@.handle_of(
                                                d.key,
                                            ) && texture_cache@.stamp_of(d.key)
                                                == texture_cache@.current_frame,
                                            None => textures@[j]
                                                == ctx.fallback_resources.white_texture,
                                        } by {
                                            if j < t {
                                                match b.material.texture_slots@[j] {
                                                    Some(d) => {
                                                        assert(tex_before.has_key(d.key));
                                                        assert(texture_cache@.has_key(d.key));
                                                        assert(texture_cache@.handle_of(d.key)
                                                            == tex_before.handle_of(d.key));
                                                        assert(texture_cache@.stamp_of(d.key)
                                                            == texture_cache@.current_frame);
                                                    },
                                                    None => {},
                                                }
                                            }
                                        }
                                    }
                                },
                                Err(e) => {
                                    proof {
                                        lemma_step(tex_before, *desc);
                                        if adm {
                                            assert(bundle_fully_realizable(b));
                                            assert(b.material.texture_slots@[t as int]
                                                matches Some(d) && d.realizable);
                                            assert(false);
                                        }
                                    }
                                    return Err(RenderError::Cache(e));
                                },
                            }
                        },
                        None => {
                            textures.push(context.fallback_resources.white_texture);
                        },
                    }
                    t = t + 1;
                }
                let instance_count = bundle.instances.len() as u64;
                let block_size = UNIFORM_BLOCK_BASE_SIZE + PER_INSTANCE_UNIFORM_SIZE
                    * instance_count;
                proof {
                    assert(block_size as int == b.block_size());
                }
                let uniform_buffer_handle = match uniform_buffer_cache.get_or_create(
                    &ResourceDescriptor { key: block_size, realizable: true },
                ) {
                    Ok(h) => h,
                    Err(e) => {
                        proof {
                            lemma_step(
                                ub_head,
                                ResourceDescriptor { key: block_size, realizable: true },
                            );
                            if adm {
                                assert(false);
                            }
                        }
                        return Err(RenderError::Cache(e));
                    },
                };
                proof {
                    lemma_step(
                        ub_head,
                        ResourceDescriptor { key: block_size, realizable: true },
                    );
                    lemma_step_extends(
                        ub_head,
                        ResourceDescriptor { key: block_size, realizable: true },
                    );
                    lemma_cache_extends_trans(ub0, ub_head, uniform_buffer_cache@);
                }
                let region = match uniform_memory_allocator.allocate(block_size) {
                    Ok(rg) => rg,
                    Err(e) => {
                        proof {
                            if adm {
                                assert(false);
                            }
                        }
                        return Err(RenderError::Cache(e));
                    },
                };
                let command = DrawCommand {
                    render_pass_name: context.render_pass_name.clone(),
                    viewport: context.viewport,
                    geometry: geometry_handle,
                    shader: shader_handle,
                    textures,
                    uniform_buffer: uniform_buffer_handle,
                    uniform_region: region,
                    instance_count,
                    uniform_block: UniformBlock {
                        view_projection: context.view_projection.duplicate(),
                        camera_position: context.camera_position,
                        camera_up: context.camera_up,
                        camera_side: context.camera_side,
                        z_near: context.z_near,
                        z_far: context.z_far,
                        use_parallax_mapping: context.use_parallax_mapping,
                        ambient_light: context.ambient_light,
                        scene_depth_texture: context.scene_depth_texture,
                    },
                };
                let ghost cmd = command;
                let ghost commands_pre = framebuffer.commands@;
                match server.submit_draw(framebuffer, command) {
                    Ok(()) => {},
                    Err(e) => {
                        proof {
                            if adm {
                                assert(false);
                            }
                        }
                        return Err(e);
                    },
                }
                let tris = match bundle.triangle_count.checked_mul(instance_count) {
                    Some(v) => v,
                    None => u64::MAX,
                };
                statistics.draw_calls = statistics.draw_calls.saturating_add(1);
                statistics.triangles_rendered = statistics.triangles_rendered.saturating_add(
                    tris,
                );
                proof {
                    assert(framebuffer.commands@.subrange(0, fb0.len() as int) =~= fb0);
                    assert(command_resolves(
                        cmd,
                        b,
                        geometry_cache@,
                        shader_cache@,
                        texture_cache@,
                        uniform_buffer_cache@,
                        ctx.fallback_resources,
                    ));
                    assert(command_in_context(cmd, ctx));
                    let sel_next = selected_bundles(s.take(idx as int + 1), render_path, p);
                    assert(sel_next == sel_pre.push(b));
                    assert forall|i: int|
                        #![trigger sel_next[i]]
                        0 <= i < sel_next.len() implies command_resolves(
                        framebuffer.commands@[fb0.len() + i],
                        sel_next[i],
                        geometry_cache@,
                        shader_cache@,
                        texture_cache@,
                        uniform_buffer_cache@,
                        ctx.fallback_resources,
                    ) && command_in_context(framebuffer.commands@[fb0.len() + i], ctx) by {
                        if i < sel_pre.len() {
                            assert(sel_next[i] == sel_pre[i]);
                            assert(framebuffer.commands@[fb0.len() + i] == commands_pre[fb0.len()
                                + i]);
                            lemma_command_resolves_extends(
                                commands_pre[fb0.len() + i],
                                sel_pre[i],
                                g_head,
                                sh_head,
                                tex_head,
                                ub_head,
                                geometry_cache@,
                                shader_cache@,
                                texture_cache@,
                                uniform_buffer_cache@,
                                ctx.fallback_resources,
                            );
                        } else {
                            assert(sel_next[i] == b);
                            assert(framebuffer.commands@[fb0.len() + i] == cmd);
                        }
                    }
                    assert(total_block_bytes(s.take(idx as int), render_path, p)
                        == weight_sum(sel_pre, bundle_block_fn()));
                    assert(cmd.uniform_region.offset == a0.cursor + weight_sum(
                        sel_pre,
                        bundle_block_fn(),
                    ));
                    assert(framebuffer.commands@ == commands_pre.push(cmd));
                    lemma_offsets_push(
                        commands_pre,
                        cmd,
                        fb0.len() as int,
                        sel_pre,
                        b,
                        a0.cursor,
                    );
                    assert(pass_offsets_ok(
                        framebuffer.commands@,
                        fb0.len() as int,
                        sel_next,
                        a0.cursor,
                    ));
                }
            } else {
                proof {
                    assert(selected_bundles(s.take(idx as int + 1), render_path, p)
                        == sel_pre);
                    assert(pass_offsets_ok(
                        framebuffer.commands@,
                        fb0.len() as int,
                        selected_bundles(s.take(idx as int + 1), render_path, p),
                        a0.cursor,
                    ));
                }
            }
            idx = idx + 1;
        }
        proof {
            assert(s.take(s.len() as int) =~= s);
            lemma_weight_sum_take_nonneg(s, bw, s.len() as int);
        }
        Ok(statistics)
    }
}

} // verus!
