//! Per-pass draw statistics, combinable across passes.
//!
//! `RenderPassStatistics` is a commutative monoid: `default` is the
//! identity and `combine` adds field-wise, saturating at the counter
//! limit so that totals are defined for every pair of inputs.

use vstd::prelude::*;

verus! {

/// Clamps a mathematical total into a `u64` counter.
pub open spec fn saturate_u64(x: int) -> u64 {
    if x > u64::MAX {
        u64::MAX
    } else if x < 0 {
        0
    } else {
        x as u64
    }
}

/// Counters accumulated over one render pass.
#[derive(Clone, Copy, Debug, PartialEq, Eq, Structural)]
pub struct RenderPassStatistics {
    pub draw_calls: u64,
    pub triangles_rendered: u64,
}

impl RenderPassStatistics {
    /// The monoid identity: all counters zero.
    pub open spec fn identity() -> RenderPassStatistics {
        RenderPassStatistics { draw_calls: 0, triangles_rendered: 0 }
    }

    /// Field-wise saturating sum of two statistics records.
    pub open spec fn spec_combine(self, other: RenderPassStatistics) -> RenderPassStatistics {
        RenderPassStatistics {
            draw_calls: saturate_u64(self.draw_calls + other.draw_calls),
            triangles_rendered: saturate_u64(
                self.triangles_rendered + other.triangles_rendered,
            ),
        }
    }

    /// Combines the statistics of two passes by field-wise saturating
    /// addition.
    pub fn combine(self, other: RenderPassStatistics) -> (r: RenderPassStatistics)
        ensures
            r == self.spec_combine(other),
    {
        RenderPassStatistics {
            draw_calls: self.draw_calls.saturating_add(other.draw_calls),
            triangles_rendered: self.triangles_rendered.saturating_add(
                other.triangles_rendered,
            ),
        }
    }
}

impl Default for RenderPassStatistics {
    /// The empty statistics record, the identity of `combine`.
    fn default() -> (r: RenderPassStatistics)
        ensures
            r == RenderPassStatistics::identity(),
    {
        RenderPassStatistics { draw_calls: 0, triangles_rendered: 0 }
    }
}

/// The identity is neutral on both sides of `combine`.
pub proof fn lemma_statistics_identity(x: RenderPassStatistics)
    ensures
        RenderPassStatistics::identity().spec_combine(x) == x,
        x.spec_combine(RenderPassStatistics::identity()) == x,
{
}

/// `combine` is associative.
pub proof fn lemma_statistics_associative(
    a: RenderPassStatistics,
    b: RenderPassStatistics,
    c: RenderPassStatistics,
)
    ensures
        a.spec_combine(b).spec_combine(c) == a.spec_combine(b.spec_combine(c)),
{
}

/// `combine` is commutative.
pub proof fn lemma_statistics_commutative(a: RenderPassStatistics, b: RenderPassStatistics)
    ensures
        a.spec_combine(b) == b.spec_combine(a),
{
}

} // verus!
