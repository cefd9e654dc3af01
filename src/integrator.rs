//! The path-tracing integrator's control: follow a ray from surface to
//! surface, collecting emission, until it escapes the scene, is absorbed, or
//! reaches the depth limit.
//!
//! The radiance itself is accumulated by the sampler. Unrolled, the recursive
//! estimator `emitted + attenuation * color(scattered, depth + 1)` is the sum
//! of each surface's emission weighted by the product of the attenuations
//! before it, which is what a sampler gathers when `intersect` adds the
//! weighted emission and `scatter` folds the attenuation into the weight.
use vstd::prelude::*;
use crate::path_log::{AnswerLog, Call, PathSampler};

verus! {

/// The depth at which a path stops scattering: a surface reached at this depth
/// contributes its emission and nothing more.
pub const MAX_DEPTH: u32 = 50;

/// Why a path stopped.
#[derive(Clone, Copy, Debug, PartialEq, Eq)]
pub enum PathEnd {
    /// The ray left the scene.
    Escaped,
    /// A surface absorbed the ray.
    Absorbed,
    /// A surface was reached at the depth limit.
    DepthLimit,
}

/// The outcome of tracing one path: why it stopped, and how many times it
/// scattered before that (it met `bounces + 1` surfaces or background).
#[derive(Clone, Copy, Debug, PartialEq, Eq)]
pub struct PathSummary {
    pub end: PathEnd,
    pub bounces: u32,
}

/// The deepest level a path that starts at `depth` can scatter from.
pub open spec fn depth_bound(depth: int) -> int {
    if depth >= MAX_DEPTH {
        depth
    } else {
        MAX_DEPTH as int
    }
}

/// The calls made on a sampler, each with its answer, along a path that ends
/// as `s` says: a hit and a successful scattering for each bounce, then a
/// miss for an escaped path, a hit for one stopped at the depth limit, or a
/// hit and a failed scattering for an absorbed one.
pub open spec fn calls_of(s: PathSummary) -> Seq<(Call, bool)> {
    bounce_calls(s.bounces as nat) + match s.end {
        PathEnd::Escaped => seq![(Call::Intersect, false)],
        PathEnd::DepthLimit => seq![(Call::Intersect, true)],
        PathEnd::Absorbed => seq![(Call::Intersect, true), (Call::Scatter, false)],
    }
}

/// The calls of `n` bounces: a hit, then a successful scattering, `n` times.
pub open spec fn bounce_calls(n: nat) -> Seq<(Call, bool)> {
    Seq::new(2 * n, |i: int| if i % 2 == 0 { (Call::Intersect, true) } else { (Call::Scatter, true) })
}

/// How a path goes on once the ray at `depth` has been intersected with the
/// scene: a miss ends it as escaped, a hit at `MAX_DEPTH` or deeper ends it at
/// the depth limit, and any other hit goes on to scatter (`None`).
pub fn after_intersect(depth: u32, hit: bool) -> (r: Option<PathEnd>)
    ensures
        !hit ==> r == Some(PathEnd::Escaped),
        hit && depth >= MAX_DEPTH ==> r == Some(PathEnd::DepthLimit),
        hit && depth < MAX_DEPTH ==> r is None,
{
    if !hit {
        Some(PathEnd::Escaped)
    } else if depth >= MAX_DEPTH {
        Some(PathEnd::DepthLimit)
    } else {
        None
    }
}

/// Traces a path whose first ray is at recursion depth `depth`: at each level
/// the ray is intersected with the scene; a miss ends the path, a hit at
/// `MAX_DEPTH` or deeper ends it with the surface's emission alone, and
/// otherwise the surface scatters the ray one level deeper or absorbs it.
/// The log grows by exactly the calls of that path, in order, so the summary
/// says which calls were made on the sampler and what each returned.
pub fn trace_path<S: PathSampler>(sampler: &mut AnswerLog<S>, depth: u32) -> (r: PathSummary)
    ensures
        depth + r.bounces <= depth_bound(depth as int),
        r.end == PathEnd::DepthLimit ==> depth + r.bounces == depth_bound(depth as int),
        r.end == PathEnd::Absorbed ==> depth + r.bounces < MAX_DEPTH,
        depth >= MAX_DEPTH ==> r.bounces == 0 && r.end != PathEnd::Absorbed,
        final(sampler).calls() == old(sampler).calls() + calls_of(r),
{
    let ghost start = old(sampler).calls();
    let mut d: u32 = depth;
    let mut bounces: u32 = 0;
    loop
        invariant
            d == depth + bounces,
            d <= depth_bound(depth as int),
            depth >= MAX_DEPTH ==> bounces == 0,
            start == old(sampler).calls(),
            sampler.calls() == start + bounce_calls(bounces as nat),
        decreases depth_bound(depth as int) - d,
    {
        let hit = sampler.intersect();
        if let Some(end) = after_intersect(d, hit) {
            let r = PathSummary { end, bounces };
            assert(sampler.calls() =~= start + calls_of(r));
            return r;
        }
        let scattered = sampler.scatter();
        if !scattered {
            let r = PathSummary { end: PathEnd::Absorbed, bounces };
            assert(sampler.calls() =~= start + calls_of(r));
            return r;
        }
        d = d + 1;
        bounces = bounces + 1;
        assert(sampler.calls() =~= start + bounce_calls(bounces as nat));
    }
}

} // verus!
