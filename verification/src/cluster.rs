//! Around the clustering engine: the fixed clustering parameters, the
//! deterministic choice among repeated runs, candidate weights, and the
//! downsampling target size.
//!
//! The clustering itself is the caller's: it hands in each run's inertia
//! score as an order-preserving integer (scores are non-negative, so the
//! bit pattern of the float score orders like the score itself), the
//! assignment indices, and the centroids in the pipeline's color form.

use vstd::prelude::*;

verus! {

/// Number of clusters of one run.
pub const KMEANS_K: usize = 8;

/// Iteration cap of one run.
pub const KMEANS_MAX_ITER: usize = 40;

/// Convergence threshold of one run, in milli-units.
pub const KMEANS_CONVERGE: i64 = 10_000;

/// Base seed of the deterministic seed sequence; run `i` uses the base
/// plus `i`.
pub const KMEANS_SEED: u64 = 42;

/// How many runs are compared.
pub const KMEANS_RUNS: u64 = 2;

/// Width every image is downsampled to before sampling.
pub const SAMPLE_WIDTH: u32 = 256;

/// Pick the run with the lowest score; on ties the earliest run wins, so
/// the choice does not depend on the order the runs finished in.
pub fn best_run_index(scores: &Vec<u64>) -> (r: usize)
    requires
        scores@.len() > 0,
    ensures
        r < scores@.len(),
        forall|j: int| 0 <= j < scores@.len() ==> scores@[r as int] <= #[trigger] scores@[j],
        forall|j: int| 0 <= j < r ==> scores@[r as int] < #[trigger] scores@[j],
{
    let mut best: usize = 0;
    let mut i: usize = 1;
    while i < scores.len()
        invariant
            1 <= i <= scores@.len(),
            best < i,
            forall|j: int| 0 <= j < i ==> scores@[best as int] <= #[trigger] scores@[j],
            forall|j: int| 0 <= j < best ==> scores@[best as int] < #[trigger] scores@[j],
        decreases scores@.len() - i,
    {
        if scores[i] < scores[best] {
            best = i;
        }
        i += 1;
    }
    best
}

/// A candidate's weight as a fraction of all samples, in milli-units.
pub fn weight_milli(count: u64, total: u64) -> (r: u64)
    requires
        0 < total,
        count <= total,
        total <= 0x10_0000_0000_0000,
    ensures
        r == (count as int) * 1000 / (total as int),
        r <= 1000,
{
    let w: u64 = count * 1000 / total;
    proof {
        assert((count as int) * 1000 / (total as int) <= 1000) by (nonlinear_arith)
            requires
                0 < total,
                count <= total,
        ;
    }
    w
}

/// The downsampling target height that keeps the aspect ratio for the
/// target width.
pub fn target_height(src_w: u32, src_h: u32, dst_w: u32) -> (r: u32)
    requires
        0 < src_w,
        dst_w <= src_w,
    ensures
        r == (dst_w as int) * (src_h as int) / (src_w as int),
        r <= src_h,
{
    proof {
        assert((dst_w as int) * (src_h as int) < 0x1_0000_0000_0000_0000) by (nonlinear_arith)
            requires
                0 <= (dst_w as int) && (dst_w as int) < 0x1_0000_0000,
                0 <= (src_h as int) && (src_h as int) < 0x1_0000_0000,
        ;
    }
    let q: u64 = (dst_w as u64) * (src_h as u64) / (src_w as u64);
    proof {
        assert((dst_w as int) * (src_h as int) / (src_w as int) <= src_h as int)
            by (nonlinear_arith)
            requires
                0 < src_w as int,
                dst_w as int <= src_w as int,
                0 <= src_h as int,
        ;
    }
    q as u32
}

} // verus!
