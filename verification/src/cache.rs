//! The result cache's keys and the decision which part of the pipeline a
//! cache hit may skip. The cache itself is a plain key-value store owned
//! by the caller; entries are keyed by a normalized image identity plus
//! the light/dark mode, with a parallel key for the raw-cluster variant.

use vstd::prelude::*;

verus! {

/// Path separator byte (`/`), replaced in keys.
pub const KEY_SLASH: u8 = 47;

/// Replacement byte (`_`) and key separator.
pub const KEY_UNDERSCORE: u8 = 95;

/// The mode suffix of a key: `true` or `false` as bytes.
pub open spec fn mode_suffix(is_dark: bool) -> Seq<u8> {
    if is_dark {
        seq![116u8, 114u8, 117u8, 101u8]
    } else {
        seq![102u8, 97u8, 108u8, 115u8, 101u8]
    }
}

/// The cache key of an image and mode: the image path with every
/// separator replaced by an underscore, an underscore, and the mode.
pub open spec fn key_bytes(path: Seq<u8>, is_dark: bool) -> Seq<u8> {
    path.map_values(
        |b: u8|
            if b == KEY_SLASH {
                KEY_UNDERSCORE
            } else {
                b
            },
    ) + seq![KEY_UNDERSCORE] + mode_suffix(is_dark)
}

/// Build the cache key of an image path and mode.
pub fn cache_key(path: &Vec<u8>, is_dark: bool) -> (r: Vec<u8>)
    ensures
        r@ == key_bytes(path@, is_dark),
{
    let ghost f = |b: u8|
        if b == KEY_SLASH {
            KEY_UNDERSCORE
        } else {
            b
        };
    let mut out: Vec<u8> = Vec::new();
    let mut i: usize = 0;
    while i < path.len()
        invariant
            0 <= i <= path@.len(),
            f == (|b: u8|
                if b == KEY_SLASH {
                    KEY_UNDERSCORE
                } else {
                    b
                }),
            out@ == path@.take(i as int).map_values(f),
        decreases path@.len() - i,
    {
        let b: u8 = path[i];
        if b == KEY_SLASH {
            out.push(KEY_UNDERSCORE);
        } else {
            out.push(b);
        }
        proof {
            assert(path@.take(i + 1).map_values(f) =~= path@.take(i as int).map_values(f).push(
                f(path@[i as int]),
            ));
        }
        i += 1;
    }
    proof {
        assert(path@.take(path@.len() as int) =~= path@);
    }
    out.push(KEY_UNDERSCORE);
    if is_dark {
        out.push(116);
        out.push(114);
        out.push(117);
        out.push(101);
    } else {
        out.push(102);
        out.push(97);
        out.push(108);
        out.push(115);
        out.push(101);
    }
    proof {
        assert(out@ =~= key_bytes(path@, is_dark));
    }
    out
}

/// The raw-cluster variant of a key: the key with a `_kmeans` suffix.
pub open spec fn kmeans_key_bytes(key: Seq<u8>) -> Seq<u8> {
    key + seq![95u8, 107u8, 109u8, 101u8, 97u8, 110u8, 115u8]
}

/// Build the raw-cluster cache key from the final-result key.
pub fn kmeans_key(key: &Vec<u8>) -> (r: Vec<u8>)
    ensures
        r@ == kmeans_key_bytes(key@),
{
    let mut out: Vec<u8> = Vec::new();
    let mut i: usize = 0;
    while i < key.len()
        invariant
            0 <= i <= key@.len(),
            out@ == key@.take(i as int),
        decreases key@.len() - i,
    {
        out.push(key[i]);
        proof {
            assert(key@.take(i + 1) =~= key@.take(i as int).push(key@[i as int]));
        }
        i += 1;
    }
    proof {
        assert(key@.take(key@.len() as int) =~= key@);
    }
    out.push(95);
    out.push(107);
    out.push(109);
    out.push(101);
    out.push(97);
    out.push(110);
    out.push(115);
    proof {
        assert(out@ =~= kmeans_key_bytes(key@));
    }
    out
}

/// Which part of the pipeline a derivation may skip.
#[derive(Clone, Copy, Debug, PartialEq, Eq, Structural)]
pub enum CachePlan {
    /// The final cache holds the resolved theme: apply it, run nothing.
    UseFinal,
    /// The raw-cluster cache holds a non-empty centroid list: skip
    /// sampling and clustering, re-run ranking and selection on it.
    UseRawClusters,
    /// Nothing usable is cached: run the whole pipeline.
    FullPipeline,
}

/// Decide what a derivation runs: a final-cache hit bypasses the whole
/// pipeline — in particular, the clustering engine is never invoked — and
/// a non-empty raw-cluster hit bypasses sampling and clustering.
pub fn plan_derivation(final_hit: bool, raw_nonempty: bool) -> (r: CachePlan)
    ensures
        r == CachePlan::UseFinal <==> final_hit,
        r == CachePlan::UseRawClusters <==> !final_hit && raw_nonempty,
        r == CachePlan::FullPipeline <==> !final_hit && !raw_nonempty,
{
    if final_hit {
        CachePlan::UseFinal
    } else if raw_nonempty {
        CachePlan::UseRawClusters
    } else {
        CachePlan::FullPipeline
    }
}

} // verus!
