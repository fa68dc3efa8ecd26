//! Candidate ranking: each cluster centroid is weighted by how many
//! samples it absorbed, the centroids are ordered by descending weight,
//! and two stable demotions move avoided and unsaturated candidates to the
//! end without dropping them.

use vstd::prelude::*;
use vstd::seq_lib::group_filter_ensures;
use crate::avoid::{all_wf, avoided_by, low_chroma};
use crate::color::LchColor;
use crate::shuffle::swap_elems;

verus! {

/// A cluster centroid together with the number of samples assigned to it.
#[derive(Clone, Copy, Debug, PartialEq, Eq, Structural)]
pub struct RankedCandidate {
    /// The centroid color.
    pub color: LchColor,
    /// How many samples the centroid absorbed.
    pub count: usize,
}

/// How often index `c` occurs in the assignment list.
pub open spec fn count_of(s: Seq<u8>, c: int) -> int
    decreases s.len(),
{
    if s.len() == 0 {
        0
    } else {
        count_of(s.drop_last(), c) + if s.last() as int == c {
            1int
        } else {
            0int
        }
    }
}

/// An index cannot occur more often than the list is long.
proof fn lemma_count_of_le_len(s: Seq<u8>, c: int)
    ensures
        0 <= count_of(s, c) <= s.len(),
    decreases s.len(),
{
    if s.len() > 0 {
        lemma_count_of_le_len(s.drop_last(), c);
    }
}

/// Count per centroid index how many samples the clustering assigned to
/// it; assignments beyond `k` are ignored.
pub fn centroid_counts(indices: &Vec<u8>, k: usize) -> (counts: Vec<usize>)
    ensures
        counts@.len() == k,
        forall|c: int| 0 <= c < k ==> counts@[c] == count_of(indices@, c),
{
    let mut counts: Vec<usize> = Vec::new();
    let mut c: usize = 0;
    while c < k
        invariant
            counts@.len() == c <= k,
            forall|x: int| 0 <= x < c ==> counts@[x] == 0,
        decreases k - c,
    {
        counts.push(0);
        c += 1;
    }
    let mut j: usize = 0;
    while j < indices.len()
        invariant
            0 <= j <= indices@.len(),
            counts@.len() == k,
            forall|x: int| 0 <= x < k ==> counts@[x] == count_of(indices@.take(j as int), x),
        decreases indices@.len() - j,
    {
        let idx: u8 = indices[j];
        proof {
            assert(indices@.take(j + 1).drop_last() =~= indices@.take(j as int));
            assert(indices@.take(j + 1).last() == indices@[j as int]);
            assert forall|x: int| 0 <= x < k implies 0 <= #[trigger] count_of(
                indices@.take(j as int),
                x,
            ) <= j by {
                lemma_count_of_le_len(indices@.take(j as int), x);
            }
        }
        if (idx as usize) < k {
            let old_count: usize = counts[idx as usize];
            counts.set(idx as usize, old_count + 1);
        }
        j += 1;
    }
    proof {
        assert(indices@.take(indices@.len() as int) =~= indices@);
    }
    counts
}

/// The weighted candidates of a centroid list: one entry per centroid in
/// list order, dropping centroids that absorbed nothing.
pub open spec fn paired_candidates(centroids: Seq<LchColor>, counts: Seq<usize>) -> Seq<
    RankedCandidate,
> {
    Seq::new(
        centroids.len(),
        |i: int| RankedCandidate { color: centroids[i], count: counts[i] },
    ).filter(|rc: RankedCandidate| rc.count > 0)
}

/// Pair each centroid with its sample count and drop empty centroids.
pub fn make_candidates(centroids: &Vec<LchColor>, counts: &Vec<usize>) -> (r: Vec<
    RankedCandidate,
>)
    requires
        counts@.len() == centroids@.len(),
    ensures
        r@ == paired_candidates(centroids@, counts@),
{
    broadcast use group_filter_ensures;

    let ghost pred = |rc: RankedCandidate| rc.count > 0;
    let mut out: Vec<RankedCandidate> = Vec::new();
    let mut i: usize = 0;
    while i < centroids.len()
        invariant
            0 <= i <= centroids@.len(),
            counts@.len() == centroids@.len(),
            pred == (|rc: RankedCandidate| rc.count > 0),
            out@ == Seq::new(
                i as nat,
                |j: int| RankedCandidate { color: centroids@[j], count: counts@[j] },
            ).filter(pred),
        decreases centroids@.len() - i,
    {
        let rc = RankedCandidate { color: centroids[i], count: counts[i] };
        proof {
            let prefix = Seq::new(
                i as nat,
                |j: int| RankedCandidate { color: centroids@[j], count: counts@[j] },
            );
            let next = Seq::new(
                (i + 1) as nat,
                |j: int| RankedCandidate { color: centroids@[j], count: counts@[j] },
            );
            assert(next =~= prefix.push(rc));
            prefix.lemma_filter_push(rc, pred);
        }
        if rc.count > 0 {
            out.push(rc);
        }
        i += 1;
    }
    proof {
        assert(Seq::new(
            centroids@.len() as nat,
            |j: int| RankedCandidate { color: centroids@[j], count: counts@[j] },
        ) =~= Seq::new(
            centroids@.len(),
            |j: int| RankedCandidate { color: centroids@[j], count: counts@[j] },
        ));
    }
    out
}

/// Every element of a filtered sequence stands somewhere in the original.
pub(crate) proof fn lemma_filter_subset<A>(s: Seq<A>, pred: spec_fn(A) -> bool, i: int)
    requires
        0 <= i < s.filter(pred).len(),
    ensures
        exists|m: int| 0 <= m < s.len() && s[m] == #[trigger] s.filter(pred)[i],
    decreases s.len(),
{
    reveal(Seq::filter);
    if s.len() > 0 {
        let f = s.filter(pred);
        let fd = s.drop_last().filter(pred);
        if pred(s.last()) && i == f.len() - 1 {
            assert(s[s.len() - 1] == f[i]);
        } else {
            lemma_filter_subset(s.drop_last(), pred, i);
            let m = choose|m: int| 0 <= m < s.drop_last().len() && s.drop_last()[m] == fd[i];
            assert(s[m] == f[i]);
        }
    }
}

/// Descending order by weight.
pub open spec fn sorted_desc(s: Seq<RankedCandidate>) -> bool {
    forall|a: int, b: int| 0 <= a < b < s.len() ==> s[a].count >= s[b].count
}

/// Sort the candidates by descending weight (insertion sort; entries of
/// equal weight may land in any order, as the weights alone decide).
pub fn sort_candidates_desc(v: Vec<RankedCandidate>) -> (r: Vec<RankedCandidate>)
    ensures
        r@.to_multiset() == v@.to_multiset(),
        r@.len() == v@.len(),
        sorted_desc(r@),
{
    let mut out = v;
    let ghost orig: Seq<RankedCandidate> = out@;
    let mut i: usize = 1;
    while i < out.len()
        invariant
            1 <= i,
            orig == v@,
            out@.to_multiset() == orig.to_multiset(),
            out@.len() == orig.len(),
            forall|a: int, b: int| 0 <= a < b < i ==> out@[a].count >= out@[b].count,
        decreases out@.len() - i,
    {
        let mut j: usize = i;
        while j > 0 && out[j - 1].count < out[j].count
            invariant
                0 <= j <= i < out@.len(),
                orig == v@,
                out@.to_multiset() == orig.to_multiset(),
                out@.len() == orig.len(),
                forall|a: int, b: int|
                    0 <= a < b <= i && b != j ==> out@[a].count >= out@[b].count,
                forall|b: int| j < b <= i ==> out@[j as int].count >= out@[b].count,
            decreases j,
        {
            swap_elems(&mut out, j - 1, j);
            j -= 1;
        }
        i += 1;
    }
    out
}

/// The colors of a candidate list, in order.
pub open spec fn colors_of(s: Seq<RankedCandidate>) -> Seq<LchColor> {
    s.map_values(|rc: RankedCandidate| rc.color)
}

/// Extract the colors of a candidate list, in order.
pub fn candidate_colors(v: &Vec<RankedCandidate>) -> (r: Vec<LchColor>)
    ensures
        r@ == colors_of(v@),
{
    let mut out: Vec<LchColor> = Vec::new();
    let mut i: usize = 0;
    while i < v.len()
        invariant
            0 <= i <= v@.len(),
            out@ == v@.take(i as int).map_values(|rc: RankedCandidate| rc.color),
        decreases v@.len() - i,
    {
        out.push(v[i].color);
        proof {
            assert(v@.take(i + 1).map_values(|rc: RankedCandidate| rc.color) =~= v@.take(
                i as int,
            ).map_values(|rc: RankedCandidate| rc.color).push(v@[i as int].color));
        }
        i += 1;
    }
    proof {
        assert(v@.take(v@.len() as int) =~= v@);
    }
    out
}

/// The avoided demotion: keep the order, non-avoided colors first,
/// avoided colors after them.
pub open spec fn demoted_avoided(s: Seq<LchColor>, avoid: Seq<LchColor>) -> Seq<LchColor> {
    s.filter(|c: LchColor| !avoided_by(c, avoid)) + s.filter(|c: LchColor| avoided_by(c, avoid))
}

/// Move every avoided color behind the others, both parts keeping their
/// order.
pub fn demote_avoided(v: Vec<LchColor>, avoid: &Vec<LchColor>) -> (r: Vec<LchColor>)
    requires
        all_wf(v@),
        all_wf(avoid@),
    ensures
        r@ == demoted_avoided(v@, avoid@),
        all_wf(r@),
{
    broadcast use group_filter_ensures;

    let ghost keep_pred = |c: LchColor| !avoided_by(c, avoid@);
    let ghost move_pred = |c: LchColor| avoided_by(c, avoid@);
    let mut kept: Vec<LchColor> = Vec::new();
    let mut moved: Vec<LchColor> = Vec::new();
    let mut i: usize = 0;
    while i < v.len()
        invariant
            0 <= i <= v@.len(),
            all_wf(v@),
            all_wf(avoid@),
            keep_pred == (|c: LchColor| !avoided_by(c, avoid@)),
            move_pred == (|c: LchColor| avoided_by(c, avoid@)),
            kept@ == v@.take(i as int).filter(keep_pred),
            moved@ == v@.take(i as int).filter(move_pred),
            all_wf(kept@),
            all_wf(moved@),
        decreases v@.len() - i,
    {
        let c: LchColor = v[i];
        proof {
            assert(v@.take(i + 1) =~= v@.take(i as int).push(c));
            v@.take(i as int).lemma_filter_push(c, keep_pred);
            v@.take(i as int).lemma_filter_push(c, move_pred);
        }
        if crate::avoid::is_avoided(&c, avoid) {
            moved.push(c);
        } else {
            kept.push(c);
        }
        i += 1;
    }
    proof {
        assert(v@.take(v@.len() as int) =~= v@);
    }
    let mut out = kept;
    let ghost kept_seq = out@;
    let ghost moved_seq = moved@;
    out.append(&mut moved);
    proof {
        assert forall|x: int| 0 <= x < out@.len() implies (#[trigger] out@[x]).wf() by {
            if x < kept_seq.len() {
                assert(out@[x] == kept_seq[x]);
            } else {
                assert(out@[x] == moved_seq[x - kept_seq.len()]);
            }
        }
    }
    out
}

/// The saturation demotion: keep the order, sufficiently saturated colors
/// first, low-chroma colors after them.
pub open spec fn demoted_low_chroma(s: Seq<LchColor>) -> Seq<LchColor> {
    s.filter(|c: LchColor| !low_chroma(c)) + s.filter(|c: LchColor| low_chroma(c))
}

/// Move every low-chroma color behind the others, both parts keeping
/// their order.
pub fn demote_low_chroma(v: Vec<LchColor>) -> (r: Vec<LchColor>)
    requires
        all_wf(v@),
    ensures
        r@ == demoted_low_chroma(v@),
        all_wf(r@),
{
    broadcast use group_filter_ensures;

    let ghost keep_pred = |c: LchColor| !low_chroma(c);
    let ghost move_pred = |c: LchColor| low_chroma(c);
    let mut kept: Vec<LchColor> = Vec::new();
    let mut moved: Vec<LchColor> = Vec::new();
    let mut i: usize = 0;
    while i < v.len()
        invariant
            0 <= i <= v@.len(),
            all_wf(v@),
            keep_pred == (|c: LchColor| !low_chroma(c)),
            move_pred == (|c: LchColor| low_chroma(c)),
            kept@ == v@.take(i as int).filter(keep_pred),
            moved@ == v@.take(i as int).filter(move_pred),
            all_wf(kept@),
            all_wf(moved@),
        decreases v@.len() - i,
    {
        let c: LchColor = v[i];
        proof {
            assert(v@.take(i + 1) =~= v@.take(i as int).push(c));
            v@.take(i as int).lemma_filter_push(c, keep_pred);
            v@.take(i as int).lemma_filter_push(c, move_pred);
        }
        if crate::avoid::is_low_chroma(&c) {
            moved.push(c);
        } else {
            kept.push(c);
        }
        i += 1;
    }
    proof {
        assert(v@.take(v@.len() as int) =~= v@);
    }
    let mut out = kept;
    let ghost kept_seq = out@;
    let ghost moved_seq = moved@;
    out.append(&mut moved);
    proof {
        assert forall|x: int| 0 <= x < out@.len() implies (#[trigger] out@[x]).wf() by {
            if x < kept_seq.len() {
                assert(out@[x] == kept_seq[x]);
            } else {
                assert(out@[x] == moved_seq[x - kept_seq.len()]);
            }
        }
    }
    out
}

/// The whole demotion pass: avoided colors behind the clean ones, then
/// low-chroma colors behind everything saturated.
pub open spec fn ranked_order(s: Seq<LchColor>, avoid: Seq<LchColor>) -> Seq<LchColor> {
    demoted_low_chroma(demoted_avoided(s, avoid))
}

/// Filtering twice is filtering by the conjunction.
proof fn lemma_filter_compose<A>(s: Seq<A>, p: spec_fn(A) -> bool, q: spec_fn(A) -> bool)
    ensures
        s.filter(p).filter(q) == s.filter(|x: A| p(x) && q(x)),
    decreases s.len(),
{
    broadcast use group_filter_ensures;

    reveal(Seq::filter);
    if s.len() > 0 {
        lemma_filter_compose(s.drop_last(), p, q);
        let sub = s.drop_last();
        if p(s.last()) {
            sub.filter(p).lemma_filter_push(s.last(), q);
        }
        assert(s.filter(p).filter(q) =~= s.filter(|x: A| p(x) && q(x)));
    }
}

/// LAW (demotion order): after both demotions the pool reads as four
/// runs, in order — saturated clean colors, saturated avoided colors,
/// low-chroma clean colors, low-chroma avoided colors — each run the
/// order-preserving restriction of the input to its class.
pub proof fn lemma_ranked_order_segments(s: Seq<LchColor>, avoid: Seq<LchColor>)
    ensures
        ranked_order(s, avoid) == s.filter(
            |c: LchColor| !avoided_by(c, avoid) && !low_chroma(c),
        ) + s.filter(|c: LchColor| avoided_by(c, avoid) && !low_chroma(c)) + s.filter(
            |c: LchColor| !avoided_by(c, avoid) && low_chroma(c),
        ) + s.filter(|c: LchColor| avoided_by(c, avoid) && low_chroma(c)),
{
    broadcast use group_filter_ensures;

    let keep = |c: LchColor| !avoided_by(c, avoid);
    let moved = |c: LchColor| avoided_by(c, avoid);
    let hi = |c: LchColor| !low_chroma(c);
    let lo = |c: LchColor| low_chroma(c);
    let a = s.filter(keep);
    let b = s.filter(moved);
    assert((a + b).filter(hi) == a.filter(hi) + b.filter(hi));
    assert((a + b).filter(lo) == a.filter(lo) + b.filter(lo));
    lemma_filter_compose(s, keep, hi);
    lemma_filter_compose(s, moved, hi);
    lemma_filter_compose(s, keep, lo);
    lemma_filter_compose(s, moved, lo);
    assert((|c: LchColor| keep(c) && hi(c)) =~= (|c: LchColor|
        !avoided_by(c, avoid) && !low_chroma(c)));
    assert((|c: LchColor| moved(c) && hi(c)) =~= (|c: LchColor|
        avoided_by(c, avoid) && !low_chroma(c)));
    assert((|c: LchColor| keep(c) && lo(c)) =~= (|c: LchColor|
        !avoided_by(c, avoid) && low_chroma(c)));
    assert((|c: LchColor| moved(c) && lo(c)) =~= (|c: LchColor|
        avoided_by(c, avoid) && low_chroma(c)));
    assert(ranked_order(s, avoid) =~= s.filter(
        |c: LchColor| !avoided_by(c, avoid) && !low_chroma(c),
    ) + s.filter(|c: LchColor| avoided_by(c, avoid) && !low_chroma(c)) + s.filter(
        |c: LchColor| !avoided_by(c, avoid) && low_chroma(c),
    ) + s.filter(|c: LchColor| avoided_by(c, avoid) && low_chroma(c)));
}

/// Whether `pool` is a correctly ranked pool of the clustering output:
/// the weighted candidates in some descending-weight order, with avoided
/// and low-chroma candidates demoted to the back.
pub open spec fn is_ranked_pool(
    centroids: Seq<LchColor>,
    counts: Seq<usize>,
    avoid: Seq<LchColor>,
    pool: Seq<LchColor>,
) -> bool {
    exists|s: Seq<RankedCandidate>|
        {
            &&& (#[trigger] s.to_multiset()) == paired_candidates(centroids, counts).to_multiset()
            &&& sorted_desc(s)
            &&& pool == ranked_order(colors_of(s), avoid)
        }
}

/// Rank the clustering output: weight the centroids by their sample
/// counts, drop empty ones, order by descending weight, and demote
/// avoided and low-chroma candidates to the back.
pub fn rank_candidates(
    centroids: &Vec<LchColor>,
    indices: &Vec<u8>,
    avoid: &Vec<LchColor>,
) -> (r: Vec<LchColor>)
    requires
        all_wf(centroids@),
        all_wf(avoid@),
    ensures
        all_wf(r@),
        is_ranked_pool(
            centroids@,
            Seq::new(centroids@.len(), |c: int| count_of(indices@, c) as usize),
            avoid@,
            r@,
        ),
{
    let counts = centroid_counts(indices, centroids.len());
    let cands = make_candidates(centroids, &counts);
    let sorted = sort_candidates_desc(cands);
    proof {
        assert forall|x: int| 0 <= x < sorted@.len() implies (#[trigger] sorted@[x]).color.wf() by {
            broadcast use vstd::seq_lib::group_to_multiset_ensures;
            broadcast use group_filter_ensures;

            let paired = paired_candidates(centroids@, counts@);
            assert(sorted@.to_multiset().contains(sorted@[x]));
            assert(paired.contains(sorted@[x]));
            let j = choose|j: int| 0 <= j < paired.len() && paired[j] == sorted@[x];
            let full = Seq::new(
                centroids@.len(),
                |i: int| RankedCandidate { color: centroids@[i], count: counts@[i] },
            );
            lemma_filter_subset(full, |rc: RankedCandidate| rc.count > 0, j);
            let m = choose|m: int| 0 <= m < full.len() && full[m] == paired[j];
            assert(full[m].color == centroids@[m]);
        }
        assert(all_wf(colors_of(sorted@))) by {
            assert(forall|x: int|
                0 <= x < sorted@.len() ==> colors_of(sorted@)[x] == (#[trigger] sorted@[x]).color);
        }
    }
    let colors = candidate_colors(&sorted);
    let demoted = demote_avoided(colors, avoid);
    let out = demote_low_chroma(demoted);
    proof {
        assert(counts@ =~= Seq::new(
            centroids@.len(),
            |c: int| count_of(indices@, c) as usize,
        )) by {
            assert forall|c: int| 0 <= c < centroids@.len() implies counts@[c] == count_of(
                indices@,
                c,
            ) as usize by {
                lemma_count_of_le_len(indices@, c);
            }
        }
        assert(is_ranked_pool(
            centroids@,
            Seq::new(centroids@.len(), |c: int| count_of(indices@, c) as usize),
            avoid@,
            out@,
        )) by {
            let s = sorted@;
            assert(s.to_multiset() == paired_candidates(
                centroids@,
                Seq::new(centroids@.len(), |c: int| count_of(indices@, c) as usize),
            ).to_multiset());
            assert(sorted_desc(s));
            assert(out@ == ranked_order(colors_of(s), avoid@));
        }
    }
    out
}

} // verus!
