//! The left-skewed shuffle used by randomized role selection: a bounded
//! leading window of a weight-ordered list is randomized in place, each
//! window position swapped with a uniformly drawn later position, so that
//! heavy entries tend to stay near the front. The result is always a
//! permutation of the input.

use vstd::prelude::*;
use vstd::seq_lib::group_to_multiset_ensures;
use rand::Rng;

verus! {

#[verifier::external_type_specification]
#[verifier::external_body]
pub struct ExStdRng(rand::rngs::StdRng);

/// Relies on rand's `Rng::random_range`: a uniform draw from `lo..hi`,
/// which panics on an empty range and otherwise returns a value in it.
#[verifier::external_body]
fn rand_index(rng: &mut rand::rngs::StdRng, lo: usize, hi: usize) -> (r: usize)
    requires
        lo < hi,
    ensures
        lo <= r < hi,
{
    rng.random_range(lo..hi)
}

/// Swapping two positions of a sequence keeps its multiset of elements.
proof fn lemma_swap_multiset<T>(s: Seq<T>, i: int, j: int)
    requires
        0 <= i < s.len(),
        0 <= j < s.len(),
    ensures
        s.update(i, s[j]).update(j, s[i]).to_multiset() == s.to_multiset(),
{
    broadcast use group_to_multiset_ensures;

    let s1 = s.update(i, s[j]);
    let s2 = s1.update(j, s[i]);
    assert(s1[j] == s[j] || i == j);
    assert(s.contains(s[i]));
    assert(s1.contains(s1[j]));
    assert(s2.to_multiset() =~= s.to_multiset());
}

/// Exchange the elements at two positions.
pub(crate) fn swap_elems<T: Copy>(v: &mut Vec<T>, i: usize, j: usize)
    requires
        i < old(v)@.len(),
        j < old(v)@.len(),
    ensures
        final(v)@ == old(v)@.update(i as int, old(v)@[j as int]).update(
            j as int,
            old(v)@[i as int],
        ),
        final(v)@.to_multiset() == old(v)@.to_multiset(),
        final(v)@.len() == old(v)@.len(),
{
    let a: T = v[i];
    let b: T = v[j];
    v.set(i, b);
    v.set(j, a);
    proof {
        lemma_swap_multiset(old(v)@, i as int, j as int);
    }
}

/// Shuffle a bounded leading window of the list: each position of the
/// window, in order, is swapped with a uniformly drawn position at or
/// after it. `max_len_swap` bounds the window; without it the whole list
/// is the window. The result holds exactly the elements of the input.
pub fn left_skewed_shuffle<T: Copy>(
    v: Vec<T>,
    max_len_swap: Option<usize>,
    rng: &mut rand::rngs::StdRng,
) -> (r: Vec<T>)
    ensures
        r@.to_multiset() == v@.to_multiset(),
        r@.len() == v@.len(),
{
    let mut out = v;
    let ghost orig: Seq<T> = out@;
    let max_i: usize = match max_len_swap {
        Some(m) => m,
        None => out.len(),
    };
    let mut i: usize = 0;
    while i < max_i
        invariant
            orig == v@,
            out@.to_multiset() == orig.to_multiset(),
            out@.len() == orig.len(),
        decreases max_i - i,
    {
        if i >= out.len() {
            return out;
        }
        let j: usize = rand_index(rng, i, out.len());
        swap_elems(&mut out, i, j);
        i += 1;
    }
    out
}

} // verus!
