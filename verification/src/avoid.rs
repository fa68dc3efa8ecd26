//! Avoidance rules: a resolved color must keep its distance from each
//! configured reference color, measured by hue (modulo half a turn) and by
//! a combined squared hue/chroma distance.

use vstd::prelude::*;
use crate::color::{hue_abs_diff, LchColor, HUE_HALF_TURN};

verus! {

/// Hue proximity threshold of the avoidance test, in milli-degrees.
pub const AVOID_HUE_NEAR: i64 = 20_000;

/// Threshold on the squared hue/chroma distance of the avoidance test,
/// in squared milli-units.
pub const AVOID_DISTANCE_SQ: i64 = 666_000_000;

/// Every color of the sequence is well-formed.
pub open spec fn all_wf(s: Seq<LchColor>) -> bool {
    forall|i: int| 0 <= i < s.len() ==> (#[trigger] s[i]).wf()
}

/// The hue difference used by the avoidance test: the unwrapped distance
/// of the stored hues, taken modulo half a turn.
pub open spec fn avoid_hue_diff(c: LchColor, a: LchColor) -> int {
    hue_abs_diff(c.hue as int, a.hue as int) % (HUE_HALF_TURN as int)
}

/// Whether `c` falls into the avoidance bucket around `a`: hues closer
/// than the hue threshold, and the squared hue/chroma distance under the
/// distance threshold.
pub open spec fn in_avoid_bucket(c: LchColor, a: LchColor) -> bool {
    let hd = avoid_hue_diff(c, a);
    let dc = c.chroma - a.chroma;
    hd < AVOID_HUE_NEAR && dc * dc + hd * hd < AVOID_DISTANCE_SQ
}

/// Whether `c` falls into the bucket of any color of `avoid`.
pub open spec fn avoided_by(c: LchColor, avoid: Seq<LchColor>) -> bool {
    exists|i: int| 0 <= i < avoid.len() && in_avoid_bucket(c, #[trigger] avoid[i])
}

/// Decide the avoidance test against a single reference color.
pub fn near_avoid_color(c: &LchColor, a: &LchColor) -> (r: bool)
    requires
        c.wf(),
        a.wf(),
    ensures
        r == in_avoid_bucket(*c, *a),
{
    let hd: i64 = crate::color::hue_distance(c.hue, a.hue) % HUE_HALF_TURN;
    let dc: i64 = c.chroma - a.chroma;
    assert(dc * dc <= 1_000_000_000_000 && 0 <= dc * dc && hd * hd <= 32_400_000_000
        && 0 <= hd * hd) by (nonlinear_arith)
        requires
            -1_000_000 <= dc <= 1_000_000,
            0 <= hd < 180_000,
    ;
    hd < AVOID_HUE_NEAR && dc * dc + hd * hd < AVOID_DISTANCE_SQ
}

/// Decide whether `c` is avoided by any entry of the list.
pub fn is_avoided(c: &LchColor, avoid: &Vec<LchColor>) -> (r: bool)
    requires
        c.wf(),
        all_wf(avoid@),
    ensures
        r == avoided_by(*c, avoid@),
{
    let mut i: usize = 0;
    while i < avoid.len()
        invariant
            0 <= i <= avoid.len(),
            c.wf(),
            all_wf(avoid@),
            forall|j: int| 0 <= j < i ==> !in_avoid_bucket(*c, #[trigger] avoid@[j]),
        decreases avoid.len() - i,
    {
        if near_avoid_color(c, &avoid[i]) {
            return true;
        }
        i += 1;
    }
    false
}

/// Chroma floor under which a candidate counts as unsaturated, in
/// milli-units.
pub const LOW_CHROMA_FLOOR: i64 = 10_000;

/// Whether a candidate is too unsaturated to lead the ranking.
pub open spec fn low_chroma(c: LchColor) -> bool {
    c.chroma < LOW_CHROMA_FLOOR
}

/// Decide the chroma floor test.
pub fn is_low_chroma(c: &LchColor) -> (r: bool)
    ensures
        r == low_chroma(*c),
{
    c.chroma < LOW_CHROMA_FLOOR
}

} // verus!
