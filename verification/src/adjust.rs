//! Contrast-driven lightness adjustment.
//!
//! A color is forced to meet a minimum contrast ratio against a reference
//! by changing its lightness only. The search is an exhaustive sweep over
//! 41 evenly spaced lightness samples (0, 2.5, ..., 100 in perceptual
//! units): among the samples that clear the cutoff, the one closest to the
//! original lightness wins; if none clears it, the sample of maximum
//! contrast wins. The contrast value of each sample against the reference
//! is evaluated by the caller and handed in alongside the sample, in
//! milli-units of the luminance-ratio scale (1 000 to 21 000).

use vstd::prelude::*;
use crate::color::LchColor;

verus! {

/// Number of lightness samples of the sweep.
pub const SWEEP_LEN: usize = 41;

/// Lightness step between two samples, in milli-units.
pub const SWEEP_STEP: i64 = 2_500;

/// One lightness sample of the sweep: the sampled color and its contrast
/// against the reference, in milli-units.
#[derive(Clone, Copy, Debug, PartialEq, Eq, Structural)]
pub struct ContrastSample {
    /// The original color at the sampled lightness, brought back into range.
    pub color: LchColor,
    /// Contrast of `color` against the reference, in milli-units.
    pub contrast: i64,
}

/// The `i`-th sampled color: the original with its lightness replaced by
/// the `i`-th sweep step, brought back into range.
pub open spec fn sample_color(original: LchColor, i: int) -> LchColor {
    (LchColor { l: (SWEEP_STEP * i) as i64, chroma: original.chroma, hue: original.hue }).clamped()
}

/// The table is exactly the sweep of `original`: 41 entries whose colors
/// are the sampled lightnesses in order. What each entry's contrast is
/// stays open; it is the caller's measurement.
pub open spec fn is_sweep_of(table: Seq<ContrastSample>, original: LchColor) -> bool {
    &&& table.len() == SWEEP_LEN
    &&& forall|i: int| 0 <= i < table.len() ==> (#[trigger] table[i]).color == sample_color(
        original,
        i,
    )
}

/// Build the 41 sampled colors of the sweep, in order.
pub fn lightness_sweep(original: &LchColor) -> (r: Vec<LchColor>)
    requires
        original.wf(),
    ensures
        r@.len() == SWEEP_LEN,
        forall|i: int| 0 <= i < r@.len() ==> #[trigger] r@[i] == sample_color(*original, i),
        forall|i: int| 0 <= i < r@.len() ==> (#[trigger] r@[i]).wf(),
{
    let mut out: Vec<LchColor> = Vec::new();
    let mut i: usize = 0;
    while i < SWEEP_LEN
        invariant
            0 <= i <= SWEEP_LEN,
            original.wf(),
            out@.len() == i,
            forall|j: int| 0 <= j < i ==> #[trigger] out@[j] == sample_color(*original, j),
            forall|j: int| 0 <= j < i ==> (#[trigger] out@[j]).wf(),
        decreases SWEEP_LEN - i,
    {
        let l: i64 = (i as i64) * SWEEP_STEP;
        let c = (LchColor { l, chroma: original.chroma, hue: original.hue }).clamp();
        proof {
            (LchColor { l: l as i64, chroma: original.chroma, hue: original.hue }).lemma_clamped_wf();
        }
        out.push(c);
        i += 1;
    }
    out
}

/// Absolute value over the mathematical integers.
pub open spec fn abs_int(x: int) -> int {
    if x < 0 {
        -x
    } else {
        x
    }
}

/// Lightness displacement of a sample from the original lightness.
pub open spec fn l_dist(c: LchColor, l0: int) -> int {
    abs_int(c.l - l0)
}

/// Index of the sample closest in lightness to `l0` among the first `n`
/// samples whose contrast clears the cutoff, earliest on ties; -1 when no
/// sample of the prefix clears it.
pub open spec fn best_meeting_upto(
    table: Seq<ContrastSample>,
    cutoff: int,
    l0: int,
    n: int,
) -> int
    decreases n,
{
    if n <= 0 {
        -1
    } else {
        let prev = best_meeting_upto(table, cutoff, l0, n - 1);
        if table[n - 1].contrast <= cutoff {
            prev
        } else if prev == -1 {
            n - 1
        } else if l_dist(table[n - 1].color, l0) < l_dist(table[prev].color, l0) {
            n - 1
        } else {
            prev
        }
    }
}

/// Index of the maximum-contrast sample among the first `n`, latest on
/// ties (`n` must be at least 1).
pub open spec fn best_fallback_upto(table: Seq<ContrastSample>, n: int) -> int
    decreases n,
{
    if n <= 1 {
        0
    } else {
        let prev = best_fallback_upto(table, n - 1);
        if table[n - 1].contrast >= table[prev].contrast {
            n - 1
        } else {
            prev
        }
    }
}

/// The adjusted color: the original itself when it already clears the
/// cutoff against the reference; otherwise the sweep sample of least
/// lightness displacement among those clearing the cutoff; otherwise the
/// sweep sample of maximum contrast.
pub open spec fn adjusted_spec(
    original: LchColor,
    original_contrast: int,
    cutoff: int,
    table: Seq<ContrastSample>,
) -> LchColor {
    if original_contrast >= cutoff {
        original
    } else if best_meeting_upto(table, cutoff, original.l as int, table.len() as int) != -1 {
        table[best_meeting_upto(table, cutoff, original.l as int, table.len() as int)].color
    } else {
        table[best_fallback_upto(table, table.len() as int)].color
    }
}

/// What `best_meeting_upto` selects: a clearing sample of least lightness
/// displacement within the prefix, and -1 exactly when the prefix holds no
/// clearing sample.
pub proof fn lemma_best_meeting_props(table: Seq<ContrastSample>, cutoff: int, l0: int, n: int)
    requires
        0 <= n <= table.len(),
    ensures
        best_meeting_upto(table, cutoff, l0, n) == -1 <==> (forall|j: int|
            0 <= j < n ==> (#[trigger] table[j]).contrast <= cutoff),
        best_meeting_upto(table, cutoff, l0, n) != -1 ==> {
            let idx = best_meeting_upto(table, cutoff, l0, n);
            &&& 0 <= idx < n
            &&& table[idx].contrast > cutoff
            &&& forall|j: int|
                0 <= j < n && (#[trigger] table[j]).contrast > cutoff ==> l_dist(table[idx].color, l0)
                    <= l_dist(table[j].color, l0)
        },
    decreases n,
{
    if n > 0 {
        lemma_best_meeting_props(table, cutoff, l0, n - 1);
    }
}

/// What `best_fallback_upto` selects: a sample of maximum contrast within
/// the prefix.
pub proof fn lemma_best_fallback_props(table: Seq<ContrastSample>, n: int)
    requires
        1 <= n <= table.len(),
    ensures
        0 <= best_fallback_upto(table, n) < n,
        forall|j: int|
            0 <= j < n ==> (#[trigger] table[j]).contrast
                <= table[best_fallback_upto(table, n)].contrast,
    decreases n,
{
    if n > 1 {
        lemma_best_fallback_props(table, n - 1);
    }
}

/// Force a color to clear a contrast cutoff against a reference by moving
/// its lightness only. `original_contrast` is the measured contrast of the
/// original against the reference and `table` the measured sweep; both in
/// milli-units.
pub fn adjust_lightness_for_contrast(
    original: LchColor,
    original_contrast: i64,
    cutoff: i64,
    table: &Vec<ContrastSample>,
) -> (r: LchColor)
    requires
        original.wf(),
        is_sweep_of(table@, original),
    ensures
        r == adjusted_spec(original, original_contrast as int, cutoff as int, table@),
{
    if original_contrast >= cutoff {
        return original;
    }
    let ghost l0: int = original.l as int;
    let ghost co: int = cutoff as int;
    let mut meet: usize = SWEEP_LEN;  // sentinel: none found yet
    let mut fall: usize = 0;
    let mut i: usize = 1;
    if table[0].contrast > cutoff {
        meet = 0;
    }
    proof {
        reveal_with_fuel(best_meeting_upto, 2);
        reveal_with_fuel(best_fallback_upto, 2);
    }
    while i < SWEEP_LEN
        invariant
            1 <= i <= SWEEP_LEN,
            original.wf(),
            is_sweep_of(table@, original),
            co == cutoff as int,
            l0 == original.l as int,
            meet == SWEEP_LEN || meet < i,
            meet == SWEEP_LEN ==> best_meeting_upto(table@, co, l0, i as int) == -1,
            meet < SWEEP_LEN ==> best_meeting_upto(table@, co, l0, i as int) == meet as int,
            fall < i,
            fall as int == best_fallback_upto(table@, i as int),
        decreases SWEEP_LEN - i,
    {
        proof {
            assert(table@[i as int].color == sample_color(original, i as int));
        }
        if table[i].contrast > cutoff {
            if meet == SWEEP_LEN {
                meet = i;
            } else {
                proof {
                    assert(table@[meet as int].color == sample_color(original, meet as int));
                }
                let di: i64 = abs_diff_l(table[i].color.l, original.l);
                let dm: i64 = abs_diff_l(table[meet].color.l, original.l);
                if di < dm {
                    meet = i;
                }
            }
        }
        if table[i].contrast >= table[fall].contrast {
            fall = i;
        }
        i += 1;
    }
    if meet < SWEEP_LEN {
        table[meet].color
    } else {
        table[fall].color
    }
}

/// Absolute difference of two lightness values.
fn abs_diff_l(a: i64, b: i64) -> (d: i64)
    requires
        0 <= a <= crate::color::L_MAX,
        0 <= b <= crate::color::L_MAX,
    ensures
        d == abs_int(a - b),
{
    if a >= b {
        a - b
    } else {
        b - a
    }
}

/// The adjustment only moves lightness: hue and chroma stay the
/// original's, and the result is well-formed.
pub proof fn lemma_adjusted_wf(
    original: LchColor,
    original_contrast: int,
    cutoff: int,
    table: Seq<ContrastSample>,
)
    requires
        original.wf(),
        is_sweep_of(table, original),
    ensures
        adjusted_spec(original, original_contrast, cutoff, table).wf(),
        adjusted_spec(original, original_contrast, cutoff, table).hue == original.hue,
        adjusted_spec(original, original_contrast, cutoff, table).chroma == original.chroma,
{
    if original_contrast < cutoff {
        lemma_best_meeting_props(table, cutoff, original.l as int, table.len() as int);
        lemma_best_fallback_props(table, table.len() as int);
    }
}

/// LAW (identity): a color that already clears the cutoff against the
/// reference is returned unchanged, exactly.
pub proof fn lemma_adjust_identity(
    original: LchColor,
    original_contrast: int,
    cutoff: int,
    table: Seq<ContrastSample>,
)
    requires
        original_contrast >= cutoff,
    ensures
        adjusted_spec(original, original_contrast, cutoff, table) == original,
{
}

/// LAW (satisfaction): when the original falls short but some sweep sample
/// clears the cutoff, the adjusted color is a sweep sample that clears it.
pub proof fn lemma_adjust_satisfies(
    original: LchColor,
    original_contrast: int,
    cutoff: int,
    table: Seq<ContrastSample>,
)
    requires
        is_sweep_of(table, original),
        original_contrast < cutoff,
        exists|i: int| 0 <= i < table.len() && (#[trigger] table[i]).contrast > cutoff,
    ensures
        exists|i: int|
            0 <= i < table.len() && adjusted_spec(original, original_contrast, cutoff, table)
                == (#[trigger] table[i]).color && table[i].contrast > cutoff,
{
    lemma_best_meeting_props(table, cutoff, original.l as int, table.len() as int);
    let idx = best_meeting_upto(table, cutoff, original.l as int, table.len() as int);
    assert(idx != -1);
    assert(adjusted_spec(original, original_contrast, cutoff, table) == table[idx].color);
}

/// LAW (minimum displacement): in the satisfaction case the chosen sample
/// moves the lightness no farther from the original than any clearing
/// sample does.
pub proof fn lemma_adjust_minimal_move(
    original: LchColor,
    original_contrast: int,
    cutoff: int,
    table: Seq<ContrastSample>,
    j: int,
)
    requires
        is_sweep_of(table, original),
        original_contrast < cutoff,
        0 <= j < table.len(),
        table[j].contrast > cutoff,
    ensures
        l_dist(adjusted_spec(original, original_contrast, cutoff, table), original.l as int)
            <= l_dist(table[j].color, original.l as int),
{
    lemma_best_meeting_props(table, cutoff, original.l as int, table.len() as int);
}

/// LAW (fallback): when no sweep sample clears the cutoff, the adjusted
/// color is a sweep sample of maximum achieved contrast.
pub proof fn lemma_adjust_fallback(
    original: LchColor,
    original_contrast: int,
    cutoff: int,
    table: Seq<ContrastSample>,
)
    requires
        is_sweep_of(table, original),
        original_contrast < cutoff,
        forall|i: int| 0 <= i < table.len() ==> (#[trigger] table[i]).contrast <= cutoff,
    ensures
        exists|i: int|
            0 <= i < table.len() && adjusted_spec(original, original_contrast, cutoff, table)
                == (#[trigger] table[i]).color && (forall|j: int|
                0 <= j < table.len() ==> (#[trigger] table[j]).contrast <= table[i].contrast),
{
    lemma_best_meeting_props(table, cutoff, original.l as int, table.len() as int);
    lemma_best_fallback_props(table, table.len() as int);
    let idx = best_fallback_upto(table, table.len() as int);
    assert(adjusted_spec(original, original_contrast, cutoff, table) == table[idx].color);
}

} // verus!
