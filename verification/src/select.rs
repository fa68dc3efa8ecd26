//! Role selection: a sequential state machine that assigns Background,
//! Accent, Neutral and Text from the ranked candidate pool, each step
//! possibly shrinking the pool the next one sees.

use vstd::prelude::*;
use crate::adjust::{
    abs_int, adjust_lightness_for_contrast, adjusted_spec, is_sweep_of, lemma_adjusted_wf,
    ContrastSample,
};
use crate::avoid::{all_wf, avoided_by, is_avoided};
use crate::color::{hue_abs_diff, LchColor, CHROMA_LIMIT, HUE_HALF_TURN};

verus! {

/// How far a background candidate's chroma may stray from the default
/// background's before it is pulled back, in milli-units.
pub const BG_CHROMA_BAND: i64 = 15_000;

/// Hue radius removed from the pool around the chosen background, in
/// milli-degrees.
pub const BG_HUE_EXCLUDE: i64 = 10_000;

/// A background candidate's chroma pulled toward the default
/// background's: when it strays more than the band from the default
/// chroma, it is reset to the default chroma plus the band and the color
/// is brought back into range; otherwise the candidate stays as it is.
pub open spec fn bg_adjusted(c: LchColor, default_bg: LchColor) -> LchColor {
    if abs_int(c.chroma - default_bg.chroma) > BG_CHROMA_BAND {
        (LchColor {
            l: c.l,
            chroma: (default_bg.chroma + BG_CHROMA_BAND) as i64,
            hue: c.hue,
        }).clamped()
    } else {
        c
    }
}

/// Whether a candidate may become the background: after the chroma pull
/// it must not land in an avoidance bucket.
pub open spec fn bg_acceptable(c: LchColor, default_bg: LchColor, avoid: Seq<LchColor>) -> bool {
    !avoided_by(bg_adjusted(c, default_bg), avoid)
}

/// The background made from an accepted candidate: the pulled chroma and
/// the candidate's hue under the default background's lightness.
pub open spec fn bg_final(c: LchColor, default_bg: LchColor) -> LchColor {
    LchColor {
        l: default_bg.l,
        chroma: bg_adjusted(c, default_bg).chroma,
        hue: bg_adjusted(c, default_bg).hue,
    }
}

/// Index of the first acceptable background candidate among the first `n`,
/// -1 when the prefix holds none.
pub open spec fn first_bg_upto(
    pool: Seq<LchColor>,
    default_bg: LchColor,
    avoid: Seq<LchColor>,
    n: int,
) -> int
    decreases n,
{
    if n <= 0 {
        -1
    } else {
        let prev = first_bg_upto(pool, default_bg, avoid, n - 1);
        if prev != -1 {
            prev
        } else if bg_acceptable(pool[n - 1], default_bg, avoid) {
            n - 1
        } else {
            -1
        }
    }
}

/// Index of the first acceptable background candidate of the pool, -1
/// when there is none.
pub open spec fn first_bg_index(
    pool: Seq<LchColor>,
    default_bg: LchColor,
    avoid: Seq<LchColor>,
) -> int {
    first_bg_upto(pool, default_bg, avoid, pool.len() as int)
}

/// Once a prefix holds an acceptable candidate, longer prefixes pick the
/// same one.
proof fn lemma_first_bg_stable(
    pool: Seq<LchColor>,
    default_bg: LchColor,
    avoid: Seq<LchColor>,
    n: int,
    m: int,
)
    requires
        0 <= n <= m <= pool.len(),
        first_bg_upto(pool, default_bg, avoid, n) != -1,
    ensures
        first_bg_upto(pool, default_bg, avoid, m) == first_bg_upto(pool, default_bg, avoid, n),
    decreases m - n,
{
    if m > n {
        lemma_first_bg_stable(pool, default_bg, avoid, n, m - 1);
    }
}

/// What the first-acceptable index means: -1 exactly when no candidate of
/// the prefix is acceptable, else the earliest acceptable one.
pub proof fn lemma_first_bg_props(
    pool: Seq<LchColor>,
    default_bg: LchColor,
    avoid: Seq<LchColor>,
    n: int,
)
    requires
        0 <= n <= pool.len(),
    ensures
        first_bg_upto(pool, default_bg, avoid, n) == -1 <==> (forall|j: int|
            0 <= j < n ==> !bg_acceptable(#[trigger] pool[j], default_bg, avoid)),
        first_bg_upto(pool, default_bg, avoid, n) != -1 ==> {
            let idx = first_bg_upto(pool, default_bg, avoid, n);
            &&& 0 <= idx < n
            &&& bg_acceptable(pool[idx], default_bg, avoid)
            &&& forall|j: int| 0 <= j < idx ==> !bg_acceptable(#[trigger] pool[j], default_bg, avoid)
        },
    decreases n,
{
    if n > 0 {
        lemma_first_bg_props(pool, default_bg, avoid, n - 1);
    }
}

/// Pull a background candidate's chroma toward the default background's.
fn bg_adjust(c: LchColor, default_bg: LchColor) -> (r: LchColor)
    requires
        c.wf(),
        default_bg.wf(),
        default_bg.chroma + BG_CHROMA_BAND <= CHROMA_LIMIT,
    ensures
        r == bg_adjusted(c, default_bg),
        r.wf(),
        r.hue == c.hue,
{
    let diff: i64 = if c.chroma >= default_bg.chroma {
        c.chroma - default_bg.chroma
    } else {
        default_bg.chroma - c.chroma
    };
    if diff > BG_CHROMA_BAND {
        let nc = LchColor { l: c.l, chroma: default_bg.chroma + BG_CHROMA_BAND, hue: c.hue };
        proof {
            nc.lemma_clamped_wf();
        }
        nc.clamp()
    } else {
        c
    }
}

/// Keep only the pool colors whose hue lies farther than `radius` from
/// `h`, in order.
pub fn filter_far_hue(pool: &Vec<LchColor>, h: i64, radius: i64) -> (r: Vec<LchColor>)
    requires
        all_wf(pool@),
        -HUE_HALF_TURN <= h <= HUE_HALF_TURN,
        0 <= radius,
    ensures
        r@ == pool@.filter(|c: LchColor| hue_abs_diff(c.hue as int, h as int) > radius),
        all_wf(r@),
{
    broadcast use vstd::seq_lib::group_filter_ensures;

    let ghost pred = |c: LchColor| hue_abs_diff(c.hue as int, h as int) > radius;
    let mut out: Vec<LchColor> = Vec::new();
    let mut i: usize = 0;
    while i < pool.len()
        invariant
            0 <= i <= pool@.len(),
            all_wf(pool@),
            -HUE_HALF_TURN <= h <= HUE_HALF_TURN,
            pred == (|c: LchColor| hue_abs_diff(c.hue as int, h as int) > radius),
            out@ == pool@.take(i as int).filter(pred),
            all_wf(out@),
        decreases pool@.len() - i,
    {
        let c: LchColor = pool[i];
        proof {
            assert(pool@.take(i + 1) =~= pool@.take(i as int).push(c));
            pool@.take(i as int).lemma_filter_push(c, pred);
        }
        if crate::color::hue_distance(c.hue, h) > radius {
            out.push(c);
        }
        i += 1;
    }
    proof {
        assert(pool@.take(pool@.len() as int) =~= pool@);
    }
    out
}

/// Choose the background: scan the pool in order, pull each candidate's
/// chroma toward the default background's, skip candidates that land in
/// an avoidance bucket, and take the first acceptable one at the default
/// background's lightness. Every remaining pool color within the hue
/// exclusion radius of the choice is removed. Without an acceptable
/// candidate the pool is returned unchanged and there is no background.
pub fn select_background(
    pool: Vec<LchColor>,
    default_bg: LchColor,
    avoid: &Vec<LchColor>,
) -> (r: (Option<LchColor>, Vec<LchColor>))
    requires
        all_wf(pool@),
        all_wf(avoid@),
        default_bg.wf(),
        default_bg.chroma + BG_CHROMA_BAND <= CHROMA_LIMIT,
    ensures
        ({
            let idx = first_bg_index(pool@, default_bg, avoid@);
            &&& (idx == -1 ==> r.0 is None && r.1@ == pool@)
            &&& (idx != -1 ==> r.0 == Some(bg_final(pool@[idx], default_bg)) && r.1@
                == pool@.filter(
                |c: LchColor| hue_abs_diff(c.hue as int, pool@[idx].hue as int) > BG_HUE_EXCLUDE,
            ))
            &&& all_wf(r.1@)
            &&& (r.0 matches Some(bg) ==> bg.wf() && bg.l == default_bg.l)
        }),
{
    let ghost d = default_bg;
    let ghost a = avoid@;
    let mut i: usize = 0;
    while i < pool.len()
        invariant
            0 <= i <= pool@.len(),
            all_wf(pool@),
            all_wf(avoid@),
            d == default_bg,
            a == avoid@,
            default_bg.wf(),
            default_bg.chroma + BG_CHROMA_BAND <= CHROMA_LIMIT,
            first_bg_upto(pool@, d, a, i as int) == -1,
        decreases pool@.len() - i,
    {
        let adjusted = bg_adjust(pool[i], default_bg);
        if !is_avoided(&adjusted, avoid) {
            proof {
                assert(first_bg_upto(pool@, d, a, i + 1) == i);
                lemma_first_bg_stable(pool@, d, a, i + 1, pool@.len() as int);
            }
            let bg = LchColor { l: default_bg.l, chroma: adjusted.chroma, hue: adjusted.hue };
            let new_pool = filter_far_hue(&pool, adjusted.hue, BG_HUE_EXCLUDE);
            return (Some(bg), new_pool);
        }
        i += 1;
    }
    (None, pool)
}

/// Contrast cutoff the accent is adjusted against, in milli-units of the
/// luminance-ratio scale.
pub const ACCENT_CUTOFF: i64 = 4_500;

/// Chroma above which a leading candidate is accepted outright, in
/// milli-units.
pub const ACCENT_CHROMA_HOT: i64 = 60_000;

/// Score divisor applied to candidates in an accent avoidance bucket.
pub const ACCENT_SCORE_DIV: i64 = 10;

/// Divisor of the widest hue gap that sets the exclusion radius around
/// the chosen accent.
pub const ACCENT_EXCLUDE_DIV: i64 = 6;

/// An accent candidate: a pool color together with the caller's contrast
/// measurements against the reference background — the color's own
/// contrast and the contrast of each lightness-sweep sample.
#[derive(Clone, Debug)]
pub struct AccentCandidate {
    /// The pool color.
    pub color: LchColor,
    /// Measured contrast of `color` against the reference, milli-units.
    pub original_contrast: i64,
    /// The measured lightness sweep of `color` against the reference.
    pub table: Vec<ContrastSample>,
}

impl AccentCandidate {
    /// Well-formedness: the color is in range and the table is its sweep.
    pub open spec fn wf(self) -> bool {
        &&& self.color.wf()
        &&& is_sweep_of(self.table@, self.color)
    }
}

/// Every candidate of the sequence is well-formed.
pub open spec fn all_cands_wf(s: Seq<AccentCandidate>) -> bool {
    forall|i: int| 0 <= i < s.len() ==> (#[trigger] s[i]).wf()
}

/// The pool colors of a candidate list, in order.
pub open spec fn acc_colors(cands: Seq<AccentCandidate>) -> Seq<LchColor> {
    cands.map_values(|a: AccentCandidate| a.color)
}

/// A candidate's contrast-adjusted form.
pub open spec fn adjusted_of(a: AccentCandidate) -> LchColor {
    adjusted_spec(a.color, a.original_contrast as int, ACCENT_CUTOFF as int, a.table@)
}

/// A candidate's score: the chroma of its adjusted form, cut by the
/// penalty divisor when the adjusted form lands in an accent avoidance
/// bucket.
pub open spec fn accent_score(a: AccentCandidate, avoid: Seq<LchColor>) -> int {
    if avoided_by(adjusted_of(a), avoid) {
        (adjusted_of(a).chroma as int) / (ACCENT_SCORE_DIV as int)
    } else {
        adjusted_of(a).chroma as int
    }
}

/// Whether the scan accepts the candidate at position `p` outright: not
/// avoided, hot chroma before adjustment, and within the leading third of
/// the pool.
pub open spec fn early_accept_at(
    cands: Seq<AccentCandidate>,
    order: Seq<usize>,
    avoid: Seq<LchColor>,
    p: int,
) -> bool {
    let a = cands[order[p] as int];
    &&& !avoided_by(adjusted_of(a), avoid)
    &&& a.color.chroma > ACCENT_CHROMA_HOT
    &&& p <= cands.len() as int / 3
}

/// First position among the first `n` that is accepted outright, -1 when
/// the prefix holds none.
pub open spec fn first_early_upto(
    cands: Seq<AccentCandidate>,
    order: Seq<usize>,
    avoid: Seq<LchColor>,
    n: int,
) -> int
    decreases n,
{
    if n <= 0 {
        -1
    } else {
        let prev = first_early_upto(cands, order, avoid, n - 1);
        if prev != -1 {
            prev
        } else if early_accept_at(cands, order, avoid, n - 1) {
            n - 1
        } else {
            -1
        }
    }
}

/// Position of the best-scoring candidate among the first `n`, earliest
/// on ties (`n` must be at least 1).
pub open spec fn best_score_upto(
    cands: Seq<AccentCandidate>,
    order: Seq<usize>,
    avoid: Seq<LchColor>,
    n: int,
) -> int
    decreases n,
{
    if n <= 1 {
        0
    } else {
        let prev = best_score_upto(cands, order, avoid, n - 1);
        if accent_score(cands[order[n - 1] as int], avoid) > accent_score(
            cands[order[prev] as int],
            avoid,
        ) {
            n - 1
        } else {
            prev
        }
    }
}

/// The scan position whose candidate becomes the accent: the first
/// outright-accepted position if any, else the best-scoring one.
pub open spec fn accent_choice(
    cands: Seq<AccentCandidate>,
    order: Seq<usize>,
    avoid: Seq<LchColor>,
) -> int {
    let e = first_early_upto(cands, order, avoid, cands.len() as int);
    if e != -1 {
        e
    } else {
        best_score_upto(cands, order, avoid, cands.len() as int)
    }
}

/// Once a prefix holds an outright-accepted position, longer prefixes
/// keep it.
proof fn lemma_first_early_stable(
    cands: Seq<AccentCandidate>,
    order: Seq<usize>,
    avoid: Seq<LchColor>,
    n: int,
    m: int,
)
    requires
        0 <= n <= m,
        first_early_upto(cands, order, avoid, n) != -1,
    ensures
        first_early_upto(cands, order, avoid, m) == first_early_upto(cands, order, avoid, n),
    decreases m - n,
{
    if m > n {
        lemma_first_early_stable(cands, order, avoid, n, m - 1);
    }
}

/// What the best-score position means: it is a position of the prefix
/// whose score no other position of the prefix beats.
pub proof fn lemma_best_score_props(
    cands: Seq<AccentCandidate>,
    order: Seq<usize>,
    avoid: Seq<LchColor>,
    n: int,
)
    requires
        1 <= n,
    ensures
        0 <= best_score_upto(cands, order, avoid, n) < n,
        forall|p: int|
            0 <= p < n ==> accent_score(#[trigger] cands[order[p] as int], avoid) <= accent_score(
                cands[order[best_score_upto(cands, order, avoid, n)] as int],
                avoid,
            ),
    decreases n,
{
    if n > 1 {
        lemma_best_score_props(cands, order, avoid, n - 1);
    }
}

/// What the first outright-accept position means.
pub proof fn lemma_first_early_props(
    cands: Seq<AccentCandidate>,
    order: Seq<usize>,
    avoid: Seq<LchColor>,
    n: int,
)
    requires
        0 <= n,
    ensures
        first_early_upto(cands, order, avoid, n) == -1 <==> (forall|p: int|
            0 <= p < n ==> !early_accept_at(cands, order, avoid, p)),
        first_early_upto(cands, order, avoid, n) != -1 ==> {
            let e = first_early_upto(cands, order, avoid, n);
            &&& 0 <= e < n
            &&& early_accept_at(cands, order, avoid, e)
        },
    decreases n,
{
    if n > 0 {
        lemma_first_early_props(cands, order, avoid, n - 1);
    }
}

/// Extract the pool colors of the candidates, in order.
pub fn accent_pool_colors(cands: &Vec<AccentCandidate>) -> (r: Vec<LchColor>)
    requires
        all_cands_wf(cands@),
    ensures
        r@ == acc_colors(cands@),
        all_wf(r@),
{
    let mut out: Vec<LchColor> = Vec::new();
    let mut i: usize = 0;
    while i < cands.len()
        invariant
            0 <= i <= cands@.len(),
            all_cands_wf(cands@),
            out@ == cands@.take(i as int).map_values(|a: AccentCandidate| a.color),
            all_wf(out@),
        decreases cands@.len() - i,
    {
        out.push(cands[i].color);
        proof {
            assert(cands@.take(i + 1).map_values(|a: AccentCandidate| a.color) =~= cands@.take(
                i as int,
            ).map_values(|a: AccentCandidate| a.color).push(cands@[i as int].color));
        }
        i += 1;
    }
    proof {
        assert(cands@.take(cands@.len() as int) =~= cands@);
    }
    out
}

/// The widest unwrapped hue gap between a pool color and the hue `h`,
/// over the first `n` colors (`n` at least 1).
pub open spec fn max_hue_gap_upto(colors: Seq<LchColor>, h: int, n: int) -> int
    decreases n,
{
    if n <= 1 {
        hue_abs_diff(colors[0].hue as int, h)
    } else {
        let prev = max_hue_gap_upto(colors, h, n - 1);
        let d = hue_abs_diff(colors[n - 1].hue as int, h);
        if d > prev {
            d
        } else {
            prev
        }
    }
}

/// The widest unwrapped hue gap between any pool color and the hue `h`.
pub open spec fn max_hue_gap(colors: Seq<LchColor>, h: int) -> int {
    max_hue_gap_upto(colors, h, colors.len() as int)
}

/// The widest gap bounds every gap and is itself one of them.
pub proof fn lemma_max_hue_gap_props(colors: Seq<LchColor>, h: int, n: int)
    requires
        1 <= n <= colors.len(),
    ensures
        forall|j: int|
            0 <= j < n ==> hue_abs_diff((#[trigger] colors[j]).hue as int, h) <= max_hue_gap_upto(
                colors,
                h,
                n,
            ),
        exists|j: int|
            0 <= j < n && hue_abs_diff((#[trigger] colors[j]).hue as int, h) == max_hue_gap_upto(
                colors,
                h,
                n,
            ),
    decreases n,
{
    if n == 1 {
        assert(hue_abs_diff(colors[0].hue as int, h) == max_hue_gap_upto(colors, h, n));
    } else {
        lemma_max_hue_gap_props(colors, h, n - 1);
        let d = hue_abs_diff(colors[n - 1].hue as int, h);
        if d > max_hue_gap_upto(colors, h, n - 1) {
            assert(hue_abs_diff(colors[n - 1].hue as int, h) == max_hue_gap_upto(colors, h, n));
        } else {
            let j = choose|j: int|
                0 <= j < n - 1 && hue_abs_diff((#[trigger] colors[j]).hue as int, h)
                    == max_hue_gap_upto(colors, h, n - 1);
            assert(hue_abs_diff(colors[j].hue as int, h) == max_hue_gap_upto(colors, h, n));
        }
    }
}

/// Compute the widest unwrapped hue gap between a pool color and `h`.
fn max_hue_gap_exec(colors: &Vec<LchColor>, h: i64) -> (g: i64)
    requires
        colors@.len() > 0,
        all_wf(colors@),
        -HUE_HALF_TURN <= h <= HUE_HALF_TURN,
    ensures
        g == max_hue_gap(colors@, h as int),
        0 <= g <= 2 * HUE_HALF_TURN,
{
    let mut g: i64 = crate::color::hue_distance(colors[0].hue, h);
    let mut i: usize = 1;
    while i < colors.len()
        invariant
            1 <= i <= colors@.len(),
            all_wf(colors@),
            -HUE_HALF_TURN <= h <= HUE_HALF_TURN,
            g == max_hue_gap_upto(colors@, h as int, i as int),
            0 <= g <= 2 * HUE_HALF_TURN,
        decreases colors@.len() - i,
    {
        let d: i64 = crate::color::hue_distance(colors[i].hue, h);
        if d > g {
            g = d;
        }
        i += 1;
    }
    g
}

/// Choose the accent from the pool, scanning in the given order: a
/// leading, saturated, non-avoided candidate is taken outright; otherwise
/// the candidate whose contrast-adjusted form scores best. The accent is
/// the chosen candidate's contrast-adjusted form. Every pool color within
/// a sixth of the widest hue gap from the accent is then removed from the
/// pool.
pub fn select_accent(
    cands: &Vec<AccentCandidate>,
    order: &Vec<usize>,
    avoid: &Vec<LchColor>,
) -> (r: (LchColor, Vec<LchColor>))
    requires
        cands@.len() > 0,
        order@.len() == cands@.len(),
        forall|p: int| 0 <= p < order@.len() ==> (#[trigger] order@[p]) < cands@.len(),
        all_cands_wf(cands@),
        all_wf(avoid@),
    ensures
        ({
            let chosen = accent_choice(cands@, order@, avoid@);
            let acc = adjusted_of(cands@[order@[chosen] as int]);
            &&& r.0 == acc
            &&& r.0.wf()
            &&& r.1@ == acc_colors(cands@).filter(
                |c: LchColor|
                    hue_abs_diff(c.hue as int, acc.hue as int) > max_hue_gap(
                        acc_colors(cands@),
                        acc.hue as int,
                    ) / (ACCENT_EXCLUDE_DIV as int),
            )
            &&& all_wf(r.1@)
        }),
{
    let n: usize = cands.len();
    let mut found_early: bool = false;
    let mut chosen: usize = 0;
    let mut best_pos: usize = 0;
    let mut best_score: i64 = i64::MIN;
    let mut p: usize = 0;
    while p < n
        invariant_except_break
            0 <= p <= n,
            1 <= n,
            n == cands@.len(),
            order@.len() == n,
            forall|q: int| 0 <= q < order@.len() ==> (#[trigger] order@[q]) < cands@.len(),
            all_cands_wf(cands@),
            all_wf(avoid@),
            !found_early,
            first_early_upto(cands@, order@, avoid@, p as int) == -1,
            p == 0 ==> best_pos == 0 && best_score == i64::MIN,
            p >= 1 ==> best_pos < p && best_pos as int == best_score_upto(
                cands@,
                order@,
                avoid@,
                p as int,
            ) && best_score as int == accent_score(cands@[order@[best_pos as int] as int], avoid@),
        ensures
            found_early ==> chosen < n && first_early_upto(cands@, order@, avoid@, n as int)
                == chosen as int,
            !found_early ==> first_early_upto(cands@, order@, avoid@, n as int) == -1 && best_pos
                < n && best_pos as int == best_score_upto(cands@, order@, avoid@, n as int),
        decreases n - p,
    {
        let a = &cands[order[p]];
        proof {
            assert(cands@[order@[p as int] as int].wf());
        }
        let adjusted = adjust_lightness_for_contrast(
            a.color,
            a.original_contrast,
            ACCENT_CUTOFF,
            &a.table,
        );
        proof {
            lemma_adjusted_wf(
                a.color,
                a.original_contrast as int,
                ACCENT_CUTOFF as int,
                a.table@,
            );
        }
        let av: bool = is_avoided(&adjusted, avoid);
        let mut score: i64 = adjusted.chroma;
        if av {
            score = score / ACCENT_SCORE_DIV;
        } else if a.color.chroma > ACCENT_CHROMA_HOT && p <= n / 3 {
            chosen = p;
            found_early = true;
            proof {
                assert(early_accept_at(cands@, order@, avoid@, p as int));
                assert(first_early_upto(cands@, order@, avoid@, p + 1) == p);
                lemma_first_early_stable(cands@, order@, avoid@, p + 1, n as int);
            }
            break ;
        }
        proof {
            assert(score as int == accent_score(cands@[order@[p as int] as int], avoid@));
            assert(!early_accept_at(cands@, order@, avoid@, p as int));
            assert(first_early_upto(cands@, order@, avoid@, p + 1) == -1);
        }
        if score > best_score {
            best_score = score;
            best_pos = p;
        }
        proof {
            if p == 0 {
                assert(best_score_upto(cands@, order@, avoid@, 1) == 0);
            }
        }
        p += 1;
    }
    let pick: usize = if found_early {
        chosen
    } else {
        best_pos
    };
    proof {
        assert(pick as int == accent_choice(cands@, order@, avoid@));
    }
    let a = &cands[order[pick]];
    let accent = adjust_lightness_for_contrast(
        a.color,
        a.original_contrast,
        ACCENT_CUTOFF,
        &a.table,
    );
    proof {
        lemma_adjusted_wf(a.color, a.original_contrast as int, ACCENT_CUTOFF as int, a.table@);
    }
    let colors = accent_pool_colors(cands);
    let gap: i64 = max_hue_gap_exec(&colors, accent.hue);
    let new_pool = filter_far_hue(&colors, accent.hue, gap / ACCENT_EXCLUDE_DIV);
    (accent, new_pool)
}

/// Index of the first pool color saturated enough to tint the neutral,
/// -1 when the prefix holds none.
pub open spec fn first_saturated_upto(pool: Seq<LchColor>, n: int) -> int
    decreases n,
{
    if n <= 0 {
        -1
    } else {
        let prev = first_saturated_upto(pool, n - 1);
        if prev != -1 {
            prev
        } else if pool[n - 1].chroma > crate::avoid::LOW_CHROMA_FLOOR {
            n - 1
        } else {
            -1
        }
    }
}

/// Index of the first sufficiently saturated pool color, -1 when there is
/// none.
pub open spec fn first_saturated_index(pool: Seq<LchColor>) -> int {
    first_saturated_upto(pool, pool.len() as int)
}

/// Once a prefix holds a saturated color, longer prefixes pick the same
/// one.
proof fn lemma_first_saturated_stable(pool: Seq<LchColor>, n: int, m: int)
    requires
        0 <= n <= m,
        first_saturated_upto(pool, n) != -1,
    ensures
        first_saturated_upto(pool, m) == first_saturated_upto(pool, n),
    decreases m - n,
{
    if m > n {
        lemma_first_saturated_stable(pool, n, m - 1);
    }
}

/// What the first-saturated index means.
pub proof fn lemma_first_saturated_props(pool: Seq<LchColor>, n: int)
    requires
        0 <= n,
    ensures
        first_saturated_upto(pool, n) == -1 <==> (forall|j: int|
            0 <= j < n ==> (#[trigger] pool[j]).chroma <= crate::avoid::LOW_CHROMA_FLOOR),
        first_saturated_upto(pool, n) != -1 ==> {
            let idx = first_saturated_upto(pool, n);
            &&& 0 <= idx < n
            &&& pool[idx].chroma > crate::avoid::LOW_CHROMA_FLOOR
        },
    decreases n,
{
    if n > 0 {
        lemma_first_saturated_props(pool, n - 1);
    }
}

/// Choose the neutral tint: the first remaining pool color saturated
/// beyond the chroma floor; without one, the default theme's neutral
/// swatch. The pool is left as it is.
pub fn select_neutral(pool: &Vec<LchColor>, default_neutral: LchColor) -> (r: LchColor)
    requires
        all_wf(pool@),
        default_neutral.wf(),
    ensures
        ({
            let idx = first_saturated_index(pool@);
            &&& (idx == -1 ==> r == default_neutral)
            &&& (idx != -1 ==> r == pool@[idx])
            &&& r.wf()
        }),
{
    let mut i: usize = 0;
    while i < pool.len()
        invariant
            0 <= i <= pool@.len(),
            all_wf(pool@),
            first_saturated_upto(pool@, i as int) == -1,
        decreases pool@.len() - i,
    {
        if pool[i].chroma > crate::avoid::LOW_CHROMA_FLOOR {
            proof {
                assert(first_saturated_upto(pool@, i + 1) == i);
                lemma_first_saturated_stable(pool@, i + 1, pool@.len() as int);
            }
            return pool[i];
        }
        i += 1;
    }
    default_neutral
}

/// Take the text tint: the first remaining pool color, removed from the
/// pool; absent when the pool is empty.
pub fn take_text(pool: Vec<LchColor>) -> (r: (Option<LchColor>, Vec<LchColor>))
    ensures
        pool@.len() == 0 ==> r.0 is None && r.1@ == pool@,
        pool@.len() > 0 ==> r.0 == Some(pool@[0]) && r.1@ == pool@.remove(0),
{
    let mut pool = pool;
    if pool.len() == 0 {
        (None, pool)
    } else {
        let first = pool.remove(0);
        (Some(first), pool)
    }
}

/// The order in which a selection stage scans the pool: the positions in
/// place, or — when randomized selection is on — the left-skewed shuffle
/// of them over the given window.
pub fn selection_order(
    n: usize,
    window: Option<usize>,
    randomize: bool,
    rng: &mut rand::rngs::StdRng,
) -> (r: Vec<usize>)
    ensures
        r@.len() == n,
        forall|p: int| 0 <= p < n ==> (#[trigger] r@[p]) < n,
        !randomize ==> forall|p: int| 0 <= p < n ==> (#[trigger] r@[p]) == p,
{
    let mut ident: Vec<usize> = Vec::new();
    let mut i: usize = 0;
    while i < n
        invariant
            0 <= i <= n,
            ident@.len() == i,
            forall|p: int| 0 <= p < i ==> (#[trigger] ident@[p]) == p,
        decreases n - i,
    {
        ident.push(i);
        i += 1;
    }
    if !randomize {
        return ident;
    }
    let ghost ident_seq = ident@;
    let out = crate::shuffle::left_skewed_shuffle(ident, window, rng);
    proof {
        broadcast use vstd::seq_lib::group_to_multiset_ensures;

        assert forall|p: int| 0 <= p < out@.len() implies (#[trigger] out@[p]) < n by {
            assert(out@.contains(out@[p]));
            assert(out@.to_multiset().count(out@[p]) > 0);
            assert(ident_seq.contains(out@[p]));
            let q = choose|q: int| 0 <= q < ident_seq.len() && ident_seq[q] == out@[p];
            assert(ident_seq[q] == q);
        }
    }
    out
}

/// What one run of the accent, neutral and text stages may produce: there
/// is a scan order `ord` (the positions themselves unless randomized) and
/// a pool `p3` — the accent-filtered pool, reordered only if randomized —
/// such that the accent is the scan's choice under `ord`, the neutral is
/// the first saturated color of `p3` or the default swatch, and the text
/// tint is the first color of `p3` if any.
pub open spec fn roles_outcome(
    cands: Seq<AccentCandidate>,
    avoid_accent: Seq<LchColor>,
    default_neutral: LchColor,
    randomize: bool,
    ord: Seq<usize>,
    p3: Seq<LchColor>,
    accent: LchColor,
    neutral: LchColor,
    text: Option<LchColor>,
) -> bool {
    let acc = adjusted_of(cands[ord[accent_choice(cands, ord, avoid_accent)] as int]);
    let filtered = acc_colors(cands).filter(
        |c: LchColor|
            hue_abs_diff(c.hue as int, acc.hue as int) > max_hue_gap(
                acc_colors(cands),
                acc.hue as int,
            ) / (ACCENT_EXCLUDE_DIV as int),
    );
    &&& ord.len() == cands.len()
    &&& (forall|p: int| 0 <= p < ord.len() ==> (#[trigger] ord[p]) < cands.len())
    &&& (!randomize ==> forall|p: int| 0 <= p < ord.len() ==> (#[trigger] ord[p]) == p)
    &&& accent == acc
    &&& p3.to_multiset() == filtered.to_multiset()
    &&& (!randomize ==> p3 == filtered)
    &&& (first_saturated_index(p3) == -1 ==> neutral == default_neutral)
    &&& (first_saturated_index(p3) != -1 ==> neutral == p3[first_saturated_index(p3)])
    &&& (p3.len() == 0 ==> text is None)
    &&& (p3.len() > 0 ==> text == Some(p3[0]))
}

/// Run the accent, neutral and text stages in sequence on the pool the
/// background left behind: choose the accent (over a randomized order
/// when asked), cut the pool around its hue, optionally shuffle what
/// remains, pick the neutral tint and take the text tint.
pub fn resolve_accent_roles(
    cands: &Vec<AccentCandidate>,
    avoid_accent: &Vec<LchColor>,
    default_neutral: LchColor,
    randomize: bool,
    rng: &mut rand::rngs::StdRng,
) -> (r: (LchColor, LchColor, Option<LchColor>))
    requires
        cands@.len() > 0,
        all_cands_wf(cands@),
        all_wf(avoid_accent@),
        default_neutral.wf(),
    ensures
        exists|ord: Seq<usize>, p3: Seq<LchColor>|
            roles_outcome(
                cands@,
                avoid_accent@,
                default_neutral,
                randomize,
                ord,
                p3,
                r.0,
                r.1,
                r.2,
            ),
        r.0.wf(),
        r.1.wf(),
        (r.2 matches Some(t) ==> t.wf()),
{
    let order = selection_order(cands.len(), Some(3), randomize, rng);
    let (accent, pool2) = select_accent(cands, &order, avoid_accent);
    let ghost pool2_seq = pool2@;
    let pool3 = if randomize {
        crate::shuffle::left_skewed_shuffle(pool2, None, rng)
    } else {
        pool2
    };
    proof {
        broadcast use vstd::seq_lib::group_to_multiset_ensures;

        assert forall|x: int| 0 <= x < pool3@.len() implies (#[trigger] pool3@[x]).wf() by {
            assert(pool3@.contains(pool3@[x]));
            assert(pool3@.to_multiset().count(pool3@[x]) > 0);
            assert(pool2_seq.contains(pool3@[x]));
            let q = choose|q: int| 0 <= q < pool2_seq.len() && pool2_seq[q] == pool3@[x];
        }
    }
    let neutral = select_neutral(&pool3, default_neutral);
    let ghost p3 = pool3@;
    let (text, _rest) = take_text(pool3);
    let result = (accent, neutral, text);
    proof {
        let ghost ord = order@;
        assert(result.0 == accent && result.1 == neutral && result.2 == text);
        assert(roles_outcome(
            cands@,
            avoid_accent@,
            default_neutral,
            randomize,
            ord,
            p3,
            result.0,
            result.1,
            result.2,
        ));
    }
    result
}

/// LAW (role distinctness): when a background is chosen, the accent,
/// neutral and text come out of the pools the earlier roles left behind,
/// the neutral is found in the pool rather than falling back to the
/// default swatch, and the first remaining color is below the chroma
/// floor, then the four resolved colors are pairwise distinct: the hue
/// exclusions separate each later role's hue from the background's and
/// the accent's, and the chroma floor separates neutral from text.
pub proof fn lemma_roles_distinct(
    pool: Seq<LchColor>,
    default_bg: LchColor,
    avoid_bg: Seq<LchColor>,
    cands: Seq<AccentCandidate>,
    order: Seq<usize>,
    avoid_accent: Seq<LchColor>,
    shuffled: Seq<LchColor>,
    bg: LchColor,
    accent: LchColor,
    neutral: LchColor,
    text: LchColor,
)
    requires
        all_wf(pool),
        first_bg_index(pool, default_bg, avoid_bg) != -1,
        bg == bg_final(pool[first_bg_index(pool, default_bg, avoid_bg)], default_bg),
        acc_colors(cands) == pool.filter(
            |c: LchColor|
                hue_abs_diff(
                    c.hue as int,
                    pool[first_bg_index(pool, default_bg, avoid_bg)].hue as int,
                ) > BG_HUE_EXCLUDE,
        ),
        cands.len() > 0,
        order.len() == cands.len(),
        forall|p: int| 0 <= p < order.len() ==> (#[trigger] order[p]) < cands.len(),
        all_cands_wf(cands),
        accent == adjusted_of(cands[order[accent_choice(cands, order, avoid_accent)] as int]),
        shuffled.to_multiset() == acc_colors(cands).filter(
            |c: LchColor|
                hue_abs_diff(c.hue as int, accent.hue as int) > max_hue_gap(
                    acc_colors(cands),
                    accent.hue as int,
                ) / (ACCENT_EXCLUDE_DIV as int),
        ).to_multiset(),
        first_saturated_index(shuffled) != -1,
        neutral == shuffled[first_saturated_index(shuffled)],
        shuffled.len() > 0,
        text == shuffled[0],
        text.chroma <= crate::avoid::LOW_CHROMA_FLOOR,
    ensures
        bg != accent,
        bg != neutral,
        bg != text,
        accent != neutral,
        accent != text,
        neutral != text,
{
    broadcast use vstd::seq_lib::group_to_multiset_ensures;
    broadcast use vstd::seq_lib::group_filter_ensures;

    let idx = first_bg_index(pool, default_bg, avoid_bg);
    lemma_first_bg_props(pool, default_bg, avoid_bg, pool.len() as int);
    assert(bg.hue == pool[idx].hue);

    let bg_pred = |c: LchColor|
        hue_abs_diff(c.hue as int, pool[first_bg_index(pool, default_bg, avoid_bg)].hue as int)
            > BG_HUE_EXCLUDE;
    let acc_pred = |c: LchColor|
        hue_abs_diff(c.hue as int, accent.hue as int) > max_hue_gap(
            acc_colors(cands),
            accent.hue as int,
        ) / (ACCENT_EXCLUDE_DIV as int);

    // The accent keeps the hue of its source candidate, which survived the
    // background's hue exclusion.
    let choice = accent_choice(cands, order, avoid_accent);
    lemma_first_early_props(cands, order, avoid_accent, cands.len() as int);
    lemma_best_score_props(cands, order, avoid_accent, cands.len() as int);
    assert(0 <= choice < cands.len());
    let src = cands[order[choice] as int];
    lemma_adjusted_wf(src.color, src.original_contrast as int, ACCENT_CUTOFF as int, src.table@);
    assert(accent.hue == src.color.hue);
    assert(src.color == acc_colors(cands)[order[choice] as int]);
    assert(bg_pred(src.color));
    assert(accent.hue != bg.hue);
    assert(bg != accent);

    // The widest hue gap is at least zero, so the accent's exclusion
    // radius is too.
    lemma_max_hue_gap_props(acc_colors(cands), accent.hue as int, acc_colors(cands).len() as int);
    let gap = max_hue_gap(acc_colors(cands), accent.hue as int);
    assert(gap >= 0);

    // Neutral and text lie in the pool that survived both exclusions.
    lemma_first_saturated_props(shuffled, shuffled.len() as int);
    let filtered = acc_colors(cands).filter(acc_pred);
    assert forall|x: LchColor| shuffled.contains(x) implies filtered.contains(x) by {
        assert(shuffled.to_multiset().count(x) > 0);
        assert(filtered.to_multiset().count(x) > 0);
    }

    assert(shuffled.contains(neutral));
    assert(filtered.contains(neutral));
    let qn = choose|q: int| 0 <= q < filtered.len() && filtered[q] == neutral;
    assert(acc_pred(filtered[qn]));
    assert(neutral.hue != accent.hue);
    crate::rank::lemma_filter_subset(acc_colors(cands), acc_pred, qn);
    let mn = choose|m: int|
        0 <= m < acc_colors(cands).len() && acc_colors(cands)[m] == filtered[qn];
    assert(bg_pred(acc_colors(cands)[mn])) by {
        assert(pool.filter(bg_pred)[mn] == acc_colors(cands)[mn]);
    }
    assert(neutral.hue != bg.hue);
    assert(bg != neutral);
    assert(accent != neutral);

    assert(shuffled.contains(text));
    assert(filtered.contains(text));
    let qt = choose|q: int| 0 <= q < filtered.len() && filtered[q] == text;
    assert(acc_pred(filtered[qt]));
    assert(text.hue != accent.hue);
    crate::rank::lemma_filter_subset(acc_colors(cands), acc_pred, qt);
    let mt = choose|m: int|
        0 <= m < acc_colors(cands).len() && acc_colors(cands)[m] == filtered[qt];
    assert(bg_pred(acc_colors(cands)[mt])) by {
        assert(pool.filter(bg_pred)[mt] == acc_colors(cands)[mt]);
    }
    assert(text.hue != bg.hue);
    assert(bg != text);
    assert(accent != text);

    // Neutral clears the chroma floor, text does not.
    assert(neutral.chroma > crate::avoid::LOW_CHROMA_FLOOR);
    assert(neutral != text);
}

} // verus!
