//! The cylindrical perceptual color form used throughout the pipeline.
//!
//! A color is lightness, chroma and hue, each stored in thousandths
//! (milli-units): lightness in [0, 100 000] for the perceptual range
//! [0, 100], chroma at least 0, and hue in milli-degrees in
//! [-180 000, 180 000], the range the polar conversion produces.

use vstd::prelude::*;

verus! {

/// Lightness of the brightest white, in milli-units.
pub const L_MAX: i64 = 100_000;

/// The practical chroma ceiling of the color space, in milli-units.
/// Colors converted from device color stay well below it; it caps the
/// saturation boost.
pub const CHROMA_CEILING: i64 = 128_000;

/// A generous upper bound on chroma that every color handled by the
/// pipeline obeys; it keeps all intermediate arithmetic in range.
pub const CHROMA_LIMIT: i64 = 1_000_000;

/// Half a turn of hue, in milli-degrees.
pub const HUE_HALF_TURN: i64 = 180_000;

/// A color in cylindrical perceptual form at milli-unit precision.
#[derive(Clone, Copy, Debug, PartialEq, Eq, Structural)]
pub struct LchColor {
    /// Lightness, 0 to 100 000.
    pub l: i64,
    /// Chroma (colorfulness), 0 and up.
    pub chroma: i64,
    /// Hue in milli-degrees, -180 000 to 180 000.
    pub hue: i64,
}

impl LchColor {
    /// Well-formedness: each axis is in the range the pipeline works on.
    pub open spec fn wf(self) -> bool {
        &&& 0 <= self.l <= L_MAX
        &&& 0 <= self.chroma <= CHROMA_LIMIT
        &&& -HUE_HALF_TURN <= self.hue <= HUE_HALF_TURN
    }

    /// The color brought back into range: lightness into [0, 100 000],
    /// chroma floored at 0, hue untouched.
    pub open spec fn clamped(self) -> LchColor {
        LchColor {
            l: if self.l < 0 {
                0
            } else if self.l > L_MAX {
                L_MAX
            } else {
                self.l
            },
            chroma: if self.chroma < 0 {
                0
            } else {
                self.chroma
            },
            hue: self.hue,
        }
    }

    /// Bring the color back into range.
    pub fn clamp(self) -> (r: LchColor)
        ensures
            r == self.clamped(),
    {
        let l: i64 = if self.l < 0 {
            0
        } else if self.l > L_MAX {
            L_MAX
        } else {
            self.l
        };
        let chroma: i64 = if self.chroma < 0 {
            0
        } else {
            self.chroma
        };
        LchColor { l, chroma, hue: self.hue }
    }

    /// A clamped color of a well-formed one is well-formed, provided its
    /// chroma did not exceed the working bound.
    pub proof fn lemma_clamped_wf(self)
        requires
            self.chroma <= CHROMA_LIMIT,
            -HUE_HALF_TURN <= self.hue <= HUE_HALF_TURN,
        ensures
            self.clamped().wf(),
    {
    }
}

/// The unwrapped distance between two hues: the absolute difference of
/// their stored values, up to a full turn.
pub open spec fn hue_abs_diff(h1: int, h2: int) -> int {
    if h1 >= h2 {
        h1 - h2
    } else {
        h2 - h1
    }
}

/// Absolute difference of two hues as stored, without wrapping.
pub fn hue_distance(h1: i64, h2: i64) -> (d: i64)
    requires
        -HUE_HALF_TURN <= h1 <= HUE_HALF_TURN,
        -HUE_HALF_TURN <= h2 <= HUE_HALF_TURN,
    ensures
        d == hue_abs_diff(h1 as int, h2 as int),
        0 <= d <= 2 * HUE_HALF_TURN,
{
    if h1 >= h2 {
        h1 - h2
    } else {
        h2 - h1
    }
}

} // verus!
