//! The pipeline's outward-facing values: the resolved theme, the cached
//! centroid list, the per-mode configuration, and the default-theme
//! anchors the selection leans on.

use vstd::prelude::*;
use crate::avoid::all_wf;
use crate::color::LchColor;

verus! {

/// The resolved theme of one derivation: accent, background and neutral,
/// and an optional text tint.
#[derive(Clone, Copy, Debug, PartialEq, Eq, Structural)]
pub struct BgResult {
    pub accent: LchColor,
    pub bg: LchColor,
    pub neutral: LchColor,
    pub text: Option<LchColor>,
}

impl BgResult {
    /// Every resolved color is well-formed.
    pub open spec fn wf(self) -> bool {
        &&& self.accent.wf()
        &&& self.bg.wf()
        &&& self.neutral.wf()
        &&& (self.text matches Some(t) ==> t.wf())
    }
}

/// The cached raw-cluster result: the ranked centroid list.
#[derive(Clone, Debug)]
pub struct KmeanState(pub Vec<LchColor>);

/// The per-mode configuration: avoidance sets for background and accent
/// in each mode, and the feature switches.
#[derive(Clone, Debug)]
pub struct MyConfig {
    /// Colors the light-mode accent must keep away from.
    pub avoid_accents_light: Vec<LchColor>,
    /// Colors the dark-mode accent must keep away from.
    pub avoid_accents_dark: Vec<LchColor>,
    /// Colors the light-mode background must keep away from.
    pub avoid_light: Vec<LchColor>,
    /// Colors the dark-mode background must keep away from.
    pub avoid_dark: Vec<LchColor>,
    /// Persist resolved themes in the final cache.
    pub save_results: bool,
    /// Persist ranked centroid lists in the raw-cluster cache.
    pub save_kmeans: bool,
    /// Use the randomized (left-skewed) selection order.
    pub randomize: bool,
}

impl MyConfig {
    /// Every configured avoidance color is well-formed.
    pub open spec fn wf(self) -> bool {
        &&& all_wf(self.avoid_accents_light@)
        &&& all_wf(self.avoid_accents_dark@)
        &&& all_wf(self.avoid_light@)
        &&& all_wf(self.avoid_dark@)
    }

    /// The background avoidance set of the active mode.
    pub fn avoid_for_mode(&self, is_dark: bool) -> (r: &Vec<LchColor>)
        ensures
            is_dark ==> r@ == self.avoid_dark@,
            !is_dark ==> r@ == self.avoid_light@,
    {
        if is_dark {
            &self.avoid_dark
        } else {
            &self.avoid_light
        }
    }

    /// The accent avoidance set of the active mode.
    pub fn avoid_accents_for_mode(&self, is_dark: bool) -> (r: &Vec<LchColor>)
        ensures
            is_dark ==> r@ == self.avoid_accents_dark@,
            !is_dark ==> r@ == self.avoid_accents_light@,
    {
        if is_dark {
            &self.avoid_accents_dark
        } else {
            &self.avoid_accents_light
        }
    }
}

/// The default theme's anchor colors of the active mode.
#[derive(Clone, Copy, Debug, PartialEq, Eq, Structural)]
pub struct DefaultAnchors {
    /// The default window background.
    pub background: LchColor,
    /// The default neutral swatch.
    pub neutral: LchColor,
}

impl DefaultAnchors {
    /// Both anchors are well-formed.
    pub open spec fn wf(self) -> bool {
        &&& self.background.wf()
        &&& self.neutral.wf()
    }
}

} // verus!
