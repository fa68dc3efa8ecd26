//! Palette synchronization: every secondary palette slot takes the chroma
//! and lightness of the resolved accent while keeping its own hue, then is
//! brought back into range; a designated subset of bright slots receives a
//! fixed saturation boost afterwards.

use vstd::prelude::*;
use crate::color::{LchColor, CHROMA_CEILING};

verus! {

/// A slot carrying the accent's tone: the accent's lightness and chroma
/// under the slot's own hue, brought back into range.
pub open spec fn synced(target: LchColor, c: LchColor) -> LchColor {
    (LchColor { l: target.l, chroma: target.chroma, hue: c.hue }).clamped()
}

/// Overwrite a slot's chroma and lightness with the target's, keep the
/// slot's hue, and bring the result back into range.
pub fn sync_chroma_lightness(target: LchColor, c: LchColor) -> (r: LchColor)
    requires
        target.wf(),
        c.wf(),
    ensures
        r == synced(target, c),
        r.wf(),
{
    let out = (LchColor { l: target.l, chroma: target.chroma, hue: c.hue }).clamp();
    proof {
        (LchColor { l: target.l, chroma: target.chroma, hue: c.hue }).lemma_clamped_wf();
    }
    out
}

/// Synchronizing twice with the same target gives the same slot as
/// synchronizing once: the pass is idempotent in the target.
pub proof fn lemma_sync_idempotent(target: LchColor, c: LchColor)
    ensures
        synced(target, synced(target, c)) == synced(target, c),
{
}

/// The saturation boost of the bright slots: chroma moves halfway toward
/// the chroma ceiling and is then held inside [0, ceiling]; lightness and
/// hue stay.
pub open spec fn saturated_half(c: LchColor) -> LchColor {
    let gap: int = if CHROMA_CEILING - c.chroma > 0 {
        CHROMA_CEILING - c.chroma
    } else {
        0
    };
    let boosted: int = c.chroma + gap / 2;
    LchColor {
        l: c.l,
        chroma: (if boosted < 0 {
            0int
        } else if boosted > CHROMA_CEILING {
            CHROMA_CEILING as int
        } else {
            boosted
        }) as i64,
        hue: c.hue,
    }
}

/// Apply the fixed saturation boost to a slot.
pub fn saturate_half(c: LchColor) -> (r: LchColor)
    requires
        c.wf(),
    ensures
        r == saturated_half(c),
        r.wf(),
{
    let gap: i64 = if CHROMA_CEILING - c.chroma > 0 {
        CHROMA_CEILING - c.chroma
    } else {
        0
    };
    let boosted: i64 = c.chroma + gap / 2;
    let chroma: i64 = if boosted < 0 {
        0
    } else if boosted > CHROMA_CEILING {
        CHROMA_CEILING
    } else {
        boosted
    };
    LchColor { l: c.l, chroma, hue: c.hue }
}

/// The secondary palette: the named slots that are re-toned after the
/// accent is chosen.
#[derive(Clone, Copy, Debug, PartialEq, Eq, Structural)]
pub struct ThemePalette {
    pub accent_blue: LchColor,
    pub accent_green: LchColor,
    pub accent_indigo: LchColor,
    pub accent_orange: LchColor,
    pub accent_pink: LchColor,
    pub accent_purple: LchColor,
    pub accent_red: LchColor,
    pub accent_warm_grey: LchColor,
    pub accent_yellow: LchColor,
    pub bright_green: LchColor,
    pub bright_orange: LchColor,
    pub bright_red: LchColor,
    pub ext_blue: LchColor,
    pub ext_indigo: LchColor,
    pub ext_orange: LchColor,
    pub ext_pink: LchColor,
    pub ext_purple: LchColor,
    pub ext_warm_grey: LchColor,
    pub ext_yellow: LchColor,
}

impl ThemePalette {
    /// Every slot is well-formed.
    pub open spec fn wf(self) -> bool {
        &&& self.accent_blue.wf()
        &&& self.accent_green.wf()
        &&& self.accent_indigo.wf()
        &&& self.accent_orange.wf()
        &&& self.accent_pink.wf()
        &&& self.accent_purple.wf()
        &&& self.accent_red.wf()
        &&& self.accent_warm_grey.wf()
        &&& self.accent_yellow.wf()
        &&& self.bright_green.wf()
        &&& self.bright_orange.wf()
        &&& self.bright_red.wf()
        &&& self.ext_blue.wf()
        &&& self.ext_indigo.wf()
        &&& self.ext_orange.wf()
        &&& self.ext_pink.wf()
        &&& self.ext_purple.wf()
        &&& self.ext_warm_grey.wf()
        &&& self.ext_yellow.wf()
    }
}

/// Re-tone the whole secondary palette onto the accent: every slot takes
/// the accent's chroma and lightness under its own hue; the bright slots
/// get the saturation boost on top; the yellow accent slot is
/// synchronized a second time, which by idempotence changes nothing.
pub fn sync_palette(accent: LchColor, p: ThemePalette) -> (r: ThemePalette)
    requires
        accent.wf(),
        p.wf(),
    ensures
        r.accent_blue == synced(accent, p.accent_blue),
        r.accent_green == synced(accent, p.accent_green),
        r.accent_indigo == synced(accent, p.accent_indigo),
        r.accent_orange == synced(accent, p.accent_orange),
        r.accent_pink == synced(accent, p.accent_pink),
        r.accent_purple == synced(accent, p.accent_purple),
        r.accent_red == synced(accent, p.accent_red),
        r.accent_warm_grey == synced(accent, p.accent_warm_grey),
        r.accent_yellow == synced(accent, p.accent_yellow),
        r.bright_green == saturated_half(synced(accent, p.bright_green)),
        r.bright_orange == saturated_half(synced(accent, p.bright_orange)),
        r.bright_red == saturated_half(synced(accent, p.bright_red)),
        r.ext_blue == synced(accent, p.ext_blue),
        r.ext_indigo == synced(accent, p.ext_indigo),
        r.ext_orange == synced(accent, p.ext_orange),
        r.ext_pink == synced(accent, p.ext_pink),
        r.ext_purple == synced(accent, p.ext_purple),
        r.ext_warm_grey == synced(accent, p.ext_warm_grey),
        r.ext_yellow == synced(accent, p.ext_yellow),
        r.wf(),
{
    let first_yellow = sync_chroma_lightness(accent, p.accent_yellow);
    proof {
        lemma_sync_idempotent(accent, p.accent_yellow);
    }
    ThemePalette {
        accent_blue: sync_chroma_lightness(accent, p.accent_blue),
        accent_green: sync_chroma_lightness(accent, p.accent_green),
        accent_indigo: sync_chroma_lightness(accent, p.accent_indigo),
        accent_orange: sync_chroma_lightness(accent, p.accent_orange),
        accent_pink: sync_chroma_lightness(accent, p.accent_pink),
        accent_purple: sync_chroma_lightness(accent, p.accent_purple),
        accent_red: sync_chroma_lightness(accent, p.accent_red),
        accent_warm_grey: sync_chroma_lightness(accent, p.accent_warm_grey),
        accent_yellow: sync_chroma_lightness(accent, first_yellow),
        bright_green: saturate_half(sync_chroma_lightness(accent, p.bright_green)),
        bright_orange: saturate_half(sync_chroma_lightness(accent, p.bright_orange)),
        bright_red: saturate_half(sync_chroma_lightness(accent, p.bright_red)),
        ext_blue: sync_chroma_lightness(accent, p.ext_blue),
        ext_indigo: sync_chroma_lightness(accent, p.ext_indigo),
        ext_orange: sync_chroma_lightness(accent, p.ext_orange),
        ext_pink: sync_chroma_lightness(accent, p.ext_pink),
        ext_purple: sync_chroma_lightness(accent, p.ext_purple),
        ext_warm_grey: sync_chroma_lightness(accent, p.ext_warm_grey),
        ext_yellow: sync_chroma_lightness(accent, p.ext_yellow),
    }
}

} // verus!
