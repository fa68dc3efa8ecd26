//! The tail of one derivation, glued together: once the background is
//! chosen and the accent candidates carry their contrast measurements,
//! the accent, neutral and text roles are resolved, the theme value is
//! assembled, and the secondary palette is re-toned onto the accent.

use vstd::prelude::*;
use crate::avoid::all_wf;
use crate::color::LchColor;
use crate::select::{all_cands_wf, resolve_accent_roles, roles_outcome, AccentCandidate};
use crate::sync::{saturated_half, sync_palette, synced, ThemePalette};
use crate::theme::BgResult;

verus! {

/// Resolve the remaining roles on the pool the background left behind and
/// re-tone the secondary palette onto the accent.
pub fn finish_theme(
    bg: LchColor,
    cands: &Vec<AccentCandidate>,
    avoid_accent: &Vec<LchColor>,
    default_neutral: LchColor,
    randomize: bool,
    rng: &mut rand::rngs::StdRng,
    palette: ThemePalette,
) -> (r: (BgResult, ThemePalette))
    requires
        bg.wf(),
        cands@.len() > 0,
        all_cands_wf(cands@),
        all_wf(avoid_accent@),
        default_neutral.wf(),
        palette.wf(),
    ensures
        r.0.bg == bg,
        exists|ord: Seq<usize>, p3: Seq<LchColor>|
            roles_outcome(
                cands@,
                avoid_accent@,
                default_neutral,
                randomize,
                ord,
                p3,
                r.0.accent,
                r.0.neutral,
                r.0.text,
            ),
        r.0.wf(),
        r.1.accent_blue == synced(r.0.accent, palette.accent_blue),
        r.1.accent_green == synced(r.0.accent, palette.accent_green),
        r.1.accent_indigo == synced(r.0.accent, palette.accent_indigo),
        r.1.accent_orange == synced(r.0.accent, palette.accent_orange),
        r.1.accent_pink == synced(r.0.accent, palette.accent_pink),
        r.1.accent_purple == synced(r.0.accent, palette.accent_purple),
        r.1.accent_red == synced(r.0.accent, palette.accent_red),
        r.1.accent_warm_grey == synced(r.0.accent, palette.accent_warm_grey),
        r.1.accent_yellow == synced(r.0.accent, palette.accent_yellow),
        r.1.bright_green == saturated_half(synced(r.0.accent, palette.bright_green)),
        r.1.bright_orange == saturated_half(synced(r.0.accent, palette.bright_orange)),
        r.1.bright_red == saturated_half(synced(r.0.accent, palette.bright_red)),
        r.1.ext_blue == synced(r.0.accent, palette.ext_blue),
        r.1.ext_indigo == synced(r.0.accent, palette.ext_indigo),
        r.1.ext_orange == synced(r.0.accent, palette.ext_orange),
        r.1.ext_pink == synced(r.0.accent, palette.ext_pink),
        r.1.ext_purple == synced(r.0.accent, palette.ext_purple),
        r.1.ext_warm_grey == synced(r.0.accent, palette.ext_warm_grey),
        r.1.ext_yellow == synced(r.0.accent, palette.ext_yellow),
        r.1.wf(),
{
    let roles = resolve_accent_roles(cands, avoid_accent, default_neutral, randomize, rng);
    let result = BgResult { accent: roles.0, bg, neutral: roles.1, text: roles.2 };
    proof {
        let (ord, p3) = choose|ord: Seq<usize>, p3: Seq<LchColor>|
            roles_outcome(
                cands@,
                avoid_accent@,
                default_neutral,
                randomize,
                ord,
                p3,
                roles.0,
                roles.1,
                roles.2,
            );
        assert(result.accent == roles.0 && result.neutral == roles.1 && result.text == roles.2);
        assert(roles_outcome(
            cands@,
            avoid_accent@,
            default_neutral,
            randomize,
            ord,
            p3,
            result.accent,
            result.neutral,
            result.text,
        ));
    }
    let toned = sync_palette(result.accent, palette);
    let out = (result, toned);
    proof {
        let (ord, p3) = choose|ord: Seq<usize>, p3: Seq<LchColor>|
            roles_outcome(
                cands@,
                avoid_accent@,
                default_neutral,
                randomize,
                ord,
                p3,
                result.accent,
                result.neutral,
                result.text,
            );
        assert(roles_outcome(
            cands@,
            avoid_accent@,
            default_neutral,
            randomize,
            ord,
            p3,
            out.0.accent,
            out.0.neutral,
            out.0.text,
        ));
    }
    out
}

} // verus!
