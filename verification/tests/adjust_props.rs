//! Behavior of the contrast-driven lightness adjustment, on concrete
//! tables and against real contrast measurements.

use bg_theme::adjust::{adjust_lightness_for_contrast, lightness_sweep, ContrastSample};
use bg_theme::LchColor;

use palette::color_difference::Wcag21RelativeContrast;
use palette::{Clamp, FromColor, Lch, SrgbLuma};

/// Milli-unit contrast of a fixed-point color against a reference,
/// measured the way the caller of the library does it.
fn contrast_milli(c: &LchColor, reference: &LchColor) -> i64 {
    let a = Lch::new(
        c.l as f32 / 1000.0,
        c.chroma as f32 / 1000.0,
        c.hue as f32 / 1000.0,
    );
    let b = Lch::new(
        reference.l as f32 / 1000.0,
        reference.chroma as f32 / 1000.0,
        reference.hue as f32 / 1000.0,
    );
    let a_luma = SrgbLuma::from_color(a);
    let b_luma = SrgbLuma::from_color(b);
    (a_luma.relative_contrast(b_luma) * 1000.0) as i64
}

/// The measured sweep of a color against a reference.
fn measured_table(original: &LchColor, reference: &LchColor) -> Vec<ContrastSample> {
    lightness_sweep(original)
        .into_iter()
        .map(|color| ContrastSample {
            color,
            contrast: contrast_milli(&color, reference),
        })
        .collect()
}

fn synthetic_table(original: &LchColor, contrasts: &[i64; 41]) -> Vec<ContrastSample> {
    lightness_sweep(original)
        .into_iter()
        .zip(contrasts.iter())
        .map(|(color, &contrast)| ContrastSample { color, contrast })
        .collect()
}

/// A color already clearing the cutoff comes back unchanged, exactly.
#[test]
fn identity_when_contrast_already_met() {
    let original = LchColor {
        l: 53_300,
        chroma: 41_700,
        hue: 29_500,
    };
    let table = synthetic_table(&original, &[0; 41]);
    let adjusted = adjust_lightness_for_contrast(original, 4_500, 4_500, &table);
    assert_eq!(adjusted, original);
    let adjusted = adjust_lightness_for_contrast(original, 9_999, 4_500, &table);
    assert_eq!(adjusted, original);
}

/// When some sampled lightness clears the cutoff, the result is a sample
/// that clears it, and among those the one closest to the original
/// lightness.
#[test]
fn satisfaction_picks_nearest_clearing_sample() {
    let original = LchColor {
        l: 50_000,
        chroma: 30_000,
        hue: -120_000,
    };
    let mut contrasts = [1_000i64; 41];
    // Clearing samples at lightness 10, 65 and 100.
    contrasts[4] = 5_000;
    contrasts[26] = 4_700;
    contrasts[40] = 9_000;
    let table = synthetic_table(&original, &contrasts);
    let adjusted = adjust_lightness_for_contrast(original, 1_200, 4_500, &table);
    // 65 is closest to 50 among {10, 65, 100}.
    assert_eq!(adjusted.l, 65_000);
    assert_eq!(adjusted.chroma, original.chroma);
    assert_eq!(adjusted.hue, original.hue);
    let cleared = table.iter().any(|s| s.color == adjusted && s.contrast > 4_500);
    assert!(cleared);
}

/// On a tie in lightness distance the earlier sample wins.
#[test]
fn satisfaction_tie_takes_earlier_sample() {
    let original = LchColor {
        l: 50_000,
        chroma: 20_000,
        hue: 0,
    };
    let mut contrasts = [0i64; 41];
    contrasts[18] = 6_000; // lightness 45, distance 5
    contrasts[22] = 6_000; // lightness 55, distance 5
    let table = synthetic_table(&original, &contrasts);
    let adjusted = adjust_lightness_for_contrast(original, 0, 4_500, &table);
    assert_eq!(adjusted.l, 45_000);
}

/// When no sample clears the cutoff, the result is the sample of maximum
/// contrast; among equal maxima the last one.
#[test]
fn fallback_takes_max_contrast_sample() {
    let original = LchColor {
        l: 10_000,
        chroma: 55_000,
        hue: 77_000,
    };
    let mut contrasts = [500i64; 41];
    contrasts[3] = 4_400;
    contrasts[9] = 4_400;
    let table = synthetic_table(&original, &contrasts);
    let adjusted = adjust_lightness_for_contrast(original, 100, 4_500, &table);
    // Both maxima fall short of the cutoff; the later one wins.
    assert_eq!(adjusted.l, 22_500);
}

/// Against a dark reference (lightness 20), a saturated pair that fails
/// the cutoff at lightness 20 but clears it at lightness 90 is raised to
/// the clearing sampled lightness nearest its own — the first sample
/// past the measured clearing threshold — and the result clears the
/// cutoff with hue and chroma untouched.
#[test]
fn dark_reference_raises_lightness_to_first_clearing_sample() {
    let reference = LchColor {
        l: 20_000,
        chroma: 0,
        hue: 0,
    };
    let original = LchColor {
        l: 20_000,
        chroma: 100_000,
        hue: 306_000 - 360_000,
    };
    let table = measured_table(&original, &reference);
    let at_own = contrast_milli(&original, &reference);
    // The premise: too little contrast at lightness 20, enough at 90.
    assert!(at_own < 4_500);
    assert!(table[36].contrast > 4_500);
    let adjusted = adjust_lightness_for_contrast(original, at_own, 4_500, &table);
    assert!(contrast_milli(&adjusted, &reference) > 4_500);
    assert_eq!(adjusted.chroma, original.chroma);
    assert_eq!(adjusted.hue, original.hue);
    // Contrast grows with lightness against the dark reference, so the
    // clearing sample nearest the original is the first one past the
    // threshold; no earlier sample clears the cutoff.
    let first_clearing = table
        .iter()
        .find(|s| s.contrast > 4_500)
        .expect("some sample clears the cutoff");
    assert_eq!(adjusted, first_clearing.color);
    assert!(adjusted.l > original.l);
}
