//! Ranking, role selection, palette synchronization, caching decisions and
//! the loop decisions, on concrete values.

use bg_theme::adjust::{lightness_sweep, ContrastSample};
use bg_theme::cache::{cache_key, kmeans_key, plan_derivation, CachePlan};
use bg_theme::daemon::{backoff_secs, changed_wallpaper, WallpaperEntry};
use bg_theme::rank::{
    candidate_colors, centroid_counts, demote_avoided, demote_low_chroma, make_candidates,
    sort_candidates_desc, RankedCandidate,
};
use bg_theme::select::{
    resolve_accent_roles, select_accent, select_background, select_neutral, selection_order,
    take_text, AccentCandidate,
};
use bg_theme::shuffle::left_skewed_shuffle;
use bg_theme::sync::{saturate_half, sync_chroma_lightness, sync_palette, ThemePalette};
use bg_theme::LchColor;

use rand::rngs::StdRng;
use rand::SeedableRng;

fn lch(l: i64, chroma: i64, hue: i64) -> LchColor {
    LchColor { l, chroma, hue }
}

/// A candidate whose own contrast already clears the accent cutoff, so
/// its adjusted form is itself.
fn identity_candidate(color: LchColor) -> AccentCandidate {
    let table: Vec<ContrastSample> = lightness_sweep(&color)
        .into_iter()
        .map(|c| ContrastSample {
            color: c,
            contrast: 0,
        })
        .collect();
    AccentCandidate {
        color,
        original_contrast: 5_000,
        table,
    }
}

/// The whole ranker: weights from the assignment, descending order, then
/// the avoided and low-chroma demotions in sequence.
#[test]
fn ranking_orders_and_demotes() {
    let c0 = lch(40_000, 50_000, 0);
    let c1 = lch(50_000, 5_000, 90_000);
    let c2 = lch(60_000, 30_000, -90_000);
    let centroids = vec![c0, c1, c2];
    let indices: Vec<u8> = vec![0, 0, 0, 1, 1, 2];
    let avoid = vec![lch(60_000, 28_000, -89_000)];
    let pool = bg_theme::rank::rank_candidates(&centroids, &indices, &avoid);
    // By weight: c0, c1, c2; the avoided c2 passes the low-chroma c1.
    assert_eq!(pool, vec![c0, c2, c1]);
}

#[test]
fn counts_weights_and_order() {
    let indices: Vec<u8> = vec![0, 0, 1, 2, 2, 2];
    let counts = centroid_counts(&indices, 3);
    assert_eq!(counts, vec![2, 1, 3]);

    let centroids = vec![
        lch(10_000, 20_000, 0),
        lch(20_000, 30_000, 50_000),
        lch(30_000, 40_000, -50_000),
    ];
    let cands = make_candidates(&centroids, &counts);
    assert_eq!(cands.len(), 3);
    let sorted = sort_candidates_desc(cands);
    let counts_sorted: Vec<usize> = sorted.iter().map(|c| c.count).collect();
    assert_eq!(counts_sorted, vec![3, 2, 1]);
    let colors = candidate_colors(&sorted);
    assert_eq!(colors[0], centroids[2]);
}

#[test]
fn empty_centroids_are_dropped() {
    let indices: Vec<u8> = vec![1, 1, 1];
    let counts = centroid_counts(&indices, 2);
    assert_eq!(counts, vec![0, 3]);
    let centroids = vec![lch(1_000, 1_000, 0), lch(2_000, 2_000, 0)];
    let cands = make_candidates(&centroids, &counts);
    assert_eq!(cands.len(), 1);
    assert_eq!(cands[0], RankedCandidate { color: centroids[1], count: 3 });
}

#[test]
fn avoided_colors_move_to_the_end_in_order() {
    let near_a = lch(40_000, 12_000, 41_000);
    let near_b = lch(60_000, 9_000, 39_000);
    let far = lch(50_000, 30_000, -100_000);
    let avoid = vec![lch(50_000, 10_000, 40_000)];
    let out = demote_avoided(vec![near_a, far, near_b], &avoid);
    assert_eq!(out, vec![far, near_a, near_b]);
}

#[test]
fn low_chroma_colors_move_to_the_end_in_order() {
    let grey_a = lch(40_000, 5_000, 0);
    let vivid = lch(50_000, 45_000, 90_000);
    let grey_b = lch(60_000, 9_999, 10_000);
    let out = demote_low_chroma(vec![grey_a, vivid, grey_b]);
    assert_eq!(out, vec![vivid, grey_a, grey_b]);
}

/// The demotion order over all four classes: saturated clean, saturated
/// avoided, low-chroma clean, low-chroma avoided.
#[test]
fn demotions_order_the_four_classes() {
    let avoid = vec![lch(50_000, 30_000, 0)];
    let clean_hi = lch(40_000, 50_000, 120_000);
    let avoided_hi = lch(45_000, 32_000, 1_000);
    let clean_lo = lch(55_000, 5_000, -100_000);
    let avoided_lo = lch(60_000, 9_000, 2_000);
    let input = vec![avoided_lo, clean_lo, avoided_hi, clean_hi];
    let out = demote_low_chroma(demote_avoided(input, &avoid));
    assert_eq!(out, vec![clean_hi, avoided_hi, clean_lo, avoided_lo]);
}

#[test]
fn background_skips_avoided_and_cuts_nearby_hues() {
    let default_bg = lch(95_000, 2_000, 0);
    let avoid = vec![lch(50_000, 10_000, 40_000)];
    let c0 = lch(40_000, 30_000, 45_000); // pulled to chroma 17 000, lands in the bucket
    let c1 = lch(60_000, 5_000, -90_000); // acceptable as it is
    let (bg, rest) = select_background(vec![c0, c1], default_bg, &avoid);
    assert_eq!(bg, Some(lch(95_000, 5_000, -90_000)));
    assert_eq!(rest, vec![c0]);
}

#[test]
fn background_absent_when_everything_is_avoided() {
    let default_bg = lch(95_000, 2_000, 0);
    let avoid = vec![lch(50_000, 10_000, 40_000)];
    let c0 = lch(40_000, 12_000, 41_000);
    let (bg, rest) = select_background(vec![c0], default_bg, &avoid);
    assert_eq!(bg, None);
    assert_eq!(rest, vec![c0]);
}

#[test]
fn accent_takes_best_score_and_cuts_a_sixth_of_the_widest_gap() {
    let a = identity_candidate(lch(40_000, 30_000, 100_000));
    let b = identity_candidate(lch(30_000, 50_000, -50_000));
    let cands = vec![a, b];
    let order: Vec<usize> = vec![0, 1];
    let (accent, rest) = select_accent(&cands, &order, &Vec::new());
    assert_eq!(accent, lch(30_000, 50_000, -50_000));
    // Widest gap from the accent hue is 150 000; colors within 25 000 go.
    assert_eq!(rest, vec![lch(40_000, 30_000, 100_000)]);
}

#[test]
fn accent_penalizes_avoided_candidates() {
    let vivid_avoided = identity_candidate(lch(40_000, 55_000, 40_000));
    let tame_clean = identity_candidate(lch(30_000, 20_000, -100_000));
    let cands = vec![vivid_avoided, tame_clean];
    let order: Vec<usize> = vec![0, 1];
    let avoid = vec![lch(50_000, 50_000, 41_000)];
    // 55 000 / 10 < 20 000, so the clean candidate wins.
    let (accent, _) = select_accent(&cands, &order, &avoid);
    assert_eq!(accent, lch(30_000, 20_000, -100_000));
}

#[test]
fn accent_accepts_hot_leading_candidate_outright() {
    let hot = identity_candidate(lch(40_000, 70_000, 60_000));
    let hotter_later = identity_candidate(lch(40_000, 90_000, -120_000));
    let cands = vec![hot, hotter_later];
    let order: Vec<usize> = vec![0, 1];
    let (accent, _) = select_accent(&cands, &order, &Vec::new());
    // Position 0 clears the hot-chroma bar inside the leading third and
    // is taken before the higher-scoring later candidate is seen.
    assert_eq!(accent, lch(40_000, 70_000, 60_000));
}

#[test]
fn neutral_takes_first_saturated_or_default() {
    let default_neutral = lch(50_000, 0, 0);
    let pool = vec![lch(40_000, 5_000, 0), lch(60_000, 30_000, 90_000)];
    assert_eq!(select_neutral(&pool, default_neutral), lch(60_000, 30_000, 90_000));
    let greys = vec![lch(40_000, 5_000, 0), lch(60_000, 10_000, 90_000)];
    assert_eq!(select_neutral(&greys, default_neutral), default_neutral);
    assert_eq!(select_neutral(&Vec::new(), default_neutral), default_neutral);
}

#[test]
fn text_takes_the_first_remaining_color() {
    let x = lch(10_000, 1_000, 0);
    let y = lch(20_000, 2_000, 0);
    let (text, rest) = take_text(vec![x, y]);
    assert_eq!(text, Some(x));
    assert_eq!(rest, vec![y]);
    let (none, empty) = take_text(Vec::new());
    assert_eq!(none, None);
    assert!(empty.is_empty());
}

/// Background, accent, neutral and text resolve to pairwise distinct
/// colors on a pool of four viable candidates.
#[test]
fn four_roles_are_pairwise_distinct() {
    let default_bg = lch(10_000, 0, 0);
    let default_neutral = lch(50_000, 0, 0);
    let p0 = lch(40_000, 20_000, 0);
    let p1 = lch(45_000, 55_000, 90_000);
    let p2 = lch(50_000, 5_000, -120_000);
    let p3 = lch(60_000, 30_000, 150_000);
    let (bg, pool2) = select_background(vec![p0, p1, p2, p3], default_bg, &Vec::new());
    let bg = bg.expect("a background must be chosen");
    assert_eq!(pool2, vec![p1, p2, p3]);
    let cands: Vec<AccentCandidate> = pool2.iter().map(|c| identity_candidate(*c)).collect();
    let mut rng = StdRng::seed_from_u64(11);
    let (accent, neutral, text) =
        resolve_accent_roles(&cands, &Vec::new(), default_neutral, false, &mut rng);
    let text = text.expect("a text tint must be present");
    let roles = [bg, accent, neutral, text];
    for i in 0..roles.len() {
        for j in 0..roles.len() {
            if i != j {
                assert_ne!(roles[i], roles[j]);
            }
        }
    }
    assert_eq!(accent, p1);
    assert_eq!(neutral, p3);
    assert_eq!(text, p2);
}

/// The composed tail of a derivation: roles resolved, theme assembled,
/// palette re-toned onto the accent.
#[test]
fn finish_theme_assembles_roles_and_palette() {
    let bg = lch(10_000, 15_000, 0);
    let cands = vec![
        identity_candidate(lch(45_000, 55_000, 90_000)),
        identity_candidate(lch(50_000, 5_000, -120_000)),
        identity_candidate(lch(60_000, 30_000, 150_000)),
    ];
    let mut rng = StdRng::seed_from_u64(2);
    let slot = |hue: i64| lch(70_000, 30_000, hue);
    let palette = ThemePalette {
        accent_blue: slot(-100_000),
        accent_green: slot(140_000),
        accent_indigo: slot(-80_000),
        accent_orange: slot(60_000),
        accent_pink: slot(-10_000),
        accent_purple: slot(-40_000),
        accent_red: slot(30_000),
        accent_warm_grey: slot(80_000),
        accent_yellow: slot(100_000),
        bright_green: slot(141_000),
        bright_orange: slot(61_000),
        bright_red: slot(31_000),
        ext_blue: slot(-101_000),
        ext_indigo: slot(-81_000),
        ext_orange: slot(62_000),
        ext_pink: slot(-11_000),
        ext_purple: slot(-41_000),
        ext_warm_grey: slot(81_000),
        ext_yellow: slot(101_000),
    };
    let (result, toned) = bg_theme::derive::finish_theme(
        bg,
        &cands,
        &Vec::new(),
        lch(50_000, 0, 0),
        false,
        &mut rng,
        palette,
    );
    assert_eq!(result.bg, bg);
    assert_eq!(result.accent, lch(45_000, 55_000, 90_000));
    assert_eq!(result.neutral, lch(60_000, 30_000, 150_000));
    assert_eq!(result.text, Some(lch(50_000, 5_000, -120_000)));
    assert_eq!(toned.accent_red, lch(45_000, 55_000, 30_000));
    assert_eq!(toned.bright_orange, lch(45_000, 91_500, 61_000));
}

#[test]
fn shuffle_keeps_the_elements() {
    let v: Vec<LchColor> = (0..20).map(|i| lch(i * 1_000, i * 500, i * 3_000)).collect();
    let mut rng = StdRng::seed_from_u64(7);
    let shuffled = left_skewed_shuffle(v.clone(), None, &mut rng);
    assert_eq!(shuffled.len(), v.len());
    let key = |c: &LchColor| (c.l, c.chroma, c.hue);
    let mut a: Vec<_> = v.iter().map(key).collect();
    let mut b: Vec<_> = shuffled.iter().map(key).collect();
    a.sort();
    b.sort();
    assert_eq!(a, b);
    // The seeded generator actually moves something.
    assert_ne!(shuffled, v);
}

#[test]
fn shuffle_with_empty_window_changes_nothing() {
    let v: Vec<LchColor> = (0..5).map(|i| lch(i * 2_000, 0, 0)).collect();
    let mut rng = StdRng::seed_from_u64(3);
    let out = left_skewed_shuffle(v.clone(), Some(0), &mut rng);
    assert_eq!(out, v);
}

#[test]
fn selection_order_is_identity_without_randomization() {
    let mut rng = StdRng::seed_from_u64(5);
    let order = selection_order(6, Some(3), false, &mut rng);
    assert_eq!(order, vec![0, 1, 2, 3, 4, 5]);
    let randomized = selection_order(6, Some(3), true, &mut rng);
    let mut sorted = randomized.clone();
    sorted.sort();
    assert_eq!(sorted, vec![0, 1, 2, 3, 4, 5]);
}

#[test]
fn sync_overwrites_tone_and_keeps_hue() {
    let target = lch(40_000, 50_000, 10_000);
    let slot = lch(80_000, 20_000, -30_000);
    assert_eq!(sync_chroma_lightness(target, slot), lch(40_000, 50_000, -30_000));
}

#[test]
fn saturation_boost_moves_halfway_to_the_ceiling() {
    assert_eq!(saturate_half(lch(40_000, 28_000, 5_000)), lch(40_000, 78_000, 5_000));
    assert_eq!(saturate_half(lch(40_000, 128_000, 5_000)), lch(40_000, 128_000, 5_000));
}

#[test]
fn palette_reads_as_the_accent_tone() {
    let accent = lch(45_000, 60_000, 20_000);
    let slot = |hue: i64| lch(70_000, 30_000, hue);
    let p = ThemePalette {
        accent_blue: slot(-100_000),
        accent_green: slot(140_000),
        accent_indigo: slot(-80_000),
        accent_orange: slot(60_000),
        accent_pink: slot(-10_000),
        accent_purple: slot(-40_000),
        accent_red: slot(30_000),
        accent_warm_grey: slot(80_000),
        accent_yellow: slot(100_000),
        bright_green: slot(141_000),
        bright_orange: slot(61_000),
        bright_red: slot(31_000),
        ext_blue: slot(-101_000),
        ext_indigo: slot(-81_000),
        ext_orange: slot(62_000),
        ext_pink: slot(-11_000),
        ext_purple: slot(-41_000),
        ext_warm_grey: slot(81_000),
        ext_yellow: slot(101_000),
    };
    let out = sync_palette(accent, p);
    assert_eq!(out.accent_blue, lch(45_000, 60_000, -100_000));
    assert_eq!(out.accent_yellow, lch(45_000, 60_000, 100_000));
    assert_eq!(out.ext_warm_grey, lch(45_000, 60_000, 81_000));
    // Bright slots take the boost on top: 60 000 + (128 000 - 60 000) / 2.
    assert_eq!(out.bright_red, lch(45_000, 94_000, 31_000));
    assert_eq!(out.bright_green, lch(45_000, 94_000, 141_000));
}

#[test]
fn cache_keys_normalize_the_path_and_mode() {
    let path: Vec<u8> = b"pictures/wall.png".to_vec();
    let dark = cache_key(&path, true);
    assert_eq!(dark, b"pictures_wall.png_true".to_vec());
    let light = cache_key(&path, false);
    assert_eq!(light, b"pictures_wall.png_false".to_vec());
    assert_eq!(kmeans_key(&dark), b"pictures_wall.png_true_kmeans".to_vec());
}

/// With the final cache populated for a key, a derivation bypasses the
/// whole pipeline: the plan never reaches the clustering engine.
#[test]
fn final_cache_hit_bypasses_the_pipeline() {
    assert_eq!(plan_derivation(true, true), CachePlan::UseFinal);
    assert_eq!(plan_derivation(true, false), CachePlan::UseFinal);
    assert_eq!(plan_derivation(false, true), CachePlan::UseRawClusters);
    assert_eq!(plan_derivation(false, false), CachePlan::FullPipeline);
}

#[test]
fn backoff_grows_and_is_capped() {
    assert_eq!(backoff_secs(0, None), 1);
    assert_eq!(backoff_secs(3, Some(100)), 8);
    assert_eq!(backoff_secs(3, Some(5)), 5);
    assert_eq!(backoff_secs(70, None), u64::MAX);
}

fn entry(name: &str, source: &str, is_path: bool) -> WallpaperEntry {
    WallpaperEntry {
        name: name.as_bytes().to_vec(),
        source: source.as_bytes().to_vec(),
        is_path,
    }
}

#[test]
fn wallpaper_change_detection() {
    let prev = vec![entry("eDP-1", "a.png", true), entry("HDMI-1", "b.png", true)];
    let cur_changed = vec![entry("eDP-1", "a.png", true), entry("HDMI-1", "c.png", true)];
    assert_eq!(changed_wallpaper(Some(&prev), &cur_changed), Some(1));
    let cur_same = prev.clone();
    assert_eq!(changed_wallpaper(Some(&prev), &cur_same), Some(0));
    assert_eq!(changed_wallpaper(None, &cur_same), Some(0));
    let empty: Vec<WallpaperEntry> = Vec::new();
    assert_eq!(changed_wallpaper(Some(&prev), &empty), None);
    let cur_new_output = vec![entry("eDP-1", "a.png", true), entry("DP-3", "b.png", true)];
    assert_eq!(changed_wallpaper(Some(&prev), &cur_new_output), Some(1));
}
