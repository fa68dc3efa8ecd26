//! Clustering-side properties: determinism of repeated runs, the two-color
//! image example, run selection and the sampling geometry.

use bg_theme::cluster::{best_run_index, target_height, weight_milli};
use bg_theme::rank::centroid_counts;

use kmeans_colors::get_kmeans;
use palette::{FromColor, Lab, Srgb};

fn lab_of_srgb(r: f32, g: f32, b: f32) -> Lab {
    Lab::from_color(Srgb::new(r, g, b))
}

/// Identical samples and an identical seed give bit-identical centroids,
/// assignments and score, run after run.
#[test]
fn repeated_runs_are_identical() {
    let samples: Vec<Lab> = vec![
        lab_of_srgb(0.8, 0.1, 0.2),
        lab_of_srgb(0.7, 0.2, 0.1),
        lab_of_srgb(0.1, 0.6, 0.9),
        lab_of_srgb(0.2, 0.5, 0.8),
        lab_of_srgb(0.4, 0.4, 0.4),
        lab_of_srgb(0.9, 0.9, 0.1),
        lab_of_srgb(0.3, 0.8, 0.3),
        lab_of_srgb(0.05, 0.05, 0.05),
        lab_of_srgb(0.95, 0.95, 0.95),
        lab_of_srgb(0.5, 0.1, 0.7),
    ];
    let a = get_kmeans(8, 40, 10.0, false, &samples, 42);
    let b = get_kmeans(8, 40, 10.0, false, &samples, 42);
    assert_eq!(a.score.to_bits(), b.score.to_bits());
    assert_eq!(a.indices, b.indices);
    assert_eq!(a.centroids.len(), b.centroids.len());
    for (ca, cb) in a.centroids.iter().zip(b.centroids.iter()) {
        assert_eq!(ca.l.to_bits(), cb.l.to_bits());
        assert_eq!(ca.a.to_bits(), cb.a.to_bits());
        assert_eq!(ca.b.to_bits(), cb.b.to_bits());
    }
}

/// A two-by-two image of exactly two colors in equal proportion, clustered
/// with two clusters, converges to those two exact colors with inertia
/// zero and weight one half each.
#[test]
fn two_color_image_two_exact_centroids() {
    let red = lab_of_srgb(0.8, 0.1, 0.1);
    let blue = lab_of_srgb(0.1, 0.2, 0.9);
    let samples: Vec<Lab> = vec![red, blue, red, blue];
    let mut ok = false;
    for seed in 0..16u64 {
        let run = get_kmeans(2, 40, 10.0, false, &samples, seed);
        if run.centroids.len() != 2 {
            continue;
        }
        let exact = samples.iter().zip(run.indices.iter()).all(|(s, &i)| {
            let c = run.centroids[i as usize];
            c.l == s.l && c.a == s.a && c.b == s.b
        });
        if !exact {
            continue;
        }
        assert_eq!(run.score, 0.0);
        let counts = centroid_counts(&run.indices, 2);
        assert_eq!(counts, vec![2, 2]);
        assert_eq!(weight_milli(counts[0] as u64, 4), 500);
        assert_eq!(weight_milli(counts[1] as u64, 4), 500);
        ok = true;
        break;
    }
    assert!(ok, "no seed produced the two exact centroids");
}

/// The run with the lowest score wins; on ties the earliest run.
#[test]
fn lowest_score_earliest_tie_wins() {
    assert_eq!(best_run_index(&vec![5, 3, 3, 7]), 1);
    assert_eq!(best_run_index(&vec![9]), 0);
    assert_eq!(best_run_index(&vec![2, 2, 2]), 0);
    assert_eq!(best_run_index(&vec![4, 1, 0, 0]), 2);
}

/// Run selection does not depend on the order the runs finished in: the
/// winner of a score list is the same entry wherever it stands when the
/// minimum is unique.
#[test]
fn run_selection_order_independent() {
    assert_eq!(best_run_index(&vec![7, 1, 9]), 1);
    assert_eq!(best_run_index(&vec![1, 7, 9]), 0);
    assert_eq!(best_run_index(&vec![9, 7, 1]), 2);
}

/// The downsampling height keeps the aspect ratio of the source.
#[test]
fn aspect_ratio_height() {
    assert_eq!(target_height(1920, 1080, 256), 144);
    assert_eq!(target_height(256, 256, 256), 256);
    assert_eq!(target_height(3840, 2160, 256), 144);
    assert_eq!(target_height(1000, 999, 256), 255);
}

/// Weights are exact milli-fractions.
#[test]
fn weights_are_milli_fractions() {
    assert_eq!(weight_milli(1, 3), 333);
    assert_eq!(weight_milli(3, 3), 1000);
    assert_eq!(weight_milli(0, 7), 0);
}
