use channel_stats::gaussian::{estimate_gaussian_params, estimate_gaussian_seed, GaussianSeed, SigmaEstimate};
use channel_stats::histogram::{build_histograms, channel_histogram, DEFAULT_MIN_SAMPLES};
use channel_stats::peaks::{find_peak, find_peaks};
use channel_stats::rank::{count_up_to, kth_smallest};
use channel_stats::shape::{rows_have_len, ShapeError};
use channel_stats::weighted::{weighted_mean, weighted_mean_rows, WeightedMean};

fn as_f64(m: WeightedMean) -> f64 {
    m.numerator as f64 / m.denominator as f64
}

#[test]
fn histogram_omits_channel_below_threshold() {
    let mut values = Vec::new();
    let mut ids = Vec::new();
    for i in 0..99 {
        values.push(i % 10);
        ids.push(7);
    }
    for i in 0..100 {
        values.push(i % 10);
        ids.push(8);
    }
    let m = build_histograms(&values, &ids, &vec![7, 8], 10, 0, 10, DEFAULT_MIN_SAMPLES).unwrap();
    assert!(!m.contains_key(&7));
    assert!(m.contains_key(&8));
    assert_eq!(m.len(), 1);
    assert_eq!(m[&8].sample_count, 100);
    assert_eq!(m[&8].counts, vec![10u64; 10]);
}

#[test]
fn histogram_excludes_range_max_and_other_channels() {
    let values = vec![0, 1, 2, 5, 9, 10, -1, 3];
    let ids = vec![1, 1, 1, 1, 1, 1, 1, 2];
    let h = channel_histogram(&values, &ids, 1, 5, 0, 10);
    assert_eq!(h.sample_count, 5);
    assert_eq!(h.counts, vec![2, 1, 1, 0, 1]);
    assert_eq!(h.counts.iter().sum::<u64>(), h.sample_count as u64);
}

#[test]
fn histogram_counts_sum_to_sample_count() {
    let values: Vec<i64> = (0..500).map(|i| (i * 37) % 130 - 15).collect();
    let ids: Vec<i32> = (0..500).map(|i| (i % 3) as i32).collect();
    let m = build_histograms(&values, &ids, &vec![0, 1, 2, 9], 7, 0, 100, 100).unwrap();
    assert!(!m.contains_key(&9));
    for c in 0..3 {
        let h = &m[&c];
        assert_eq!(h.counts.len(), 7);
        assert_eq!(h.counts.iter().sum::<u64>(), h.sample_count as u64);
    }
}

#[test]
fn histogram_with_zero_min_samples_keeps_absent_channel() {
    let m = build_histograms(&vec![1, 2], &vec![1, 1], &vec![4], 3, 0, 3, 0).unwrap();
    assert_eq!(m[&4].sample_count, 0);
    assert_eq!(m[&4].counts, vec![0, 0, 0]);
}

#[test]
fn histogram_uneven_bin_width() {
    // Width 10 / 3: bins [0, 3.33), [3.33, 6.67), [6.67, 10).
    let values = vec![3, 4, 6, 7, 9];
    let ids = vec![0; 5];
    let h = channel_histogram(&values, &ids, 0, 3, 0, 10);
    assert_eq!(h.counts, vec![1, 2, 2]);
}

#[test]
fn histogram_rejects_unpaired_stream() {
    let r = build_histograms(&vec![1, 2, 3], &vec![0, 0], &vec![0], 4, 0, 4, 1);
    assert_eq!(r.unwrap_err(), ShapeError::StreamLengthMismatch);
}

#[test]
fn weighted_mean_zero_weights_give_zero() {
    let r = weighted_mean(&vec![1, 2, 3], &vec![0, 0, 0]);
    assert_eq!(r, WeightedMean { numerator: 0, denominator: 1 });
    assert_eq!(as_f64(r), 0.0);
}

#[test]
fn weighted_mean_equal_weights() {
    let r = weighted_mean(&vec![1, 2, 3], &vec![1, 1, 1]);
    assert_eq!(r, WeightedMean { numerator: 6, denominator: 3 });
    assert_eq!(as_f64(r), 2.0);
}

#[test]
fn weighted_mean_rows_exact_values() {
    let values = vec![vec![1, 2, 3], vec![10, -4, 0], vec![5, 5, 5]];
    let weights = vec![vec![0, 0, 0], vec![1, 3, 2], vec![2, -1, -1]];
    let r = weighted_mean_rows(&values, &weights).unwrap();
    assert_eq!(r.len(), 3);
    assert_eq!(as_f64(r[0]), 0.0);
    assert_eq!(r[1], WeightedMean { numerator: -2, denominator: 6 });
    assert_eq!(r[2], WeightedMean { numerator: 0, denominator: 1 });
}

#[test]
fn weighted_mean_rows_rejects_shape_mismatch() {
    let r = weighted_mean_rows(&vec![vec![1, 2]], &vec![vec![1, 2], vec![3, 4]]);
    assert_eq!(r.unwrap_err(), ShapeError::RowCountMismatch);
    let r = weighted_mean_rows(&vec![vec![1, 2], vec![1]], &vec![vec![1, 2], vec![3, 4]]);
    assert_eq!(r.unwrap_err(), ShapeError::RowLengthMismatch);
}

#[test]
fn peak_tie_goes_to_first_bin() {
    assert_eq!(find_peak(&vec![5, 5, 3], &vec![1, 2, 3], 0, 10), 1);
}

#[test]
fn peak_without_center_in_range_is_zero() {
    assert_eq!(find_peak(&vec![5, 9, 3], &vec![1, 2, 3], 4, 10), 0);
    assert_eq!(find_peak(&vec![], &vec![], 0, 10), 0);
}

#[test]
fn peak_search_is_restricted_to_range() {
    // The largest count sits outside the range; the bounds are inclusive.
    assert_eq!(find_peak(&vec![100, 4, 7, 2, 50], &vec![10, 20, 30, 40, 50], 20, 40), 30);
    // All counts in range are zero: the first center in range is taken.
    assert_eq!(find_peak(&vec![9, 0, 0], &vec![1, 2, 3], 2, 3), 2);
}

#[test]
fn peaks_rejects_misaligned_row() {
    let r = find_peaks(&vec![vec![1, 2, 3], vec![1, 2]], &vec![1, 2, 3], 0, 5);
    assert_eq!(r.unwrap_err(), ShapeError::RowLengthMismatch);
}

#[test]
fn row_order_is_preserved_under_permutation() {
    let centers = vec![1, 2, 3, 4];
    let rows = vec![vec![9, 1, 1, 1], vec![1, 9, 1, 1], vec![1, 1, 1, 9]];
    let permuted = vec![rows[2].clone(), rows[0].clone(), rows[1].clone()];
    let a = find_peaks(&rows, &centers, 0, 10).unwrap();
    let b = find_peaks(&permuted, &centers, 0, 10).unwrap();
    assert_eq!(a, vec![1, 2, 4]);
    assert_eq!(b, vec![a[2], a[0], a[1]]);

    let values = vec![vec![1, 2], vec![3, 5], vec![7, 7]];
    let weights = vec![vec![1, 1], vec![1, 3], vec![0, 0]];
    let pv = vec![values[1].clone(), values[2].clone(), values[0].clone()];
    let pw = vec![weights[1].clone(), weights[2].clone(), weights[0].clone()];
    let a = weighted_mean_rows(&values, &weights).unwrap();
    let b = weighted_mean_rows(&pv, &pw).unwrap();
    assert_eq!(b, vec![a[1], a[2], a[0]]);

    let centers: Vec<i64> = (1..=21).collect();
    let tri: Vec<u64> = (0..21).map(|i: i64| (10 - (i - 10).abs()) as u64).collect();
    let flat = vec![3u64; 21];
    let hists = vec![tri.clone(), flat.clone()];
    let a = estimate_gaussian_params(&hists, &centers, &vec![11, 0], 0, 2_000_000).unwrap();
    let b = estimate_gaussian_params(&vec![flat, tri], &centers, &vec![0, 11], 0, 2_000_000).unwrap();
    assert_eq!(b, vec![a[1], a[0]]);
}

fn zero_seed() -> GaussianSeed {
    GaussianSeed { amplitude: 0, mean: 0, sigma: SigmaEstimate::Zero, offset: 0 }
}

#[test]
fn gaussian_zero_peak_gives_zero_row() {
    let centers: Vec<i64> = (1..=30).collect();
    let row: Vec<u64> = (0..30).map(|i| i * 3 + 1).collect();
    assert_eq!(estimate_gaussian_seed(&row, &centers, 0, 0, 2_000_000), zero_seed());
}

#[test]
fn gaussian_small_window_gives_zero_row() {
    let centers: Vec<i64> = (1..=30).collect();
    let row: Vec<u64> = vec![4; 30];
    // Window [9, 18] holds ten bins, [10, 18] only nine.
    assert_ne!(estimate_gaussian_seed(&row, &centers, 12, 750_000, 1_500_000), zero_seed());
    assert_eq!(estimate_gaussian_seed(&row, &centers, 20, 500_000, 900_000), zero_seed());
}

#[test]
fn gaussian_half_max_width_of_triangle() {
    let centers: Vec<i64> = (1..=21).collect();
    let row: Vec<u64> = (0..21).map(|i: i64| (10 - (i - 10).abs()) as u64).collect();
    let s = estimate_gaussian_seed(&row, &centers, 11, 0, 2_000_000);
    assert_eq!(s.amplitude, 10);
    assert_eq!(s.mean, 11);
    // Counts reach half the amplitude between centers 6 and 16.
    assert_eq!(s.sigma, SigmaEstimate::HalfMaxWidth(10));
    // 21 counts sorted: 0, 0, 1, 1, ... ; position 21 / 10 = 2.
    assert_eq!(s.offset, 1);
    let width = match s.sigma {
        SigmaEstimate::HalfMaxWidth(w) => w as f64,
        _ => panic!("expected a half-maximum width"),
    };
    let sigma = width / (2.0 * (2.0 * 2f64.ln()).sqrt());
    assert!((sigma - 10.0 / 2.354820045).abs() < 1e-6);
}

#[test]
fn gaussian_window_span_fallback() {
    let centers: Vec<i64> = (0..30).collect();
    let mut row = vec![0u64; 30];
    row[10] = 100;
    let s = estimate_gaussian_seed(&row, &centers, 10, 500_000, 1_500_000);
    assert_eq!(s.amplitude, 100);
    assert_eq!(s.sigma, SigmaEstimate::WindowSpan(10_000_000));
    assert_eq!(s.offset, 0);
}

#[test]
fn gaussian_offset_of_ten_bins_is_minimum() {
    let centers: Vec<i64> = (1..=10).collect();
    let row: Vec<u64> = vec![7, 3, 9, 8, 6, 5, 4, 9, 8, 7];
    let s = estimate_gaussian_seed(&row, &centers, 5, 0, 2_000_000);
    assert_eq!(s.offset, 3);
    assert_eq!(s.amplitude, 9);
}

#[test]
fn gaussian_params_reject_bad_shapes() {
    let centers = vec![1, 2, 3];
    let r = estimate_gaussian_params(&vec![vec![1, 2, 3]], &centers, &vec![1, 2], 0, 1);
    assert_eq!(r.unwrap_err(), ShapeError::RowCountMismatch);
    let r = estimate_gaussian_params(&vec![vec![1, 2]], &centers, &vec![1], 0, 1);
    assert_eq!(r.unwrap_err(), ShapeError::RowLengthMismatch);
}

#[test]
fn kth_smallest_picks_sorted_position() {
    let s = vec![5, 1, 4, 1, 3, 9, 2, 6, 5, 3, 5, 8];
    assert_eq!(kth_smallest(&s, 0), 1);
    assert_eq!(kth_smallest(&s, 1), 1);
    assert_eq!(kth_smallest(&s, 2), 2);
    assert_eq!(kth_smallest(&s, 6), 5);
    assert_eq!(kth_smallest(&s, 11), 9);
    assert_eq!(count_up_to(&s, 5), 9);
}

#[test]
fn rows_have_len_checks_every_row() {
    assert!(rows_have_len(&vec![vec![1u64, 2], vec![3, 4]], 2));
    assert!(!rows_have_len(&vec![vec![1u64, 2], vec![3]], 2));
    assert!(rows_have_len::<u64>(&vec![], 5));
}
