use pipecat_audio_metrics::analysis::bins::{Bin, LaneBins};
use pipecat_audio_metrics::analysis::stats::{histogram, summarize};
use pipecat_audio_metrics::millis::Millis;
use pipecat_audio_metrics::scalar::Scalar32;

fn key(x: f32) -> Scalar32 {
    Scalar32::from_bits(x.to_bits()).unwrap()
}

fn bin(min: f32, max: f32) -> Bin {
    Bin { min: key(min), max: key(max) }
}

fn ms(x: f64) -> Millis {
    Millis { ns: (x * 1e6).round() as u64 }
}

fn all_ms(values: &[f64]) -> Vec<Millis> {
    values.iter().map(|&v| ms(v)).collect()
}

#[test]
fn lod_cascade() {
    let mut bins = LaneBins::default();
    for i in 0..64 {
        bins.push_fine_at(i, bin(-1.0, i as f32));
    }
    assert_eq!(bins.level(0).len(), 64);
    assert_eq!(bins.level(1).len(), 8);
    assert_eq!(bins.level(2).len(), 1);
    assert_eq!(bins.level(1)[0].max, key(7.0));
    assert_eq!(bins.level(2)[0].max, key(63.0));
}

#[test]
fn gap_padding() {
    let mut bins = LaneBins::default();
    bins.push_fine_at(0, bin(0.0, 1.0));
    bins.push_fine_at(5, bin(0.0, 2.0));
    assert_eq!(bins.level(0).len(), 6);
    assert!(bins.level(0)[3].is_empty());
}

/// A bin that comes late widens the latest one and leaves the rest alone.
#[test]
fn late_bin_widens_the_latest() {
    let mut bins = LaneBins::default();
    bins.push_fine_at(0, bin(-0.1, 0.1));
    bins.push_fine_at(1, bin(-0.2, 0.2));
    bins.push_fine_at(0, bin(-0.9, 0.15));
    assert_eq!(bins.level(0), &[bin(-0.1, 0.1), bin(-0.9, 0.2)][..]);
}

#[test]
fn levels_and_zoom() {
    let durations: Vec<u64> = (0..4).map(LaneBins::bin_ms).collect();
    assert_eq!(durations, vec![2, 16, 128, 1024]);
    for (px_per_ms, level) in [
        (4.0f32, 0usize),
        (0.5, 0),
        (0.49, 1),
        (0.0625, 1),
        (0.06, 2),
        (0.0078125, 2),
        (0.0078, 3),
        (0.0001, 3),
        (0.0, 3),
    ] {
        assert_eq!(LaneBins::level_for_zoom(key(px_per_ms)), level, "at {px_per_ms}");
    }
    let mut bins = LaneBins::default();
    for i in 0..512 {
        bins.push_fine_at(i, bin(0.0, 0.5));
    }
    assert_eq!(bins.level(3).len(), 1);
    assert_eq!(bins.level(9), bins.level(3));
    bins.clear();
    assert!(bins.level(0).is_empty() && bins.level(3).is_empty());
}

#[test]
fn merging_covers_both() {
    let mut b = bin(-0.25, 0.5);
    b.merge(&bin(-0.5, 0.25));
    assert_eq!(b, bin(-0.5, 0.5));
    assert!(Bin::default().is_empty());
    assert!(!b.is_empty());
    assert!(bin(-0.0, 0.0).is_empty());
}

#[test]
fn percentiles_nearest_rank() {
    let v: Vec<f64> = (1..=100).map(|i| i as f64).collect();
    let s = summarize(&all_ms(&v));
    assert_eq!(s.count, 100);
    assert_eq!(s.p50, ms(50.0));
    assert_eq!(s.p90, ms(90.0));
    assert_eq!(s.p95, ms(95.0));
    assert_eq!(s.p99, ms(99.0));
    assert_eq!(s.min, ms(1.0));
    assert_eq!(s.max, ms(100.0));
}

#[test]
fn single_value() {
    let s = summarize(&all_ms(&[42.0]));
    assert_eq!(s.p50, ms(42.0));
    assert_eq!(s.p99, ms(42.0));
    assert_eq!(s.spread, Some(0));
}

#[test]
fn histogram_counts() {
    let v = vec![0.0, 1.0, 2.0, 3.0, 4.0, 5.0, 6.0, 7.0, 8.0, 9.0];
    let h = histogram(&all_ms(&v), 5);
    assert_eq!(h.edges_ps.len(), 6);
    assert_eq!(h.counts.iter().sum::<usize>(), 10);
    assert_eq!(h.counts, vec![2, 2, 2, 2, 2]);
}

/// Mean and variance of 2, 4, 4, 4, 5, 5, 7, 9: five and four.
#[test]
fn mean_and_variance_are_exact() {
    let values: Vec<Millis> = [9u64, 2, 4, 5, 4, 7, 4, 5].iter().map(|&ns| Millis { ns }).collect();
    let s = summarize(&values);
    assert_eq!(s.sum_ns, 40);
    assert_eq!(s.spread, Some(64 * 4));
    assert_eq!((s.min.ns, s.max.ns), (2, 9));
    assert_eq!((s.p50.ns, s.p90.ns), (4, 9));
}

/// The order of the values does not matter.
#[test]
fn summary_ignores_order() {
    let up: Vec<Millis> = [3u64, 8, 15, 15, 40, 71, 92].iter().map(|&ns| Millis { ns }).collect();
    let mixed: Vec<Millis> =
        [15u64, 92, 3, 40, 8, 71, 15].iter().map(|&ns| Millis { ns }).collect();
    assert_eq!(summarize(&mixed), summarize(&up));
    assert_eq!(summarize(&mixed).p50.ns, 15);
    assert_eq!(summarize(&mixed).p90.ns, 92);
}

/// Where the squares are too large, the spread is left out.
#[test]
fn spread_that_does_not_fit() {
    let values = [Millis { ns: u64::MAX }, Millis { ns: u64::MAX }];
    let s = summarize(&values);
    assert_eq!(s.spread, None);
    assert_eq!(s.sum_ns, 2 * u64::MAX as u128);
    assert_eq!(summarize(&values[..1]).spread, Some(0));
}

#[test]
fn nothing_to_summarise() {
    let s = summarize(&[]);
    assert_eq!((s.count, s.sum_ns, s.spread), (0, 0, Some(0)));
    assert_eq!((s.min.ns, s.max.ns, s.p50.ns, s.p99.ns), (0, 0, 0, 0));
    let h = histogram(&[], 5);
    assert!(h.edges_ps.is_empty() && h.counts.is_empty());
    let h = histogram(&[Millis { ns: 1 }], 0);
    assert!(h.edges_ps.is_empty() && h.counts.is_empty());
}

/// Edges reach from the least to the greatest value, in picoseconds; equal
/// values have a histogram one picosecond wide.
#[test]
fn histogram_edges() {
    let h = histogram(&[Millis { ns: 10 }, Millis { ns: 20 }, Millis { ns: 13 }], 3);
    assert_eq!(h.edges_ps, vec![10_000, 13_333, 16_666, 20_000]);
    assert_eq!(h.counts, vec![2, 0, 1]);
    let h = histogram(&[Millis { ns: 7 }, Millis { ns: 7 }], 2);
    assert_eq!(h.edges_ps, vec![7_000, 7_000, 7_001]);
    assert_eq!(h.counts, vec![2, 0]);
}
