use spectrum_bars::fixed::{blend_value, scale_by, UNIT};
use spectrum_bars::smooth::{spatial_smooth_bins, TemporalSmoother};

#[test]
fn blend_is_a_weighted_mean() {
    assert_eq!(blend_value(0, 1000, 50_000), 50);
    assert_eq!(blend_value(50, 1000, 50_000), 97);
    assert_eq!(blend_value(100, 200, UNIT / 2), 150);
    assert_eq!(blend_value(100, 200, 0), 100);
    assert_eq!(blend_value(100, 200, UNIT), 200);
    assert_eq!(blend_value(u64::MAX, u64::MAX, 333_333), u64::MAX);
    assert_eq!(blend_value(u64::MAX, 0, UNIT), 0);
}

#[test]
fn blend_stays_between_its_arguments() {
    let values: [u64; 5] = [0, 1, 17, 1_000_003, u64::MAX];
    let weights: [u64; 5] = [0, 1, 50_000, 999_999, UNIT];
    for &a in values.iter() {
        for &b in values.iter() {
            for &w in weights.iter() {
                let r = blend_value(a, b, w);
                assert!(r >= a.min(b));
                assert!(r <= a.max(b));
            }
        }
    }
}

#[test]
fn scale_by_is_exact() {
    assert_eq!(scale_by(7, 3, 2), 10);
    assert_eq!(scale_by(7, 0, 2), 0);
    assert_eq!(scale_by(7, 3, 0), 0);
    assert_eq!(scale_by(u64::MAX, 2, 1), u64::MAX);
    assert_eq!(scale_by(u64::MAX, u64::MAX, u64::MAX), u64::MAX);
}

#[test]
fn smoother_starts_at_zero() {
    let smoother = TemporalSmoother::new(3);
    assert_eq!(smoother.values(), &vec![0, 0, 0]);
}

#[test]
fn smoother_follows_the_moving_average() {
    let mut smoother = TemporalSmoother::new(3);
    smoother.update(&vec![1000, 0, 20], 50_000);
    assert_eq!(smoother.values(), &vec![50, 0, 1]);
    smoother.update(&vec![1000, 0, 20], 50_000);
    assert_eq!(smoother.values(), &vec![97, 0, 1]);
}

#[test]
fn smoother_with_alpha_one_takes_the_sample() {
    let mut smoother = TemporalSmoother::new(2);
    smoother.update(&vec![7, 9], UNIT);
    assert_eq!(smoother.values(), &vec![7, 9]);
}

#[test]
fn smoother_with_alpha_zero_keeps_its_value() {
    let mut smoother = TemporalSmoother::new(2);
    smoother.update(&vec![7, 9], UNIT);
    smoother.update(&vec![100, 100], 0);
    assert_eq!(smoother.values(), &vec![7, 9]);
}

#[test]
fn smoother_keeps_bins_a_short_vector_does_not_reach() {
    let mut smoother = TemporalSmoother::new(3);
    smoother.update(&vec![8, 8, 8], UNIT);
    smoother.update(&vec![0], UNIT);
    assert_eq!(smoother.values(), &vec![0, 8, 8]);
}

#[test]
fn smoother_output_lies_between_old_and_new() {
    let mut smoother = TemporalSmoother::new(4);
    smoother.update(&vec![10, 20, 30, 40], UNIT);
    let before = smoother.values().clone();
    let clean: Vec<u64> = vec![40, 20, 0, 41];
    smoother.update(&clean, 300_000);
    for i in 0..4 {
        let now = smoother.values()[i];
        assert!(now >= before[i].min(clean[i]));
        assert!(now <= before[i].max(clean[i]));
    }
    assert_eq!(smoother.values(), &vec![19, 20, 21, 40]);
}

#[test]
fn spatial_smoothing_blends_both_ways() {
    let mut bars: Vec<u64> = vec![0, 100];
    spatial_smooth_bins(&mut bars, UNIT / 2);
    assert_eq!(bars, vec![25, 50]);
    let mut bars: Vec<u64> = vec![0, 0, 80];
    spatial_smooth_bins(&mut bars, UNIT / 2);
    // forward [0, 0, 40]; backward [10, 20, 40]
    assert_eq!(bars, vec![10, 20, 40]);
}

#[test]
fn spatial_smoothing_keeps_constant_bars() {
    for &sigma in [0u64, 1, 50_000, UNIT / 2, UNIT - 1, UNIT].iter() {
        for len in 0usize..9 {
            let mut bars: Vec<u64> = vec![1_234_567; len];
            spatial_smooth_bins(&mut bars, sigma);
            assert_eq!(bars, vec![1_234_567; len]);
        }
    }
    let mut bars: Vec<u64> = vec![u64::MAX; 5];
    spatial_smooth_bins(&mut bars, 123_456);
    assert_eq!(bars, vec![u64::MAX; 5]);
}

#[test]
fn spatial_smoothing_keeps_the_length() {
    for len in 0usize..12 {
        let mut bars: Vec<u64> = (0..len as u64).map(|v| v * v).collect();
        spatial_smooth_bins(&mut bars, 250_000);
        assert_eq!(bars.len(), len);
    }
}

#[test]
fn spatial_smoothing_of_short_vectors_is_the_identity() {
    let mut none: Vec<u64> = vec![];
    spatial_smooth_bins(&mut none, UNIT / 2);
    assert!(none.is_empty());
    let mut one: Vec<u64> = vec![42];
    spatial_smooth_bins(&mut one, UNIT / 2);
    assert_eq!(one, vec![42]);
}

#[test]
fn spatial_smoothing_at_the_ends_of_sigma() {
    // sigma one: every bar keeps its own value on the way forward and takes
    // its right neighbour on the way back
    let mut bars: Vec<u64> = vec![1, 2, 3];
    spatial_smooth_bins(&mut bars, UNIT);
    assert_eq!(bars, vec![3, 3, 3]);
    // sigma zero: the first bar spreads forward, nothing comes back
    let mut bars: Vec<u64> = vec![1, 2, 3];
    spatial_smooth_bins(&mut bars, 0);
    assert_eq!(bars, vec![1, 1, 1]);
}
