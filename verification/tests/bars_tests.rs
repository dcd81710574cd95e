use spectrum_bars::bars::{
    decimate_bars, decimation_index, first_positive_index, last_positive_index, print_horizontal_spectrum,
    reverse_bars, scale_bars,
};
use spectrum_bars::config::Config;
use spectrum_bars::fixed::UNIT;

#[test]
fn decimation_index_rounds_to_nearest() {
    assert_eq!(decimation_index(0, 5, 2), 0);
    assert_eq!(decimation_index(1, 5, 2), 1);
    assert_eq!(decimation_index(2, 5, 2), 3);
    assert_eq!(decimation_index(3, 5, 2), 4);
    assert_eq!(decimation_index(1, 10, 5), 1);
    assert_eq!(decimation_index(9, 10, 5), 9);
}

#[test]
fn decimation_index_is_held_inside_the_span() {
    assert_eq!(decimation_index(1, 1, 1), 0);
    assert_eq!(decimation_index(3, 5, 2), 4);
    assert_eq!(decimation_index(100, 5, 2), 4);
    assert_eq!(decimation_index(usize::MAX, usize::MAX, 1), usize::MAX - 1);
}

#[test]
fn decimation_index_never_steps_back() {
    for len in 1usize..20 {
        for bars in 1usize..12 {
            let mut previous = 0usize;
            for k in 0..(2 * bars) {
                let index = decimation_index(k, len, bars);
                assert!(index < len);
                assert!(index >= previous);
                previous = index;
            }
        }
    }
}

#[test]
fn edges_of_the_active_span_are_found() {
    let mags: Vec<u64> = vec![0, 0, 1, 2, 0, 4, 0];
    assert_eq!(first_positive_index(&mags), Some(2));
    assert_eq!(last_positive_index(&mags), Some(5));
    let silent: Vec<u64> = vec![0, 0, 0];
    assert_eq!(first_positive_index(&silent), None);
    assert_eq!(last_positive_index(&silent), None);
    let empty: Vec<u64> = vec![];
    assert_eq!(first_positive_index(&empty), None);
    assert_eq!(last_positive_index(&empty), None);
}

#[test]
fn decimation_keeps_the_first_half_of_the_points() {
    let mags: Vec<u64> = vec![0, 0, 1, 2, 3, 4, 0];
    assert_eq!(decimate_bars(&mags, 2), vec![1, 2]);
    assert_eq!(decimate_bars(&mags, 4), vec![1, 2, 2, 3]);
    assert_eq!(decimate_bars(&mags, 1), vec![1]);
}

#[test]
fn decimation_can_stretch_a_short_span() {
    let mags: Vec<u64> = vec![7, 9];
    assert_eq!(decimate_bars(&mags, 6), vec![7, 7, 7, 9, 9, 9]);
}

#[test]
fn single_sample_maps_to_itself() {
    let mags: Vec<u64> = vec![0, 5, 0];
    assert_eq!(decimate_bars(&mags, 3), vec![5, 5, 5]);
}

#[test]
fn silence_maps_to_no_bars() {
    let silent: Vec<u64> = vec![0; 64];
    assert!(decimate_bars(&silent, 16).is_empty());
    let config = Config::default();
    assert!(print_horizontal_spectrum(16, 20 * UNIT, &silent, &config).is_empty());
}

#[test]
fn empty_input_maps_to_no_bars() {
    let empty: Vec<u64> = vec![];
    assert!(decimate_bars(&empty, 16).is_empty());
    let config = Config::default();
    assert!(print_horizontal_spectrum(16, 20 * UNIT, &empty, &config).is_empty());
}

#[test]
fn zero_bars_asked_gives_no_bars() {
    let mags: Vec<u64> = vec![1, 2, 3];
    assert!(decimate_bars(&mags, 0).is_empty());
    let config = Config::default();
    assert!(print_horizontal_spectrum(0, 20 * UNIT, &mags, &config).is_empty());
}

#[test]
fn bars_are_scaled_linearly() {
    let mut bars: Vec<u64> = vec![0, 1, 5, 10];
    scale_bars(&mut bars, 20 * UNIT, 10 * UNIT);
    assert_eq!(bars, vec![0, 2, 10, 20]);
    let mut bars: Vec<u64> = vec![3, 4];
    scale_bars(&mut bars, 1, 2);
    assert_eq!(bars, vec![1, 2]);
}

#[test]
fn scaling_without_a_reference_gives_zero() {
    let mut bars: Vec<u64> = vec![3, 4];
    scale_bars(&mut bars, 7, 0);
    assert_eq!(bars, vec![0, 0]);
}

#[test]
fn scaling_is_cut_at_the_top_of_the_range() {
    let mut bars: Vec<u64> = vec![u64::MAX, 2];
    scale_bars(&mut bars, u64::MAX, 1);
    assert_eq!(bars, vec![u64::MAX, u64::MAX]);
}

#[test]
fn bars_can_be_turned_around() {
    assert_eq!(reverse_bars(&vec![1, 2, 3]), vec![3, 2, 1]);
    assert_eq!(reverse_bars(&vec![]), Vec::<u64>::new());
}

#[test]
fn horizontal_spectrum_without_spatial_smoothing() {
    let config = Config::default();
    let mags: Vec<u64> = vec![0, 0, 1, 2, 3, 4, 0];
    assert_eq!(print_horizontal_spectrum(2, 20 * UNIT, &mags, &config), vec![2, 4]);
}

#[test]
fn horizontal_spectrum_keeps_the_bars_in_rising_order() {
    let config = Config::default();
    let mags: Vec<u64> = vec![UNIT, 2 * UNIT];
    assert_eq!(print_horizontal_spectrum(2, 10 * UNIT, &mags, &config), vec![UNIT, 2 * UNIT]);
}

#[test]
fn silence_at_the_edges_has_no_influence() {
    let config = Config { sigma: Some(UNIT / 4), ..Config::default() };
    let bare: Vec<u64> = vec![3, 0, 9, 4];
    let padded: Vec<u64> = vec![0, 0, 0, 3, 0, 9, 4, 0];
    assert_eq!(
        print_horizontal_spectrum(5, 30 * UNIT, &bare, &config),
        print_horizontal_spectrum(5, 30 * UNIT, &padded, &config)
    );
    assert_eq!(print_horizontal_spectrum(5, 30 * UNIT, &bare, &config).len(), 5);
}

#[test]
fn horizontal_spectrum_with_spatial_smoothing() {
    let config = Config { sigma: Some(UNIT / 2), ..Config::default() };
    let mags: Vec<u64> = vec![0, 100, 0, 0];
    // span [100], two bars [100, 100], scaled by one, smoothing leaves them
    assert_eq!(print_horizontal_spectrum(2, 10 * UNIT, &mags, &config), vec![100, 100]);
    let mags: Vec<u64> = vec![100, 300];
    // bars [100, 300]; forward [100, 200]; backward [150, 200]
    assert_eq!(print_horizontal_spectrum(2, 10 * UNIT, &mags, &config), vec![150, 200]);
}
