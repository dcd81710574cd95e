use spectrum_bars::band::BandRange;
use spectrum_bars::config::Config;
use spectrum_bars::fixed::UNIT;
use spectrum_bars::noise::CalibrationState;
use spectrum_bars::pipeline::Pipeline;

fn small_config() -> Config {
    Config {
        fft_size: 8,
        alpha: UNIT,
        max_magnitude: 10 * UNIT,
        noise_profile_time: 2 * UNIT,
        f_min: UNIT,
        f_max: 5 * UNIT,
        ..Config::default()
    }
}

#[test]
fn pipeline_starts_profiling() {
    let pipeline = Pipeline::new(small_config(), 8);
    assert_eq!(pipeline.state(), CalibrationState::Profiling);
    assert_eq!(pipeline.band(), BandRange { skip: 1, take: 4 });
    assert_eq!(pipeline.config().fft_size, 8);
}

#[test]
fn pipeline_shows_nothing_while_profiling() {
    let mut pipeline = Pipeline::new(small_config(), 8);
    assert!(pipeline.process_spectrum(&vec![9, 1, 2, 3, 4, 9, 9, 9], 2, 10 * UNIT).is_none());
    assert_eq!(pipeline.state(), CalibrationState::Profiling);
    assert!(pipeline.process_spectrum(&vec![9, 0, 0, 0, 0, 9, 9, 9], 2, 10 * UNIT).is_none());
    assert_eq!(pipeline.state(), CalibrationState::Active);
}

#[test]
fn pipeline_shows_cleaned_bars_once_active() {
    let mut pipeline = Pipeline::new(small_config(), 8);
    assert!(pipeline.process_spectrum(&vec![9, 1, 2, 3, 4, 9, 9, 9], 2, 10 * UNIT).is_none());
    assert!(pipeline.process_spectrum(&vec![9, 0, 0, 0, 0, 9, 9, 9], 2, 10 * UNIT).is_none());
    let snapshot = pipeline.process_spectrum(&vec![9, 3, 2, 7, 4, 9, 9, 9], 2, 10 * UNIT).unwrap();
    // band [3, 2, 7, 4], floor [1, 2, 3, 4], clean [2, 0, 4, 0]
    // span [2, 0, 4], two bars [2, 0], scaled by one
    assert_eq!(snapshot.bars, vec![2, 0]);
    assert_eq!(snapshot.colors, vec![(48, 33, 147), (97, 33, 145)]);
}

#[test]
fn pipeline_without_profiling_time_shows_the_first_frame() {
    let config = Config { noise_profile_time: 0, ..small_config() };
    let mut pipeline = Pipeline::new(config, 8);
    assert_eq!(pipeline.state(), CalibrationState::Profiling);
    let snapshot = pipeline.process_spectrum(&vec![9, 3, 2, 7, 4, 9, 9, 9], 2, 10 * UNIT).unwrap();
    // band [3, 2, 7, 4], no floor; four bins, points 0 and 1 of four
    assert_eq!(snapshot.bars, vec![3, 2]);
    assert_eq!(pipeline.state(), CalibrationState::Active);
    let snapshot = pipeline.process_spectrum(&vec![9, 1, 1, 1, 1, 9, 9, 9], 2, 10 * UNIT).unwrap();
    assert_eq!(snapshot.bars, vec![1, 1]);
}

#[test]
fn pipeline_with_less_than_one_frame_of_profiling_shows_the_first_frame() {
    // 8 samples a second, half a second: four samples, less than a frame of 8
    let config = Config { noise_profile_time: UNIT / 2, ..small_config() };
    let mut pipeline = Pipeline::new(config, 8);
    assert!(pipeline.process_spectrum(&vec![9, 3, 2, 7, 4, 9, 9, 9], 2, 10 * UNIT).is_some());
}

#[test]
fn pipeline_smooths_over_time() {
    let config = Config { alpha: UNIT / 2, noise_profile_time: UNIT, ..small_config() };
    let mut pipeline = Pipeline::new(config, 8);
    assert!(pipeline.process_spectrum(&vec![0; 8], 1, 10 * UNIT).is_none());
    assert_eq!(pipeline.state(), CalibrationState::Active);
    let first = pipeline.process_spectrum(&vec![0, 80, 0, 0, 0, 0, 0, 0], 1, 10 * UNIT).unwrap();
    assert_eq!(first.bars, vec![40]);
    let second = pipeline.process_spectrum(&vec![0, 80, 0, 0, 0, 0, 0, 0], 1, 10 * UNIT).unwrap();
    assert_eq!(second.bars, vec![60]);
    let third = pipeline.process_spectrum(&vec![0; 8], 1, 10 * UNIT).unwrap();
    assert_eq!(third.bars, vec![30]);
}

#[test]
fn pipeline_draws_nothing_for_silence() {
    let config = Config { noise_profile_time: UNIT, ..small_config() };
    let mut pipeline = Pipeline::new(config, 8);
    assert!(pipeline.process_spectrum(&vec![5; 8], 4, 10 * UNIT).is_none());
    let snapshot = pipeline.process_spectrum(&vec![5; 8], 4, 10 * UNIT).unwrap();
    assert!(snapshot.bars.is_empty());
    assert_eq!(snapshot.colors.len(), 4);
}

#[test]
fn pipeline_with_a_band_beyond_the_spectrum() {
    let config = Config { f_min: 100 * UNIT, f_max: 200 * UNIT, noise_profile_time: UNIT, ..small_config() };
    let mut pipeline = Pipeline::new(config, 8);
    assert_eq!(pipeline.band(), BandRange { skip: 100, take: 100 });
    assert!(pipeline.process_spectrum(&vec![5; 8], 4, 10 * UNIT).is_none());
    let snapshot = pipeline.process_spectrum(&vec![50; 8], 4, 10 * UNIT).unwrap();
    assert!(snapshot.bars.is_empty());
}

#[test]
fn pipeline_with_default_options_profiles_for_258_frames() {
    let mut pipeline = Pipeline::new(Config::default(), 44100);
    let spectrum: Vec<u64> = vec![1; 512];
    for _ in 0..257 {
        assert!(pipeline.process_spectrum(&spectrum, 10, 20 * UNIT).is_none());
        assert_eq!(pipeline.state(), CalibrationState::Profiling);
    }
    assert!(pipeline.process_spectrum(&spectrum, 10, 20 * UNIT).is_none());
    assert_eq!(pipeline.state(), CalibrationState::Active);
    assert!(pipeline.process_spectrum(&spectrum, 10, 20 * UNIT).is_some());
}
