//! The stages behind the transform, chained for one frame at a time.

use vstd::prelude::*;
use crate::band::{band_of, band_range, retain_band, retained, BandRange};
use crate::bars::{horizontal_spectrum, print_horizontal_spectrum, sigma_of};
use crate::color::{get_shared_colors, gradient, triples};
use crate::config::Config;
use crate::fixed::{ints, min_int, UNIT};
use crate::handoff::Snapshot;
use crate::noise::{
    cleaned, envelope, frames_needed, lemma_calibration_ends_on_time, required_frames, CalibrationModel,
    CalibrationState, NoiseCalibration,
};
use crate::smooth::{blended, TemporalSmoother};

verus! {

/// The number of bins that a band keeps of a spectrum of `fft_size` bins.
pub open spec fn band_len(fft_size: int, band: BandRange) -> int {
    let low = min_int(band.skip as int, fft_size);
    min_int(low + band.take, fft_size) - low
}

/// The pipeline as a mathematical state machine.
pub struct PipelineModel {
    /// The options it was made with.
    pub config: Config,
    /// The bins it looks at.
    pub band: BandRange,
    /// The noise calibration.
    pub calibration: CalibrationModel,
    /// The temporally smoothed magnitude of every bin of the band.
    pub smoothed: Seq<int>,
}

impl PipelineModel {
    /// The pipeline before its first frame.
    pub open spec fn start(config: Config, sample_rate: int) -> PipelineModel {
        let band = band_of(sample_rate, config.fft_size as int, config.f_min as int, config.f_max as int);
        let bins = band_len(config.fft_size as int, band) as nat;
        PipelineModel {
            config,
            band,
            calibration: CalibrationModel::start(
                bins,
                frames_needed(sample_rate, config.noise_profile_time as int, config.fft_size as int) as nat,
            ),
            smoothed: Seq::new(bins, |i: int| 0int),
        }
    }

    /// The magnitudes of the band within a spectrum.
    pub open spec fn band_magnitudes(self, spectrum: Seq<u64>) -> Seq<int> {
        ints(retained(spectrum, self.band.skip as int, self.band.take as int))
    }

    /// The pipeline after one spectrum: the calibration takes its step, and
    /// once the floor is complete the cleaned magnitudes enter the moving
    /// average.
    pub open spec fn step(self, spectrum: Seq<u64>) -> PipelineModel {
        let magnitudes = self.band_magnitudes(spectrum);
        PipelineModel {
            config: self.config,
            band: self.band,
            calibration: self.calibration.observe(magnitudes),
            smoothed: if self.calibration.calibrated() {
                blended(self.smoothed, cleaned(magnitudes, self.calibration.profile), self.config.alpha as int)
            } else {
                self.smoothed
            },
        }
    }

    /// The pipeline after a whole run of spectra.
    pub open spec fn run(self, spectra: Seq<Seq<u64>>) -> PipelineModel
        decreases spectra.len(),
    {
        if spectra.len() == 0 {
            self
        } else {
            self.run(spectra.drop_last()).step(spectra.last())
        }
    }

    /// The magnitudes of the band within each spectrum of a run.
    pub open spec fn band_spectra(self, spectra: Seq<Seq<u64>>) -> Seq<Seq<int>> {
        Seq::new(spectra.len(), |i: int| self.band_magnitudes(spectra[i]))
    }

    /// The bars that one spectrum gives on a display of `width` bars and the
    /// given `height`, once the floor is complete.
    pub open spec fn bars(self, spectrum: Seq<u64>, width: int, height: int) -> Seq<int> {
        horizontal_spectrum(
            self.step(spectrum).smoothed,
            width,
            height,
            self.config.max_magnitude as int,
            sigma_of(&self.config),
        )
    }
}

/// The calibration inside a pipeline is the calibration machine, run on the
/// magnitudes of the band.
proof fn lemma_pipeline_runs_the_calibration(config: Config, sample_rate: int, spectra: Seq<Seq<u64>>)
    ensures
        PipelineModel::start(config, sample_rate).run(spectra).config == config,
        PipelineModel::start(config, sample_rate).run(spectra).band == PipelineModel::start(config, sample_rate).band,
        PipelineModel::start(config, sample_rate).run(spectra).calibration == PipelineModel::start(
            config,
            sample_rate,
        ).calibration.run(PipelineModel::start(config, sample_rate).band_spectra(spectra)),
    decreases spectra.len(),
{
    let start = PipelineModel::start(config, sample_rate);
    if spectra.len() > 0 {
        lemma_pipeline_runs_the_calibration(config, sample_rate, spectra.drop_last());
        assert(start.band_spectra(spectra).drop_last() =~= start.band_spectra(spectra.drop_last()));
        assert(start.band_spectra(spectra).last() == start.run(spectra.drop_last()).band_magnitudes(spectra.last()));
    }
}

/// For every sample rate, frame length and profiling time, a profiling
/// time of zero too: a pipeline lasts `sample_rate * time / fft_size`
/// frames of calibration.  Spectrum number `k` of a run, counted from zero,
/// gives bars exactly when `k` has reached that number; the floor is the
/// envelope of the band over the spectra before it; and no later spectrum
/// changes the floor again.
pub proof fn lemma_pipeline_calibrates_on_time(
    config: Config,
    sample_rate: int,
    spectra: Seq<Seq<u64>>,
    next: Seq<u64>,
)
    ensures
        config.fft_size > 0 && sample_rate >= 0 ==> PipelineModel::start(config, sample_rate).calibration.required
            == frames_needed(sample_rate, config.noise_profile_time as int, config.fft_size as int),
        PipelineModel::start(config, sample_rate).run(spectra).calibration.calibrated() <==> spectra.len()
            >= PipelineModel::start(config, sample_rate).calibration.required,
        PipelineModel::start(config, sample_rate).run(spectra).calibration.profile == envelope(
            PipelineModel::start(config, sample_rate).calibration.profile.len(),
            PipelineModel::start(config, sample_rate).band_spectra(spectra).take(
                min_int(spectra.len() as int, PipelineModel::start(config, sample_rate).calibration.required as int),
            ),
        ),
        spectra.len() >= PipelineModel::start(config, sample_rate).calibration.required ==> PipelineModel::start(
            config,
            sample_rate,
        ).run(spectra).step(next).calibration.profile == PipelineModel::start(config, sample_rate).run(
            spectra,
        ).calibration.profile,
{
    let start = PipelineModel::start(config, sample_rate);
    let bins = start.calibration.profile.len();
    let required = start.calibration.required;
    lemma_pipeline_runs_the_calibration(config, sample_rate, spectra);
    assert(start.calibration == CalibrationModel::start(bins, required));
    lemma_calibration_ends_on_time(bins, required, start.band_spectra(spectra), start.band_magnitudes(next));
    if config.fft_size > 0 && sample_rate >= 0 {
        let samples = sample_rate * (config.noise_profile_time as int);
        let frame = (config.fft_size as int) * (UNIT as int);
        assert(samples / frame >= 0) by (nonlinear_arith)
            requires
                samples == sample_rate * (config.noise_profile_time as int),
                sample_rate >= 0,
                config.noise_profile_time as int >= 0,
                frame == (config.fft_size as int) * (UNIT as int),
                config.fft_size as int > 0,
                UNIT as int == 1_000_000,
        ;
    }
}

/// Everything that lives from one frame to the next.
pub struct Pipeline {
    config: Config,
    band: BandRange,
    calibration: NoiseCalibration,
    smoother: TemporalSmoother,
}

impl Pipeline {
    /// The pipeline as a state of the mathematical machine.
    pub closed spec fn view(&self) -> PipelineModel {
        PipelineModel {
            config: self.config,
            band: self.band,
            calibration: self.calibration@,
            smoothed: self.smoother@,
        }
    }

    /// The options are valid, and floor and moving average cover the band.
    pub closed spec fn wf(&self) -> bool {
        &&& self.config.is_valid()
        &&& self.calibration@.profile.len() == band_len(self.config.fft_size as int, self.band)
        &&& self.smoother@.len() == band_len(self.config.fft_size as int, self.band)
    }

    /// A pipeline for audio sampled at `sample_rate`, about to learn its
    /// noise floor.
    pub fn new(config: Config, sample_rate: u32) -> (pipeline: Self)
        requires
            config.is_valid(),
        ensures
            pipeline.wf(),
            pipeline@ == PipelineModel::start(config, sample_rate as int),
    {
        let band = band_range(sample_rate, config.fft_size, config.f_min, config.f_max);
        let low: usize = if band.skip < config.fft_size {
            band.skip
        } else {
            config.fft_size
        };
        let bins: usize = if band.take < config.fft_size - low {
            band.take
        } else {
            config.fft_size - low
        };
        let frames: usize = required_frames(sample_rate, config.noise_profile_time, config.fft_size);
        Pipeline {
            config,
            band,
            calibration: NoiseCalibration::new(bins, frames),
            smoother: TemporalSmoother::new(bins),
        }
    }

    /// The options the pipeline was made with.
    pub fn config(&self) -> (config: &Config)
        ensures
            *config == self@.config,
    {
        &self.config
    }

    /// The bins the pipeline looks at.
    pub fn band(&self) -> (band: BandRange)
        ensures
            band == self@.band,
    {
        self.band
    }

    /// The phase of the noise calibration.
    pub fn state(&self) -> (state: CalibrationState)
        ensures
            state == CalibrationState::Active <==> self@.calibration.active,
            state == CalibrationState::Profiling <==> !self@.calibration.active,
    {
        self.calibration.state()
    }

    /// Takes one spectrum of `fft_size` magnitudes through the stages.
    /// While the noise floor is learnt nothing is shown.  Once it is
    /// complete the band is cleaned, smoothed over time and mapped to
    /// `width` bars with their colours; with a profiling time of zero that
    /// is so from the first spectrum on.
    pub fn process_spectrum(&mut self, spectrum: &Vec<u64>, width: usize, height: u64) -> (snapshot: Option<Snapshot>)
        requires
            old(self).wf(),
            spectrum.len() == old(self)@.config.fft_size,
        ensures
            final(self).wf(),
            final(self)@ == old(self)@.step(spectrum@),
            snapshot is Some <==> old(self)@.calibration.calibrated(),
            snapshot is Some ==> ints(snapshot->Some_0.bars@) == old(self)@.bars(
                spectrum@,
                width as int,
                height as int,
            ) && triples(snapshot->Some_0.colors@) == gradient(
                width as int,
                old(self)@.config.color_top,
                old(self)@.config.color_bottom,
            ),
    {
        let magnitudes = retain_band(spectrum, self.band);
        match self.calibration.observe(&magnitudes) {
            None => None,
            Some(clean) => {
                self.smoother.update(&clean, self.config.alpha);
                let bars = print_horizontal_spectrum(width, height, self.smoother.values(), &self.config);
                let colors = get_shared_colors(width, &self.config);
                Some(Snapshot { bars, colors })
            },
        }
    }
}

} // verus!
