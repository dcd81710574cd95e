//! The recognised options of the pipeline and their validity.

use vstd::prelude::*;
use crate::color::ColorRgbtuple;
use crate::fixed::UNIT;

verus! {

/// The options that shape the pipeline.  Fractional options are counted in
/// millionths: `alpha == 50_000` stands for `0.05`, `f_min == 100_000_000`
/// for 100 Hz, `noise_profile_time == 3_000_000` for three seconds.
#[derive(Debug, Clone, Copy, PartialEq, Eq)]
pub struct Config {
    /// Samples per analysis frame.
    pub fft_size: usize,
    /// Temporal smoothing factor, between zero and one.
    pub alpha: u64,
    /// The magnitude that fills the display.
    pub max_magnitude: u64,
    /// Seconds of ambient noise to learn before anything is shown.
    pub noise_profile_time: u64,
    /// Lower edge of the displayed band, in hertz.
    pub f_min: u64,
    /// Upper edge of the displayed band, in hertz.
    pub f_max: u64,
    /// Gradient stop of the first bar.
    pub color_top: ColorRgbtuple,
    /// Gradient stop of the last bar.
    pub color_bottom: ColorRgbtuple,
    /// Gradient stop that full-height bars tend to, where one is used.
    pub final_color: Option<ColorRgbtuple>,
    /// Spatial smoothing factor, between zero and one, where one is used.
    pub sigma: Option<u64>,
}

/// Why a set of options cannot drive the pipeline.
#[derive(Debug, Clone, Copy, PartialEq, Eq)]
pub enum ConfigError {
    /// `fft_size` is zero.
    EmptyFrame,
    /// `alpha` is above one.
    AlphaOutOfRange,
    /// `f_min` is not below `f_max`.
    EmptyBand,
    /// `sigma` is given and above one.
    SigmaOutOfRange,
}

impl Config {
    /// The frame is not empty.
    pub open spec fn frame_ok(&self) -> bool {
        self.fft_size > 0
    }

    /// The temporal factor is a weight.
    pub open spec fn alpha_ok(&self) -> bool {
        self.alpha <= UNIT
    }

    /// The band has a positive width.
    pub open spec fn band_ok(&self) -> bool {
        self.f_min < self.f_max
    }

    /// The spatial factor, where given, is a weight.
    pub open spec fn sigma_ok(&self) -> bool {
        match self.sigma {
            Some(s) => s <= UNIT,
            None => true,
        }
    }

    /// The invariant every stage relies on.
    pub open spec fn is_valid(&self) -> bool {
        self.frame_ok() && self.alpha_ok() && self.band_ok() && self.sigma_ok()
    }

    /// Checks the invariant and names the first rule that is broken, in the
    /// order frame, alpha, band, sigma.
    pub fn validate(&self) -> (r: Result<(), ConfigError>)
        ensures
            r is Ok <==> self.is_valid(),
            r == Err::<(), ConfigError>(ConfigError::EmptyFrame) <==> !self.frame_ok(),
            r == Err::<(), ConfigError>(ConfigError::AlphaOutOfRange) <==> self.frame_ok()
                && !self.alpha_ok(),
            r == Err::<(), ConfigError>(ConfigError::EmptyBand) <==> self.frame_ok()
                && self.alpha_ok() && !self.band_ok(),
            r == Err::<(), ConfigError>(ConfigError::SigmaOutOfRange) <==> self.frame_ok()
                && self.alpha_ok() && self.band_ok() && !self.sigma_ok(),
    {
        if self.fft_size == 0 {
            return Err(ConfigError::EmptyFrame);
        }
        if self.alpha > UNIT {
            return Err(ConfigError::AlphaOutOfRange);
        }
        if self.f_min >= self.f_max {
            return Err(ConfigError::EmptyBand);
        }
        match self.sigma {
            Some(s) => {
                if s > UNIT {
                    return Err(ConfigError::SigmaOutOfRange);
                }
            },
            None => {},
        }
        Ok(())
    }
}

/// The documented defaults.
pub open spec fn default_config() -> Config {
    Config {
        fft_size: 512,
        alpha: 50_000,
        max_magnitude: 10_000_000,
        noise_profile_time: 3_000_000,
        f_min: 100_000_000,
        f_max: 10_000_000_000,
        color_top: (48u8, 33u8, 147u8),
        color_bottom: (147u8, 33u8, 143u8),
        final_color: None,
        sigma: None,
    }
}

impl Default for Config {
    fn default() -> (c: Self)
        ensures
            c == default_config(),
    {
        Config {
            fft_size: 512,
            alpha: 50_000,
            max_magnitude: 10_000_000,
            noise_profile_time: 3_000_000,
            f_min: 100_000_000,
            f_max: 10_000_000_000,
            color_top: (48, 33, 147),
            color_bottom: (147, 33, 143),
            final_color: None,
            sigma: None,
        }
    }
}

/// The defaults satisfy the invariant.
pub proof fn lemma_default_is_valid()
    ensures
        default_config().is_valid(),
{
}

} // verus!
