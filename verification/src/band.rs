//! The part of a spectrum that lies inside the displayed frequency band.

use vstd::prelude::*;
use crate::fixed::{min_int, UNIT};

verus! {

/// A run of bins: `take` bins behind the first `skip`.
#[derive(Debug, Clone, Copy, PartialEq, Eq, Structural)]
pub struct BandRange {
    /// Bins below the band.
    pub skip: usize,
    /// Bins inside the band.
    pub take: usize,
}

/// The bin that `frequency` (hertz, counted in millionths) falls into when
/// bins are `sample_rate / fft_size` hertz wide, rounded down and cut to the
/// machine's word.  Zero when the sample rate is zero.
pub open spec fn bin_of(frequency: int, sample_rate: int, fft_size: int) -> int {
    if sample_rate <= 0 {
        0
    } else {
        min_int((frequency * fft_size) / (sample_rate * UNIT as int), usize::MAX as int)
    }
}

/// The bins between `f_min` and `f_max`.  Where the upper edge does not lie
/// above the lower one the band is empty.
pub open spec fn band_of(sample_rate: int, fft_size: int, f_min: int, f_max: int) -> BandRange {
    let low = bin_of(f_min, sample_rate, fft_size);
    let high = bin_of(f_max, sample_rate, fft_size);
    BandRange {
        skip: low as usize,
        take: if high > low {
            (high - low) as usize
        } else {
            0
        },
    }
}

/// The entries of `spectrum` inside the band; bins that the spectrum does
/// not have are left out.
pub open spec fn retained(spectrum: Seq<u64>, skip: int, take: int) -> Seq<u64> {
    let low = min_int(skip, spectrum.len() as int);
    let high = min_int(low + take, spectrum.len() as int);
    spectrum.subrange(low, high)
}

/// A strict peak that lies inside the band is the strict peak of what the
/// band keeps, and stands there `skip` places earlier.
pub proof fn lemma_band_keeps_the_peak(spectrum: Seq<u64>, skip: int, take: int, peak: int)
    requires
        0 <= skip <= peak < skip + take,
        peak < spectrum.len(),
        forall|i: int| 0 <= i < spectrum.len() && i != peak ==> #[trigger] spectrum[i] < spectrum[peak],
    ensures
        peak - skip < retained(spectrum, skip, take).len(),
        retained(spectrum, skip, take)[peak - skip] == spectrum[peak],
        forall|j: int|
            0 <= j < retained(spectrum, skip, take).len() && j != peak - skip ==> #[trigger] retained(
                spectrum,
                skip,
                take,
            )[j] < spectrum[peak],
{
    let kept = retained(spectrum, skip, take);
    assert forall|j: int| 0 <= j < kept.len() && j != peak - skip implies #[trigger] kept[j] < spectrum[peak] by {
        assert(kept[j] == spectrum[skip + j]);
    }
}

/// Frames of 512 samples taken at 44100 Hz have bins 86.13 Hz wide, so the
/// band from 100 Hz to 10 kHz skips one bin and keeps 115.  A spectrum of
/// such a frame that peaks at bin 12, the bin nearest to 1 kHz, keeps that
/// peak inside the band, at index 11.
pub proof fn lemma_one_kilohertz_in_the_default_band(spectrum: Seq<u64>)
    requires
        spectrum.len() == 512,
        forall|i: int| 0 <= i < 512 && i != 12 ==> #[trigger] spectrum[i] < spectrum[12],
    ensures
        band_of(44100, 512, 100_000_000, 10_000_000_000).skip == 1,
        band_of(44100, 512, 100_000_000, 10_000_000_000).take == 115,
        retained(spectrum, 1, 115).len() == 115,
        retained(spectrum, 1, 115)[11] == spectrum[12],
        forall|j: int|
            0 <= j < 115 && j != 11 ==> #[trigger] retained(spectrum, 1, 115)[j] < retained(spectrum, 1, 115)[11],
{
    assert((100_000_000int * 512) / (44100int * 1_000_000) == 1) by (nonlinear_arith);
    assert((10_000_000_000int * 512) / (44100int * 1_000_000) == 116) by (nonlinear_arith);
    lemma_band_keeps_the_peak(spectrum, 1, 115, 12);
}

/// Computes [`bin_of`] on machine integers.
pub fn frequency_bin(frequency: u64, sample_rate: u32, fft_size: usize) -> (bin: usize)
    ensures
        bin as int == bin_of(frequency as int, sample_rate as int, fft_size as int),
{
    if sample_rate == 0 {
        return 0;
    }
    assert(frequency as int * fft_size as int <= 0xffff_ffff_ffff_ffff * 0xffff_ffff_ffff_ffff) by (nonlinear_arith)
        requires
            0 <= frequency as int <= 0xffff_ffff_ffff_ffff,
            0 <= fft_size as int <= 0xffff_ffff_ffff_ffff,
    ;
    assert(0 < sample_rate as int * UNIT as int <= 0xffff_ffff * 1_000_000) by (nonlinear_arith)
        requires
            0 < sample_rate as int <= 0xffff_ffff,
            UNIT as int == 1_000_000,
    ;
    let cycles: u128 = frequency as u128 * fft_size as u64 as u128;
    let width: u128 = sample_rate as u128 * UNIT as u128;
    let bin: u128 = cycles / width;
    if bin > usize::MAX as u128 {
        usize::MAX
    } else {
        bin as usize
    }
}

/// The band of bins between `f_min` and `f_max` for frames of `fft_size`
/// samples taken at `sample_rate`.
pub fn band_range(sample_rate: u32, fft_size: usize, f_min: u64, f_max: u64) -> (band: BandRange)
    ensures
        band == band_of(sample_rate as int, fft_size as int, f_min as int, f_max as int),
{
    let low: usize = frequency_bin(f_min, sample_rate, fft_size);
    let high: usize = frequency_bin(f_max, sample_rate, fft_size);
    let take: usize = if high > low {
        high - low
    } else {
        0
    };
    BandRange { skip: low, take }
}

/// Copies the bins of the band out of `spectrum`.
pub fn retain_band(spectrum: &Vec<u64>, band: BandRange) -> (kept: Vec<u64>)
    ensures
        kept@ == retained(spectrum@, band.skip as int, band.take as int),
        kept.len() <= band.take,
        kept.len() <= spectrum.len(),
{
    let len: usize = spectrum.len();
    let low: usize = if band.skip < len {
        band.skip
    } else {
        len
    };
    let count: usize = if band.take < len - low {
        band.take
    } else {
        len - low
    };
    let mut kept: Vec<u64> = Vec::new();
    let mut i: usize = 0;
    while i < count
        invariant
            i <= count,
            low + count <= spectrum.len(),
            kept.len() == i,
            forall|j: int| 0 <= j < i ==> kept[j] == spectrum[low + j],
        decreases count - i,
    {
        kept.push(spectrum[low + i]);
        i += 1;
    }
    assert(kept@ =~= retained(spectrum@, band.skip as int, band.take as int));
    kept
}

} // verus!
