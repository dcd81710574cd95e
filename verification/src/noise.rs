//! Learning an ambient noise floor and removing it from later spectra.

use vstd::prelude::*;
use crate::fixed::{ints, max_int, min_int, UNIT};
use crate::vectors::zeros;

verus! {

/// The two phases of calibration.  `Active` is terminal.
#[derive(Debug, Clone, Copy, PartialEq, Eq, Structural)]
pub enum CalibrationState {
    /// The floor is still being learnt; nothing is shown.
    Profiling,
    /// The floor is frozen and subtracted from every spectrum.
    Active,
}

/// A magnitude with its floor taken away, never below zero.
pub open spec fn above_floor(magnitude: int, floor: int) -> int {
    max_int(magnitude - floor, 0)
}

/// The floor after one more spectrum was seen: bin by bin the larger of the
/// old floor and the new magnitude.  Bins that the spectrum does not reach
/// keep their floor.
pub open spec fn raised(profile: Seq<int>, magnitudes: Seq<int>) -> Seq<int> {
    Seq::new(
        profile.len(),
        |i: int|
            if i < magnitudes.len() {
                max_int(profile[i], magnitudes[i])
            } else {
                profile[i]
            },
    )
}

/// The spectrum with the floor removed bin by bin.
pub open spec fn cleaned(magnitudes: Seq<int>, profile: Seq<int>) -> Seq<int> {
    Seq::new(magnitudes.len(), |i: int| above_floor(magnitudes[i], profile[i]))
}

/// The number of frames that span `time` seconds (counted in millionths) of
/// audio at `sample_rate`, rounded down and cut to the machine's word.
pub open spec fn frames_needed(sample_rate: int, time: int, fft_size: int) -> int {
    let frames = (sample_rate * time) / (fft_size * UNIT as int);
    if frames > usize::MAX as int {
        usize::MAX as int
    } else {
        frames
    }
}

/// The floor that a run of spectra leaves behind: bin by bin the largest
/// magnitude seen, zero where none was.
pub open spec fn envelope(bins: nat, spectra: Seq<Seq<int>>) -> Seq<int>
    decreases spectra.len(),
{
    if spectra.len() == 0 {
        Seq::new(bins, |i: int| 0int)
    } else {
        raised(envelope(bins, spectra.drop_last()), spectra.last())
    }
}

/// The calibration as a mathematical state machine.
pub struct CalibrationModel {
    /// The floor, one entry per bin.
    pub profile: Seq<int>,
    /// Whether the phase is `Active`.
    pub active: bool,
    /// Frames that have fed the floor.
    pub frames: nat,
    /// Frames that calibration lasts.
    pub required: nat,
}

impl CalibrationModel {
    /// The initial state: profiling, with a floor of zero everywhere.
    pub open spec fn start(bins: nat, required: nat) -> CalibrationModel {
        CalibrationModel { profile: Seq::new(bins, |i: int| 0int), active: false, frames: 0, required }
    }

    /// Whether the floor is complete: the phase is active, or the count has
    /// reached `required`.  The second holds of a fresh machine that is to
    /// last no frame at all.
    pub open spec fn calibrated(self) -> bool {
        self.active || self.frames >= self.required
    }

    /// The state after one spectrum.  The count is looked at first: while
    /// it is short of `required` the spectrum raises the floor and is
    /// counted, and the phase turns active with the frame that completes
    /// the count.  Once the floor is complete the phase is active and
    /// neither floor nor count change any more.
    pub open spec fn observe(self, magnitudes: Seq<int>) -> CalibrationModel {
        if self.calibrated() {
            CalibrationModel { profile: self.profile, active: true, frames: self.frames, required: self.required }
        } else {
            CalibrationModel {
                profile: raised(self.profile, magnitudes),
                active: self.frames + 1 >= self.required,
                frames: self.frames + 1,
                required: self.required,
            }
        }
    }

    /// What is handed on for one spectrum: nothing while the floor is being
    /// learnt, the cleaned spectrum once it is complete.
    pub open spec fn output(self, magnitudes: Seq<int>) -> Option<Seq<int>> {
        if self.calibrated() {
            Some(cleaned(magnitudes, self.profile))
        } else {
            None
        }
    }

    /// The state after a whole run of spectra.
    pub open spec fn run(self, spectra: Seq<Seq<int>>) -> CalibrationModel
        decreases spectra.len(),
    {
        if spectra.len() == 0 {
            self
        } else {
            self.run(spectra.drop_last()).observe(spectra.last())
        }
    }
}

/// Removing a floor never leaves a negative magnitude.
pub proof fn lemma_cleaned_is_nonnegative(magnitudes: Seq<int>, profile: Seq<int>)
    ensures
        cleaned(magnitudes, profile).len() == magnitudes.len(),
        forall|i: int| 0 <= i < magnitudes.len() ==> cleaned(magnitudes, profile)[i] >= 0,
{
}

/// While profiling the floor never sinks.
pub proof fn lemma_floor_never_sinks(profile: Seq<int>, magnitudes: Seq<int>)
    ensures
        raised(profile, magnitudes).len() == profile.len(),
        forall|i: int| 0 <= i < profile.len() ==> raised(profile, magnitudes)[i] >= profile[i],
{
}

/// What a run from the start has done: it has fed the floor with its first
/// `required` spectra and with no other, and it is active from the moment
/// the count was reached.
proof fn lemma_run_counts(bins: nat, required: nat, spectra: Seq<Seq<int>>)
    ensures
        CalibrationModel::start(bins, required).run(spectra).required == required,
        CalibrationModel::start(bins, required).run(spectra).frames == min_int(
            spectra.len() as int,
            required as int,
        ),
        CalibrationModel::start(bins, required).run(spectra).active <==> spectra.len() >= required && spectra.len()
            >= 1,
        CalibrationModel::start(bins, required).run(spectra).profile == envelope(
            bins,
            spectra.take(min_int(spectra.len() as int, required as int)),
        ),
    decreases spectra.len(),
{
    let fed = min_int(spectra.len() as int, required as int);
    if spectra.len() > 0 {
        let before = spectra.drop_last();
        lemma_run_counts(bins, required, before);
        if before.len() >= required {
            assert(spectra.take(fed) =~= before.take(required as int));
        } else {
            assert(before.take(before.len() as int) =~= before);
            assert(spectra.take(fed) =~= spectra);
        }
    } else {
        assert(spectra.take(fed) =~= spectra);
    }
}

/// Calibration ends once and at a fixed time, for every number of frames
/// that it is to last, zero too.  Of a run from the start, spectrum number
/// `k`, counted from zero, is handed on exactly when `k >= required`; the
/// floor is the envelope of the first `required` spectra; the phase is
/// active from the frame that completes the count; and no later spectrum
/// changes phase, floor or count again.
pub proof fn lemma_calibration_ends_on_time(bins: nat, required: nat, spectra: Seq<Seq<int>>, next: Seq<int>)
    ensures
        CalibrationModel::start(bins, required).run(spectra).calibrated() <==> spectra.len() >= required,
        CalibrationModel::start(bins, required).run(spectra).output(next) is Some <==> spectra.len() >= required,
        CalibrationModel::start(bins, required).run(spectra).profile == envelope(
            bins,
            spectra.take(min_int(spectra.len() as int, required as int)),
        ),
        CalibrationModel::start(bins, required).run(spectra).active <==> spectra.len() >= required && spectra.len()
            >= 1,
        spectra.len() >= required ==> CalibrationModel::start(bins, required).run(spectra).observe(next).active
            && CalibrationModel::start(bins, required).run(spectra).observe(next).profile
            == CalibrationModel::start(bins, required).run(spectra).profile && CalibrationModel::start(
            bins,
            required,
        ).run(spectra).observe(next).frames == CalibrationModel::start(bins, required).run(spectra).frames,
{
    lemma_run_counts(bins, required, spectra);
}

/// The number of frames that calibration lasts; see [`frames_needed`].
pub fn required_frames(sample_rate: u32, noise_profile_time: u64, fft_size: usize) -> (frames: usize)
    requires
        fft_size > 0,
    ensures
        frames as int == frames_needed(sample_rate as int, noise_profile_time as int, fft_size as int),
{
    assert(sample_rate as int * noise_profile_time as int <= 0xffff_ffff * 0xffff_ffff_ffff_ffff) by (nonlinear_arith)
        requires
            0 <= sample_rate as int <= 0xffff_ffff,
            0 <= noise_profile_time as int <= 0xffff_ffff_ffff_ffff,
    ;
    assert(0 < fft_size as int * UNIT as int <= 0xffff_ffff_ffff_ffff * 1_000_000) by (nonlinear_arith)
        requires
            0 < fft_size as int <= 0xffff_ffff_ffff_ffff,
            UNIT as int == 1_000_000,
    ;
    let samples: u128 = sample_rate as u128 * noise_profile_time as u128;
    let frame: u128 = fft_size as u64 as u128 * UNIT as u128;
    let frames: u128 = samples / frame;
    if frames > usize::MAX as u128 {
        usize::MAX
    } else {
        frames as usize
    }
}

/// Raises `profile` to the envelope of itself and `magnitudes`.
pub fn raise_floor(profile: &mut Vec<u64>, magnitudes: &Vec<u64>)
    requires
        magnitudes.len() <= old(profile).len(),
    ensures
        ints(final(profile)@) == raised(ints(old(profile)@), ints(magnitudes@)),
{
    let ghost before = ints(profile@);
    let mut i: usize = 0;
    while i < magnitudes.len()
        invariant
            i <= magnitudes.len(),
            magnitudes.len() <= profile.len(),
            profile.len() == before.len(),
            forall|j: int| 0 <= j < i ==> profile[j] as int == max_int(before[j], magnitudes[j] as int),
            forall|j: int| i <= j < profile.len() ==> profile[j] as int == before[j],
        decreases magnitudes.len() - i,
    {
        if magnitudes[i] > profile[i] {
            profile.set(i, magnitudes[i]);
        }
        i += 1;
    }
    assert(ints(profile@) =~= raised(before, ints(magnitudes@)));
}

/// Removes the floor from `magnitudes`, bin by bin, stopping at zero.
pub fn subtract_floor(magnitudes: &Vec<u64>, profile: &Vec<u64>) -> (clean: Vec<u64>)
    requires
        magnitudes.len() <= profile.len(),
    ensures
        ints(clean@) == cleaned(ints(magnitudes@), ints(profile@)),
        clean.len() == magnitudes.len(),
        forall|i: int| 0 <= i < clean.len() ==> clean[i] as int == above_floor(magnitudes[i] as int, profile[i] as int),
{
    let mut clean: Vec<u64> = Vec::new();
    let mut i: usize = 0;
    while i < magnitudes.len()
        invariant
            i <= magnitudes.len(),
            magnitudes.len() <= profile.len(),
            clean.len() == i,
            forall|j: int| 0 <= j < i ==> clean[j] as int == above_floor(magnitudes[j] as int, profile[j] as int),
        decreases magnitudes.len() - i,
    {
        let value: u64 = if magnitudes[i] > profile[i] {
            magnitudes[i] - profile[i]
        } else {
            0
        };
        clean.push(value);
        i += 1;
    }
    assert(ints(clean@) =~= cleaned(ints(magnitudes@), ints(profile@)));
    clean
}

/// The noise calibration of one pipeline.
pub struct NoiseCalibration {
    profile: Vec<u64>,
    state: CalibrationState,
    profiled_frames: usize,
    required_frames: usize,
}

impl NoiseCalibration {
    /// The calibration as a state of the mathematical machine.
    pub closed spec fn view(&self) -> CalibrationModel {
        CalibrationModel {
            profile: ints(self.profile@),
            active: self.state == CalibrationState::Active,
            frames: self.profiled_frames as nat,
            required: self.required_frames as nat,
        }
    }

    /// A calibration over `bins` bins that lasts `required_frames` frames.
    pub fn new(bins: usize, required_frames: usize) -> (calibration: Self)
        ensures
            calibration@ == CalibrationModel::start(bins as nat, required_frames as nat),
    {
        let profile = zeros(bins);
        NoiseCalibration { profile, state: CalibrationState::Profiling, profiled_frames: 0, required_frames }
    }

    /// The current phase.
    pub fn state(&self) -> (state: CalibrationState)
        ensures
            state == CalibrationState::Active <==> self@.active,
            state == CalibrationState::Profiling <==> !self@.active,
    {
        self.state
    }

    /// The number of bins of the floor.
    pub fn bins(&self) -> (bins: usize)
        ensures
            bins == self@.profile.len(),
    {
        self.profile.len()
    }

    /// The floor learnt so far.
    pub fn profile(&self) -> (profile: &Vec<u64>)
        ensures
            ints(profile@) == self@.profile,
    {
        &self.profile
    }

    /// Frames that have fed the floor.
    pub fn profiled_frames(&self) -> (frames: usize)
        ensures
            frames == self@.frames,
    {
        self.profiled_frames
    }

    /// Frames that calibration lasts.
    pub fn required_frames(&self) -> (frames: usize)
        ensures
            frames == self@.required,
    {
        self.required_frames
    }

    /// Takes in one spectrum.  While the count is short of the frames that
    /// calibration lasts, it raises the floor, counts the frame and hands
    /// nothing on; the frame that completes the count turns the phase
    /// active.  Once the floor is complete it hands on the spectrum with the
    /// floor removed and leaves floor and count as they are.  A calibration
    /// that is to last no frame hands on its very first spectrum.
    pub fn observe(&mut self, magnitudes: &Vec<u64>) -> (clean: Option<Vec<u64>>)
        requires
            magnitudes.len() <= old(self)@.profile.len(),
        ensures
            final(self)@ == old(self)@.observe(ints(magnitudes@)),
            clean is Some <==> old(self)@.calibrated(),
            clean is Some ==> Some(ints(clean->Some_0@)) == old(self)@.output(ints(magnitudes@)),
    {
        let complete: bool = match self.state {
            CalibrationState::Active => true,
            CalibrationState::Profiling => self.profiled_frames >= self.required_frames,
        };
        if complete {
            self.state = CalibrationState::Active;
            Some(subtract_floor(magnitudes, &self.profile))
        } else {
            raise_floor(&mut self.profile, magnitudes);
            self.profiled_frames = self.profiled_frames + 1;
            if self.profiled_frames >= self.required_frames {
                self.state = CalibrationState::Active;
            }
            None
        }
    }
}

} // verus!
