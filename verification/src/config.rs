//! Fixed-point scales and the analysis configuration.
//!
//! All quantities in the pipeline are fixed-point integers:
//! - amplitudes in units of `1 / AMP_SCALE` of full scale,
//! - velocities in units of `1 / VEL_SCALE`,
//! - pitches in units of `1 / PITCH_SCALE` of a semitone-equivalent unit,
//! - times as sample indices (seconds times the sample rate).

use vstd::prelude::*;

verus! {

/// Amplitude fixed-point scale: a sample value of `AMP_SCALE` stands for 1.0
/// (full scale).
pub const AMP_SCALE: i64 = 1_000_000;

/// Normalization target: 0.95 of full scale.
pub const TARGET_PEAK: i64 = 950_000;

/// Largest sample magnitude the preprocessor accepts.  Callers clamp decoded
/// samples to this range when converting to fixed point.
pub const RAW_SAMPLE_LIMIT: i64 = 1_000_000_000_000;

/// Bound on sample magnitudes after normalization; the frame scanner and the
/// low-pass filter work within it.
pub const PEAK_LIMIT: i64 = 1_000_000;

/// Velocity fixed-point scale: `VEL_SCALE` stands for velocity 1.0.
pub const VEL_SCALE: u64 = 1_000;

/// Pitch fixed-point scale: `PITCH_SCALE` stands for one semitone-equivalent
/// unit, so a MIDI-style pitch of 60.0 is held as `60_000`.
pub const PITCH_SCALE: i64 = 1_000;

/// Largest pitch magnitude a note event may carry.
pub const PITCH_LIMIT: i64 = 1_000_000_000;

/// Angular cutoff of the low-pass filter, rounded to an integer:
/// two pi times the 8000 Hz cutoff frequency.
pub const LOWPASS_ANGULAR_CUTOFF: u64 = 50_265;

/// Default silence threshold as a fixed-point RMS amplitude.
/// `3_162 / AMP_SCALE` is within one part in a thousand of the -50 dB
/// amplitude ratio `10^(-50/20)`.
pub const DEFAULT_SILENCE_THRESHOLD_AMP: i64 = 3_162;

/// Default velocity threshold for frames with a corroborating onset (0.3).
pub const DEFAULT_ONSET_VELOCITY_THRESHOLD: u64 = 300;

/// Default velocity threshold for frames without an onset (0.5).
pub const DEFAULT_SUSTAINED_VELOCITY_THRESHOLD: u64 = 500;

/// Default pitch window of the merger: 2.0 semitone-equivalent units.
pub const DEFAULT_MERGE_PITCH_WINDOW: i64 = 2_000;

/// Default analysis window length in samples.
pub const DEFAULT_BUF_SIZE: usize = 1024;

/// Default hop between successive windows in samples.
pub const DEFAULT_HOP_SIZE: usize = 512;

/// Fixed configuration of one pipeline invocation.
#[derive(Clone, Copy, Debug)]
pub struct AnalysisConfig {
    /// Window length in samples.
    pub buf_size: usize,
    /// Advance between successive windows in samples.
    pub hop_size: usize,
    /// Sample rate in Hz.
    pub sample_rate: u32,
    /// A window whose RMS amplitude is below this fixed-point value is
    /// treated as silence and skipped.
    pub silence_threshold_amp: i64,
    /// Two accepted onsets must be more than this many samples apart.
    pub min_onset_gap: u64,
    /// Velocity a pitch estimate must exceed to be emitted from a frame with
    /// a detected onset.
    pub onset_velocity_threshold: u64,
    /// Velocity a pitch estimate must exceed to be emitted from a frame
    /// without a detected onset.
    pub sustained_velocity_threshold: u64,
    /// The merger coalesces events closer than this many samples in time
    /// (together with the pitch window).
    pub merge_time_window: u64,
    /// The merger coalesces events closer than this fixed-point pitch
    /// difference (together with the time window).
    pub merge_pitch_window: i64,
}

impl AnalysisConfig {
    /// The size relationships every stage of the pipeline relies on.
    pub open spec fn wf(&self) -> bool {
        &&& 0 < self.hop_size <= self.buf_size
        &&& self.sample_rate > 0
        &&& 0 < self.silence_threshold_amp <= AMP_SCALE
        &&& self.onset_velocity_threshold <= VEL_SCALE
        &&& self.sustained_velocity_threshold <= VEL_SCALE
        &&& 0 <= self.merge_pitch_window <= PITCH_LIMIT
    }

    /// Builds a configuration with the default thresholds for the given
    /// window geometry, rejecting an invalid size relationship.
    ///
    /// The time-valued defaults (minimum inter-onset interval and merge time
    /// window, both 0.05 s) are converted to samples as one twentieth of the
    /// sample rate.
    pub fn new(buf_size: usize, hop_size: usize, sample_rate: u32) -> (r: Result<
        AnalysisConfig,
        crate::events::PipelineError,
    >)
        ensures
            r is Ok <==> (0 < hop_size <= buf_size && sample_rate > 0),
            r matches Ok(c) ==> c.wf() && c.buf_size == buf_size && c.hop_size == hop_size
                && c.sample_rate == sample_rate && c.silence_threshold_amp
                == DEFAULT_SILENCE_THRESHOLD_AMP && c.min_onset_gap == sample_rate as u64 / 20
                && c.onset_velocity_threshold == DEFAULT_ONSET_VELOCITY_THRESHOLD
                && c.sustained_velocity_threshold == DEFAULT_SUSTAINED_VELOCITY_THRESHOLD
                && c.merge_time_window == sample_rate as u64 / 20 && c.merge_pitch_window
                == DEFAULT_MERGE_PITCH_WINDOW,
            r is Err ==> r == Result::<AnalysisConfig, crate::events::PipelineError>::Err(
                crate::events::PipelineError::InvalidConfig,
            ),
    {
        if hop_size == 0 || hop_size > buf_size || sample_rate == 0 {
            return Result::Err(crate::events::PipelineError::InvalidConfig);
        }
        let gap: u64 = sample_rate as u64 / 20;
        Result::Ok(
            AnalysisConfig {
                buf_size,
                hop_size,
                sample_rate,
                silence_threshold_amp: DEFAULT_SILENCE_THRESHOLD_AMP,
                min_onset_gap: gap,
                onset_velocity_threshold: DEFAULT_ONSET_VELOCITY_THRESHOLD,
                sustained_velocity_threshold: DEFAULT_SUSTAINED_VELOCITY_THRESHOLD,
                merge_time_window: gap,
                merge_pitch_window: DEFAULT_MERGE_PITCH_WINDOW,
            },
        )
    }

    /// The configuration the pipeline runs with by default: a 1024-sample
    /// window advanced by 512 samples.
    pub fn standard(sample_rate: u32) -> (r: Result<AnalysisConfig, crate::events::PipelineError>)
        ensures
            r is Ok <==> sample_rate > 0,
            r matches Ok(c) ==> c.wf() && c.buf_size == DEFAULT_BUF_SIZE && c.hop_size
                == DEFAULT_HOP_SIZE && c.sample_rate == sample_rate && c.silence_threshold_amp
                == DEFAULT_SILENCE_THRESHOLD_AMP && c.min_onset_gap == sample_rate as u64 / 20
                && c.onset_velocity_threshold == DEFAULT_ONSET_VELOCITY_THRESHOLD
                && c.sustained_velocity_threshold == DEFAULT_SUSTAINED_VELOCITY_THRESHOLD
                && c.merge_time_window == sample_rate as u64 / 20 && c.merge_pitch_window
                == DEFAULT_MERGE_PITCH_WINDOW,
            r is Err ==> r == Result::<AnalysisConfig, crate::events::PipelineError>::Err(
                crate::events::PipelineError::InvalidConfig,
            ),
    {
        AnalysisConfig::new(DEFAULT_BUF_SIZE, DEFAULT_HOP_SIZE, sample_rate)
    }
}

} // verus!
