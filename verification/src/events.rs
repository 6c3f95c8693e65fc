//! Event data carried through the pipeline, and its failure values.

use vstd::prelude::*;

verus! {

/// One pitch estimate produced by the per-frame analyzer.
#[derive(Clone, Copy, Debug, PartialEq, Eq, Structural)]
pub struct PitchEstimate {
    /// Pitch in thousandths of a semitone-equivalent unit.
    pub pitch: i64,
    /// Velocity in thousandths, between 0 and `VEL_SCALE`.
    pub velocity: u64,
}

impl PitchEstimate {
    /// Range constraints every estimate handed to the event gate satisfies.
    pub open spec fn wf(&self) -> bool {
        &&& self.velocity <= crate::config::VEL_SCALE
        &&& -crate::config::PITCH_LIMIT <= self.pitch <= crate::config::PITCH_LIMIT
    }
}

/// One emitted note: pitch, velocity and the time it was detected at,
/// immutable once emitted.
#[derive(Clone, Copy, Debug, PartialEq, Eq, Structural)]
pub struct NoteEvent {
    /// Pitch in thousandths of a semitone-equivalent unit.
    pub pitch: i64,
    /// Velocity in thousandths, between 0 and `VEL_SCALE`.
    pub velocity: u64,
    /// Timestamp as a sample index: seconds times the sample rate.
    pub time: u64,
}

impl NoteEvent {
    /// Range constraints every event in the pipeline satisfies.
    pub open spec fn wf(&self) -> bool {
        &&& self.velocity <= crate::config::VEL_SCALE
        &&& -crate::config::PITCH_LIMIT <= self.pitch <= crate::config::PITCH_LIMIT
    }
}

/// The analyzer's verdict on one non-silent window: whether an onset was
/// detected there, and the pitch estimates, tagged with the window's start
/// time as a sample index.
#[derive(Debug)]
pub struct FrameAnalysis {
    /// Start of the window as a sample index.
    pub time: u64,
    /// Whether the analyzer detected an onset in this window.
    pub onset: bool,
    /// Zero or more pitch estimates for this window.
    pub pitches: Vec<PitchEstimate>,
}

/// Ghost image of a `FrameAnalysis`, with the estimates as a sequence.
pub struct FrameView {
    pub time: u64,
    pub onset: bool,
    pub pitches: Seq<PitchEstimate>,
}

impl View for FrameAnalysis {
    type V = FrameView;

    open spec fn view(&self) -> FrameView {
        FrameView { time: self.time, onset: self.onset, pitches: self.pitches@ }
    }
}

impl FrameView {
    /// Every estimate of the frame is in range.
    pub open spec fn wf(&self) -> bool {
        forall|i: int| 0 <= i < self.pitches.len() ==> #[trigger] self.pitches[i].wf()
    }
}

/// Timestamps never decrease along the sequence.
pub open spec fn events_sorted(s: Seq<NoteEvent>) -> bool {
    forall|i: int, j: int|
        0 <= i < j < s.len() ==> (#[trigger] s[i]).time <= (#[trigger] s[j]).time
}

/// The only state the event gate carries across frames: the time of the last
/// accepted onset, if any.
#[derive(Clone, Copy, Debug, PartialEq, Eq, Structural)]
pub struct GateState {
    /// Sample index of the last accepted onset.
    pub last_onset_time: Option<u64>,
}

impl GateState {
    /// The state a pipeline invocation starts from: no onset seen yet.
    pub fn start() -> (r: GateState)
        ensures
            r.last_onset_time is None,
    {
        GateState { last_onset_time: Option::None }
    }
}

/// Failures the verified part of the pipeline can report.
#[derive(Clone, Copy, Debug, PartialEq, Eq, Structural)]
pub enum PipelineError {
    /// The input was not valid standard base64.
    InvalidBase64,
    /// The requested window geometry or sample rate is unusable.
    InvalidConfig,
}

} // verus!
