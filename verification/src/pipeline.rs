//! The pipeline glued together: preprocessing for the scanner, and the
//! event stages behind the analyzer.
//!
//! One invocation owns its buffer, configuration and gate state; nothing is
//! shared across invocations.  The analyzer runs between the two halves: the
//! scanner names the windows worth analyzing, the caller collects the
//! analyzer's verdicts in forward time order, and `detect_notes` turns them
//! into the final event list.

use vstd::prelude::*;
use crate::config::{AnalysisConfig, LOWPASS_ANGULAR_CUTOFF, PEAK_LIMIT, RAW_SAMPLE_LIMIT};
use crate::events::{events_sorted, FrameAnalysis, NoteEvent};
use crate::gate::{
    frames_view, gate_events, lemma_gate_events_sorted, lemma_gate_events_wf, run_gate,
    times_increasing,
};
use crate::merge::{lemma_merged_sorted, merge_close_notes, merged};
use crate::preprocess::{
    abs_val, apply_lowpass_filter, lowpass_at, normalize_audio, peak_amplitude, scaled_sample,
};

verus! {

/// The buffer after peak normalization: untouched when it is all zero, else
/// every sample scaled toward the target peak.
pub open spec fn normalized_buffer(s: Seq<i64>) -> Seq<i64> {
    if peak_amplitude(s) == 0 {
        s
    } else {
        Seq::new(s.len(), |i: int| scaled_sample(s[i] as int, peak_amplitude(s)) as i64)
    }
}

/// The buffer after the fixed 8000 Hz single-pole low-pass filter.
pub open spec fn lowpassed_buffer(s: Seq<i64>, sample_rate: u32) -> Seq<i64> {
    Seq::new(
        s.len(),
        |i: int|
            lowpass_at(
                s,
                LOWPASS_ANGULAR_CUTOFF as int,
                sample_rate as int + LOWPASS_ANGULAR_CUTOFF as int,
                i,
            ) as i64,
    )
}

/// Prepares a decoded buffer for scanning: peak normalization followed by
/// the low-pass filter, both in place, applied once over the whole buffer
/// before any window is cut.
pub fn preprocess_samples(samples: &mut Vec<i64>, sample_rate: u32)
    requires
        sample_rate > 0,
        forall|i: int|
            0 <= i < old(samples)@.len() ==> abs_val(#[trigger] old(samples)@[i] as int)
                <= RAW_SAMPLE_LIMIT,
    ensures
        final(samples)@ == lowpassed_buffer(normalized_buffer(old(samples)@), sample_rate),
        forall|i: int|
            0 <= i < final(samples)@.len() ==> abs_val(#[trigger] final(samples)@[i] as int)
                <= PEAK_LIMIT,
{
    let ghost s0 = samples@;
    normalize_audio(samples);
    proof {
        assert(samples@ =~= normalized_buffer(s0));
    }
    let ghost s1 = samples@;
    apply_lowpass_filter(samples, sample_rate);
    proof {
        assert(samples@ =~= lowpassed_buffer(s1, sample_rate));
    }
}

/// Turns the analyzer's verdicts on the non-silent windows, given in strictly
/// increasing time order, into the final event list: the debounced gate runs
/// over every frame, and the merger coalesces near-duplicates.  The result's
/// timestamps are non-decreasing for every input.
///
/// The merger wants its input time-sorted with ties in emission order.  The
/// events leave the event gate already in exactly that order — each frame
/// stamps its own time, and frames arrive in increasing time order — so the
/// stable sort between the two stages is the identity and none is performed.
pub fn detect_notes(frames: &Vec<FrameAnalysis>, cfg: &AnalysisConfig) -> (r: Vec<NoteEvent>)
    requires
        cfg.wf(),
        times_increasing(frames_view(frames@)),
        forall|i: int|
            0 <= i < frames@.len() ==> (#[trigger] frames_view(frames@)[i]).wf(),
    ensures
        r@ == merged(gate_events(Option::None, frames_view(frames@), *cfg), *cfg),
        events_sorted(r@),
{
    let evts = run_gate(frames, cfg);
    proof {
        lemma_gate_events_wf(Option::None, frames_view(frames@), *cfg);
        lemma_gate_events_sorted(Option::None, frames_view(frames@), *cfg);
        lemma_merged_sorted(evts@, *cfg);
    }
    merge_close_notes(evts, cfg)
}

} // verus!
