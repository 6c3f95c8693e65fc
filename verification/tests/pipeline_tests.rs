//! End-to-end behavior of the event stages: gate, merger and their
//! composition on concrete frame runs.

use audio_labeling::config::AnalysisConfig;
use audio_labeling::events::{FrameAnalysis, GateState, NoteEvent, PitchEstimate};
use audio_labeling::gate::{gate_step, run_gate};
use audio_labeling::merge::merge_close_notes;
use audio_labeling::pipeline::detect_notes;

fn standard_config() -> AnalysisConfig {
    AnalysisConfig::standard(44100).unwrap()
}

fn frame(time: u64, onset: bool, pitches: &[(i64, u64)]) -> FrameAnalysis {
    let mut ps = Vec::new();
    for &(pitch, velocity) in pitches {
        ps.push(PitchEstimate { pitch, velocity });
    }
    FrameAnalysis { time, onset, pitches: ps }
}

#[test]
fn single_onset_yields_single_event() {
    // One detected onset at 0.20 s (sample 8820 of 44100 Hz) with one pitch
    // estimate of velocity 0.8 gives exactly one event at that time.
    let cfg = standard_config();
    let frames = vec![frame(8820, true, &[(60_000, 800)])];
    let out = detect_notes(&frames, &cfg);
    assert_eq!(out, vec![NoteEvent { pitch: 60_000, velocity: 800, time: 8820 }]);
}

#[test]
fn second_onset_within_interval_is_suppressed() {
    // Onsets at 0.10 s and 0.12 s: the 0.02 s gap is below the 0.05 s
    // minimum, so only the group at 0.10 s is emitted.
    let cfg = standard_config();
    let frames = vec![
        frame(4410, true, &[(60_000, 800)]),
        frame(5292, true, &[(62_000, 900)]),
    ];
    let out = detect_notes(&frames, &cfg);
    assert_eq!(out, vec![NoteEvent { pitch: 60_000, velocity: 800, time: 4410 }]);
}

#[test]
fn onset_after_interval_is_accepted() {
    let cfg = standard_config();
    // 4410 + 2206 > min_onset_gap of 2205 samples: both onsets accepted.
    let frames = vec![
        frame(4410, true, &[(60_000, 800)]),
        frame(6616, true, &[(62_000, 900)]),
    ];
    let out = detect_notes(&frames, &cfg);
    assert_eq!(out.len(), 2);
    assert_eq!(out[0].time, 4410);
    assert_eq!(out[1].time, 6616);
}

#[test]
fn sustained_frame_uses_higher_threshold() {
    // Without an onset only estimates above 0.5 pass; 0.4 is dropped even
    // though it would pass the 0.3 onset threshold.
    let cfg = standard_config();
    let frames = vec![frame(44100, false, &[(60_000, 400), (64_000, 600)])];
    let out = detect_notes(&frames, &cfg);
    assert_eq!(out, vec![NoteEvent { pitch: 64_000, velocity: 600, time: 44100 }]);
}

#[test]
fn onset_frame_uses_lower_threshold() {
    let cfg = standard_config();
    let frames = vec![frame(44100, true, &[(60_000, 400), (64_000, 250)])];
    let out = detect_notes(&frames, &cfg);
    assert_eq!(out, vec![NoteEvent { pitch: 60_000, velocity: 400, time: 44100 }]);
}

#[test]
fn gate_step_accepts_first_onset_and_records_time() {
    let cfg = standard_config();
    let mut state = GateState::start();
    let mut out = Vec::new();
    gate_step(&mut state, &frame(100, true, &[(60_000, 800)]), &cfg, &mut out);
    assert_eq!(state.last_onset_time, Some(100));
    assert_eq!(out, vec![NoteEvent { pitch: 60_000, velocity: 800, time: 100 }]);
    // A debounced onset emits nothing and keeps the state.
    gate_step(&mut state, &frame(300, true, &[(61_000, 900)]), &cfg, &mut out);
    assert_eq!(state.last_onset_time, Some(100));
    assert_eq!(out.len(), 1);
}

#[test]
fn run_gate_emits_in_frame_order() {
    let cfg = standard_config();
    let frames = vec![
        frame(1000, false, &[(50_000, 700)]),
        frame(5000, true, &[(60_000, 800)]),
        frame(20000, false, &[(70_000, 900)]),
    ];
    let out = run_gate(&frames, &cfg);
    assert_eq!(out.len(), 3);
    assert!(out.windows(2).all(|w| w[0].time <= w[1].time));
}

#[test]
fn merge_collapses_close_pair_keeping_louder() {
    // Events at 1.000 s and 1.010 s, one pitch unit apart: both windows
    // match, and the higher-velocity one survives.
    let cfg = standard_config();
    let notes = vec![
        NoteEvent { pitch: 60_000, velocity: 400, time: 44100 },
        NoteEvent { pitch: 61_000, velocity: 600, time: 44541 },
    ];
    let out = merge_close_notes(notes, &cfg);
    assert_eq!(out, vec![NoteEvent { pitch: 61_000, velocity: 600, time: 44541 }]);
}

#[test]
fn merge_keeps_earlier_event_on_velocity_tie() {
    let cfg = standard_config();
    let notes = vec![
        NoteEvent { pitch: 60_000, velocity: 600, time: 44100 },
        NoteEvent { pitch: 61_000, velocity: 600, time: 44541 },
    ];
    let out = merge_close_notes(notes, &cfg);
    assert_eq!(out, vec![NoteEvent { pitch: 60_000, velocity: 600, time: 44100 }]);
}

#[test]
fn merge_leaves_distant_events_alone() {
    let cfg = standard_config();
    let notes = vec![
        NoteEvent { pitch: 60_000, velocity: 400, time: 44100 },
        NoteEvent { pitch: 60_000, velocity: 600, time: 88200 },
    ];
    let out = merge_close_notes(notes.clone(), &cfg);
    assert_eq!(out, notes);
}

#[test]
fn merge_is_not_chained_beyond_running_candidate() {
    // Three events each within the window of the previous one: the running
    // candidate merges through the chain in one greedy pass.
    let cfg = standard_config();
    let notes = vec![
        NoteEvent { pitch: 60_000, velocity: 400, time: 44100 },
        NoteEvent { pitch: 60_500, velocity: 500, time: 45000 },
        NoteEvent { pitch: 61_000, velocity: 450, time: 46000 },
    ];
    let out = merge_close_notes(notes, &cfg);
    assert_eq!(out, vec![NoteEvent { pitch: 60_500, velocity: 500, time: 45000 }]);
}

#[test]
fn rerunning_merge_on_merged_output_is_identity() {
    let cfg = standard_config();
    let notes = vec![
        NoteEvent { pitch: 60_000, velocity: 400, time: 44100 },
        NoteEvent { pitch: 61_000, velocity: 600, time: 44541 },
        NoteEvent { pitch: 70_000, velocity: 900, time: 100_000 },
        NoteEvent { pitch: 70_500, velocity: 100, time: 101_000 },
    ];
    let once = merge_close_notes(notes, &cfg);
    let twice = merge_close_notes(once.clone(), &cfg);
    assert_eq!(once, twice);
}

#[test]
fn output_timestamps_are_non_decreasing() {
    let cfg = standard_config();
    let frames = vec![
        frame(0, true, &[(60_000, 800), (72_000, 700)]),
        frame(512, false, &[(60_000, 900)]),
        frame(8000, true, &[(64_000, 600)]),
        frame(30000, false, &[(50_000, 800), (55_000, 550)]),
    ];
    let out = detect_notes(&frames, &cfg);
    assert!(out.windows(2).all(|w| w[0].time <= w[1].time));
}

#[test]
fn sustained_events_pass_inside_debounce_window() {
    // Within the interval after an accepted onset, a further onset is
    // suppressed but a non-onset frame still emits its strong estimates.
    let cfg = standard_config();
    let frames = vec![
        frame(4410, true, &[(60_000, 800)]),
        frame(5000, false, &[(65_000, 700)]),
        frame(5292, true, &[(62_000, 900)]),
    ];
    let out = detect_notes(&frames, &cfg);
    assert_eq!(
        out,
        vec![
            NoteEvent { pitch: 60_000, velocity: 800, time: 4410 },
            NoteEvent { pitch: 65_000, velocity: 700, time: 5000 },
        ]
    );
}

#[test]
fn debounce_boundary_is_exclusive() {
    // The minimum inter-onset interval of 2205 samples suppresses a second
    // onset exactly at the boundary (the gap must strictly exceed it).
    let cfg = standard_config();
    let frames = vec![
        frame(4410, true, &[(60_000, 800)]),
        frame(6615, true, &[(62_000, 900)]),
    ];
    let out = detect_notes(&frames, &cfg);
    assert_eq!(out, vec![NoteEvent { pitch: 60_000, velocity: 800, time: 4410 }]);
}

#[test]
fn velocity_threshold_is_exclusive() {
    // An estimate exactly at the threshold is dropped: emission requires a
    // strictly greater velocity.
    let cfg = standard_config();
    let frames = vec![frame(100, true, &[(60_000, 300)]), frame(10_000, false, &[(60_000, 500)])];
    let out = detect_notes(&frames, &cfg);
    assert!(out.is_empty());
}

#[test]
fn empty_frame_run_yields_empty_output() {
    let cfg = standard_config();
    let out = detect_notes(&Vec::new(), &cfg);
    assert!(out.is_empty());
}
