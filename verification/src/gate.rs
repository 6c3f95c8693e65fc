//! The event gate: onset-debounced, dual-threshold emission of note events,
//! one analyzed frame at a time.
//!
//! A frame with a detected onset may open a new strike: it is accepted when
//! no onset was accepted before, or when more than `min_onset_gap` samples
//! passed since the last accepted one.  An accepted onset emits every pitch
//! estimate louder than the onset threshold; a debounced onset emits nothing
//! and leaves the state alone.  A frame without an onset emits only the
//! estimates louder than the higher sustained threshold and never moves the
//! state.

use vstd::prelude::*;
use crate::config::AnalysisConfig;
use crate::events::{FrameAnalysis, FrameView, GateState, NoteEvent, PitchEstimate};

verus! {

/// Whether an onset at time `t` is accepted: always for the first one,
/// otherwise only more than `gap` samples after the last accepted one.
pub open spec fn onset_accepted(last: Option<u64>, t: u64, gap: u64) -> bool {
    match last {
        Option::None => true,
        Option::Some(l) => t - l > gap,
    }
}

/// The estimates louder than `thresh`, turned into events stamped with the
/// frame time `t`, in the order they were estimated.
pub open spec fn emitted(pitches: Seq<PitchEstimate>, thresh: u64, t: u64) -> Seq<NoteEvent>
    decreases pitches.len(),
{
    if pitches.len() == 0 {
        Seq::empty()
    } else {
        let rest = emitted(pitches.drop_last(), thresh, t);
        if pitches.last().velocity > thresh {
            rest.push(
                NoteEvent {
                    pitch: pitches.last().pitch,
                    velocity: pitches.last().velocity,
                    time: t,
                },
            )
        } else {
            rest
        }
    }
}

/// Every emitted event carries the frame time, and pitch and velocity of one
/// of the estimates.
pub proof fn lemma_emitted_events(pitches: Seq<PitchEstimate>, thresh: u64, t: u64, k: int)
    requires
        0 <= k < emitted(pitches, thresh, t).len(),
    ensures
        emitted(pitches, thresh, t)[k].time == t,
        exists|j: int|
            0 <= j < pitches.len() && (#[trigger] pitches[j]).velocity == emitted(
                pitches,
                thresh,
                t,
            )[k].velocity && pitches[j].pitch == emitted(pitches, thresh, t)[k].pitch,
    decreases pitches.len(),
{
    if pitches.len() > 0 {
        let rest = emitted(pitches.drop_last(), thresh, t);
        if k < rest.len() {
            lemma_emitted_events(pitches.drop_last(), thresh, t, k);
            let j = choose|j: int|
                0 <= j < pitches.drop_last().len() && (#[trigger] pitches.drop_last()[j]).velocity
                    == rest[k].velocity && pitches.drop_last()[j].pitch == rest[k].pitch;
            assert(pitches[j] == pitches.drop_last()[j]);
        } else {
            assert(pitches[pitches.len() - 1] == pitches.last());
        }
    }
}

/// Emission from well-formed estimates yields well-formed events.
pub proof fn lemma_emitted_wf(pitches: Seq<PitchEstimate>, thresh: u64, t: u64, k: int)
    requires
        forall|i: int| 0 <= i < pitches.len() ==> (#[trigger] pitches[i]).wf(),
        0 <= k < emitted(pitches, thresh, t).len(),
    ensures
        emitted(pitches, thresh, t)[k].wf(),
{
    lemma_emitted_events(pitches, thresh, t, k);
    let j = choose|j: int|
        0 <= j < pitches.len() && (#[trigger] pitches[j]).velocity == emitted(
            pitches,
            thresh,
            t,
        )[k].velocity && pitches[j].pitch == emitted(pitches, thresh, t)[k].pitch;
    assert(pitches[j].wf());
}

/// The events one analyzed frame contributes, given the current state.
pub open spec fn frame_events(last: Option<u64>, f: FrameView, cfg: AnalysisConfig) -> Seq<
    NoteEvent,
> {
    if f.onset {
        if onset_accepted(last, f.time, cfg.min_onset_gap) {
            emitted(f.pitches, cfg.onset_velocity_threshold, f.time)
        } else {
            Seq::empty()
        }
    } else {
        emitted(f.pitches, cfg.sustained_velocity_threshold, f.time)
    }
}

/// The event gate state after one analyzed frame.
pub open spec fn gate_next(last: Option<u64>, f: FrameView, cfg: AnalysisConfig) -> Option<u64> {
    if f.onset && onset_accepted(last, f.time, cfg.min_onset_gap) {
        Option::Some(f.time)
    } else {
        last
    }
}

/// All events the event gate emits over a run of analyzed frames.
pub open spec fn gate_events(last: Option<u64>, frames: Seq<FrameView>, cfg: AnalysisConfig) -> Seq<
    NoteEvent,
>
    decreases frames.len(),
{
    if frames.len() == 0 {
        Seq::empty()
    } else {
        frame_events(last, frames[0], cfg) + gate_events(
            gate_next(last, frames[0], cfg),
            frames.skip(1),
            cfg,
        )
    }
}

/// The event gate state after a run of analyzed frames.
pub open spec fn gate_state_after(
    last: Option<u64>,
    frames: Seq<FrameView>,
    cfg: AnalysisConfig,
) -> Option<u64>
    decreases frames.len(),
{
    if frames.len() == 0 {
        last
    } else {
        gate_state_after(gate_next(last, frames[0], cfg), frames.skip(1), cfg)
    }
}

/// Peeling the last frame off a run.
pub proof fn lemma_gate_snoc(
    last: Option<u64>,
    frames: Seq<FrameView>,
    f: FrameView,
    cfg: AnalysisConfig,
)
    ensures
        gate_events(last, frames.push(f), cfg) == gate_events(last, frames, cfg) + frame_events(
            gate_state_after(last, frames, cfg),
            f,
            cfg,
        ),
        gate_state_after(last, frames.push(f), cfg) == gate_next(
            gate_state_after(last, frames, cfg),
            f,
            cfg,
        ),
    decreases frames.len(),
{
    if frames.len() == 0 {
        reveal_with_fuel(gate_events, 2);
        reveal_with_fuel(gate_state_after, 2);
        assert(frames.push(f)[0] == f);
        assert(frames.push(f).skip(1) =~= Seq::<FrameView>::empty());
        assert(gate_events(last, frames.push(f), cfg) =~= gate_events(last, frames, cfg)
            + frame_events(gate_state_after(last, frames, cfg), f, cfg));
    } else {
        assert(frames.push(f)[0] == frames[0]);
        assert(frames.push(f).skip(1) =~= frames.skip(1).push(f));
        let next = gate_next(last, frames[0], cfg);
        lemma_gate_snoc(next, frames.skip(1), f, cfg);
        assert(frame_events(last, frames[0], cfg) + (gate_events(next, frames.skip(1), cfg)
            + frame_events(gate_state_after(next, frames.skip(1), cfg), f, cfg)) =~= (frame_events(
            last,
            frames[0],
            cfg,
        ) + gate_events(next, frames.skip(1), cfg)) + frame_events(
            gate_state_after(next, frames.skip(1), cfg),
            f,
            cfg,
        ));
    }
}

/// Events leave the event gate in non-decreasing time order: each frame
/// stamps its own time on its events, and frames arrive in increasing
/// time order.
pub proof fn lemma_gate_events_sorted(
    last: Option<u64>,
    frames: Seq<FrameView>,
    cfg: AnalysisConfig,
)
    requires
        times_increasing(frames),
    ensures
        crate::events::events_sorted(gate_events(last, frames, cfg)),
        forall|k: int|
            0 <= k < gate_events(last, frames, cfg).len() && frames.len() > 0 ==> frames[0].time
                <= (#[trigger] gate_events(last, frames, cfg)[k]).time,
    decreases frames.len(),
{
    if frames.len() > 0 {
        let head = frame_events(last, frames[0], cfg);
        let next = gate_next(last, frames[0], cfg);
        let tail = gate_events(next, frames.skip(1), cfg);
        assert(times_increasing(frames.skip(1))) by {
            assert forall|a: int, b: int| 0 <= a < b < frames.skip(1).len() implies (
            #[trigger] frames.skip(1)[a]).time < (#[trigger] frames.skip(1)[b]).time by {
                assert(frames.skip(1)[a] == frames[a + 1]);
                assert(frames.skip(1)[b] == frames[b + 1]);
            }
        }
        lemma_gate_events_sorted(next, frames.skip(1), cfg);
        assert forall|k: int| 0 <= k < head.len() implies (#[trigger] head[k]).time
            == frames[0].time by {
            if frames[0].onset {
                if onset_accepted(last, frames[0].time, cfg.min_onset_gap) {
                    lemma_emitted_events(
                        frames[0].pitches,
                        cfg.onset_velocity_threshold,
                        frames[0].time,
                        k,
                    );
                }
            } else {
                lemma_emitted_events(
                    frames[0].pitches,
                    cfg.sustained_velocity_threshold,
                    frames[0].time,
                    k,
                );
            }
        }
        assert forall|k: int| 0 <= k < tail.len() implies frames[0].time <= (
        #[trigger] tail[k]).time by {
            if frames.skip(1).len() > 0 {
                assert(frames.skip(1)[0] == frames[1]);
                assert(frames[0].time < frames[1].time);
            }
        }
        assert(gate_events(last, frames, cfg) == head + tail);
    }
}

/// Events inherit pitch and velocity from the frames' estimates, so a run
/// over well-formed frames emits only well-formed events.
pub proof fn lemma_gate_events_wf(last: Option<u64>, frames: Seq<FrameView>, cfg: AnalysisConfig)
    requires
        forall|i: int| 0 <= i < frames.len() ==> (#[trigger] frames[i]).wf(),
    ensures
        forall|k: int|
            0 <= k < gate_events(last, frames, cfg).len() ==> (#[trigger] gate_events(
                last,
                frames,
                cfg,
            )[k]).wf(),
    decreases frames.len(),
{
    if frames.len() > 0 {
        let head = frame_events(last, frames[0], cfg);
        let next = gate_next(last, frames[0], cfg);
        assert forall|j: int| 0 <= j < frames.skip(1).len() implies (#[trigger] frames.skip(
            1,
        )[j]).wf() by {
            assert(frames.skip(1)[j] == frames[j + 1]);
        }
        lemma_gate_events_wf(next, frames.skip(1), cfg);
        assert forall|k: int| 0 <= k < head.len() implies (#[trigger] head[k]).wf() by {
            assert(frames[0].wf());
            if frames[0].onset {
                if onset_accepted(last, frames[0].time, cfg.min_onset_gap) {
                    lemma_emitted_wf(
                        frames[0].pitches,
                        cfg.onset_velocity_threshold,
                        frames[0].time,
                        k,
                    );
                }
            } else {
                lemma_emitted_wf(
                    frames[0].pitches,
                    cfg.sustained_velocity_threshold,
                    frames[0].time,
                    k,
                );
            }
        }
        assert(gate_events(last, frames, cfg) == head + gate_events(next, frames.skip(1), cfg));
    }
}

/// Total number of pitch estimates across a run of frames.
pub open spec fn total_estimates(frames: Seq<FrameView>) -> int
    decreases frames.len(),
{
    if frames.len() == 0 {
        0
    } else {
        frames[0].pitches.len() + total_estimates(frames.skip(1))
    }
}

/// A frame emits at most one event per estimate.
proof fn lemma_emitted_len(pitches: Seq<PitchEstimate>, thresh: u64, t: u64)
    ensures
        emitted(pitches, thresh, t).len() <= pitches.len(),
    decreases pitches.len(),
{
    if pitches.len() > 0 {
        lemma_emitted_len(pitches.drop_last(), thresh, t);
    }
}

/// The accumulated event list is never longer than the total number of pitch
/// estimates over the analyzed frames.
pub proof fn lemma_gate_events_len(last: Option<u64>, frames: Seq<FrameView>, cfg: AnalysisConfig)
    ensures
        gate_events(last, frames, cfg).len() <= total_estimates(frames),
    decreases frames.len(),
{
    if frames.len() > 0 {
        if frames[0].onset {
            lemma_emitted_len(frames[0].pitches, cfg.onset_velocity_threshold, frames[0].time);
        } else {
            lemma_emitted_len(frames[0].pitches, cfg.sustained_velocity_threshold, frames[0].time);
        }
        lemma_gate_events_len(gate_next(last, frames[0], cfg), frames.skip(1), cfg);
    }
}

/// A lone onset within the minimum inter-onset interval of the last accepted
/// one is fully suppressed: the frame contributes no events and leaves the
/// state alone.
pub proof fn lemma_onset_debounced(t1: u64, f: FrameView, cfg: AnalysisConfig)
    requires
        f.onset,
        f.time - t1 <= cfg.min_onset_gap,
    ensures
        frame_events(Option::Some(t1), f, cfg) == Seq::<NoteEvent>::empty(),
        gate_next(Option::Some(t1), f, cfg) == Option::<u64>::Some(t1),
{
}

/// After an onset is accepted at time `t1`, a whole run of onset frames that
/// all lie within the minimum inter-onset interval of `t1` is suppressed
/// entirely: the run contributes no events, and the state still points at
/// `t1`, so only the group at `t1` is ever emitted.
pub proof fn lemma_onset_burst_suppressed(t1: u64, frames: Seq<FrameView>, cfg: AnalysisConfig)
    requires
        forall|j: int|
            0 <= j < frames.len() ==> (#[trigger] frames[j]).onset && frames[j].time - t1
                <= cfg.min_onset_gap,
    ensures
        gate_events(Option::Some(t1), frames, cfg) == Seq::<NoteEvent>::empty(),
        gate_state_after(Option::Some(t1), frames, cfg) == Option::<u64>::Some(t1),
    decreases frames.len(),
{
    if frames.len() > 0 {
        lemma_onset_debounced(t1, frames[0], cfg);
        assert forall|j: int| 0 <= j < frames.skip(1).len() implies (#[trigger] frames.skip(
            1,
        )[j]).onset && frames.skip(1)[j].time - t1 <= cfg.min_onset_gap by {
            assert(frames.skip(1)[j] == frames[j + 1]);
        }
        lemma_onset_burst_suppressed(t1, frames.skip(1), cfg);
        assert(gate_events(Option::Some(t1), frames, cfg) =~= Seq::<NoteEvent>::empty());
    }
}

/// The events a run of frames would contribute through the sustained path
/// alone: nothing from onset frames, and the estimates above the sustained
/// threshold from the others.
pub open spec fn sustained_only_events(frames: Seq<FrameView>, cfg: AnalysisConfig) -> Seq<
    NoteEvent,
>
    decreases frames.len(),
{
    if frames.len() == 0 {
        Seq::empty()
    } else {
        (if frames[0].onset {
            Seq::empty()
        } else {
            emitted(frames[0].pitches, cfg.sustained_velocity_threshold, frames[0].time)
        }) + sustained_only_events(frames.skip(1), cfg)
    }
}

/// After an onset is accepted at time `t1`, a run of frames lying entirely
/// within the minimum inter-onset interval of `t1` contributes exactly what
/// its non-onset frames emit through the sustained path: every further onset
/// in the run is fully suppressed, and the state still points at `t1`.
pub proof fn lemma_debounce_window(t1: u64, frames: Seq<FrameView>, cfg: AnalysisConfig)
    requires
        forall|j: int|
            0 <= j < frames.len() ==> (#[trigger] frames[j]).time - t1 <= cfg.min_onset_gap,
    ensures
        gate_events(Option::Some(t1), frames, cfg) == sustained_only_events(frames, cfg),
        gate_state_after(Option::Some(t1), frames, cfg) == Option::<u64>::Some(t1),
    decreases frames.len(),
{
    if frames.len() > 0 {
        assert forall|j: int| 0 <= j < frames.skip(1).len() implies (#[trigger] frames.skip(
            1,
        )[j]).time - t1 <= cfg.min_onset_gap by {
            assert(frames.skip(1)[j] == frames[j + 1]);
        }
        lemma_debounce_window(t1, frames.skip(1), cfg);
        assert(gate_events(Option::Some(t1), frames, cfg) =~= sustained_only_events(frames, cfg));
    }
}

/// Emits the estimates of `frame` that are louder than `thresh` as events at
/// the frame's time, appended to `out` in estimation order.
fn emit_loud(frame: &FrameAnalysis, thresh: u64, out: &mut Vec<NoteEvent>)
    ensures
        final(out)@ == old(out)@ + emitted(frame@.pitches, thresh, frame.time),
{
    let ghost base = out@;
    let ghost ps = frame@.pitches;
    let mut i: usize = 0;
    while i < frame.pitches.len()
        invariant
            0 <= i <= ps.len(),
            ps == frame@.pitches,
            out@ == base + emitted(ps.take(i as int), thresh, frame.time),
        decreases ps.len() - i,
    {
        let p = frame.pitches[i];
        proof {
            assert(ps.take(i + 1).drop_last() =~= ps.take(i as int));
            assert(ps.take(i + 1).last() == ps[i as int]);
        }
        if p.velocity > thresh {
            out.push(NoteEvent { pitch: p.pitch, velocity: p.velocity, time: frame.time });
            proof {
                assert(out@ =~= base + emitted(ps.take(i + 1), thresh, frame.time));
            }
        } else {
            proof {
                assert(out@ =~= base + emitted(ps.take(i + 1), thresh, frame.time));
            }
        }
        i += 1;
    }
    proof {
        assert(ps.take(ps.len() as int) =~= ps);
    }
}

/// One step of the event gate: feeds a single analyzed frame through,
/// updating the state and appending this frame's events to `out`.
///
/// Frames must arrive in forward time order, so the frame is never earlier
/// than the last accepted onset.
pub fn gate_step(
    state: &mut GateState,
    frame: &FrameAnalysis,
    cfg: &AnalysisConfig,
    out: &mut Vec<NoteEvent>,
)
    requires
        match old(state).last_onset_time {
            Option::Some(l) => l <= frame.time,
            Option::None => true,
        },
    ensures
        final(state).last_onset_time == gate_next(old(state).last_onset_time, frame@, *cfg),
        final(out)@ == old(out)@ + frame_events(old(state).last_onset_time, frame@, *cfg),
{
    if frame.onset {
        let accept: bool = match state.last_onset_time {
            Option::None => true,
            Option::Some(l) => frame.time - l > cfg.min_onset_gap,
        };
        if accept {
            state.last_onset_time = Option::Some(frame.time);
            emit_loud(frame, cfg.onset_velocity_threshold, out);
        } else {
            proof {
                assert(out@ =~= out@ + frame_events(old(state).last_onset_time, frame@, *cfg));
            }
        }
    } else {
        emit_loud(frame, cfg.sustained_velocity_threshold, out);
    }
}

/// The frames as their ghost images.
pub open spec fn frames_view(frames: Seq<FrameAnalysis>) -> Seq<FrameView> {
    frames.map_values(|f: FrameAnalysis| f@)
}

/// Frames arrive in strictly increasing time order.
pub open spec fn times_increasing(fs: Seq<FrameView>) -> bool {
    forall|i: int, j: int| 0 <= i < j < fs.len() ==> (#[trigger] fs[i]).time < (#[trigger] fs[j]).time
}

/// Runs the event gate over all analyzed frames of one invocation,
/// starting from the empty state, and returns every emitted event in
/// emission order.
pub fn run_gate(frames: &Vec<FrameAnalysis>, cfg: &AnalysisConfig) -> (r: Vec<NoteEvent>)
    requires
        times_increasing(frames_view(frames@)),
    ensures
        r@ == gate_events(Option::None, frames_view(frames@), *cfg),
{
    let ghost fv = frames_view(frames@);
    let mut state = GateState::start();
    let mut out: Vec<NoteEvent> = Vec::new();
    let mut i: usize = 0;
    while i < frames.len()
        invariant
            0 <= i <= frames@.len(),
            fv == frames_view(frames@),
            times_increasing(fv),
            state.last_onset_time == gate_state_after(Option::None, fv.take(i as int), *cfg),
            out@ == gate_events(Option::None, fv.take(i as int), *cfg),
            match state.last_onset_time {
                Option::Some(l) => exists|j: int|
                    0 <= j < i && (#[trigger] fv[j]).time == l,
                Option::None => true,
            },
        decreases frames@.len() - i,
    {
        let f = &frames[i];
        proof {
            assert(fv[i as int] == frames@[i as int]@);
            match state.last_onset_time {
                Option::Some(l) => {
                    let j = choose|j: int| 0 <= j < i && (#[trigger] fv[j]).time == l;
                    assert(fv[j].time < fv[i as int].time);
                },
                Option::None => {},
            }
        }
        gate_step(&mut state, f, cfg, &mut out);
        proof {
            lemma_gate_snoc(Option::None, fv.take(i as int), fv[i as int], *cfg);
            assert(fv.take(i + 1) =~= fv.take(i as int).push(fv[i as int]));
            if state.last_onset_time == Option::<u64>::Some(fv[i as int].time) {
                assert(0 <= i < i + 1 && fv[i as int].time == fv[i as int].time);
            }
        }
        i += 1;
    }
    proof {
        assert(fv.take(frames@.len() as int) =~= fv);
    }
    out
}

} // verus!
