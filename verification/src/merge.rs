//! The merger: a single greedy forward pass that coalesces near-duplicate
//! events.
//!
//! The running candidate is compared only to the next event; two events
//! closer than the time window and the pitch window count as one strike, and
//! the louder of the two goes on as the candidate.  Merging is not chained
//! transitively across the whole list.

use vstd::prelude::*;
use crate::config::AnalysisConfig;
use crate::events::{events_sorted, NoteEvent};
use crate::preprocess::abs_val;

verus! {

/// Whether two events count as duplicates of one strike: closer than the
/// merge time window and the merge pitch window at once.
pub open spec fn close_events(a: NoteEvent, b: NoteEvent, cfg: AnalysisConfig) -> bool {
    &&& (if a.time >= b.time {
        a.time - b.time
    } else {
        b.time - a.time
    }) < cfg.merge_time_window
    &&& abs_val(a.pitch - b.pitch) < cfg.merge_pitch_window
}

/// Of two duplicates, the louder one survives; ties keep the earlier
/// candidate.
pub open spec fn merge_winner(cur: NoteEvent, next: NoteEvent) -> NoteEvent {
    if next.velocity > cur.velocity {
        next
    } else {
        cur
    }
}

/// The merge pass with running candidate `cur` over the remaining events.
pub open spec fn merge_run(cur: NoteEvent, rest: Seq<NoteEvent>, cfg: AnalysisConfig) -> Seq<
    NoteEvent,
>
    decreases rest.len(),
{
    if rest.len() == 0 {
        seq![cur]
    } else if close_events(cur, rest[0], cfg) {
        merge_run(merge_winner(cur, rest[0]), rest.skip(1), cfg)
    } else {
        seq![cur] + merge_run(rest[0], rest.skip(1), cfg)
    }
}

/// The merged list: the merge pass seeded with the first event, or empty.
pub open spec fn merged(events: Seq<NoteEvent>, cfg: AnalysisConfig) -> Seq<NoteEvent> {
    if events.len() == 0 {
        Seq::empty()
    } else {
        merge_run(events[0], events.skip(1), cfg)
    }
}

/// Coalesces near-duplicate events in one greedy forward pass over a
/// time-sorted list, keeping the louder of any two close events.
pub fn merge_close_notes(notes: Vec<NoteEvent>, cfg: &AnalysisConfig) -> (r: Vec<NoteEvent>)
    requires
        cfg.wf(),
        forall|i: int| 0 <= i < notes@.len() ==> (#[trigger] notes@[i]).wf(),
    ensures
        r@ == merged(notes@, *cfg),
{
    if notes.len() == 0 {
        return notes;
    }
    let mut out: Vec<NoteEvent> = Vec::new();
    let mut cur: NoteEvent = notes[0];
    let mut i: usize = 1;
    while i < notes.len()
        invariant
            1 <= i <= notes@.len(),
            cfg.wf(),
            forall|k: int| 0 <= k < notes@.len() ==> (#[trigger] notes@[k]).wf(),
            cur.wf(),
            merged(notes@, *cfg) == out@ + merge_run(cur, notes@.skip(i as int), *cfg),
        decreases notes@.len() - i,
    {
        let next = notes[i];
        proof {
            assert(notes@.skip(i as int)[0] == notes@[i as int]);
            assert(notes@.skip(i as int).skip(1) =~= notes@.skip(i + 1));
        }
        let time_diff: u64 = if cur.time >= next.time {
            cur.time - next.time
        } else {
            next.time - cur.time
        };
        let pitch_diff: i64 = if cur.pitch >= next.pitch {
            cur.pitch - next.pitch
        } else {
            next.pitch - cur.pitch
        };
        if time_diff < cfg.merge_time_window && pitch_diff < cfg.merge_pitch_window {
            assert(close_events(cur, notes@[i as int], *cfg));
            if next.velocity > cur.velocity {
                cur = next;
            }
        } else {
            assert(!close_events(cur, notes@[i as int], *cfg));
            let ghost out0 = out@;
            out.push(cur);
            proof {
                assert(out@ =~= out0 + seq![cur]);
                assert(out0 + (seq![cur] + merge_run(notes@[i as int], notes@.skip(i + 1), *cfg))
                    =~= (out0 + seq![cur]) + merge_run(notes@[i as int], notes@.skip(i + 1), *cfg));
            }
            cur = next;
        }
        i += 1;
    }
    let ghost out0 = out@;
    out.push(cur);
    proof {
        assert(notes@.skip(notes@.len() as int) =~= Seq::<NoteEvent>::empty());
        assert(out@ =~= out0 + seq![cur]);
    }
    out
}

/// The merge pass keeps timestamps non-decreasing: every event it produces
/// is no earlier than the candidate it started from, and the output stays
/// sorted.
pub proof fn lemma_merge_run_sorted(cur: NoteEvent, rest: Seq<NoteEvent>, cfg: AnalysisConfig)
    requires
        forall|j: int| 0 <= j < rest.len() ==> cur.time <= (#[trigger] rest[j]).time,
        events_sorted(rest),
    ensures
        events_sorted(merge_run(cur, rest, cfg)),
        merge_run(cur, rest, cfg).len() >= 1,
        forall|k: int|
            0 <= k < merge_run(cur, rest, cfg).len() ==> cur.time <= (#[trigger] merge_run(
                cur,
                rest,
                cfg,
            )[k]).time,
    decreases rest.len(),
{
    if rest.len() == 0 {
    } else {
        let n = rest[0];
        assert forall|j: int| 0 <= j < rest.skip(1).len() implies n.time <= (#[trigger] rest.skip(
            1,
        )[j]).time by {
            assert(rest.skip(1)[j] == rest[j + 1]);
        }
        assert(events_sorted(rest.skip(1))) by {
            assert forall|a: int, b: int| 0 <= a < b < rest.skip(1).len() implies (
            #[trigger] rest.skip(1)[a]).time <= (#[trigger] rest.skip(1)[b]).time by {
                assert(rest.skip(1)[a] == rest[a + 1]);
                assert(rest.skip(1)[b] == rest[b + 1]);
            }
        }
        if close_events(cur, n, cfg) {
            let w = merge_winner(cur, n);
            assert forall|j: int| 0 <= j < rest.skip(1).len() implies w.time <= (
            #[trigger] rest.skip(1)[j]).time by {
                assert(rest.skip(1)[j] == rest[j + 1]);
            }
            lemma_merge_run_sorted(w, rest.skip(1), cfg);
        } else {
            lemma_merge_run_sorted(n, rest.skip(1), cfg);
        }
    }
}

/// The final output of the merger is time-sorted whenever its input is.
pub proof fn lemma_merged_sorted(events: Seq<NoteEvent>, cfg: AnalysisConfig)
    requires
        events_sorted(events),
    ensures
        events_sorted(merged(events, cfg)),
{
    if events.len() > 0 {
        assert forall|j: int| 0 <= j < events.skip(1).len() implies events[0].time <= (
        #[trigger] events.skip(1)[j]).time by {
            assert(events.skip(1)[j] == events[j + 1]);
        }
        assert(events_sorted(events.skip(1))) by {
            assert forall|a: int, b: int| 0 <= a < b < events.skip(1).len() implies (
            #[trigger] events.skip(1)[a]).time <= (#[trigger] events.skip(1)[b]).time by {
                assert(events.skip(1)[a] == events[a + 1]);
                assert(events.skip(1)[b] == events[b + 1]);
            }
        }
        lemma_merge_run_sorted(events[0], events.skip(1), cfg);
    }
}

/// No two adjacent events of the list are close enough to merge.
pub open spec fn separated(s: Seq<NoteEvent>, cfg: AnalysisConfig) -> bool {
    forall|i: int| 0 <= i < s.len() - 1 ==> !#[trigger] close_events(s[i], s[i + 1], cfg)
}

/// A merge pass seeded with a candidate that cannot merge into a separated
/// remainder flushes everything unchanged.
proof fn lemma_merge_run_separated(cur: NoteEvent, rest: Seq<NoteEvent>, cfg: AnalysisConfig)
    requires
        rest.len() > 0 ==> !close_events(cur, rest[0], cfg),
        separated(rest, cfg),
    ensures
        merge_run(cur, rest, cfg) == seq![cur] + rest,
    decreases rest.len(),
{
    if rest.len() == 0 {
        assert(merge_run(cur, rest, cfg) =~= seq![cur] + rest);
    } else {
        assert(separated(rest.skip(1), cfg)) by {
            assert forall|i: int| 0 <= i < rest.skip(1).len() - 1 implies !#[trigger] close_events(
                rest.skip(1)[i],
                rest.skip(1)[i + 1],
                cfg,
            ) by {
                assert(rest.skip(1)[i] == rest[i + 1]);
                assert(rest.skip(1)[i + 1] == rest[i + 2]);
            }
        }
        if rest.skip(1).len() > 0 {
            assert(rest.skip(1)[0] == rest[1]);
            assert(!close_events(rest[0], rest.skip(1)[0], cfg));
        }
        lemma_merge_run_separated(rest[0], rest.skip(1), cfg);
        assert(seq![cur] + (seq![rest[0]] + rest.skip(1)) =~= seq![cur] + rest);
    }
}

/// Re-running the merge pass on an already-merged list returns it unchanged,
/// provided no two adjacent events of that output are still close.  A pass
/// can leave two adjacent outputs close only when a louder duplicate at a
/// shifted pitch drags its cluster toward an already-flushed neighbour;
/// `lemma_merged_time_separated` shows the proviso always holds when the
/// pitch window never drives a flush.
pub proof fn lemma_merge_idempotent_when_separated(s: Seq<NoteEvent>, cfg: AnalysisConfig)
    requires
        separated(merged(s, cfg), cfg),
    ensures
        merged(merged(s, cfg), cfg) == merged(s, cfg),
{
    lemma_merge_separated_identity(merged(s, cfg), cfg);
}

/// A list in which no two adjacent events are close enough to merge is a
/// fixed point of the merge pass.  In particular, re-running the merge on a
/// merged output whose adjacent events ended up apart leaves it identical.
pub proof fn lemma_merge_separated_identity(s: Seq<NoteEvent>, cfg: AnalysisConfig)
    requires
        separated(s, cfg),
    ensures
        merged(s, cfg) == s,
{
    if s.len() == 0 {
    } else {
        if s.skip(1).len() > 0 {
            assert(s.skip(1)[0] == s[1]);
        }
        assert(separated(s.skip(1), cfg)) by {
            assert forall|i: int| 0 <= i < s.skip(1).len() - 1 implies !#[trigger] close_events(
                s.skip(1)[i],
                s.skip(1)[i + 1],
                cfg,
            ) by {
                assert(s.skip(1)[i] == s[i + 1]);
                assert(s.skip(1)[i + 1] == s[i + 2]);
            }
        }
        lemma_merge_run_separated(s[0], s.skip(1), cfg);
        assert(seq![s[0]] + s.skip(1) =~= s);
    }
}

/// Two events whose pitches lie within the merge pitch window of each other.
pub open spec fn pitch_close(a: NoteEvent, b: NoteEvent, cfg: AnalysisConfig) -> bool {
    abs_val(a.pitch - b.pitch) < cfg.merge_pitch_window
}

/// On a time-sorted list whose pitches all lie within the pitch window of
/// one another, only the time window decides a flush, and the merge pass
/// keeps flushed neighbours a full time window apart.
proof fn lemma_merge_run_time_separated(cur: NoteEvent, rest: Seq<NoteEvent>, cfg: AnalysisConfig)
    requires
        forall|j: int| 0 <= j < rest.len() ==> cur.time <= (#[trigger] rest[j]).time,
        events_sorted(rest),
        forall|j: int| 0 <= j < rest.len() ==> pitch_close(cur, #[trigger] rest[j], cfg),
        forall|i: int, j: int|
            0 <= i < rest.len() && 0 <= j < rest.len() ==> pitch_close(
                #[trigger] rest[i],
                #[trigger] rest[j],
                cfg,
            ),
    ensures
        separated(merge_run(cur, rest, cfg), cfg),
    decreases rest.len(),
{
    if rest.len() == 0 {
    } else {
        let n = rest[0];
        assert forall|j: int| 0 <= j < rest.skip(1).len() implies (#[trigger] rest.skip(1)[j])
            == rest[j + 1] by {}
        assert(events_sorted(rest.skip(1))) by {
            assert forall|a: int, b: int| 0 <= a < b < rest.skip(1).len() implies (
            #[trigger] rest.skip(1)[a]).time <= (#[trigger] rest.skip(1)[b]).time by {
                assert(rest.skip(1)[a] == rest[a + 1]);
                assert(rest.skip(1)[b] == rest[b + 1]);
            }
        }
        if close_events(cur, n, cfg) {
            let w = merge_winner(cur, n);
            lemma_merge_run_time_separated(w, rest.skip(1), cfg);
        } else {
            lemma_merge_run_time_separated(n, rest.skip(1), cfg);
            lemma_merge_run_sorted(n, rest.skip(1), cfg);
            let tail = merge_run(n, rest.skip(1), cfg);
            assert(pitch_close(cur, n, cfg));
            assert(n.time - cur.time >= cfg.merge_time_window);
            assert(n.time <= tail[0].time);
            let out = seq![cur] + tail;
            assert forall|i: int| 0 <= i < out.len() - 1 implies !#[trigger] close_events(
                out[i],
                out[i + 1],
                cfg,
            ) by {
                if i == 0 {
                    assert(out[0] == cur);
                    assert(out[1] == tail[0]);
                    assert(tail[0].time >= n.time);
                    assert(!close_events(cur, tail[0], cfg));
                } else {
                    assert(out[i] == tail[i - 1]);
                    assert(out[i + 1] == tail[i]);
                    assert(!close_events(tail[i - 1], tail[i - 1 + 1], cfg));
                    assert(tail[i - 1 + 1] == tail[i]);
                }
            }
        }
    }
}

/// When every pitch difference in the input lies within the merge pitch
/// window, the merged output is separated, so the merge is idempotent on
/// every time-sorted such input.
pub proof fn lemma_merged_time_separated(s: Seq<NoteEvent>, cfg: AnalysisConfig)
    requires
        events_sorted(s),
        forall|i: int, j: int|
            0 <= i < s.len() && 0 <= j < s.len() ==> pitch_close(#[trigger] s[i], #[trigger] s[j], cfg),
    ensures
        separated(merged(s, cfg), cfg),
        merged(merged(s, cfg), cfg) == merged(s, cfg),
{
    if s.len() == 0 {
    } else {
        assert forall|j: int| 0 <= j < s.skip(1).len() implies (#[trigger] s.skip(1)[j])
            == s[j + 1] by {}
        assert(events_sorted(s.skip(1))) by {
            assert forall|a: int, b: int| 0 <= a < b < s.skip(1).len() implies (#[trigger] s.skip(
                1,
            )[a]).time <= (#[trigger] s.skip(1)[b]).time by {
                assert(s.skip(1)[a] == s[a + 1]);
                assert(s.skip(1)[b] == s[b + 1]);
            }
        }
        lemma_merge_run_time_separated(s[0], s.skip(1), cfg);
    }
    lemma_merge_idempotent_when_separated(s, cfg);
}

} // verus!
