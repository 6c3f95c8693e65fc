//! The frame scanner: fixed-size windows advanced by the hop, with a
//! silence gate.
//!
//! Loudness is compared on squared RMS amplitudes, which needs no square
//! root or logarithm: a window of length `n` is silent exactly when its sum
//! of squared samples is below `n` times the squared threshold amplitude.
//! A decibel threshold `d` corresponds to the fixed-point amplitude
//! `AMP_SCALE * 10^(d/20)`; the default `DEFAULT_SILENCE_THRESHOLD_AMP`
//! stands for -50 dB.  A window of RMS zero is silent under any positive
//! threshold, which settles the logarithm's singularity in the decibel
//! reading.

use vstd::prelude::*;
use vstd::arithmetic::div_mod::{lemma_small_mod, lemma_sub_mod_noop, lemma_mod_add_multiples_vanish};
use vstd::arithmetic::mul::{lemma_mul_inequality, lemma_mul_unary_negation};
use crate::config::{AnalysisConfig, PEAK_LIMIT};
use crate::preprocess::abs_val;

verus! {

/// The window of `buf` samples starting at `start`.
pub open spec fn window(s: Seq<i64>, start: int, buf: int) -> Seq<i64> {
    s.subrange(start, start + buf)
}

/// Sum of the squared samples of a window.
pub open spec fn sum_squares(s: Seq<i64>) -> int
    decreases s.len(),
{
    if s.len() == 0 {
        0
    } else {
        sum_squares(s.drop_last()) + s.last() * s.last()
    }
}

/// The silence criterion: the window's RMS amplitude is below `thresh`,
/// compared without roots as `sum of squares < len * thresh^2`.
pub open spec fn is_silent_window(w: Seq<i64>, thresh: int) -> bool {
    sum_squares(w) < w.len() * (thresh * thresh)
}

/// A start index the scanner hands to the analyzer: aligned to the hop, a
/// full window inside the buffer, and not silent.
pub open spec fn analyzed_start(s: Seq<i64>, cfg: AnalysisConfig, st: int) -> bool {
    &&& 0 <= st
    &&& st % (cfg.hop_size as int) == 0
    &&& st + cfg.buf_size <= s.len()
    &&& !is_silent_window(window(s, st, cfg.buf_size as int), cfg.silence_threshold_amp as int)
}

/// A square never exceeds the square of a bound on the magnitude.
proof fn lemma_square_bound(x: int, b: int)
    requires
        abs_val(x) <= b,
    ensures
        0 <= x * x <= b * b,
        x * x == abs_val(x) * abs_val(x),
{
    if x < 0 {
        lemma_mul_unary_negation(x, x);
        lemma_mul_unary_negation(x, -x);
    }
    lemma_mul_inequality(0, abs_val(x), abs_val(x));
    lemma_mul_inequality(abs_val(x), b, abs_val(x));
    lemma_mul_inequality(abs_val(x), b, b);
    assert(abs_val(x) * b == b * abs_val(x));
}

/// Whether the window of `cfg.buf_size` samples starting at `start` falls
/// below the silence threshold.
pub fn window_is_silent(samples: &Vec<i64>, start: usize, cfg: &AnalysisConfig) -> (r: bool)
    requires
        cfg.wf(),
        start + cfg.buf_size <= samples@.len(),
        forall|i: int|
            0 <= i < samples@.len() ==> abs_val(#[trigger] samples@[i] as int) <= PEAK_LIMIT,
    ensures
        r == is_silent_window(
            window(samples@, start as int, cfg.buf_size as int),
            cfg.silence_threshold_amp as int,
        ),
{
    let ghost w = window(samples@, start as int, cfg.buf_size as int);
    let n: usize = samples.len();
    let mut sum: u128 = 0;
    let mut j: usize = 0;
    while j < cfg.buf_size
        invariant
            cfg.wf(),
            n == samples@.len(),
            start + cfg.buf_size <= samples@.len(),
            0 <= j <= cfg.buf_size,
            w == window(samples@, start as int, cfg.buf_size as int),
            forall|i: int|
                0 <= i < samples@.len() ==> abs_val(#[trigger] samples@[i] as int) <= PEAK_LIMIT,
            sum as int == sum_squares(w.take(j as int)),
            sum as int <= (j as int) * 1_000_000_000_000,
        decreases cfg.buf_size - j,
    {
        let x = samples[start + j];
        assert(x == w[j as int]);
        assert(abs_val(x as int) <= PEAK_LIMIT);
        let mag: u64 = if x < 0 {
            (-x) as u64
        } else {
            x as u64
        };
        proof {
            lemma_square_bound(x as int, PEAK_LIMIT as int);
        }
        let sq: u128 = (mag as u128) * (mag as u128);
        assert(sq as int == x as int * x as int);
        proof {
            assert(sq as int <= 1_000_000_000_000);
            lemma_mul_inequality(j as int, usize::MAX as int, 1_000_000_000_000);
        }
        sum = sum + sq;
        proof {
            assert(w.take(j + 1).drop_last() =~= w.take(j as int));
            assert(w.take(j + 1).last() == w[j as int]);
        }
        j += 1;
    }
    proof {
        assert(w.take(cfg.buf_size as int) =~= w);
    }
    let t: u64 = cfg.silence_threshold_amp as u64;
    proof {
        lemma_mul_inequality(t as int, PEAK_LIMIT as int, t as int);
        lemma_mul_inequality(t as int, PEAK_LIMIT as int, PEAK_LIMIT as int);
        assert(t as int * PEAK_LIMIT as int == PEAK_LIMIT as int * t as int);
        lemma_mul_inequality(
            t as int * t as int,
            PEAK_LIMIT as int * PEAK_LIMIT as int,
            cfg.buf_size as int,
        );
        assert((t as int * t as int) * cfg.buf_size as int == cfg.buf_size as int * (t as int
            * t as int));
        assert((PEAK_LIMIT as int * PEAK_LIMIT as int) * cfg.buf_size as int == cfg.buf_size as int
            * (PEAK_LIMIT as int * PEAK_LIMIT as int));
    }
    let bound: u128 = (cfg.buf_size as u128) * ((t as u128) * (t as u128));
    sum < bound
}

/// Two hop-aligned indices less than one hop apart are the same index.
proof fn lemma_hop_aligned_unique(a: int, b: int, h: int)
    requires
        0 < h,
        a % h == 0,
        b % h == 0,
        b <= a < b + h,
    ensures
        a == b,
{
    lemma_sub_mod_noop(a, b, h);
    lemma_small_mod(0, h as nat);
    assert((a - b) % h == 0);
    lemma_small_mod((a - b) as nat, h as nat);
}

/// Scans the buffer with windows of `cfg.buf_size` samples advanced by
/// `cfg.hop_size`, and returns, in increasing order, exactly the start
/// indices of the windows that pass the silence gate.  A window below the
/// silence threshold is never among them, whatever the analyzer would have
/// said about it.
pub fn scan_frames(samples: &Vec<i64>, cfg: &AnalysisConfig) -> (r: Vec<usize>)
    requires
        cfg.wf(),
        forall|i: int|
            0 <= i < samples@.len() ==> abs_val(#[trigger] samples@[i] as int) <= PEAK_LIMIT,
    ensures
        forall|i: int|
            0 <= i < r@.len() ==> analyzed_start(samples@, *cfg, #[trigger] r@[i] as int),
        forall|i: int, j: int| 0 <= i < j < r@.len() ==> r@[i] < r@[j],
        forall|st: int|
            #[trigger] analyzed_start(samples@, *cfg, st) ==> exists|i: int|
                0 <= i < r@.len() && r@[i] == st,
{
    let mut r: Vec<usize> = Vec::new();
    if samples.len() < cfg.buf_size {
        return r;
    }
    let last_start: usize = samples.len() - cfg.buf_size;
    let hop: usize = cfg.hop_size;
    let mut idx: usize = 0;
    proof {
        lemma_small_mod(0, hop as nat);
    }
    while idx <= last_start
        invariant
            cfg.wf(),
            hop == cfg.hop_size,
            cfg.buf_size <= samples@.len(),
            samples@.len() <= usize::MAX,
            last_start == samples@.len() - cfg.buf_size,
            (idx as int) % (hop as int) == 0,
            forall|i: int|
                0 <= i < samples@.len() ==> abs_val(#[trigger] samples@[i] as int) <= PEAK_LIMIT,
            forall|i: int|
                0 <= i < r@.len() ==> analyzed_start(samples@, *cfg, #[trigger] r@[i] as int),
            forall|i: int| 0 <= i < r@.len() ==> #[trigger] r@[i] < idx,
            forall|i: int, j: int| 0 <= i < j < r@.len() ==> r@[i] < r@[j],
            forall|st: int|
                #[trigger] analyzed_start(samples@, *cfg, st) && st < idx ==> exists|i: int|
                    0 <= i < r@.len() && r@[i] == st,
        decreases last_start + hop - idx,
    {
        let ghost r0 = r@;
        let silent = window_is_silent(samples, idx, cfg);
        if !silent {
            r.push(idx);
            proof {
                assert(r@ == r0.push(idx));
                assert(r@[r@.len() - 1] == idx);
                assert(analyzed_start(samples@, *cfg, idx as int));
            }
        }
        proof {
            lemma_mod_add_multiples_vanish(idx as int, hop as int);
            assert forall|st: int|
                #[trigger] analyzed_start(samples@, *cfg, st) && st < idx + hop implies exists|
                i: int,
            |
                0 <= i < r@.len() && r@[i] == st by {
                if st >= idx {
                    lemma_hop_aligned_unique(st, idx as int, hop as int);
                    assert(!silent);
                    assert(r@[r@.len() - 1] == st);
                } else {
                    let i0 = choose|i: int| 0 <= i < r0.len() && r0[i] == st;
                    assert(r@[i0] == st);
                }
            }
        }
        idx += hop;
    }
    proof {
        assert forall|st: int| #[trigger] analyzed_start(samples@, *cfg, st) implies exists|i: int|
            0 <= i < r@.len() && r@[i] == st by {
            assert(st <= samples@.len() - cfg.buf_size);
            assert(st < idx);
        }
    }
    r
}

} // verus!
