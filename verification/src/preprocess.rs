//! Preprocessing of the sample buffer: peak normalization and a single-pole
//! low-pass filter, both in place.

use vstd::prelude::*;
use vstd::arithmetic::div_mod::{
    lemma_div_is_ordered, lemma_div_multiples_vanish, lemma_div_pos_is_pos,
};
use vstd::arithmetic::mul::{lemma_mul_inequality, lemma_mul_unary_negation};
use crate::config::{LOWPASS_ANGULAR_CUTOFF, PEAK_LIMIT, RAW_SAMPLE_LIMIT, TARGET_PEAK};

verus! {

/// Magnitude of a mathematical integer.
pub open spec fn abs_val(x: int) -> int {
    if x < 0 {
        -x
    } else {
        x
    }
}

/// Largest sample magnitude in a buffer; 0 for an empty buffer.
pub open spec fn peak_amplitude(s: Seq<i64>) -> int
    decreases s.len(),
{
    if s.len() == 0 {
        0
    } else {
        let rest = peak_amplitude(s.drop_last());
        if abs_val(s.last() as int) > rest {
            abs_val(s.last() as int)
        } else {
            rest
        }
    }
}

/// Every sample magnitude is at most the peak.
pub proof fn lemma_peak_amplitude_bounds(s: Seq<i64>, i: int)
    requires
        0 <= i < s.len(),
    ensures
        abs_val(s[i] as int) <= peak_amplitude(s),
    decreases s.len(),
{
    if i < s.len() - 1 {
        lemma_peak_amplitude_bounds(s.drop_last(), i);
    }
}

/// A bound on every sample magnitude bounds the peak.
pub proof fn lemma_peak_amplitude_le(s: Seq<i64>, b: int)
    requires
        0 <= b,
        forall|i: int| 0 <= i < s.len() ==> abs_val(#[trigger] s[i] as int) <= b,
    ensures
        peak_amplitude(s) <= b,
    decreases s.len(),
{
    if s.len() > 0 {
        lemma_peak_amplitude_le(s.drop_last(), b);
    }
}

/// A positive peak is the magnitude of some sample.
pub proof fn lemma_peak_amplitude_attained(s: Seq<i64>)
    requires
        peak_amplitude(s) > 0,
    ensures
        exists|i: int|
            0 <= i < s.len() && abs_val(#[trigger] s[i] as int) == peak_amplitude(s),
    decreases s.len(),
{
    if abs_val(s.last() as int) == peak_amplitude(s) {
        assert(0 <= s.len() - 1 < s.len() && abs_val(s[s.len() - 1] as int) == peak_amplitude(s));
    } else {
        lemma_peak_amplitude_attained(s.drop_last());
        let j = choose|j: int|
            0 <= j < s.drop_last().len() && abs_val(#[trigger] s.drop_last()[j] as int)
                == peak_amplitude(s.drop_last());
        assert(0 <= j < s.len() && abs_val(s[j] as int) == peak_amplitude(s));
    }
}

/// What normalization does to one sample: scale it by
/// `TARGET_PEAK / peak`, rounding the magnitude down.
pub open spec fn scaled_sample(x: int, peak: int) -> int {
    if x >= 0 {
        (x * TARGET_PEAK) / peak
    } else {
        -(((-x) * TARGET_PEAK) / peak)
    }
}

/// The scaled sample keeps its sign, never exceeds the target peak in
/// magnitude, and reaches it exactly at the loudest sample.
proof fn lemma_scale_in_range(x: int, peak: int)
    requires
        0 < peak,
        abs_val(x) <= peak,
    ensures
        abs_val(scaled_sample(x, peak)) <= TARGET_PEAK,
        abs_val(x) == peak ==> abs_val(scaled_sample(x, peak)) == TARGET_PEAK,
        0 <= abs_val(x) * TARGET_PEAK,
        abs_val(scaled_sample(x, peak)) == (abs_val(x) * TARGET_PEAK) / peak,
{
    let m = abs_val(x);
    lemma_mul_inequality(0, m, TARGET_PEAK as int);
    lemma_mul_inequality(m, peak, TARGET_PEAK as int);
    lemma_div_is_ordered(m * TARGET_PEAK, peak * TARGET_PEAK, peak);
    lemma_div_multiples_vanish(TARGET_PEAK as int, peak);
    assert(peak * TARGET_PEAK == TARGET_PEAK * peak);
    lemma_div_pos_is_pos(m * TARGET_PEAK, peak);
    if x < 0 {
        assert((-x) * TARGET_PEAK == m * TARGET_PEAK);
    }
}

/// Scales the buffer so that its loudest sample lands exactly on
/// `TARGET_PEAK` (0.95 of full scale); an all-zero buffer is left untouched.
pub fn normalize_audio(samples: &mut Vec<i64>)
    requires
        forall|i: int|
            0 <= i < old(samples)@.len() ==> abs_val(#[trigger] old(samples)@[i] as int)
                <= RAW_SAMPLE_LIMIT,
    ensures
        final(samples)@.len() == old(samples)@.len(),
        peak_amplitude(old(samples)@) == 0 ==> final(samples)@ == old(samples)@,
        peak_amplitude(old(samples)@) > 0 ==> forall|i: int|
            0 <= i < old(samples)@.len() ==> #[trigger] final(samples)@[i] as int == scaled_sample(
                old(samples)@[i] as int,
                peak_amplitude(old(samples)@),
            ),
        forall|i: int|
            0 <= i < final(samples)@.len() ==> abs_val(#[trigger] final(samples)@[i] as int)
                <= TARGET_PEAK,
        peak_amplitude(old(samples)@) > 0 ==> peak_amplitude(final(samples)@) == TARGET_PEAK,
{
    let ghost s0 = samples@;
    let mut peak: i64 = 0;
    let mut i: usize = 0;
    while i < samples.len()
        invariant
            samples@ == s0,
            0 <= i <= s0.len(),
            0 <= peak,
            peak as int == peak_amplitude(s0.take(i as int)),
            forall|k: int|
                0 <= k < s0.len() ==> abs_val(#[trigger] s0[k] as int) <= RAW_SAMPLE_LIMIT,
        decreases s0.len() - i,
    {
        let x = samples[i];
        assert(abs_val(s0[i as int] as int) <= RAW_SAMPLE_LIMIT);
        let a: i64 = if x < 0 {
            -x
        } else {
            x
        };
        proof {
            assert(s0.take(i + 1).drop_last() =~= s0.take(i as int));
        }
        if a > peak {
            peak = a;
        }
        i += 1;
    }
    proof {
        assert(s0.take(s0.len() as int) =~= s0);
    }
    if peak == 0 {
        proof {
            assert forall|k: int| 0 <= k < samples@.len() implies abs_val(
                #[trigger] samples@[k] as int,
            ) <= TARGET_PEAK by {
                lemma_peak_amplitude_bounds(s0, k);
            }
        }
        return ;
    }
    let p: u64 = peak as u64;
    let mut i: usize = 0;
    while i < samples.len()
        invariant
            samples@.len() == s0.len(),
            0 <= i <= s0.len(),
            0 < p,
            p as int == peak_amplitude(s0),
            forall|k: int|
                0 <= k < s0.len() ==> abs_val(#[trigger] s0[k] as int) <= RAW_SAMPLE_LIMIT,
            forall|k: int|
                0 <= k < i ==> #[trigger] samples@[k] as int == scaled_sample(
                    s0[k] as int,
                    p as int,
                ),
            forall|k: int| i <= k < s0.len() ==> #[trigger] samples@[k] == s0[k],
        decreases s0.len() - i,
    {
        let x = samples[i];
        assert(x == s0[i as int]);
        assert(abs_val(x as int) <= RAW_SAMPLE_LIMIT);
        proof {
            lemma_peak_amplitude_bounds(s0, i as int);
            lemma_scale_in_range(x as int, p as int);
            lemma_mul_inequality(abs_val(x as int), RAW_SAMPLE_LIMIT as int, TARGET_PEAK as int);
        }
        let neg = x < 0;
        let mag: u64 = if neg {
            (-x) as u64
        } else {
            x as u64
        };
        let sm: u64 = (mag * (TARGET_PEAK as u64)) / p;
        let y: i64 = if neg {
            -(sm as i64)
        } else {
            sm as i64
        };
        assert(y as int == scaled_sample(x as int, p as int));
        samples.set(i, y);
        i += 1;
    }
    proof {
        assert forall|k: int| 0 <= k < samples@.len() implies abs_val(
            #[trigger] samples@[k] as int,
        ) <= TARGET_PEAK by {
            lemma_peak_amplitude_bounds(s0, k);
            lemma_scale_in_range(s0[k] as int, p as int);
        }
        lemma_peak_amplitude_le(samples@, TARGET_PEAK as int);
        lemma_peak_amplitude_attained(s0);
        let j = choose|j: int|
            0 <= j < s0.len() && abs_val(#[trigger] s0[j] as int) == peak_amplitude(s0);
        lemma_scale_in_range(s0[j] as int, p as int);
        lemma_peak_amplitude_bounds(samples@, j);
    }
}

/// Division that rounds the magnitude down (truncates toward zero), the way
/// hardware division behaves on signed values.
pub open spec fn trunc_div(a: int, d: int) -> int {
    if a >= 0 {
        a / d
    } else {
        -((-a) / d)
    }
}

/// One step of the single-pole filter: move from the previous output toward
/// the current input by the fraction `num / den`.
pub open spec fn lowpass_step(prev: int, x: int, num: int, den: int) -> int {
    prev + trunc_div((x - prev) * num, den)
}

/// The filter output at index `i`: the first sample passes through, every
/// later one is one filter step from the previous output.
pub open spec fn lowpass_at(s: Seq<i64>, num: int, den: int, i: int) -> int
    decreases i,
{
    if i <= 0 {
        s[0] as int
    } else {
        lowpass_step(lowpass_at(s, num, den, i - 1), s[i] as int, num, den)
    }
}

/// Scaling by a fraction of at most one keeps the result between zero and
/// the value scaled.
proof fn lemma_trunc_div_scale_bounds(d: int, num: int, den: int)
    requires
        0 <= num <= den,
        0 < den,
    ensures
        d >= 0 ==> 0 <= trunc_div(d * num, den) <= d,
        d < 0 ==> d <= trunc_div(d * num, den) <= 0,
{
    if d >= 0 {
        lemma_mul_inequality(0, num, d);
        lemma_mul_inequality(num, den, d);
        assert(num * d == d * num && den * d == d * den);
        lemma_div_pos_is_pos(d * num, den);
        lemma_div_is_ordered(d * num, d * den, den);
        lemma_div_multiples_vanish(d, den);
        assert(d * den == den * d);
    } else {
        let e = -d;
        lemma_mul_inequality(0, num, e);
        lemma_mul_inequality(num, den, e);
        assert(num * e == e * num && den * e == e * den);
        lemma_div_pos_is_pos(e * num, den);
        lemma_div_is_ordered(e * num, e * den, den);
        lemma_div_multiples_vanish(e, den);
        assert(e * den == den * e);
        lemma_mul_unary_negation(d, num);
        assert(e * num == -(d * num));
    }
}

/// Smooths the buffer in place with a single-pole low-pass filter whose
/// cutoff is fixed at 8000 Hz: with `num = LOWPASS_ANGULAR_CUTOFF` and
/// `den = sample_rate + num`, each output moves from the previous output
/// toward the current input by the fraction `num / den`.
pub fn apply_lowpass_filter(samples: &mut Vec<i64>, sample_rate: u32)
    requires
        sample_rate > 0,
        forall|i: int|
            0 <= i < old(samples)@.len() ==> abs_val(#[trigger] old(samples)@[i] as int)
                <= PEAK_LIMIT,
    ensures
        final(samples)@.len() == old(samples)@.len(),
        forall|i: int|
            0 <= i < final(samples)@.len() ==> #[trigger] final(samples)@[i] as int == lowpass_at(
                old(samples)@,
                LOWPASS_ANGULAR_CUTOFF as int,
                sample_rate as int + LOWPASS_ANGULAR_CUTOFF as int,
                i,
            ),
        forall|i: int|
            0 <= i < final(samples)@.len() ==> abs_val(#[trigger] final(samples)@[i] as int)
                <= PEAK_LIMIT,
{
    let ghost s0 = samples@;
    let ghost num = LOWPASS_ANGULAR_CUTOFF as int;
    let den: u64 = sample_rate as u64 + LOWPASS_ANGULAR_CUTOFF;
    if samples.len() == 0 {
        return ;
    }
    let mut i: usize = 1;
    while i < samples.len()
        invariant
            samples@.len() == s0.len(),
            1 <= i,
            i <= s0.len() || s0.len() == 0,
            den == sample_rate as int + num,
            num == LOWPASS_ANGULAR_CUTOFF as int,
            sample_rate > 0,
            forall|k: int| 0 <= k < s0.len() ==> abs_val(#[trigger] s0[k] as int) <= PEAK_LIMIT,
            forall|k: int|
                0 <= k < i && k < s0.len() ==> #[trigger] samples@[k] as int == lowpass_at(
                    s0,
                    num,
                    den as int,
                    k,
                ),
            forall|k: int|
                0 <= k < i && k < s0.len() ==> abs_val(#[trigger] samples@[k] as int) <= PEAK_LIMIT,
            forall|k: int| i <= k < s0.len() ==> #[trigger] samples@[k] == s0[k],
        decreases s0.len() - i,
    {
        let prev = samples[i - 1];
        let x = samples[i];
        assert(x == s0[i as int]);
        assert(abs_val(x as int) <= PEAK_LIMIT && abs_val(prev as int) <= PEAK_LIMIT);
        let neg = x < prev;
        let dmag: u64 = if neg {
            (prev - x) as u64
        } else {
            (x - prev) as u64
        };
        let q: u64 = (dmag * LOWPASS_ANGULAR_CUTOFF) / den;
        proof {
            lemma_trunc_div_scale_bounds(x as int - prev as int, num, den as int);
            if neg {
                lemma_mul_unary_negation(x as int - prev as int, num);
                assert((prev as int - x as int) * num == -((x as int - prev as int) * num));
            }
        }
        let y: i64 = if neg {
            prev - (q as i64)
        } else {
            prev + (q as i64)
        };
        assert(y as int == lowpass_step(prev as int, x as int, num, den as int));
        samples.set(i, y);
        i += 1;
    }
}

} // verus!
