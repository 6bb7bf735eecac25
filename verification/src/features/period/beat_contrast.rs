//! How well the beats of a tempo stand out of a novelty curve.
use super::novelty::find_window_max;
use super::novelty::window_max;
use crate::float::ratio;
use crate::float::zero;
use crate::float::F32;
use crate::sorting::sum;
use crate::sorting::sum_of;
use vstd::prelude::*;

verus! {

/// What lies on the beats, half way between them, and at the thirds, with how many
/// places were counted.
#[derive(Debug, Clone, Copy)]
pub struct BeatSums {
    /// Sum over the beats
    pub beat_sum: F32,
    /// Number of beats
    pub beat_n: usize,
    /// Sum over the half beats
    pub half_sum: F32,
    /// Number of half beats
    pub half_n: usize,
    /// Sum over the thirds
    pub third_sum: F32,
    /// Number of thirds
    pub third_n: usize,
}

/// No beat counted yet.
#[verifier::allow_in_spec]
pub fn no_sums() -> BeatSums
    returns
        (BeatSums {
            beat_sum: zero(),
            beat_n: 0,
            half_sum: zero(),
            half_n: 0,
            third_sum: zero(),
            third_n: 0,
        }),
{
    BeatSums {
        beat_sum: zero(),
        beat_n: 0,
        half_sum: zero(),
        half_n: 0,
        third_sum: zero(),
        third_n: 0,
    }
}

/// The greatest value within two frames of `i`; zero at least.
pub open spec fn peak_near(novelty: Seq<F32>, i: int) -> F32 {
    let start = if i >= 2 {
        i - 2
    } else {
        0
    };
    let end = if i + 3 <= novelty.len() {
        i + 3
    } else {
        novelty.len() as int
    };
    window_max(novelty, start, (end - start) as nat)
}

fn find_peak_near(novelty: &[F32], i: usize) -> (r: F32)
    requires
        i < novelty@.len(),
    ensures
        r == peak_near(novelty@, i as int),
{
    let start: usize = if i >= 2 {
        i - 2
    } else {
        0
    };
    let end: usize = if novelty.len() - i >= 3 {
        i + 3
    } else {
        novelty.len()
    };
    find_window_max(novelty, start, end)
}

/// With the half beat behind a beat at `i`, where the curve reaches that far.
pub open spec fn with_half(s: BeatSums, novelty: Seq<F32>, period: int, i: int) -> BeatSums {
    if period >= 6 && i + period / 2 < novelty.len() {
        BeatSums {
            half_sum: s.half_sum + peak_near(novelty, i + period / 2),
            half_n: (s.half_n + 1) as usize,
            ..s
        }
    } else {
        s
    }
}

/// With the place `thirds` thirds of a beat behind `i`, where the curve reaches that far.
pub open spec fn with_third(s: BeatSums, novelty: Seq<F32>, period: int, i: int, thirds: int) -> BeatSums {
    if period >= 9 && i + period * thirds / 3 < novelty.len() {
        BeatSums {
            third_sum: s.third_sum + peak_near(novelty, i + period * thirds / 3),
            third_n: (s.third_n + 1) as usize,
            ..s
        }
    } else {
        s
    }
}

/// With the beat at `i` and what lies between it and the next one.
pub open spec fn with_beat(s: BeatSums, novelty: Seq<F32>, period: int, i: int) -> BeatSums {
    let s1 = BeatSums {
        beat_sum: s.beat_sum + peak_near(novelty, i),
        beat_n: (s.beat_n + 1) as usize,
        ..s
    };
    let s2 = with_half(s1, novelty, period, i);
    with_third(with_third(s2, novelty, period, i, 1), novelty, period, i, 2)
}

/// With the beats from `i` on.
pub open spec fn with_beats(s: BeatSums, novelty: Seq<F32>, period: int, i: int) -> BeatSums
    decreases
        (if i < novelty.len() {
            novelty.len() - i
        } else {
            0
        }),
{
    if period <= 0 || i >= novelty.len() {
        s
    } else {
        with_beats(with_beat(s, novelty, period, i), novelty, period, i + period)
    }
}

/// The mean of `n` values that add up to `total`; zero without any.
#[verifier::allow_in_spec]
pub fn mean_of(total: F32, n: usize) -> F32
    returns
        (if n > 0 {
            total / F32::from_usize(n)
        } else {
            zero()
        }),
{
    if n > 0 {
        total / F32::from_usize(n)
    } else {
        zero()
    }
}

/// How far the beats stand out from what lies between them, in units of `level`.
#[verifier::allow_in_spec]
pub fn contrast(s: BeatSums, level: F32) -> F32
    returns
        ((mean_of(s.beat_sum, s.beat_n) - ratio(60, 100) * mean_of(s.half_sum, s.half_n) - ratio(
            40,
            100,
        ) * mean_of(s.third_sum, s.third_n)) / level).clamp(ratio(10, 1).neg(), ratio(10, 1)),
{
    ((mean_of(s.beat_sum, s.beat_n) - ratio(60, 100) * mean_of(s.half_sum, s.half_n) - ratio(
        40,
        100,
    ) * mean_of(s.third_sum, s.third_n)) / level).clamp(ratio(10, 1).neg(), ratio(10, 1))
}

/// The best contrast with a first beat among the first `n` frames.
pub open spec fn best_contrast(novelty: Seq<F32>, period: int, level: F32, n: nat) -> F32
    decreases n,
{
    if n == 0 {
        ratio(1_000_000_000, 1).neg()
    } else {
        best_contrast(novelty, period, level, (n - 1) as nat).max(
            contrast(with_beats(no_sums(), novelty, period, n - 1), level),
        )
    }
}

/// Frames from one beat to the next.
#[verifier::allow_in_spec]
pub fn frames_per_beat(sample_rate: u32, hop: u32, bpm: F32) -> F32
    returns
        ratio(60, 1) * F32::from_u32(sample_rate) / (bpm * F32::from_u32(hop)),
{
    ratio(60, 1) * F32::from_u32(sample_rate) / (bpm * F32::from_u32(hop))
}

/// How well the beats of a tempo stand out, with the first beat where they stand
/// out best; zero for a curve too short or a tempo too fast or too slow to tell.
pub open spec fn beat_contrast(novelty: Seq<F32>, sample_rate: u32, hop: u32, bpm: F32) -> F32 {
    let frames = frames_per_beat(sample_rate, hop, bpm);
    let period = frames.round().to_usize();
    let level = (sum_of(novelty).max(ratio(1, 1_000_000)) / F32::from_usize(
        novelty.len() as usize,
    )).max(ratio(1, 1_000_000));
    if novelty.len() < 16 || !(bpm.is_finite() && bpm > zero()) || sample_rate == 0 || hop == 0 {
        zero()
    } else if !frames.is_finite() || frames < ratio(3, 1) {
        zero()
    } else if !(3 <= period <= 512) {
        zero()
    } else {
        best_contrast(novelty, period as int, level, period as nat)
    }
}

/// Adds up what lies on the beats from `phase` on, and between them.
fn sum_beats(novelty: &[F32], period: usize, phase: usize) -> (r: BeatSums)
    requires
        3 <= period <= 512,
        phase < period,
    ensures
        r == with_beats(no_sums(), novelty@, period as int, phase as int),
{
    let mut s = no_sums();
    let len: usize = novelty.len();
    let mut i: usize = phase;
    let mut more: bool = phase < len;
    while more
        invariant
            3 <= period <= 512,
            len == novelty@.len(),
            more ==> i < len,
            s.beat_n <= i,
            s.half_n <= i,
            s.third_n <= i,
            with_beats(no_sums(), novelty@, period as int, phase as int) == if more {
                with_beats(s, novelty@, period as int, i as int)
            } else {
                s
            },
        decreases
            (if more {
                len - i
            } else {
                0
            }),
    {
        let ghost before: BeatSums = s;
        s.beat_sum = s.beat_sum + find_peak_near(novelty, i);
        s.beat_n = s.beat_n + 1;
        if period >= 6 && period / 2 < len - i {
            s.half_sum = s.half_sum + find_peak_near(novelty, i + period / 2);
            s.half_n = s.half_n + 1;
        }
        if period >= 9 && period / 3 < len - i {
            s.third_sum = s.third_sum + find_peak_near(novelty, i + period / 3);
            s.third_n = s.third_n + 1;
        }
        if period >= 9 && period * 2 / 3 < len - i {
            s.third_sum = s.third_sum + find_peak_near(novelty, i + period * 2 / 3);
            s.third_n = s.third_n + 1;
        }
        assert(s == with_beat(before, novelty@, period as int, i as int));
        more = period < len - i;
        if more {
            i = i + period;
        } else {
            assert(with_beats(s, novelty@, period as int, i + period) == s);
            i = len;
        }
    }
    s
}

/// Computes how well the beats of a tempo stand out.
pub fn beat_contrast_score(novelty: &[F32], sample_rate: u32, hop: u32, bpm: F32) -> (r: F32)
    ensures
        r == beat_contrast(novelty@, sample_rate, hop, bpm),
{
    if novelty.len() < 16 || !(bpm.is_finite() && bpm > zero()) || sample_rate == 0 || hop == 0 {
        return zero();
    }
    let frames = frames_per_beat(sample_rate, hop, bpm);
    if !frames.is_finite() || frames < ratio(3, 1) {
        return zero();
    }
    let period: usize = frames.round().to_usize();
    if period < 3 || period > 512 {
        return zero();
    }
    let level = (sum(novelty).max(ratio(1, 1_000_000)) / F32::from_usize(novelty.len())).max(
        ratio(1, 1_000_000),
    );
    let mut best = ratio(1_000_000_000, 1).neg();
    let mut phase: usize = 0;
    while phase < period
        invariant
            phase <= period,
            3 <= period <= 512,
            best == best_contrast(novelty@, period as int, level, phase as nat),
        decreases period - phase,
    {
        let s = sum_beats(novelty, period, phase);
        best = best.max(contrast(s, level));
        phase = phase + 1;
    }
    best
}

} // verus!
