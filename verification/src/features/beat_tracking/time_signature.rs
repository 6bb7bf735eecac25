//! Time signature from the beats: the meter whose bars repeat best.
use crate::error::gives_plain;
use crate::error::AnalysisError;
use crate::error::Outcome;
use crate::float::clamp_unit;
use crate::float::one;
use crate::float::ratio;
use crate::float::zero;
use crate::float::F32;
use crate::number_text::fixed2;
use crate::number_text::fixed2_of;
use crate::sorting::empty_sum;
use crate::sorting::sum;
use crate::sorting::sum_of;
use vstd::prelude::*;
use vstd::string::StringExecFns;

verus! {

/// Musical time signature.
#[derive(Debug, Clone, Copy, PartialEq, Eq, Structural)]
pub enum TimeSignature {
    /// 4/4 time (common time)
    FourFour,
    /// 3/4 time (waltz time)
    ThreeFour,
    /// 6/8 time (compound duple)
    SixEight,
}

impl TimeSignature {
    /// Beats per bar.
    #[verifier::allow_in_spec]
    pub fn beats_per_bar(&self) -> u32
        returns
            (match *self {
                TimeSignature::FourFour => 4u32,
                TimeSignature::ThreeFour => 3,
                TimeSignature::SixEight => 6,
            }),
    {
        match *self {
            TimeSignature::FourFour => 4,
            TimeSignature::ThreeFour => 3,
            TimeSignature::SixEight => 6,
        }
    }

    /// The time signature as it is written.
    pub fn name(&self) -> (r: &'static str)
        ensures
            r@ == match *self {
                TimeSignature::FourFour => "4/4"@,
                TimeSignature::ThreeFour => "3/4"@,
                TimeSignature::SixEight => "6/8"@,
            },
    {
        match *self {
            TimeSignature::FourFour => "4/4",
            TimeSignature::ThreeFour => "3/4",
            TimeSignature::SixEight => "6/8",
        }
    }
}

/// The intervals between neighbours among the first `n` beats, those above zero.
pub open spec fn intervals_of(beats: Seq<F32>, n: nat) -> Seq<F32>
    decreases n,
{
    if n <= 1 {
        Seq::empty()
    } else {
        let before = intervals_of(beats, (n - 1) as nat);
        let interval = beats[n - 1] - beats[n - 2];
        if interval > zero() {
            before.push(interval)
        } else {
            before
        }
    }
}

/// Finds the intervals between neighbours, those above zero.
pub(crate) fn find_intervals(beats: &[F32]) -> (r: Vec<F32>)
    ensures
        r@ == intervals_of(beats@, beats@.len()),
        r@.len() <= beats@.len(),
{
    let mut s: Vec<F32> = Vec::new();
    let mut i: usize = 1;
    while i < beats.len()
        invariant
            1 <= i,
            i <= beats.len() || (beats@.len() == 0 && i == 1),
            s@ == intervals_of(beats@, i as nat),
            s@.len() < i,
        decreases beats.len() - i,
    {
        let interval = beats[i] - beats[i - 1];
        if interval > zero() {
            s.push(interval);
        }
        i = i + 1;
    }
    s
}

/// How much two intervals resemble each other.
#[verifier::allow_in_spec]
pub fn resemblance(a: F32, b: F32, mean: F32) -> F32
    returns
        one() / (one() + (a - b).abs() / mean),
{
    one() / (one() + (a - b).abs() / mean)
}

/// The sum of how much the first `n` intervals resemble those `lag` later.
pub open spec fn resemblance_sum(s: Seq<F32>, lag: int, mean: F32, n: nat) -> F32
    decreases n,
{
    if n == 0 {
        zero()
    } else {
        resemblance_sum(s, lag, mean, (n - 1) as nat) + resemblance(s[n - 1], s[n - 1 + lag], mean)
    }
}

/// The sum of the squared distances of the first `n` values from their mean.
pub open spec fn squared_distances(s: Seq<F32>, mean: F32, n: nat) -> F32
    decreases n,
{
    if n == 0 {
        empty_sum()
    } else {
        squared_distances(s, mean, (n - 1) as nat) + (s[n - 1] - mean) * (s[n - 1] - mean)
    }
}

/// The standard deviation in units of the mean; one where the mean is not above zero.
pub open spec fn variation_of(s: Seq<F32>, mean: F32) -> F32 {
    if mean > ratio(1, 10_000_000_000) {
        (squared_distances(s, mean, s.len()) / F32::from_usize(s.len() as usize)).sqrt() / mean
    } else {
        one()
    }
}

/// How well intervals fit bars of `lag` beats: how much they repeat, and how even
/// they are.
pub open spec fn meter_score(s: Seq<F32>, lag: int, mean: F32) -> F32 {
    if s.len() <= lag {
        zero()
    } else {
        let n = (s.len() - lag) as nat;
        let repeats = resemblance_sum(s, lag, mean, n) / F32::from_usize(n as usize);
        let even = one() / (one() + variation_of(s, mean));
        (repeats * ratio(7, 10) + even * ratio(3, 10)).min(one())
    }
}

pub(crate) fn sum_squared_distances(s: &[F32], mean: F32) -> (r: F32)
    ensures
        r == squared_distances(s@, mean, s@.len()),
{
    let mut acc = empty_sum();
    let mut n: usize = 0;
    while n < s.len()
        invariant
            n <= s.len(),
            acc == squared_distances(s@, mean, n as nat),
        decreases s.len() - n,
    {
        acc = acc + (s[n] - mean) * (s[n] - mean);
        n = n + 1;
    }
    acc
}

/// Scores a time signature.
fn score_time_signature(intervals: &[F32], beats_per_bar: u32, mean: F32) -> (r: F32)
    ensures
        r == meter_score(intervals@, beats_per_bar as int, mean),
{
    let lag: usize = beats_per_bar as usize;
    if intervals.len() <= lag {
        return zero();
    }
    let n: usize = intervals.len() - lag;
    let mut acc = zero();
    let mut i: usize = 0;
    while i < n
        invariant
            i <= n,
            n + lag == intervals@.len(),
            acc == resemblance_sum(intervals@, lag as int, mean, i as nat),
        decreases n - i,
    {
        acc = acc + resemblance(intervals[i], intervals[i + lag], mean);
        i = i + 1;
    }
    let repeats = acc / F32::from_usize(n);
    let cv = if mean > ratio(1, 10_000_000_000) {
        (sum_squared_distances(intervals, mean) / F32::from_usize(intervals.len())).sqrt() / mean
    } else {
        one()
    };
    let even = one() / (one() + cv);
    (repeats * ratio(7, 10) + even * ratio(3, 10)).min(one())
}

/// The best of three scored time signatures; the last of those that tie.
#[verifier::allow_in_spec]
pub fn best_meter(four: F32, three: F32, six: F32) -> (TimeSignature, F32)
    returns
        ({
            let first = if four > three {
                (TimeSignature::FourFour, four)
            } else {
                (TimeSignature::ThreeFour, three)
            };
            if first.1 > six {
                first
            } else {
                (TimeSignature::SixEight, six)
            }
        }),
{
    let first = if four > three {
        (TimeSignature::FourFour, four)
    } else {
        (TimeSignature::ThreeFour, three)
    };
    if first.1 > six {
        first
    } else {
        (TimeSignature::SixEight, six)
    }
}

/// What beats come to: a time signature with a confidence.
pub open spec fn meter_of(beats: Seq<F32>, bpm: F32) -> Outcome<(TimeSignature, F32)> {
    let s = intervals_of(beats, beats.len());
    let mean = sum_of(s) / F32::from_usize(s.len() as usize);
    let best = best_meter(meter_score(s, 4, mean), meter_score(s, 3, mean), meter_score(s, 6, mean));
    if beats.len() < 8 {
        Outcome::Value((TimeSignature::FourFour, ratio(5, 10)))
    } else if bpm <= ratio(1, 10_000_000_000) {
        Outcome::Invalid("Invalid BPM for time signature detection: "@ + fixed2_of(bpm))
    } else if s.len() == 0 {
        Outcome::Value((TimeSignature::FourFour, ratio(5, 10)))
    } else {
        Outcome::Value((best.0, clamp_unit(best.1)))
    }
}

/// Detects the time signature of beats (in seconds, in order).
pub fn detect_time_signature(beats: &[F32], bpm_estimate: F32) -> (r: Result<
    (TimeSignature, F32),
    AnalysisError,
>)
    ensures
        gives_plain(r, meter_of(beats@, bpm_estimate)),
{
    if beats.len() < 8 {
        return Ok((TimeSignature::FourFour, ratio(5, 10)));
    }
    if bpm_estimate <= ratio(1, 10_000_000_000) {
        return Err(
            AnalysisError::InvalidInput(
                "Invalid BPM for time signature detection: ".to_owned().concat(
                    fixed2(bpm_estimate).as_str(),
                ),
            ),
        );
    }
    let s: Vec<F32> = find_intervals(beats);
    if s.len() == 0 {
        return Ok((TimeSignature::FourFour, ratio(5, 10)));
    }
    let mean = sum(s.as_slice()) / F32::from_usize(s.len());
    let best = best_meter(
        score_time_signature(s.as_slice(), 4, mean),
        score_time_signature(s.as_slice(), 3, mean),
        score_time_signature(s.as_slice(), 6, mean),
    );
    Ok((best.0, clamp_unit(best.1)))
}

} // verus!
