//! Changes of tempo: the tempo of overlapping stretches of beats, and how even
//! each of them is.
use super::time_signature::find_intervals;
use super::time_signature::intervals_of;
use super::time_signature::squared_distances;
use super::time_signature::sum_squared_distances;
use crate::error::gives;
use crate::error::AnalysisError;
use crate::error::Outcome;
use crate::float::one;
use crate::float::ratio;
use crate::float::zero;
use crate::float::F32;
use crate::number_text::fixed2;
use crate::number_text::fixed2_of;
use crate::sorting::sum;
use crate::sorting::sum_of;
use vstd::prelude::*;
use vstd::string::StringExecFns;

verus! {

/// A stretch of time with its tempo.
#[derive(Debug, Clone, Copy)]
pub struct TempoSegment {
    /// Start time in seconds
    pub start_time: F32,
    /// End time in seconds
    pub end_time: F32,
    /// Tempo in BPM
    pub bpm: F32,
    /// Confidence, from zero to one
    pub confidence: F32,
    /// The tempo varies
    pub is_variable: bool,
}

/// Those of the first `n` times that are from `start` to `end`.
pub open spec fn times_within(times: Seq<F32>, start: F32, end: F32, n: nat) -> Seq<F32>
    decreases n,
{
    if n == 0 {
        Seq::empty()
    } else {
        let before = times_within(times, start, end, (n - 1) as nat);
        if times[n - 1] >= start && times[n - 1] <= end {
            before.push(times[n - 1])
        } else {
            before
        }
    }
}

/// Finds the times from `start` to `end`.
pub fn find_times_within(times: &[F32], start: F32, end: F32) -> (r: Vec<F32>)
    ensures
        r@ == times_within(times@, start, end, times@.len()),
{
    let mut r: Vec<F32> = Vec::new();
    let mut n: usize = 0;
    while n < times.len()
        invariant
            n <= times.len(),
            r@ == times_within(times@, start, end, n as nat),
        decreases times.len() - n,
    {
        if times[n] >= start && times[n] <= end {
            r.push(times[n]);
        }
        n = n + 1;
    }
    r
}

/// The standard deviation in units of the mean; zero where the mean is not above zero.
pub open spec fn relative_deviation(s: Seq<F32>, mean: F32) -> F32 {
    if mean > ratio(1, 10_000_000_000) {
        (squared_distances(s, mean, s.len()) / F32::from_usize(s.len() as usize)).sqrt() / mean
    } else {
        zero()
    }
}

/// A stretch with its tempo and how even it is: `mean` is the mean interval, `cv`
/// the deviation in units of it.
#[verifier::allow_in_spec]
pub fn segment_from(start: F32, end: F32, mean: F32, cv: F32, nominal_bpm: F32) -> TempoSegment
    returns
        (TempoSegment {
            start_time: start,
            end_time: end,
            bpm: if mean > ratio(1, 10_000_000_000) {
                ratio(60, 1) / mean
            } else {
                nominal_bpm
            },
            confidence: (one() - (cv / ratio(3, 10)).min(one())).max(zero()),
            is_variable: cv > ratio(15, 100),
        }),
{
    TempoSegment {
        start_time: start,
        end_time: end,
        bpm: if mean > ratio(1, 10_000_000_000) {
            ratio(60, 1) / mean
        } else {
            nominal_bpm
        },
        confidence: (one() - (cv / ratio(3, 10)).min(one())).max(zero()),
        is_variable: cv > ratio(15, 100),
    }
}

/// The stretch from `start` on, where it holds three beats and an interval.
pub open spec fn segment_at(beats: Seq<F32>, start: F32, duration: F32, nominal_bpm: F32) -> Option<
    TempoSegment,
> {
    let end = (start + duration).min(beats.last());
    let inside = times_within(beats, start, end, beats.len());
    let s = intervals_of(inside, inside.len());
    let mean = sum_of(s) / F32::from_usize(s.len() as usize);
    if inside.len() >= 3 && s.len() > 0 {
        Some(segment_from(start, end, mean, relative_deviation(s, mean), nominal_bpm))
    } else {
        None
    }
}

/// The times at which stretches start, from `start` up to `last`; none after one
/// that a step does not take further.
pub open spec fn segment_starts(start: F32, last: F32, step: F32) -> Seq<F32>
    decreases
        (if start < last {
            last.units() - start.units()
        } else {
            0
        }),
{
    if !(start < last) {
        Seq::empty()
    } else if start + step > start {
        seq![start] + segment_starts(start + step, last, step)
    } else {
        seq![start]
    }
}

/// The stretches with the first `n` starts, those that there are.
pub open spec fn segments_at(
    beats: Seq<F32>,
    starts: Seq<F32>,
    duration: F32,
    nominal_bpm: F32,
    n: nat,
) -> Seq<TempoSegment>
    decreases n,
{
    if n == 0 {
        Seq::empty()
    } else {
        let before = segments_at(beats, starts, duration, nominal_bpm, (n - 1) as nat);
        match segment_at(beats, starts[n - 1], duration, nominal_bpm) {
            Some(s) => before.push(s),
            None => before,
        }
    }
}

/// One stretch over all beats, with the nominal tempo.
pub open spec fn whole_segment(beats: Seq<F32>, nominal_bpm: F32, confidence: F32) -> TempoSegment {
    TempoSegment {
        start_time: if beats.len() > 0 {
            beats[0]
        } else {
            zero()
        },
        end_time: if beats.len() > 0 {
            beats.last()
        } else {
            zero()
        },
        bpm: nominal_bpm,
        confidence,
        is_variable: false,
    }
}

/// How long a stretch is: a quarter of all, from four to eight seconds.
#[verifier::allow_in_spec]
pub fn segment_duration(total: F32) -> F32
    returns
        (total / ratio(4, 1)).clamp(ratio(4, 1), ratio(8, 1)),
{
    (total / ratio(4, 1)).clamp(ratio(4, 1), ratio(8, 1))
}

/// The stretches that beats come to.
pub open spec fn tempo_segments(beats: Seq<F32>, nominal_bpm: F32) -> Outcome<Seq<TempoSegment>> {
    let total = beats.last() - beats[0];
    let duration = segment_duration(total);
    let starts = segment_starts(beats[0], beats.last(), duration - duration * ratio(5, 10));
    let segments = segments_at(beats, starts, duration, nominal_bpm, starts.len());
    if beats.len() < 4 {
        Outcome::Value(seq![whole_segment(beats, nominal_bpm, ratio(5, 10))])
    } else if nominal_bpm <= ratio(1, 10_000_000_000) {
        Outcome::Invalid("Invalid nominal BPM: "@ + fixed2_of(nominal_bpm))
    } else if total < ratio(2, 1) || segments.len() == 0 {
        Outcome::Value(seq![whole_segment(beats, nominal_bpm, ratio(8, 10))])
    } else {
        Outcome::Value(segments)
    }
}

fn find_segment(beats: &[F32], start: F32, duration: F32, nominal_bpm: F32) -> (r: Option<TempoSegment>)
    requires
        beats@.len() > 0,
    ensures
        r == segment_at(beats@, start, duration, nominal_bpm),
{
    let end = (start + duration).min(beats[beats.len() - 1]);
    let inside: Vec<F32> = find_times_within(beats, start, end);
    if inside.len() < 3 {
        return None;
    }
    let s: Vec<F32> = find_intervals(inside.as_slice());
    if s.len() == 0 {
        return None;
    }
    let n = F32::from_usize(s.len());
    let mean = sum(s.as_slice()) / n;
    let cv = if mean > ratio(1, 10_000_000_000) {
        (sum_squared_distances(s.as_slice(), mean) / n).sqrt() / mean
    } else {
        zero()
    };
    Some(segment_from(start, end, mean, cv, nominal_bpm))
}

fn find_segments(beats: &[F32], duration: F32, step: F32, nominal_bpm: F32) -> (r: Vec<TempoSegment>)
    requires
        beats@.len() > 0,
    ensures
        ({
            let starts = segment_starts(beats@[0], beats@.last(), step);
            r@ == segments_at(beats@, starts, duration, nominal_bpm, starts.len())
        }),
{
    let last = beats[beats.len() - 1];
    let ghost starts: Seq<F32> = segment_starts(beats@[0], last, step);
    let ghost mut n: nat = 0;
    let mut r: Vec<TempoSegment> = Vec::new();
    let mut start = beats[0];
    let mut more: bool = start < last;
    while more
        invariant
            beats@.len() > 0,
            last == beats@.last(),
            n <= starts.len(),
            starts.skip(n as int) == if more {
                segment_starts(start, last, step)
            } else {
                Seq::empty()
            },
            more ==> start < last,
            r@ == segments_at(beats@, starts, duration, nominal_bpm, n),
        decreases
            (if more {
                last.units() - start.units()
            } else {
                0
            }),
    {
        let ghost tail: Seq<F32> = starts.skip(n as int);
        assert(tail[0] == start);
        assert(starts[n as int] == tail[0]);
        match find_segment(beats, start, duration, nominal_bpm) {
            Some(s) => {
                r.push(s);
            },
            None => {},
        }
        let next = start + step;
        proof {
            assert(starts.skip(n as int + 1) =~= tail.skip(1));
            n = n + 1;
            if next > start {
                assert(tail.skip(1) =~= segment_starts(next, last, step));
            } else {
                assert(tail.skip(1) =~= Seq::<F32>::empty());
            }
        }
        if next > start {
            start = next;
            more = start < last;
        } else {
            more = false;
        }
    }
    assert(n == starts.len());
    r
}

fn only_segment(beats: &[F32], nominal_bpm: F32, confidence: F32) -> (r: Vec<TempoSegment>)
    ensures
        r@ == seq![whole_segment(beats@, nominal_bpm, confidence)],
{
    let n: usize = beats.len();
    let mut r: Vec<TempoSegment> = Vec::new();
    r.push(
        TempoSegment {
            start_time: if n > 0 {
                beats[0]
            } else {
                zero()
            },
            end_time: if n > 0 {
                beats[n - 1]
            } else {
                zero()
            },
            bpm: nominal_bpm,
            confidence,
            is_variable: false,
        },
    );
    assert(r@ =~= seq![whole_segment(beats@, nominal_bpm, confidence)]);
    r
}

/// Detects changes of tempo: stretches of beats (in seconds, in order), each with
/// its tempo and whether it varies.
pub fn detect_tempo_variations(beats: &[F32], nominal_bpm: F32) -> (r: Result<
    Vec<TempoSegment>,
    AnalysisError,
>)
    ensures
        gives(r, tempo_segments(beats@, nominal_bpm)),
{
    if beats.len() < 4 {
        return Ok(only_segment(beats, nominal_bpm, ratio(5, 10)));
    }
    if nominal_bpm <= ratio(1, 10_000_000_000) {
        return Err(
            AnalysisError::InvalidInput(
                "Invalid nominal BPM: ".to_owned().concat(fixed2(nominal_bpm).as_str()),
            ),
        );
    }
    let total = beats[beats.len() - 1] - beats[0];
    if !(total < ratio(2, 1)) {
        let duration = segment_duration(total);
        let segments: Vec<TempoSegment> = find_segments(
            beats,
            duration,
            duration - duration * ratio(5, 10),
            nominal_bpm,
        );
        if segments.len() > 0 {
            return Ok(segments);
        }
    }
    Ok(only_segment(beats, nominal_bpm, ratio(8, 10)))
}

/// Some stretch has a tempo that varies.
pub fn has_tempo_variation(segments: &[TempoSegment]) -> (r: bool)
    ensures
        r == exists|i: int| 0 <= i < segments@.len() && (#[trigger] segments@[i]).is_variable,
{
    let mut i: usize = 0;
    while i < segments.len()
        invariant
            i <= segments.len(),
            forall|k: int| 0 <= k < i ==> !(#[trigger] segments@[k]).is_variable,
        decreases segments.len() - i,
    {
        if segments[i].is_variable {
            return true;
        }
        i = i + 1;
    }
    false
}

} // verus!
