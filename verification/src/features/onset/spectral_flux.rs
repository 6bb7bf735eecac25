//! Onsets where the spectrum changes.
use super::flux_peaks::bad_percentile_text;
use super::flux_peaks::check_percentile;
use super::flux_peaks::find_onset_frames;
use super::flux_peaks::is_percentile;
use super::flux_peaks::onset_frames;
use crate::error::gives;
use crate::error::AnalysisError;
use crate::error::Outcome;
use crate::features::period::novelty::all_have_len;
use crate::features::period::novelty::check_spectrogram;
use crate::features::period::novelty::make_unit_frame;
use crate::features::period::novelty::spectrogram_error;
use crate::features::period::novelty::unit_frame;
use crate::float::F32;
use crate::sorting::empty_sum;
use crate::statistics::percentile_of;
use crate::statistics::value_at_percentile;
use vstd::prelude::*;

verus! {

/// The frames behind the peaks of a flux curve above one of its percentiles.
pub open spec fn percentile_onsets(flux: Seq<F32>, percentile: F32) -> Seq<usize> {
    onset_frames(flux, percentile_of(flux, percentile), flux.len())
}

/// Finds the frames behind the peaks of a flux curve above one of its percentiles.
pub fn find_percentile_onsets(flux: &[F32], percentile: F32) -> (r: Vec<usize>)
    requires
        flux@.len() > 0,
    ensures
        r@ == percentile_onsets(flux@, percentile),
{
    let threshold = value_at_percentile(flux, percentile);
    find_onset_frames(flux, threshold)
}

/// What frames come to: an error, nothing, or the onsets of their flux.
pub open spec fn onsets_or_error(frames: Seq<Vec<F32>>, percentile: F32, flux: Seq<F32>) -> Outcome<
    Seq<usize>,
> {
    if frames.len() == 0 {
        Outcome::Value(Seq::empty())
    } else if !is_percentile(percentile) {
        Outcome::Invalid(bad_percentile_text(percentile))
    } else {
        match spectrogram_error(frames) {
            Some(msg) => Outcome::Invalid(msg),
            None => if frames.len() < 2 {
                Outcome::Value(Seq::empty())
            } else {
                Outcome::Value(percentile_onsets(flux, percentile))
            },
        }
    }
}

/// The sum of the squared differences of the first `n` bins, added up from the left.
pub open spec fn squared_distance(prev: Seq<F32>, curr: Seq<F32>, n: nat) -> F32
    decreases n,
{
    if n == 0 {
        empty_sum()
    } else {
        let d = curr[n - 1] - prev[n - 1];
        squared_distance(prev, curr, (n - 1) as nat) + d * d
    }
}

/// The Euclidean distance from each frame to the next, between frames brought to
/// the same height.
pub open spec fn frame_distances(frames: Seq<Vec<F32>>) -> Seq<F32> {
    Seq::new(
        (frames.len() - 1) as nat,
        |i: int|
            squared_distance(
                unit_frame(frames[i]@),
                unit_frame(frames[i + 1]@),
                frames[i]@.len(),
            ).sqrt(),
    )
}

fn compute_squared_distance(prev: &[F32], curr: &[F32]) -> (r: F32)
    requires
        prev@.len() == curr@.len(),
    ensures
        r == squared_distance(prev@, curr@, prev@.len()),
{
    let mut acc = empty_sum();
    let mut n: usize = 0;
    while n < prev.len()
        invariant
            n <= prev.len(),
            prev@.len() == curr@.len(),
            acc == squared_distance(prev@, curr@, n as nat),
        decreases prev.len() - n,
    {
        let d = curr[n] - prev[n];
        acc = acc + d * d;
        n = n + 1;
    }
    acc
}

fn compute_frame_distances(frames: &[Vec<F32>]) -> (r: Vec<F32>)
    requires
        frames@.len() > 0,
        all_have_len(frames@, frames@[0]@.len()),
    ensures
        r@ == frame_distances(frames@),
{
    let n: usize = frames.len();
    let mut r: Vec<F32> = Vec::new();
    let mut prev: Vec<F32> = make_unit_frame(frames[0].as_slice());
    let mut i: usize = 1;
    while i < n
        invariant
            1 <= i <= n,
            n == frames@.len(),
            all_have_len(frames@, frames@[0]@.len()),
            prev@ == unit_frame(frames@[i - 1]@),
            r@.len() == i - 1,
            forall|k: int| 0 <= k < i - 1 ==> r@[k] == frame_distances(frames@)[k],
        decreases n - i,
    {
        let curr: Vec<F32> = make_unit_frame(frames[i].as_slice());
        r.push(compute_squared_distance(prev.as_slice(), curr.as_slice()).sqrt());
        prev = curr;
        i = i + 1;
    }
    assert(r@ =~= frame_distances(frames@));
    r
}

/// Detects onsets where the spectrum changes, be it up or down, by more than a
/// percentile of all changes. The onsets are frames, in order.
pub fn detect_spectral_flux_onsets(fft_magnitudes: &[Vec<F32>], threshold_percentile: F32) -> (r: Result<
    Vec<usize>,
    AnalysisError,
>)
    ensures
        gives(
            r,
            onsets_or_error(
                fft_magnitudes@,
                threshold_percentile,
                frame_distances(fft_magnitudes@),
            ),
        ),
{
    if fft_magnitudes.len() == 0 {
        return Ok(Vec::new());
    }
    match check_percentile(threshold_percentile) {
        Err(e) => {
            return Err(e);
        },
        Ok(_) => {},
    }
    match check_spectrogram(fft_magnitudes) {
        Err(e) => {
            return Err(e);
        },
        Ok(_) => {},
    }
    if fft_magnitudes.len() < 2 {
        return Ok(Vec::new());
    }
    let flux: Vec<F32> = compute_frame_distances(fft_magnitudes);
    Ok(find_percentile_onsets(flux.as_slice(), threshold_percentile))
}

} // verus!
