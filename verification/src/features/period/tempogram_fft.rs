//! The Fourier tempogram: the power of the novelty curve at each tempo.
//!
//! This module prepares the curve for the transform, and reads the tempos off the
//! power spectrum.
use super::tempo_table::by_strength;
use super::tempo_table::check_parameters;
use super::tempo_table::find_confidence;
use super::tempo_table::frame_rate;
use super::tempo_table::parameter_error;
use super::tempo_table::sort_by_strength;
use super::tempo_table::table_confidence;
use crate::error::gives;
use crate::error::AnalysisError;
use crate::error::Outcome;
use crate::float::ratio;
use crate::float::F32;
use crate::sorting::sum;
use crate::sorting::sum_of;
use vstd::prelude::*;

verus! {

/// The best tempo of a Fourier tempogram.
#[derive(Debug, Clone, Copy)]
pub struct FftTempogramResult {
    /// BPM estimate
    pub bpm: F32,
    /// How the peak stands out
    pub confidence: F32,
    /// Power at this BPM
    pub power: F32,
}

/// The curve without its mean, times a window.
pub open spec fn windowed(curve: Seq<F32>, window: Seq<F32>) -> Seq<F32> {
    let mean = sum_of(curve) / F32::from_usize(curve.len() as usize);
    Seq::new(curve.len(), |i: int| (curve[i] - mean) * window[i])
}

/// The curve without its mean, times a window of the same length: what the
/// transform is applied to, behind it zeros up to a power of two.
pub fn remove_mean_and_window(curve: &[F32], window: &[F32]) -> (r: Vec<F32>)
    requires
        window@.len() == curve@.len(),
    ensures
        r@ == windowed(curve@, window@),
{
    let mean = sum(curve) / F32::from_usize(curve.len());
    let mut r: Vec<F32> = Vec::new();
    let mut i: usize = 0;
    while i < curve.len()
        invariant
            i <= curve.len(),
            window@.len() == curve@.len(),
            r@.len() == i,
            forall|k: int| 0 <= k < i ==> r@[k] == (curve@[k] - mean) * window@[k],
        decreases curve.len() - i,
    {
        r.push((curve[i] - mean) * window[i]);
        i = i + 1;
    }
    assert(r@ =~= windowed(curve@, window@));
    r
}

/// The tempo of a bin of a transform.
#[verifier::allow_in_spec]
pub fn bin_bpm(bin: usize, resolution: F32) -> F32
    returns
        F32::from_usize(bin) * resolution * ratio(60, 1),
{
    F32::from_usize(bin) * resolution * ratio(60, 1)
}

/// Those of the first `n` bins whose tempo is in range, with their power.
pub open spec fn fft_table(power: Seq<F32>, resolution: F32, min_bpm: F32, max_bpm: F32, n: nat) -> Seq<
    (F32, F32),
>
    decreases n,
{
    if n == 0 {
        Seq::empty()
    } else {
        let before = fft_table(power, resolution, min_bpm, max_bpm, (n - 1) as nat);
        let bpm = bin_bpm((n - 1) as usize, resolution);
        if bpm >= min_bpm && bpm <= max_bpm {
            before.push((bpm, power[n - 1]))
        } else {
            before
        }
    }
}

/// The number of bins up to the highest frequency that the transform can tell.
pub open spec fn half_len(power: Seq<F32>) -> nat {
    if power.len() == 0 {
        0
    } else {
        power.len() / 2 + 1
    }
}

/// The Fourier tempogram that a power spectrum comes to.
pub open spec fn fft_tempogram_of(
    power: Seq<F32>,
    sample_rate: u32,
    hop_size: u32,
    min_bpm: F32,
    max_bpm: F32,
) -> Seq<(F32, F32)> {
    by_strength(
        fft_table(
            power,
            frame_rate(sample_rate, hop_size) / F32::from_usize(power.len() as usize),
            min_bpm,
            max_bpm,
            if half_len(power) <= power.len() {
                half_len(power)
            } else {
                power.len()
            },
        ),
    )
}

/// Computes the Fourier tempogram of a novelty curve: pairs of a tempo and its
/// power, the strongest first. `power_spectrum` holds the squared magnitudes of
/// the transform of the curve without its mean, windowed and padded with zeros.
pub fn fft_tempogram(
    novelty_curve: &[F32],
    sample_rate: u32,
    hop_size: u32,
    min_bpm: F32,
    max_bpm: F32,
    power_spectrum: &[F32],
) -> (r: Result<Vec<(F32, F32)>, AnalysisError>)
    ensures
        gives(
            r,
            match parameter_error(novelty_curve@.len(), sample_rate, hop_size, min_bpm, max_bpm) {
                Some(msg) => Outcome::Invalid(msg),
                None => Outcome::Value(
                    fft_tempogram_of(power_spectrum@, sample_rate, hop_size, min_bpm, max_bpm),
                ),
            },
        ),
{
    match check_parameters(novelty_curve.len(), sample_rate, hop_size, min_bpm, max_bpm) {
        Err(e) => {
            return Err(e);
        },
        Ok(_) => {},
    }
    let len: usize = power_spectrum.len();
    let resolution = frame_rate(sample_rate, hop_size) / F32::from_usize(len);
    let bins: usize = if len <= 1 {
        len
    } else {
        len / 2 + 1
    };
    let mut table: Vec<(F32, F32)> = Vec::new();
    let mut b: usize = 0;
    while b < bins
        invariant
            b <= bins <= power_spectrum@.len(),
            table@ == fft_table(power_spectrum@, resolution, min_bpm, max_bpm, b as nat),
        decreases bins - b,
    {
        let bpm = bin_bpm(b, resolution);
        if bpm >= min_bpm && bpm <= max_bpm {
            table.push((bpm, power_spectrum[b]));
        }
        b = b + 1;
    }
    Ok(sort_by_strength(table.as_slice()))
}

/// The first tempo of a tempogram, with a confidence.
pub fn find_best_bpm_fft(tempogram: &[(F32, F32)]) -> (r: Option<FftTempogramResult>)
    ensures
        r == if tempogram@.len() == 0 {
            None
        } else {
            Some(
                FftTempogramResult {
                    bpm: tempogram@[0].0,
                    confidence: table_confidence(tempogram@),
                    power: tempogram@[0].1,
                },
            )
        },
{
    if tempogram.len() == 0 {
        return None;
    }
    Some(
        FftTempogramResult {
            bpm: tempogram[0].0,
            confidence: find_confidence(tempogram),
            power: tempogram[0].1,
        },
    )
}

} // verus!
