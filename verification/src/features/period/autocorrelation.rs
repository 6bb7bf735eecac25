//! Tempo candidates by autocorrelation of the onsets.
//!
//! The autocorrelation itself is the inverse Fourier transform of the squared
//! magnitudes of the Fourier transform of the onset signal, padded with zeros.
//! This module prepares that signal and reads the tempos off the result.
use super::comb_filter::bad_range;
use super::comb_filter::bad_range_text;
use super::comb_filter::by_confidence;
use super::comb_filter::is_bad_range;
use super::comb_filter::sort_by_confidence;
use super::peak_picking::find_height;
use super::peak_picking::peak_height;
use super::types::BpmCandidate;
use crate::error::gives;
use crate::error::invalid_input;
use crate::error::AnalysisError;
use crate::error::Outcome;
use crate::float::one;
use crate::float::ratio;
use crate::float::zero;
use crate::float::F32;
use crate::sorting::arrange;
use crate::sorting::arranged;
use crate::sorting::sort_order;
use crate::sorting::sorted_order;
use vstd::arithmetic::power2::pow2;
use vstd::prelude::*;
use vstd::slice::slice_subrange;

verus! {

/// The greatest of the first `n` onsets, zero without any.
pub open spec fn last_onset(onsets: Seq<usize>, n: nat) -> usize
    decreases n,
{
    if n == 0 {
        0
    } else {
        let m = last_onset(onsets, (n - 1) as nat);
        if onsets[n - 1] > m {
            onsets[n - 1]
        } else {
            m
        }
    }
}

/// Frame `i` holds an onset.
pub open spec fn has_onset(onsets: Seq<usize>, hop_size: int, i: int) -> bool {
    exists|k: int| 0 <= k < onsets.len() && (#[trigger] onsets[k]) as int / hop_size == i
}

/// One for every frame with an onset, zero for the others, up to the last onset.
pub open spec fn onset_signal_of(onsets: Seq<usize>, hop_size: int) -> Seq<F32> {
    Seq::new(
        (last_onset(onsets, onsets.len()) as int / hop_size + 1) as nat,
        |i: int|
            if has_onset(onsets, hop_size, i) {
                one()
            } else {
                zero()
            },
    )
}

fn find_last_onset(onsets: &[usize]) -> (r: usize)
    ensures
        r == last_onset(onsets@, onsets@.len()),
        forall|k: int| 0 <= k < onsets@.len() ==> (#[trigger] onsets@[k]) <= r,
{
    let mut m: usize = 0;
    let mut n: usize = 0;
    while n < onsets.len()
        invariant
            n <= onsets.len(),
            m == last_onset(onsets@, n as nat),
            forall|k: int| 0 <= k < n ==> (#[trigger] onsets@[k]) <= m,
        decreases onsets.len() - n,
    {
        if onsets[n] > m {
            m = onsets[n];
        }
        n = n + 1;
    }
    m
}

/// Makes the onset signal: one for every frame of `hop_size` samples with an onset.
pub fn onset_signal(onsets: &[usize], hop_size: usize) -> (r: Vec<F32>)
    requires
        hop_size > 0,
        last_onset(onsets@, onsets@.len()) as int / hop_size as int + 1 <= usize::MAX,
    ensures
        r@ == onset_signal_of(onsets@, hop_size as int),
{
    let last: usize = find_last_onset(onsets);
    let len: usize = last / hop_size + 1;
    let mut signal: Vec<F32> = vec![zero(); len];
    assert forall|i: int| 0 <= i < len implies signal@[i] == zero() by {}
    let mut n: usize = 0;
    while n < onsets.len()
        invariant
            n <= onsets.len(),
            hop_size > 0,
            len == last / hop_size + 1,
            signal@.len() == len,
            forall|k: int| 0 <= k < onsets@.len() ==> (#[trigger] onsets@[k]) <= last,
            forall|i: int|
                0 <= i < len ==> signal@[i] == if has_onset(onsets@.take(n as int), hop_size as int, i) {
                    one()
                } else {
                    zero()
                },
        decreases onsets.len() - n,
    {
        let x: usize = onsets[n];
        proof {
            assert(x as int / hop_size as int <= last as int / hop_size as int) by (nonlinear_arith)
                requires
                    x <= last,
                    hop_size > 0,
            ;
        }
        let frame: usize = x / hop_size;
        signal.set(frame, one());
        proof {
            let before = onsets@.take(n as int);
            let after = onsets@.take(n + 1);
            assert forall|i: int| 0 <= i < len implies signal@[i] == if has_onset(
                after,
                hop_size as int,
                i,
            ) {
                one()
            } else {
                zero()
            } by {
                if i == frame {
                    assert(after[n as int] as int / hop_size as int == i);
                } else {
                    if has_onset(before, hop_size as int, i) {
                        let k = choose|k: int|
                            0 <= k < before.len() && (#[trigger] before[k]) as int / hop_size as int == i;
                        assert(after[k] as int / hop_size as int == i);
                    }
                    if has_onset(after, hop_size as int, i) {
                        let k = choose|k: int|
                            0 <= k < after.len() && (#[trigger] after[k]) as int / hop_size as int == i;
                        assert(k < n);
                        assert(before[k] as int / hop_size as int == i);
                    }
                }
            }
        }
        n = n + 1;
    }
    assert(onsets@.take(onsets@.len() as int) =~= onsets@);
    assert(signal@ =~= onset_signal_of(onsets@, hop_size as int));
    signal
}

/// The length of the transform of a signal of `n` values: the least power of
/// two that holds the signal twice.
pub fn transform_size(n: usize) -> (r: usize)
    requires
        n <= usize::MAX / 8,
    ensures
        exists|k: nat| r == #[trigger] pow2(k),
        r >= 2 * n,
        r > 1 ==> r < 4 * n,
{
    let mut r: usize = 1;
    let ghost mut k: nat = 0;
    proof {
        vstd::arithmetic::power2::lemma2_to64();
    }
    while r < 2 * n
        invariant
            n <= usize::MAX / 8,
            r == pow2(k),
            1 <= r,
            r > 1 ==> r < 4 * n,
        decreases
            (if r < 2 * n {
                2 * n - r
            } else {
                0
            }),
    {
        r = r * 2;
        proof {
            vstd::arithmetic::power2::lemma_pow2_unfold(k + 1);
            k = k + 1;
        }
    }
    assert(r == pow2(k));
    r
}

/// The squared magnitudes of complex numbers, given by their parts.
pub fn squared_magnitudes(re: &[F32], im: &[F32]) -> (r: Vec<F32>)
    requires
        re@.len() == im@.len(),
    ensures
        r@.len() == re@.len(),
        forall|i: int| 0 <= i < r@.len() ==> r@[i] == re@[i] * re@[i] + im@[i] * im@[i],
{
    let mut r: Vec<F32> = Vec::new();
    let mut i: usize = 0;
    while i < re.len()
        invariant
            i <= re.len(),
            re@.len() == im@.len(),
            r@.len() == i,
            forall|k: int| 0 <= k < i ==> r@[k] == re@[k] * re@[k] + im@[k] * im@[k],
        decreases re.len() - i,
    {
        r.push(re[i] * re[i] + im[i] * im[i]);
        i = i + 1;
    }
    r
}

/// The autocorrelation from the real parts of an inverse transform that is not
/// scaled by its size: the first `n` values, scaled and not below zero.
pub fn scale_autocorrelation(re: &[F32], n: usize) -> (r: Vec<F32>)
    requires
        n <= re@.len(),
    ensures
        r@.len() == n,
        forall|i: int|
            0 <= i < n ==> r@[i] == (re@[i] * (one() / F32::from_usize(re@.len() as usize))).max(zero()),
{
    let scale = one() / F32::from_usize(re.len());
    let mut r: Vec<F32> = Vec::new();
    let mut i: usize = 0;
    while i < n
        invariant
            i <= n,
            n <= re@.len(),
            r@.len() == i,
            forall|k: int| 0 <= k < i ==> r@[k] == (re@[k] * scale).max(zero()),
        decreases n - i,
    {
        r.push((re[i] * scale).max(zero()));
        i = i + 1;
    }
    r
}

/// The value at `i` is above its neighbours, by at least `prominence`.
pub open spec fn stands_out(acf: Seq<F32>, prominence: F32, i: int) -> bool {
    acf[i] > acf[i - 1] && acf[i] > acf[i + 1] && acf[i] - acf[i - 1].max(acf[i + 1]) >= prominence
}

/// The peaks among the first `n` lags (the last one has a neighbour still); of
/// two that are next to one another, the higher one.
pub open spec fn lag_peaks(acf: Seq<F32>, offset: int, prominence: F32, n: nat) -> Seq<(usize, F32)>
    decreases n,
{
    if n <= 1 {
        Seq::empty()
    } else {
        let rest = lag_peaks(acf, offset, prominence, (n - 1) as nat);
        let lag = (n - 1 + offset) as usize;
        if !stands_out(acf, prominence, n - 1) {
            rest
        } else if rest.len() == 0 || lag >= rest.last().0 + 2 {
            rest.push((lag, acf[n - 1]))
        } else if acf[n - 1] > rest.last().1 {
            rest.update(rest.len() - 1, (lag, acf[n - 1]))
        } else {
            rest
        }
    }
}

/// The peaks of a part of an autocorrelation that starts at lag `offset`,
/// highest first.
pub open spec fn acf_peaks(acf: Seq<F32>, offset: int) -> Seq<(usize, F32)> {
    let max = peak_height(acf, acf.len());
    let peaks = lag_peaks(acf, offset, max * ratio(1, 10), (acf.len() - 1) as nat);
    if acf.len() == 0 || max < ratio(1, 10_000_000_000) {
        Seq::empty()
    } else {
        arranged(
            peaks,
            sorted_order(super::peak_picking::heights(peaks), true, peaks.len()),
        )
    }
}

pub fn find_peaks_in_acf(acf: &[F32], offset: usize) -> (r: Vec<(usize, F32)>)
    requires
        offset + acf@.len() <= usize::MAX,
    ensures
        r@ == acf_peaks(acf@, offset as int),
{
    if acf.len() == 0 {
        return Vec::new();
    }
    let max = find_height(acf);
    if max < ratio(1, 10_000_000_000) {
        return Vec::new();
    }
    let prominence = max * ratio(1, 10);
    let last: usize = acf.len() - 1;
    let mut peaks: Vec<(usize, F32)> = Vec::new();
    let mut i: usize = 1;
    while i < last
        invariant
            1 <= i,
            i <= last || (last == 0 && i == 1),
            last == acf@.len() - 1,
            offset + acf@.len() <= usize::MAX,
            forall|k: int| 0 <= k < peaks@.len() ==> (#[trigger] peaks@[k]).0 < i + offset,
            peaks@ == lag_peaks(acf@, offset as int, prominence, i as nat),
        decreases last - i,
    {
        let value = acf[i];
        if value > acf[i - 1] && value > acf[i + 1] && value - acf[i - 1].max(acf[i + 1]) >= prominence {
            let lag: usize = i + offset;
            let k: usize = peaks.len();
            if k == 0 || lag - peaks[k - 1].0 >= 2 {
                peaks.push((lag, value));
            } else if value > peaks[k - 1].1 {
                peaks.set(k - 1, (lag, value));
            }
        }
        i = i + 1;
    }
    assert(lag_peaks(acf@, offset as int, prominence, 0) == lag_peaks(acf@, offset as int, prominence, 1));
    let mut keys: Vec<F32> = Vec::new();
    let mut j: usize = 0;
    while j < peaks.len()
        invariant
            j <= peaks.len(),
            keys@.len() == j,
            forall|k: int| 0 <= k < j ==> keys@[k] == peaks@[k].1,
        decreases peaks.len() - j,
    {
        keys.push(peaks[j].1);
        j = j + 1;
    }
    assert(keys@ =~= super::peak_picking::heights(peaks@));
    let order: Vec<usize> = sort_order(keys.as_slice(), true);
    arrange(peaks.as_slice(), order.as_slice())
}

/// The tempo of a lag.
#[verifier::allow_in_spec]
pub fn lag_bpm(sample_rate: u32, hop_size: usize, lag: usize) -> F32
    returns
        ratio(60, 1) * F32::from_u32(sample_rate) / (F32::from_usize(lag) * F32::from_usize(hop_size)),
{
    ratio(60, 1) * F32::from_u32(sample_rate) / (F32::from_usize(lag) * F32::from_usize(hop_size))
}

/// The lag of a tempo, not rounded.
#[verifier::allow_in_spec]
pub fn bpm_lag(sample_rate: u32, hop_size: usize, bpm: F32) -> F32
    returns
        ratio(60, 1) * F32::from_u32(sample_rate) / (bpm * F32::from_usize(hop_size)),
{
    ratio(60, 1) * F32::from_u32(sample_rate) / (bpm * F32::from_usize(hop_size))
}

/// The candidates of the first `n` peaks, in the range of tempos; the height of
/// a peak as a part of `max` is its confidence.
pub open spec fn lag_candidates(
    peaks: Seq<(usize, F32)>,
    sample_rate: u32,
    hop_size: usize,
    min_bpm: F32,
    max_bpm: F32,
    max: F32,
    n: nat,
) -> Seq<BpmCandidate>
    decreases n,
{
    if n == 0 {
        Seq::empty()
    } else {
        let rest = lag_candidates(
            peaks,
            sample_rate,
            hop_size,
            min_bpm,
            max_bpm,
            max,
            (n - 1) as nat,
        );
        let bpm = lag_bpm(sample_rate, hop_size, peaks[n - 1].0);
        if bpm >= min_bpm && bpm <= max_bpm {
            rest.push(
                BpmCandidate {
                    bpm,
                    confidence: if max > ratio(1, 10_000_000_000) {
                        (peaks[n - 1].1 / max).min(one())
                    } else {
                        zero()
                    },
                },
            )
        } else {
            rest
        }
    }
}

/// The candidates of an autocorrelation, the most confident first.
pub open spec fn acf_candidates(
    acf: Seq<F32>,
    sample_rate: u32,
    hop_size: usize,
    min_bpm: F32,
    max_bpm: F32,
) -> Seq<BpmCandidate> {
    let lag_min = bpm_lag(sample_rate, hop_size, max_bpm).ceil().to_usize();
    let lag_max = bpm_lag(sample_rate, hop_size, min_bpm).floor().to_usize();
    let peaks = acf_peaks(acf.subrange(lag_min as int, lag_max + 1), lag_min as int);
    if lag_min >= lag_max || lag_max >= acf.len() {
        Seq::empty()
    } else {
        by_confidence(
            lag_candidates(
                peaks,
                sample_rate,
                hop_size,
                min_bpm,
                max_bpm,
                peak_height(acf, acf.len()),
                peaks.len(),
            ),
        )
    }
}

/// What onsets and the autocorrelation of their signal come to.
pub open spec fn acf_search(
    onsets: Seq<usize>,
    sample_rate: u32,
    hop_size: usize,
    min_bpm: F32,
    max_bpm: F32,
    acf: Seq<F32>,
) -> Outcome<Seq<BpmCandidate>> {
    if onsets.len() == 0 {
        Outcome::Invalid("Empty onset list"@)
    } else if sample_rate == 0 {
        Outcome::Invalid("Invalid sample rate: 0"@)
    } else if hop_size == 0 {
        Outcome::Invalid("Invalid hop size: 0"@)
    } else if is_bad_range(min_bpm, max_bpm) {
        Outcome::Invalid(bad_range_text(min_bpm, max_bpm))
    } else if onsets.len() < 2 {
        Outcome::Value(Seq::empty())
    } else if last_onset(onsets, onsets.len()) < hop_size {
        Outcome::Failed("Signal too short for autocorrelation"@)
    } else {
        Outcome::Value(acf_candidates(acf, sample_rate, hop_size, min_bpm, max_bpm))
    }
}

/// Estimates tempo candidates from onsets (in samples) and the autocorrelation
/// of their signal, the most confident first.
pub fn estimate_bpm_from_autocorrelation(
    onsets: &[usize],
    sample_rate: u32,
    hop_size: usize,
    min_bpm: F32,
    max_bpm: F32,
    acf: &[F32],
) -> (r: Result<Vec<BpmCandidate>, AnalysisError>)
    ensures
        gives(r, acf_search(onsets@, sample_rate, hop_size, min_bpm, max_bpm, acf@)),
{
    if onsets.len() == 0 {
        return Err(invalid_input("Empty onset list"));
    }
    if sample_rate == 0 {
        return Err(invalid_input("Invalid sample rate: 0"));
    }
    if hop_size == 0 {
        return Err(invalid_input("Invalid hop size: 0"));
    }
    if is_bad_range(min_bpm, max_bpm) {
        return Err(bad_range(min_bpm, max_bpm));
    }
    if onsets.len() < 2 {
        return Ok(Vec::new());
    }
    if find_last_onset(onsets) < hop_size {
        return Err(
            AnalysisError::ProcessingError("Signal too short for autocorrelation".to_owned()),
        );
    }
    let lag_min: usize = bpm_lag(sample_rate, hop_size, max_bpm).ceil().to_usize();
    let lag_max: usize = bpm_lag(sample_rate, hop_size, min_bpm).floor().to_usize();
    if lag_min >= lag_max || lag_max >= acf.len() {
        return Ok(Vec::new());
    }
    let part = slice_subrange(acf, lag_min, lag_max + 1);
    let peaks: Vec<(usize, F32)> = find_peaks_in_acf(part, lag_min);
    let max = find_height(acf);
    let mut candidates: Vec<BpmCandidate> = Vec::new();
    let mut n: usize = 0;
    while n < peaks.len()
        invariant
            n <= peaks.len(),
            candidates@ == lag_candidates(
                peaks@,
                sample_rate,
                hop_size,
                min_bpm,
                max_bpm,
                max,
                n as nat,
            ),
        decreases peaks.len() - n,
    {
        let (lag, value) = peaks[n];
        let bpm = lag_bpm(sample_rate, hop_size, lag);
        if bpm >= min_bpm && bpm <= max_bpm {
            let confidence = if max > ratio(1, 10_000_000_000) {
                (value / max).min(one())
            } else {
                zero()
            };
            candidates.push(BpmCandidate { bpm, confidence });
        }
        n = n + 1;
    }
    Ok(sort_by_confidence(candidates.as_slice()))
}

} // verus!
