//! Tuning: how far the pitches of a track are off the usual tuning.
//!
//! Each strong bin has a deviation from the nearest semitone. As angles, these are
//! averaged on the circle; the logarithms, powers, sines and cosines that this
//! takes come from outside.
use super::extractor::check_chroma_frames;
use super::extractor::chroma_frames_error;
use super::harmonic::band_ceiling;
use super::harmonic::band_floor;
use super::pitch::bin_frequency;
use super::pitch::frequency_resolution;
use super::pitch::semitone_of;
use crate::error::AnalysisError;
use crate::float::clamp_unit;
use crate::float::ratio;
use crate::float::zero;
use crate::float::F32;
use vstd::prelude::*;

verus! {

/// The ratio of the circumference of a circle to its diameter.
#[verifier::allow_in_spec]
pub fn pi() -> F32
    returns
        (F32 { bits: 0x4049_0fdb }),
{
    F32 { bits: 0x4049_0fdb }
}

/// How strong bins are looked for.
#[derive(Debug, Clone, Copy)]
pub struct TuningOptions {
    /// Sample rate in Hz
    pub sample_rate: u32,
    /// Length of the transform
    pub fft_size: usize,
    /// Lowest frequency in Hz
    pub fmin_hz: F32,
    /// Highest frequency in Hz
    pub fmax_hz: F32,
    /// Look at every frame of this many
    pub frame_step: usize,
    /// How strong a bin is at least, as a part of the strongest in its frame
    pub peak_rel_threshold: F32,
}

/// A strong bin of a frame.
#[derive(Debug, Clone, Copy)]
pub struct StrongBin {
    /// Frame
    pub frame: usize,
    /// Bin
    pub bin: usize,
}

/// A bin is in the band.
#[verifier::allow_in_spec]
pub fn in_band(o: TuningOptions, bin: usize) -> bool
    returns
        ({
            let f = bin_frequency(bin, frequency_resolution(o.sample_rate, o.fft_size));
            !(f < band_floor(o.fmin_hz)) && !(f > band_ceiling(
                o.fmin_hz,
                o.fmax_hz,
                o.sample_rate,
            ))
        }),
{
    let f = bin_frequency(bin, frequency_resolution(o.sample_rate, o.fft_size));
    !(f < band_floor(o.fmin_hz)) && !(f > band_ceiling(o.fmin_hz, o.fmax_hz, o.sample_rate))
}

/// The greatest of zero and the magnitudes of those of the first `n` bins that are
/// in the band.
pub open spec fn band_peak(row: Seq<F32>, o: TuningOptions, n: nat) -> F32
    decreases n,
{
    if n == 0 {
        zero()
    } else {
        let before = band_peak(row, o, (n - 1) as nat);
        if in_band(o, (n - 1) as usize) {
            before.max(row[n - 1])
        } else {
            before
        }
    }
}

/// A bin is in the band and not below the threshold.
pub open spec fn is_strong(row: Seq<F32>, o: TuningOptions, threshold: F32, bin: int) -> bool {
    in_band(o, bin as usize) && !(row[bin] < threshold)
}

/// Those of the first `n` bins of a frame that are strong.
pub open spec fn strong_in_row(row: Seq<F32>, o: TuningOptions, threshold: F32, frame: usize, n: nat) -> Seq<
    StrongBin,
>
    decreases n,
{
    if n == 0 {
        Seq::empty()
    } else {
        let before = strong_in_row(row, o, threshold, frame, (n - 1) as nat);
        if is_strong(row, o, threshold, n - 1) {
            before.push(StrongBin { frame, bin: (n - 1) as usize })
        } else {
            before
        }
    }
}

/// The strong bins of a frame; none where nothing in the band is above zero.
pub open spec fn strong_bins_of(row: Seq<F32>, o: TuningOptions, frame: usize) -> Seq<StrongBin> {
    let peak = band_peak(row, o, row.len());
    if peak <= ratio(1, 1_000_000_000_000) {
        Seq::empty()
    } else {
        strong_in_row(row, o, peak * clamp_unit(o.peak_rel_threshold), frame, row.len())
    }
}

/// A frame is looked at.
pub open spec fn looked_at(o: TuningOptions, frame: int) -> bool {
    o.frame_step <= 1 || frame % o.frame_step as int == 0
}

/// The strong bins of those of the first `n` frames that are looked at.
pub open spec fn all_strong_bins(frames: Seq<Vec<F32>>, o: TuningOptions, n: nat) -> Seq<StrongBin>
    decreases n,
{
    if n == 0 {
        Seq::empty()
    } else {
        let before = all_strong_bins(frames, o, (n - 1) as nat);
        if looked_at(o, n - 1) {
            before + strong_bins_of(frames[n - 1]@, o, (n - 1) as usize)
        } else {
            before
        }
    }
}

/// Bins are bins of frames.
pub open spec fn are_bins_of(bins: Seq<StrongBin>, frames: Seq<Vec<F32>>) -> bool {
    forall|i: int|
        0 <= i < bins.len() ==> (#[trigger] bins[i]).frame < frames.len() && bins[i].bin
            < frames[bins[i].frame as int]@.len()
}

proof fn lemma_strong_in_row(row: Seq<F32>, o: TuningOptions, threshold: F32, frame: usize, n: nat)
    requires
        n <= row.len() <= usize::MAX,
    ensures
        forall|i: int|
            0 <= i < strong_in_row(row, o, threshold, frame, n).len() ==> (
            #[trigger] strong_in_row(row, o, threshold, frame, n)[i]).frame == frame
                && strong_in_row(row, o, threshold, frame, n)[i].bin < row.len(),
    decreases n,
{
    if n > 0 {
        lemma_strong_in_row(row, o, threshold, frame, (n - 1) as nat);
        let before = strong_in_row(row, o, threshold, frame, (n - 1) as nat);
        let all = strong_in_row(row, o, threshold, frame, n);
        assert forall|i: int| 0 <= i < all.len() implies (#[trigger] all[i]).frame == frame
            && all[i].bin < row.len() by {
            if i < before.len() {
                assert(all[i] == before[i]);
            }
        }
    }
}

fn push_strong_bins(r: &mut Vec<StrongBin>, row: &[F32], o: TuningOptions, frame: usize)
    ensures
        final(r)@ == old(r)@ + strong_bins_of(row@, o, frame),
{
    let ghost before: Seq<StrongBin> = r@;
    let mut peak = zero();
    let mut n: usize = 0;
    while n < row.len()
        invariant
            n <= row.len(),
            peak == band_peak(row@, o, n as nat),
        decreases row.len() - n,
    {
        if in_band(o, n) {
            peak = peak.max(row[n]);
        }
        n = n + 1;
    }
    if peak <= ratio(1, 1_000_000_000_000) {
        assert(r@ =~= before + Seq::<StrongBin>::empty());
        return;
    }
    let threshold = peak * clamp_unit(o.peak_rel_threshold);
    n = 0;
    assert(r@ =~= before + Seq::<StrongBin>::empty());
    while n < row.len()
        invariant
            n <= row.len(),
            r@ == before + strong_in_row(row@, o, threshold, frame, n as nat),
        decreases row.len() - n,
    {
        let ghost sofar: Seq<StrongBin> = strong_in_row(row@, o, threshold, frame, n as nat);
        if in_band(o, n) && !(row[n] < threshold) {
            let x = StrongBin { frame, bin: n };
            r.push(x);
            assert(r@ =~= before + sofar.push(x));
        }
        n = n + 1;
    }
}

/// Finds the strong bins of a spectrogram: those whose deviations are averaged.
pub fn find_strong_bins(magnitude_spec_frames: &[Vec<F32>], o: TuningOptions) -> (r: Result<
    Vec<StrongBin>,
    AnalysisError,
>)
    ensures
        match chroma_frames_error(magnitude_spec_frames@) {
            Some(msg) => crate::error::is_invalid_input(r, msg),
            None => r is Ok && r->Ok_0@ == if o.sample_rate == 0 || o.fft_size == 0 {
                Seq::empty()
            } else {
                all_strong_bins(magnitude_spec_frames@, o, magnitude_spec_frames@.len())
            },
        },
        r matches Ok(bins) ==> are_bins_of(bins@, magnitude_spec_frames@),
{
    match check_chroma_frames(magnitude_spec_frames) {
        Err(e) => {
            return Err(e);
        },
        Ok(_) => {},
    }
    let mut r: Vec<StrongBin> = Vec::new();
    if o.sample_rate == 0 || o.fft_size == 0 {
        return Ok(r);
    }
    let mut n: usize = 0;
    while n < magnitude_spec_frames.len()
        invariant
            n <= magnitude_spec_frames.len(),
            r@ == all_strong_bins(magnitude_spec_frames@, o, n as nat),
            are_bins_of(r@, magnitude_spec_frames@),
        decreases magnitude_spec_frames.len() - n,
    {
        if o.frame_step <= 1 || n % o.frame_step == 0 {
            let row: &[F32] = magnitude_spec_frames[n].as_slice();
            assert(row.len() <= usize::MAX);
            push_strong_bins(&mut r, row, o, n);
            proof {
                let peak = band_peak(row@, o, row@.len());
                lemma_strong_in_row(
                    row@,
                    o,
                    peak * clamp_unit(o.peak_rel_threshold),
                    n,
                    row@.len(),
                );
            }
        }
        n = n + 1;
    }
    Ok(r)
}

/// The angle of the deviation of a frequency from the nearest semitone, given the
/// binary logarithm of its ratio to 440 Hz: a full turn is a semitone.
#[verifier::allow_in_spec]
pub fn deviation_angle(log2_ratio: F32) -> F32
    returns
        ratio(2, 1) * pi() * (semitone_of(log2_ratio) - semitone_of(log2_ratio).round()),
{
    ratio(2, 1) * pi() * (semitone_of(log2_ratio) - semitone_of(log2_ratio).round())
}

/// The weight of a strong bin, the square root of its magnitude, and the sine and
/// the cosine of its angle.
#[derive(Debug, Clone, Copy)]
pub struct TuningVote {
    /// Weight
    pub weight: F32,
    /// Sine of the angle
    pub sin: F32,
    /// Cosine of the angle
    pub cos: F32,
}

/// The magnitudes of strong bins, none below zero: what their weights are powers of.
pub fn strong_magnitudes(magnitude_spec_frames: &[Vec<F32>], bins: &[StrongBin]) -> (r: Vec<F32>)
    requires
        are_bins_of(bins@, magnitude_spec_frames@),
    ensures
        r@ == Seq::new(
            bins@.len(),
            |i: int|
                magnitude_spec_frames@[bins@[i].frame as int]@[bins@[i].bin as int].max(zero()),
        ),
{
    let mut r: Vec<F32> = Vec::new();
    let mut n: usize = 0;
    while n < bins.len()
        invariant
            n <= bins.len(),
            are_bins_of(bins@, magnitude_spec_frames@),
            r@.len() == n,
            forall|i: int|
                0 <= i < n ==> r@[i]
                    == magnitude_spec_frames@[bins@[i].frame as int]@[bins@[i].bin as int].max(
                    zero(),
                ),
        decreases bins.len() - n,
    {
        let b = bins[n];
        r.push(magnitude_spec_frames[b.frame][b.bin].max(zero()));
        n = n + 1;
    }
    r
}

/// The power by which magnitudes are turned into weights.
#[verifier::allow_in_spec]
pub fn weight_power() -> F32
    returns
        ratio(5, 10),
{
    ratio(5, 10)
}

/// The angles of the deviations of strong bins, given the binary logarithms of the
/// ratios of all bins to 440 Hz.
pub fn strong_angles(log2_ratios: &[F32], bins: &[StrongBin]) -> (r: Vec<F32>)
    requires
        forall|i: int| 0 <= i < bins@.len() ==> (#[trigger] bins@[i]).bin < log2_ratios@.len(),
    ensures
        r@ == Seq::new(bins@.len(), |i: int| deviation_angle(log2_ratios@[bins@[i].bin as int])),
{
    let mut r: Vec<F32> = Vec::new();
    let mut n: usize = 0;
    while n < bins.len()
        invariant
            n <= bins.len(),
            forall|i: int| 0 <= i < bins@.len() ==> (#[trigger] bins@[i]).bin < log2_ratios@.len(),
            r@.len() == n,
            forall|i: int|
                0 <= i < n ==> r@[i] == deviation_angle(log2_ratios@[bins@[i].bin as int]),
        decreases bins.len() - n,
    {
        r.push(deviation_angle(log2_ratios[bins[n].bin]));
        n = n + 1;
    }
    r
}

/// The votes with these weights, sines and cosines.
pub fn make_votes(weights: &[F32], sines: &[F32], cosines: &[F32]) -> (r: Vec<TuningVote>)
    requires
        sines@.len() == weights@.len(),
        cosines@.len() == weights@.len(),
    ensures
        r@ == Seq::new(
            weights@.len(),
            |i: int| TuningVote { weight: weights@[i], sin: sines@[i], cos: cosines@[i] },
        ),
{
    let mut r: Vec<TuningVote> = Vec::new();
    let mut n: usize = 0;
    while n < weights.len()
        invariant
            n <= weights.len(),
            sines@.len() == weights@.len(),
            cosines@.len() == weights@.len(),
            r@.len() == n,
            forall|i: int|
                0 <= i < n ==> r@[i] == (TuningVote {
                    weight: weights@[i],
                    sin: sines@[i],
                    cos: cosines@[i],
                }),
        decreases weights.len() - n,
    {
        r.push(TuningVote { weight: weights[n], sin: sines[n], cos: cosines[n] });
        n = n + 1;
    }
    r
}

/// The weighted sums of sines, cosines and of the weights of the first `n` votes,
/// those with a weight above zero.
pub open spec fn vote_sums(votes: Seq<TuningVote>, n: nat) -> (F32, F32, F32)
    decreases n,
{
    if n == 0 {
        (zero(), zero(), zero())
    } else {
        let (s, c, w) = vote_sums(votes, (n - 1) as nat);
        let v = votes[n - 1];
        if v.weight <= zero() {
            (s, c, w)
        } else {
            (s + v.weight * v.sin, c + v.weight * v.cos, w + v.weight)
        }
    }
}

/// The sums of sines and cosines whose angle is the mean deviation; none where the
/// deviations do not agree on one.
pub open spec fn mean_direction(votes: Seq<TuningVote>) -> Option<(F32, F32)> {
    let (s, c, w) = vote_sums(votes, votes.len());
    if w <= ratio(1, 1_000_000) || (s * s + c * c).sqrt() / w < ratio(5, 100) {
        None
    } else {
        Some((s, c))
    }
}

/// Averages deviations on the circle: the sums of sines and cosines, unless the
/// deviations do not agree on a direction.
pub fn average_direction(votes: &[TuningVote]) -> (r: Option<(F32, F32)>)
    ensures
        r == mean_direction(votes@),
{
    let mut s = zero();
    let mut c = zero();
    let mut w = zero();
    let mut n: usize = 0;
    while n < votes.len()
        invariant
            n <= votes.len(),
            (s, c, w) == vote_sums(votes@, n as nat),
        decreases votes.len() - n,
    {
        let v = votes[n];
        if !(v.weight <= zero()) {
            s = s + v.weight * v.sin;
            c = c + v.weight * v.cos;
            w = w + v.weight;
        }
        n = n + 1;
    }
    if w <= ratio(1, 1_000_000) || (s * s + c * c).sqrt() / w < ratio(5, 100) {
        None
    } else {
        Some((s, c))
    }
}

/// The tuning offset in semitones of an angle, in radians; none is no offset.
#[verifier::allow_in_spec]
pub fn estimate_tuning_offset_semitones_from_spectrogram(mean_angle: Option<F32>) -> F32
    returns
        (match mean_angle {
            Some(a) => a / (ratio(2, 1) * pi()),
            None => zero(),
        }),
{
    match mean_angle {
        Some(a) => a / (ratio(2, 1) * pi()),
        None => zero(),
    }
}

} // verus!
