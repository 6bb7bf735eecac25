//! Novelty curves: how much changes from one frame of a spectrogram to the next.
//!
//! Every curve has one value for each pair of neighbouring frames and is scaled
//! so that its greatest value is one.
use super::peak_picking::find_height;
use super::peak_picking::peak_height;
use crate::error::gives;
use crate::error::AnalysisError;
use crate::error::Outcome;
use crate::float::one;
use crate::float::ratio;
use crate::float::zero;
use crate::float::F32;
use crate::sorting::empty_sum;
use crate::text::decimal;
use crate::text::decimal_of;
use crate::vector::dot_product;
use crate::vector::energy;
use vstd::prelude::*;
use vstd::slice::slice_subrange;
use vstd::string::StringExecFns;

pub use super::mel::mel_superflux_novelty;

verus! {

/// The first frame from `i` on that has not `n` bins.
pub open spec fn first_other_len(frames: Seq<Vec<F32>>, n: nat, i: int) -> int
    decreases frames.len() - i,
{
    if i < 0 || i >= frames.len() || frames[i]@.len() != n {
        i
    } else {
        first_other_len(frames, n, i + 1)
    }
}

/// Why frames do not make up a spectrogram, where they do not; `what` names them.
pub open spec fn frames_error(frames: Seq<Vec<F32>>, empty: Seq<char>, what: Seq<char>) -> Option<Seq<char>> {
    let n = frames[0]@.len();
    let i = first_other_len(frames, n, 0);
    if n == 0 {
        Some(empty)
    } else if i < frames.len() {
        Some(
            "Inconsistent "@ + what + "frame lengths: frame 0 has "@ + decimal_of(n)
                + " bins, frame "@ + decimal_of(i as nat) + " has "@ + decimal_of(frames[i]@.len())
                + " bins"@,
        )
    } else {
        None
    }
}

/// All frames have `n` bins.
pub open spec fn all_have_len(frames: Seq<Vec<F32>>, n: nat) -> bool {
    forall|i: int| 0 <= i < frames.len() ==> (#[trigger] frames[i])@.len() == n
}

proof fn lemma_all_have_len(frames: Seq<Vec<F32>>, n: nat, i: int)
    requires
        0 <= i <= frames.len(),
        first_other_len(frames, n, i) >= frames.len(),
    ensures
        forall|k: int| i <= k < frames.len() ==> (#[trigger] frames[k])@.len() == n,
    decreases frames.len() - i,
{
    if i < frames.len() {
        lemma_all_have_len(frames, n, i + 1);
    }
}

/// The frames of a spectrogram have as many bins as the first.
pub proof fn lemma_spectrogram_is_even(frames: Seq<Vec<F32>>)
    requires
        frames.len() > 0,
        spectrogram_error(frames) is None,
    ensures
        frames[0]@.len() > 0,
        all_have_len(frames, frames[0]@.len()),
{
    lemma_all_have_len(frames, frames[0]@.len(), 0);
}

/// Checks that frames make up a spectrogram.
pub fn check_frames(frames: &[Vec<F32>], empty: &str, what: &str) -> (r: Result<(), AnalysisError>)
    requires
        frames@.len() > 0,
    ensures
        match frames_error(frames@, empty@, what@) {
            Some(msg) => crate::error::is_invalid_input(r, msg),
            None => r is Ok,
        },
        r is Ok ==> frames@[0]@.len() > 0 && all_have_len(frames@, frames@[0]@.len()),
{
    let n: usize = frames[0].len();
    if n == 0 {
        return Err(AnalysisError::InvalidInput(empty.to_owned()));
    }
    let mut i: usize = 0;
    while i < frames.len()
        invariant
            i <= frames.len(),
            frames@.len() > 0,
            n == frames@[0]@.len(),
            n > 0,
            first_other_len(frames@, n as nat, 0) == first_other_len(frames@, n as nat, i as int),
        decreases frames.len() - i,
    {
        let len: usize = frames[i].len();
        if len != n {
            let msg: String = "Inconsistent ".to_owned().concat(what).concat(
                "frame lengths: frame 0 has ",
            ).concat(decimal(n).as_str()).concat(" bins, frame ").concat(decimal(i).as_str()).concat(
                " has ",
            ).concat(decimal(len).as_str()).concat(" bins");
            return Err(AnalysisError::InvalidInput(msg));
        }
        i = i + 1;
    }
    proof {
        lemma_all_have_len(frames@, n as nat, 0);
    }
    Ok(())
}

/// The frames make up a spectrogram for novelty, or the reason why they do not.
pub open spec fn spectrogram_error(frames: Seq<Vec<F32>>) -> Option<Seq<char>> {
    frames_error(frames, "Empty magnitude frames"@, ""@)
}

pub(crate) fn check_spectrogram(frames: &[Vec<F32>]) -> (r: Result<(), AnalysisError>)
    requires
        frames@.len() > 0,
    ensures
        match spectrogram_error(frames@) {
            Some(msg) => crate::error::is_invalid_input(r, msg),
            None => r is Ok,
        },
        r is Ok ==> frames@[0]@.len() > 0 && all_have_len(frames@, frames@[0]@.len()),
{
    proof {
        reveal_strlit("");
    }
    check_frames(frames, "Empty magnitude frames", "")
}

/// A curve divided by its greatest value, unless that is nothing to speak of.
pub open spec fn scaled_curve(curve: Seq<F32>) -> Seq<F32> {
    let max = peak_height(curve, curve.len());
    if max > ratio(1, 10_000_000_000) {
        Seq::new(curve.len(), |i: int| curve[i] / max)
    } else {
        curve
    }
}

/// Divides a curve by its greatest value, unless that is nothing to speak of.
pub fn normalize_in_place(curve: &mut Vec<F32>)
    ensures
        final(curve)@ == scaled_curve(old(curve)@),
{
    let max = find_height(curve.as_slice());
    let ghost start: Seq<F32> = curve@;
    if max > ratio(1, 10_000_000_000) {
        let mut i: usize = 0;
        let n: usize = curve.len();
        while i < n
            invariant
                i <= n,
                n == start.len(),
                curve@.len() == n,
                forall|k: int| 0 <= k < i ==> curve@[k] == start[k] / max,
                forall|k: int| i <= k < n ==> curve@[k] == start[k],
            decreases n - i,
        {
            let x = curve[i];
            curve.set(i, x / max);
            i = i + 1;
        }
    }
    assert(curve@ =~= scaled_curve(start));
}

/// The rises from one value to the next; a fall counts as zero.
pub open spec fn rises(values: Seq<F32>) -> Seq<F32> {
    Seq::new(
        (if values.len() > 0 {
            values.len() - 1
        } else {
            0
        }) as nat,
        |i: int| (values[i + 1] - values[i]).max(zero()),
    )
}

pub(crate) fn compute_rises(values: &[F32]) -> (r: Vec<F32>)
    ensures
        r@ == rises(values@),
{
    let mut r: Vec<F32> = Vec::new();
    let mut i: usize = 1;
    while i < values.len()
        invariant
            1 <= i,
            i <= values.len() || (values@.len() == 0 && i == 1),
            r@.len() == i - 1,
            forall|k: int| 0 <= k < i - 1 ==> r@[k] == (values@[k + 1] - values@[k]).max(zero()),
        decreases values.len() - i,
    {
        r.push((values[i] - values[i - 1]).max(zero()));
        i = i + 1;
    }
    assert(r@ =~= rises(values@));
    r
}

/// The sum of the squared rises of the first `n` bins, added up from the left.
pub open spec fn rise_energy(prev: Seq<F32>, curr: Seq<F32>, n: nat) -> F32
    decreases n,
{
    if n == 0 {
        empty_sum()
    } else {
        let d = (curr[n - 1] - prev[n - 1]).max(zero());
        rise_energy(prev, curr, (n - 1) as nat) + d * d
    }
}

/// A frame with its greatest magnitude brought to one; zeros, where that is
/// nothing to speak of.
pub open spec fn unit_frame(frame: Seq<F32>) -> Seq<F32> {
    let max = peak_height(frame, frame.len());
    Seq::new(
        frame.len(),
        |i: int|
            if max > ratio(1, 10_000_000_000) {
                frame[i] / max
            } else {
                zero()
            },
    )
}

pub(crate) fn make_unit_frame(frame: &[F32]) -> (r: Vec<F32>)
    ensures
        r@ == unit_frame(frame@),
{
    let max = find_height(frame);
    let scale: bool = max > ratio(1, 10_000_000_000);
    let mut r: Vec<F32> = Vec::new();
    let mut i: usize = 0;
    while i < frame.len()
        invariant
            i <= frame.len(),
            r@.len() == i,
            forall|k: int|
                0 <= k < i ==> r@[k] == if scale {
                    frame@[k] / max
                } else {
                    zero()
                },
        decreases frame.len() - i,
    {
        r.push(
            if scale {
                frame[i] / max
            } else {
                zero()
            },
        );
        i = i + 1;
    }
    assert(r@ =~= unit_frame(frame@));
    r
}

fn compute_rise_energy(prev: &[F32], curr: &[F32]) -> (r: F32)
    requires
        prev@.len() == curr@.len(),
    ensures
        r == rise_energy(prev@, curr@, prev@.len()),
{
    let mut acc = empty_sum();
    let mut n: usize = 0;
    while n < prev.len()
        invariant
            n <= prev.len(),
            prev@.len() == curr@.len(),
            acc == rise_energy(prev@, curr@, n as nat),
        decreases prev.len() - n,
    {
        let d = (curr[n] - prev[n]).max(zero());
        acc = acc + d * d;
        n = n + 1;
    }
    acc
}

/// How much the spectrum rises from each frame to the next: the length of the
/// vector of rises between frames brought to the same height.
pub open spec fn spectral_flux_of(frames: Seq<Vec<F32>>) -> Seq<F32> {
    Seq::new(
        (frames.len() - 1) as nat,
        |i: int|
            rise_energy(
                unit_frame(frames[i]@),
                unit_frame(frames[i + 1]@),
                frames[i]@.len(),
            ).sqrt(),
    )
}

/// Computes how much the spectrum rises from each frame to the next.
pub(crate) fn compute_spectral_flux(magnitude_spec_frames: &[Vec<F32>]) -> (r: Vec<F32>)
    requires
        magnitude_spec_frames@.len() > 0,
        all_have_len(magnitude_spec_frames@, magnitude_spec_frames@[0]@.len()),
    ensures
        r@ == spectral_flux_of(magnitude_spec_frames@),
{
    let n: usize = magnitude_spec_frames.len();
    let mut flux: Vec<F32> = Vec::new();
    let mut prev: Vec<F32> = make_unit_frame(magnitude_spec_frames[0].as_slice());
    let mut i: usize = 1;
    while i < n
        invariant
            1 <= i <= n,
            n == magnitude_spec_frames@.len(),
            all_have_len(magnitude_spec_frames@, magnitude_spec_frames@[0]@.len()),
            prev@ == unit_frame(magnitude_spec_frames@[i - 1]@),
            flux@.len() == i - 1,
            forall|k: int|
                0 <= k < i - 1 ==> flux@[k] == spectral_flux_of(magnitude_spec_frames@)[k],
        decreases n - i,
    {
        let curr: Vec<F32> = make_unit_frame(magnitude_spec_frames[i].as_slice());
        let e = compute_rise_energy(prev.as_slice(), curr.as_slice());
        flux.push(e.sqrt());
        prev = curr;
        i = i + 1;
    }
    assert(flux@ =~= spectral_flux_of(magnitude_spec_frames@));
    flux
}

/// The curve of `flux`, where the frames make up a spectrogram of two frames at least.
pub open spec fn curve_or_error(frames: Seq<Vec<F32>>, flux: Seq<F32>) -> Outcome<Seq<F32>> {
    if frames.len() < 2 {
        Outcome::Value(Seq::empty())
    } else {
        match spectrogram_error(frames) {
            Some(msg) => Outcome::Invalid(msg),
            None => Outcome::Value(scaled_curve(flux)),
        }
    }
}

/// The spectral flux novelty curve.
pub fn spectral_flux_novelty(magnitude_spec_frames: &[Vec<F32>]) -> (r: Result<Vec<F32>, AnalysisError>)
    ensures
        gives(
            r,
            curve_or_error(magnitude_spec_frames@, spectral_flux_of(magnitude_spec_frames@)),
        ),
{
    if magnitude_spec_frames.len() < 2 {
        return Ok(Vec::new());
    }
    match check_spectrogram(magnitude_spec_frames) {
        Err(e) => {
            return Err(e);
        },
        Ok(_) => {},
    }
    let mut flux: Vec<F32> = compute_spectral_flux(magnitude_spec_frames);
    normalize_in_place(&mut flux);
    Ok(flux)
}

/// The arguments of the logarithms by which magnitudes are compressed: one more
/// than each magnitude, which counts as zero where it is below.
pub fn log_arguments(magnitude_spec_frames: &[Vec<F32>]) -> (r: Vec<Vec<F32>>)
    ensures
        r@.len() == magnitude_spec_frames@.len(),
        forall|i: int|
            0 <= i < r@.len() ==> {
                &&& (#[trigger] r@[i])@.len() == magnitude_spec_frames@[i]@.len()
                &&& forall|j: int|
                    0 <= j < r@[i]@.len() ==> r@[i]@[j] == one() + magnitude_spec_frames@[i]@[j].max(
                        zero(),
                    )
            },
{
    let mut r: Vec<Vec<F32>> = Vec::new();
    let mut i: usize = 0;
    while i < magnitude_spec_frames.len()
        invariant
            i <= magnitude_spec_frames.len(),
            r@.len() == i,
            forall|k: int|
                0 <= k < i ==> {
                    &&& (#[trigger] r@[k])@.len() == magnitude_spec_frames@[k]@.len()
                    &&& forall|j: int|
                        0 <= j < r@[k]@.len() ==> r@[k]@[j] == one()
                            + magnitude_spec_frames@[k]@[j].max(zero())
                },
        decreases magnitude_spec_frames.len() - i,
    {
        let frame = &magnitude_spec_frames[i];
        let mut row: Vec<F32> = Vec::new();
        let mut j: usize = 0;
        while j < frame.len()
            invariant
                j <= frame.len(),
                row@.len() == j,
                forall|l: int| 0 <= l < j ==> row@[l] == one() + frame@[l].max(zero()),
            decreases frame.len() - j,
        {
            row.push(one() + frame[j].max(zero()));
            j = j + 1;
        }
        r.push(row);
        i = i + 1;
    }
    r
}

/// The greatest of zero and the `n` values from `start` on.
pub open spec fn window_max(s: Seq<F32>, start: int, n: nat) -> F32
    decreases n,
{
    if n == 0 {
        zero()
    } else {
        window_max(s, start, (n - 1) as nat).max(s[start + n - 1])
    }
}

/// The first place of a window of radius `k` around `b`, from `start` on.
pub open spec fn window_start(b: int, k: int, start: int) -> int {
    if b - k >= start {
        b - k
    } else {
        start
    }
}

/// The place behind a window of radius `k` around `b`, up to `end`.
pub open spec fn window_end(b: int, k: int, end: int) -> int {
    if b + k + 1 <= end {
        b + k + 1
    } else {
        end
    }
}

/// The sum of the squared rises of `n` bins from `start` on, each above the
/// greatest value near it in the frame before.
pub open spec fn superflux_energy(
    prev: Seq<F32>,
    curr: Seq<F32>,
    k: int,
    start: int,
    end: int,
    n: nat,
) -> F32
    decreases n,
{
    if n == 0 {
        zero()
    } else {
        let b = start + n - 1;
        let from = window_start(b, k, start);
        let d = (curr[b] - window_max(prev, from, (window_end(b, k, end) - from) as nat)).max(zero());
        superflux_energy(prev, curr, k, start, end, (n - 1) as nat) + d * d
    }
}

/// The SuperFlux value from each frame to the next, over the bins from `start` to `end`.
pub open spec fn superflux_of(frames: Seq<Vec<F32>>, k: int, start: int, end: int) -> Seq<F32> {
    Seq::new(
        (frames.len() - 1) as nat,
        |i: int|
            superflux_energy(
                frames[i]@,
                frames[i + 1]@,
                k,
                start,
                end,
                (end - start) as nat,
            ).sqrt(),
    )
}

pub open spec fn at_least_one(k: usize) -> int {
    if k >= 1 {
        k as int
    } else {
        1
    }
}

pub(crate) fn find_window_max(s: &[F32], start: usize, end: usize) -> (r: F32)
    requires
        start <= end <= s@.len(),
    ensures
        r == window_max(s@, start as int, (end - start) as nat),
{
    let mut acc = zero();
    let mut i: usize = start;
    while i < end
        invariant
            start <= i <= end,
            end <= s@.len(),
            acc == window_max(s@, start as int, (i - start) as nat),
        decreases end - i,
    {
        acc = acc.max(s[i]);
        i = i + 1;
    }
    acc
}

fn compute_superflux_energy(prev: &[F32], curr: &[F32], k: usize, start: usize, end: usize) -> (r: F32)
    requires
        start <= end <= prev@.len(),
        end <= curr@.len(),
        k >= 1,
    ensures
        r == superflux_energy(prev@, curr@, k as int, start as int, end as int, (end - start) as nat),
{
    let mut acc = zero();
    let mut b: usize = start;
    while b < end
        invariant
            start <= b <= end,
            end <= prev@.len(),
            end <= curr@.len(),
            k >= 1,
            acc == superflux_energy(
                prev@,
                curr@,
                k as int,
                start as int,
                end as int,
                (b - start) as nat,
            ),
        decreases end - b,
    {
        let from: usize = if b - start >= k {
            b - k
        } else {
            start
        };
        let to: usize = if k < end - b {
            b + k + 1
        } else {
            end
        };
        let d = (curr[b] - find_window_max(prev, from, to)).max(zero());
        acc = acc + d * d;
        b = b + 1;
    }
    acc
}

pub(crate) fn compute_superflux(frames: &[Vec<F32>], k: usize, start: usize, end: usize) -> (r: Vec<F32>)
    requires
        frames@.len() >= 1,
        start <= end,
        k >= 1,
        forall|i: int| 0 <= i < frames@.len() ==> end <= (#[trigger] frames@[i])@.len(),
    ensures
        r@ == superflux_of(frames@, k as int, start as int, end as int),
{
    let mut flux: Vec<F32> = Vec::new();
    let mut i: usize = 1;
    while i < frames.len()
        invariant
            1 <= i <= frames.len(),
            start <= end,
            k >= 1,
            forall|l: int| 0 <= l < frames@.len() ==> end <= (#[trigger] frames@[l])@.len(),
            flux@.len() == i - 1,
            forall|l: int|
                0 <= l < i - 1 ==> flux@[l] == superflux_of(
                    frames@,
                    k as int,
                    start as int,
                    end as int,
                )[l],
        decreases frames.len() - i,
    {
        let e = compute_superflux_energy(
            frames[i - 1].as_slice(),
            frames[i].as_slice(),
            k,
            start,
            end,
        );
        flux.push(e.sqrt());
        i = i + 1;
    }
    assert(flux@ =~= superflux_of(frames@, k as int, start as int, end as int));
    flux
}

/// The SuperFlux novelty curve of log-compressed frames: each bin is compared
/// with the greatest value within `max_filter_bins` bins in the frame before.
pub fn superflux_novelty(log_frames: &[Vec<F32>], max_filter_bins: usize) -> (r: Result<
    Vec<F32>,
    AnalysisError,
>)
    ensures
        gives(
            r,
            curve_or_error(
                log_frames@,
                superflux_of(
                    log_frames@,
                    at_least_one(max_filter_bins),
                    0,
                    log_frames@[0]@.len() as int,
                ),
            ),
        ),
{
    if log_frames.len() < 2 {
        return Ok(Vec::new());
    }
    match check_spectrogram(log_frames) {
        Err(e) => {
            return Err(e);
        },
        Ok(_) => {},
    }
    let k: usize = if max_filter_bins >= 1 {
        max_filter_bins
    } else {
        1
    };
    let mut flux: Vec<F32> = compute_superflux(log_frames, k, 0, log_frames[0].len());
    normalize_in_place(&mut flux);
    Ok(flux)
}

/// The lesser of a bin and the number of bins.
pub open spec fn clipped(bin: usize, n: nat) -> int {
    if bin <= n {
        bin as int
    } else {
        n as int
    }
}

/// As `curve_or_error`, for a band of bins; no curve for a band of less than two.
pub open spec fn band_curve_or_error(
    frames: Seq<Vec<F32>>,
    start: usize,
    end: usize,
    flux: Seq<F32>,
) -> Outcome<Seq<F32>> {
    let n = frames[0]@.len();
    if frames.len() < 2 {
        Outcome::Value(Seq::empty())
    } else {
        match spectrogram_error(frames) {
            Some(msg) => Outcome::Invalid(msg),
            None => if clipped(end, n) <= clipped(start, n) + 1 {
                Outcome::Value(Seq::empty())
            } else {
                Outcome::Value(scaled_curve(flux))
            },
        }
    }
}

/// The SuperFlux novelty curve of a band of bins.
pub fn superflux_novelty_band(
    log_frames: &[Vec<F32>],
    max_filter_bins: usize,
    bin_start: usize,
    bin_end: usize,
) -> (r: Result<Vec<F32>, AnalysisError>)
    ensures
        gives(
            r,
            band_curve_or_error(
                log_frames@,
                bin_start,
                bin_end,
                superflux_of(
                    log_frames@,
                    at_least_one(max_filter_bins),
                    clipped(bin_start, log_frames@[0]@.len()),
                    clipped(bin_end, log_frames@[0]@.len()),
                ),
            ),
        ),
{
    if log_frames.len() < 2 {
        return Ok(Vec::new());
    }
    match check_spectrogram(log_frames) {
        Err(e) => {
            return Err(e);
        },
        Ok(_) => {},
    }
    let n: usize = log_frames[0].len();
    let start: usize = if bin_start <= n {
        bin_start
    } else {
        n
    };
    let end: usize = if bin_end <= n {
        bin_end
    } else {
        n
    };
    if end <= start || end - start <= 1 {
        return Ok(Vec::new());
    }
    let k: usize = if max_filter_bins >= 1 {
        max_filter_bins
    } else {
        1
    };
    let mut flux: Vec<F32> = compute_superflux(log_frames, k, start, end);
    normalize_in_place(&mut flux);
    Ok(flux)
}

/// The energy of each frame over the bins from `start` to `end`.
pub open spec fn energies_of(frames: Seq<Vec<F32>>, start: int, end: int) -> Seq<F32> {
    Seq::new(frames.len(), |i: int| energy(frames[i]@.subrange(start, end)))
}

pub(crate) fn compute_energies(frames: &[Vec<F32>], start: usize, end: usize) -> (r: Vec<F32>)
    requires
        start <= end,
        forall|i: int| 0 <= i < frames@.len() ==> end <= (#[trigger] frames@[i])@.len(),
    ensures
        r@ == energies_of(frames@, start as int, end as int),
{
    let mut r: Vec<F32> = Vec::new();
    let mut i: usize = 0;
    while i < frames.len()
        invariant
            i <= frames.len(),
            start <= end,
            forall|l: int| 0 <= l < frames@.len() ==> end <= (#[trigger] frames@[l])@.len(),
            r@.len() == i,
            forall|l: int|
                0 <= l < i ==> r@[l] == energies_of(frames@, start as int, end as int)[l],
        decreases frames.len() - i,
    {
        let part = slice_subrange(frames[i].as_slice(), start, end);
        r.push(dot_product(part, part));
        i = i + 1;
    }
    assert(r@ =~= energies_of(frames@, start as int, end as int));
    r
}

/// The energy flux novelty curve: how much the energy rises.
pub fn energy_flux_novelty(magnitude_spec_frames: &[Vec<F32>]) -> (r: Result<Vec<F32>, AnalysisError>)
    ensures
        gives(
            r,
            curve_or_error(
                magnitude_spec_frames@,
                rises(
                    energies_of(
                        magnitude_spec_frames@,
                        0,
                        magnitude_spec_frames@[0]@.len() as int,
                    ),
                ),
            ),
        ),
{
    if magnitude_spec_frames.len() < 2 {
        return Ok(Vec::new());
    }
    match check_spectrogram(magnitude_spec_frames) {
        Err(e) => {
            return Err(e);
        },
        Ok(_) => {},
    }
    let energies: Vec<F32> = compute_energies(
        magnitude_spec_frames,
        0,
        magnitude_spec_frames[0].len(),
    );
    let mut flux: Vec<F32> = compute_rises(energies.as_slice());
    normalize_in_place(&mut flux);
    Ok(flux)
}

/// The energy flux novelty curve of a band of bins.
pub fn energy_flux_novelty_band(
    magnitude_spec_frames: &[Vec<F32>],
    bin_start: usize,
    bin_end: usize,
) -> (r: Result<Vec<F32>, AnalysisError>)
    ensures
        gives(
            r,
            band_curve_or_error(
                magnitude_spec_frames@,
                bin_start,
                bin_end,
                rises(
                    energies_of(
                        magnitude_spec_frames@,
                        clipped(bin_start, magnitude_spec_frames@[0]@.len()),
                        clipped(bin_end, magnitude_spec_frames@[0]@.len()),
                    ),
                ),
            ),
        ),
{
    if magnitude_spec_frames.len() < 2 {
        return Ok(Vec::new());
    }
    match check_spectrogram(magnitude_spec_frames) {
        Err(e) => {
            return Err(e);
        },
        Ok(_) => {},
    }
    let n: usize = magnitude_spec_frames[0].len();
    let start: usize = if bin_start <= n {
        bin_start
    } else {
        n
    };
    let end: usize = if bin_end <= n {
        bin_end
    } else {
        n
    };
    if end <= start || end - start <= 1 {
        return Ok(Vec::new());
    }
    let energies: Vec<F32> = compute_energies(magnitude_spec_frames, start, end);
    let mut flux: Vec<F32> = compute_rises(energies.as_slice());
    normalize_in_place(&mut flux);
    Ok(flux)
}

/// The high-frequency content of `n` bins from `start` on: the energy of each
/// bin times its number, added up from the left.
pub open spec fn frequency_content(frame: Seq<F32>, start: int, n: nat) -> F32
    decreases n,
{
    if n == 0 {
        empty_sum()
    } else {
        let b = start + n - 1;
        frequency_content(frame, start, (n - 1) as nat) + F32::from_usize(b as usize) * frame[b]
            * frame[b]
    }
}

pub open spec fn contents_of(frames: Seq<Vec<F32>>, start: int, end: int) -> Seq<F32> {
    Seq::new(frames.len(), |i: int| frequency_content(frames[i]@, start, (end - start) as nat))
}

pub(crate) fn compute_frequency_content(frame: &[F32], start: usize, end: usize) -> (r: F32)
    requires
        start <= end <= frame@.len(),
    ensures
        r == frequency_content(frame@, start as int, (end - start) as nat),
{
    let mut acc = empty_sum();
    let mut b: usize = start;
    while b < end
        invariant
            start <= b <= end,
            end <= frame@.len(),
            acc == frequency_content(frame@, start as int, (b - start) as nat),
        decreases end - b,
    {
        acc = acc + F32::from_usize(b) * frame[b] * frame[b];
        b = b + 1;
    }
    acc
}

pub(crate) fn compute_contents(frames: &[Vec<F32>], start: usize, end: usize) -> (r: Vec<F32>)
    requires
        start <= end,
        forall|i: int| 0 <= i < frames@.len() ==> end <= (#[trigger] frames@[i])@.len(),
    ensures
        r@ == contents_of(frames@, start as int, end as int),
{
    let mut r: Vec<F32> = Vec::new();
    let mut i: usize = 0;
    while i < frames.len()
        invariant
            i <= frames.len(),
            start <= end,
            forall|l: int| 0 <= l < frames@.len() ==> end <= (#[trigger] frames@[l])@.len(),
            r@.len() == i,
            forall|l: int|
                0 <= l < i ==> r@[l] == contents_of(frames@, start as int, end as int)[l],
        decreases frames.len() - i,
    {
        let c = compute_frequency_content(frames[i].as_slice(), start, end);
        r.push(c);
        i = i + 1;
    }
    assert(r@ =~= contents_of(frames@, start as int, end as int));
    r
}

/// The novelty curve of the high-frequency content: how much it rises.
pub fn hfc_novelty(magnitude_spec_frames: &[Vec<F32>], sample_rate: u32) -> (r: Result<
    Vec<F32>,
    AnalysisError,
>)
    ensures
        gives(
            r,
            if magnitude_spec_frames@.len() > 0 && sample_rate == 0 {
                Outcome::Invalid("Sample rate must be > 0"@)
            } else {
                curve_or_error(
                    magnitude_spec_frames@,
                    rises(
                        contents_of(
                            magnitude_spec_frames@,
                            0,
                            magnitude_spec_frames@[0]@.len() as int,
                        ),
                    ),
                )
            },
        ),
{
    if magnitude_spec_frames.len() == 0 {
        return Ok(Vec::new());
    }
    if sample_rate == 0 {
        return Err(crate::error::invalid_input("Sample rate must be > 0"));
    }
    if magnitude_spec_frames.len() < 2 {
        return Ok(Vec::new());
    }
    match check_spectrogram(magnitude_spec_frames) {
        Err(e) => {
            return Err(e);
        },
        Ok(_) => {},
    }
    let contents: Vec<F32> = compute_contents(
        magnitude_spec_frames,
        0,
        magnitude_spec_frames[0].len(),
    );
    let mut flux: Vec<F32> = compute_rises(contents.as_slice());
    normalize_in_place(&mut flux);
    Ok(flux)
}

/// The novelty curve of the high-frequency content of a band of bins.
pub fn hfc_novelty_band(
    magnitude_spec_frames: &[Vec<F32>],
    bin_start: usize,
    bin_end: usize,
) -> (r: Result<Vec<F32>, AnalysisError>)
    ensures
        gives(
            r,
            band_curve_or_error(
                magnitude_spec_frames@,
                bin_start,
                bin_end,
                rises(
                    contents_of(
                        magnitude_spec_frames@,
                        clipped(bin_start, magnitude_spec_frames@[0]@.len()),
                        clipped(bin_end, magnitude_spec_frames@[0]@.len()),
                    ),
                ),
            ),
        ),
{
    if magnitude_spec_frames.len() < 2 {
        return Ok(Vec::new());
    }
    match check_spectrogram(magnitude_spec_frames) {
        Err(e) => {
            return Err(e);
        },
        Ok(_) => {},
    }
    let n: usize = magnitude_spec_frames[0].len();
    let start: usize = if bin_start <= n {
        bin_start
    } else {
        n
    };
    let end: usize = if bin_end <= n {
        bin_end
    } else {
        n
    };
    if end <= start || end - start <= 1 {
        return Ok(Vec::new());
    }
    let contents: Vec<F32> = compute_contents(magnitude_spec_frames, start, end);
    let mut flux: Vec<F32> = compute_rises(contents.as_slice());
    normalize_in_place(&mut flux);
    Ok(flux)
}

/// The sum of `n` values from `start` on, added up from the left.
pub open spec fn window_sum(s: Seq<F32>, start: int, n: nat) -> F32
    decreases n,
{
    if n == 0 {
        zero()
    } else {
        window_sum(s, start, (n - 1) as nat) + s[start + n - 1]
    }
}

/// The mean of a curve over a window of radius `half` around `i`.
pub open spec fn local_mean(s: Seq<F32>, half: int, i: int) -> F32 {
    let start = window_start(i, half, 0);
    let end = window_end(i, half, s.len() as int);
    window_sum(s, start, (end - start) as nat) / F32::from_usize((end - start) as usize)
}

/// A curve less its local mean; what is below counts as zero.
pub open spec fn above_local_mean(s: Seq<F32>, window: int) -> Seq<F32> {
    Seq::new(s.len(), |i: int| (s[i] - local_mean(s, window / 2, i)).max(zero()))
}

/// A curve smoothed by its local mean; one of less than three values stays.
pub open spec fn smoothed(s: Seq<F32>, window: int) -> Seq<F32> {
    if s.len() < 3 || window <= 1 {
        s
    } else {
        Seq::new(s.len(), |i: int| local_mean(s, window / 2, i))
    }
}

/// Three curves, each times its weight, added up and divided by the sum of the
/// weights, as far as all three go. A weight below zero counts as zero.
pub open spec fn weighted_curves(
    spectral: Seq<F32>,
    energy: Seq<F32>,
    hfc: Seq<F32>,
    w_spectral: F32,
    w_energy: F32,
    w_hfc: F32,
) -> Seq<F32> {
    let ws = w_spectral.max(zero());
    let we = w_energy.max(zero());
    let wh = w_hfc.max(zero());
    let total = (ws + we + wh).max(ratio(1, 10_000_000_000));
    Seq::new(
        least_len(spectral.len(), energy.len(), hfc.len()),
        |i: int| (spectral[i] * ws + energy[i] * we + hfc[i] * wh) / total,
    )
}

pub open spec fn least_len(a: nat, b: nat, c: nat) -> nat {
    if a <= b && a <= c {
        a
    } else if b <= c {
        b
    } else {
        c
    }
}

/// Three curves combined and conditioned.
pub open spec fn combined_curve(
    spectral: Seq<F32>,
    energy: Seq<F32>,
    hfc: Seq<F32>,
    w_spectral: F32,
    w_energy: F32,
    w_hfc: F32,
    local_mean_window: int,
    smooth_window: int,
) -> Seq<F32> {
    let c1 = scaled_curve(
        weighted_curves(spectral, energy, hfc, w_spectral, w_energy, w_hfc),
    );
    let c2 = if local_mean_window > 1 {
        above_local_mean(c1, local_mean_window)
    } else {
        c1
    };
    let c3 = if smooth_window > 1 {
        smoothed(c2, smooth_window)
    } else {
        c2
    };
    scaled_curve(c3)
}

fn compute_local_mean(s: &[F32], half: usize, i: usize) -> (r: F32)
    requires
        i < s@.len(),
    ensures
        r == local_mean(s@, half as int, i as int),
{
    let start: usize = if i >= half {
        i - half
    } else {
        0
    };
    let end: usize = if half < s.len() - i {
        i + half + 1
    } else {
        s.len()
    };
    let mut acc = zero();
    let mut k: usize = start;
    while k < end
        invariant
            start <= k <= end,
            end <= s@.len(),
            acc == window_sum(s@, start as int, (k - start) as nat),
        decreases end - k,
    {
        acc = acc + s[k];
        k = k + 1;
    }
    acc / F32::from_usize(end - start)
}

/// Takes the local mean off a curve; what is below counts as zero.
fn local_mean_subtract(x: &[F32], window: usize) -> (r: Vec<F32>)
    ensures
        r@ == above_local_mean(x@, window as int),
{
    let half: usize = window / 2;
    let mut r: Vec<F32> = Vec::new();
    let mut i: usize = 0;
    while i < x.len()
        invariant
            i <= x.len(),
            half == window / 2,
            r@.len() == i,
            forall|k: int| 0 <= k < i ==> r@[k] == above_local_mean(x@, window as int)[k],
        decreases x.len() - i,
    {
        let mean = compute_local_mean(x, half, i);
        r.push((x[i] - mean).max(zero()));
        i = i + 1;
    }
    assert(r@ =~= above_local_mean(x@, window as int));
    r
}

/// Smooths a curve by its local mean.
fn smooth_moving_average(x: Vec<F32>, window: usize) -> (r: Vec<F32>)
    ensures
        r@ == smoothed(x@, window as int),
{
    if x.len() < 3 || window <= 1 {
        return x;
    }
    let half: usize = window / 2;
    let mut r: Vec<F32> = Vec::new();
    let mut i: usize = 0;
    while i < x.len()
        invariant
            i <= x.len(),
            half == window / 2,
            r@.len() == i,
            forall|k: int| 0 <= k < i ==> r@[k] == local_mean(x@, half as int, k),
        decreases x.len() - i,
    {
        let mean = compute_local_mean(x.as_slice(), half, i);
        r.push(mean);
        i = i + 1;
    }
    assert(r@ =~= smoothed(x@, window as int));
    r
}

/// Combines three novelty curves with the usual weights and windows.
pub fn combined_novelty(spectral: &[F32], energy: &[F32], hfc: &[F32]) -> (r: Vec<F32>)
    ensures
        r@ == combined_curve(
            spectral@,
            energy@,
            hfc@,
            ratio(5, 10),
            ratio(3, 10),
            ratio(2, 10),
            16,
            5,
        ),
        r@.len() == least_len(spectral@.len(), energy@.len(), hfc@.len()),
{
    combined_novelty_with_params(
        spectral,
        energy,
        hfc,
        ratio(5, 10),
        ratio(3, 10),
        ratio(2, 10),
        16,
        5,
    )
}

/// Combines three novelty curves: their weighted mean, less its local mean, smoothed.
pub fn combined_novelty_with_params(
    spectral: &[F32],
    energy: &[F32],
    hfc: &[F32],
    w_spectral: F32,
    w_energy: F32,
    w_hfc: F32,
    local_mean_window: usize,
    smooth_window: usize,
) -> (r: Vec<F32>)
    ensures
        r@ == combined_curve(
            spectral@,
            energy@,
            hfc@,
            w_spectral,
            w_energy,
            w_hfc,
            local_mean_window as int,
            smooth_window as int,
        ),
        r@.len() == least_len(spectral@.len(), energy@.len(), hfc@.len()),
{
    let n: usize = if spectral.len() <= energy.len() && spectral.len() <= hfc.len() {
        spectral.len()
    } else if energy.len() <= hfc.len() {
        energy.len()
    } else {
        hfc.len()
    };
    let ws = w_spectral.max(zero());
    let we = w_energy.max(zero());
    let wh = w_hfc.max(zero());
    let total = (ws + we + wh).max(ratio(1, 10_000_000_000));
    let mut c: Vec<F32> = Vec::new();
    let mut i: usize = 0;
    while i < n
        invariant
            i <= n,
            n <= spectral@.len(),
            n <= energy@.len(),
            n <= hfc@.len(),
            c@.len() == i,
            forall|k: int|
                0 <= k < i ==> c@[k] == (spectral@[k] * ws + energy@[k] * we + hfc@[k] * wh) / total,
        decreases n - i,
    {
        c.push((spectral[i] * ws + energy[i] * we + hfc[i] * wh) / total);
        i = i + 1;
    }
    assert(c@ =~= weighted_curves(spectral@, energy@, hfc@, w_spectral, w_energy, w_hfc));
    normalize_in_place(&mut c);
    if local_mean_window > 1 {
        c = local_mean_subtract(c.as_slice(), local_mean_window);
    }
    if smooth_window > 1 {
        c = smooth_moving_average(c, smooth_window);
    }
    normalize_in_place(&mut c);
    c
}

/// What the decimal logarithm is taken of for a frequency on the mel scale.
#[verifier::allow_in_spec]
pub fn mel_argument(hz: F32) -> F32
    returns
        one() + hz / ratio(700, 1),
{
    one() + hz / ratio(700, 1)
}

/// The place of a frequency on the mel scale, given that logarithm.
#[verifier::allow_in_spec]
pub fn mel_place(log10: F32) -> F32
    returns
        ratio(2595, 1) * log10,
{
    ratio(2595, 1) * log10
}

/// What ten is raised to for the frequency at a place on the mel scale.
#[verifier::allow_in_spec]
pub fn mel_exponent(mel: F32) -> F32
    returns
        mel / ratio(2595, 1),
{
    mel / ratio(2595, 1)
}

/// The frequency at a place on the mel scale, given that power.
#[verifier::allow_in_spec]
pub fn mel_frequency(power: F32) -> F32
    returns
        ratio(700, 1) * (power - one()),
{
    ratio(700, 1) * (power - one())
}

/// The range of frequencies that mel bands cover, kept below the Nyquist frequency.
pub open spec fn mel_range_of(sample_rate: u32, fmin_hz: F32, fmax_hz: F32) -> (F32, F32) {
    let nyquist = F32::from_u32(sample_rate) * ratio(5, 10);
    let fmin = fmin_hz.max(zero()).min(nyquist.max(one()));
    let fmax = if fmax_hz.is_finite() && fmax_hz > zero() {
        fmax_hz
    } else {
        nyquist
    };
    (fmin, fmax.clamp(fmin + one(), nyquist))
}

/// The range of frequencies that mel bands cover.
pub fn mel_range(sample_rate: u32, fmin_hz: F32, fmax_hz: F32) -> (r: (F32, F32))
    ensures
        r == mel_range_of(sample_rate, fmin_hz, fmax_hz),
{
    let nyquist = F32::from_u32(sample_rate) * ratio(5, 10);
    let fmin = fmin_hz.max(zero()).min(nyquist.max(one()));
    let fmax = if fmax_hz.is_finite() && fmax_hz > zero() {
        fmax_hz
    } else {
        nyquist
    };
    (fmin, fmax.clamp(fmin + one(), nyquist))
}

/// The number of mel bands: at least four.
#[verifier::allow_in_spec]
pub fn mel_band_count(n_mels: usize) -> usize
    returns
        (if n_mels >= 4 {
            n_mels
        } else {
            4
        }),
{
    if n_mels >= 4 {
        n_mels
    } else {
        4
    }
}

/// The corners of `n` mel bands, evenly spaced on the mel scale: two more than bands.
pub fn mel_points(mel_min: F32, mel_max: F32, n: usize) -> (r: Vec<F32>)
    requires
        n <= usize::MAX - 2,
    ensures
        r@.len() == n + 2,
        forall|i: int|
            0 <= i < n + 2 ==> r@[i] == mel_min + (mel_max - mel_min) / F32::from_usize(
                (n + 1) as usize,
            ) * F32::from_usize(i as usize),
{
    let step = (mel_max - mel_min) / F32::from_usize(n + 1);
    let mut r: Vec<F32> = Vec::new();
    let mut i: usize = 0;
    while i < n + 2
        invariant
            i <= n + 2,
            n <= usize::MAX - 2,
            r@.len() == i,
            forall|k: int| 0 <= k < i ==> r@[k] == mel_min + step * F32::from_usize(k as usize),
        decreases n + 2 - i,
    {
        r.push(mel_min + step * F32::from_usize(i));
        i = i + 1;
    }
    r
}

} // verus!
