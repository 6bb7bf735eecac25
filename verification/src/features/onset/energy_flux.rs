//! Onsets where the energy of the samples rises.
use super::flux_peaks::find_onset_frames;
use super::flux_peaks::onset_frames;
use crate::error::gives;
use crate::error::invalid_input;
use crate::error::AnalysisError;
use crate::error::Outcome;
use crate::features::period::novelty::compute_rises;
use crate::features::period::novelty::rises;
use crate::features::period::peak_picking::find_height;
use crate::features::period::peak_picking::peak_height;
use crate::float::ratio;
use crate::float::F32;
use crate::vector::dot_product;
use crate::vector::energy;
use crate::float::zero;
use crate::float_laws::lemma_nothing_above_infinity;
use crate::float_laws::lemma_product_keeps_order;
use crate::float_laws::lemma_ratio_order;
use crate::float_laws::lemma_zero_and_one;
use vstd::prelude::*;
use vstd::slice::slice_subrange;

verus! {

/// The number of whole frames.
pub open spec fn frame_count(len: int, frame_size: int, hop_size: int) -> int {
    (len - frame_size) / hop_size + 1
}

/// The root mean square of frame `i`.
pub open spec fn frame_rms(samples: Seq<F32>, frame_size: int, hop_size: int, i: int) -> F32 {
    (energy(samples.subrange(i * hop_size, i * hop_size + frame_size)) / F32::from_usize(
        frame_size as usize,
    )).sqrt()
}

/// The root mean square of all whole frames.
pub open spec fn rms_curve(samples: Seq<F32>, frame_size: int, hop_size: int) -> Seq<F32> {
    Seq::new(
        frame_count(samples.len() as int, frame_size, hop_size) as nat,
        |i: int| frame_rms(samples, frame_size, hop_size, i),
    )
}

/// Frames as the samples that they start with.
pub open spec fn frame_starts(frames: Seq<usize>, hop_size: int) -> Seq<usize> {
    Seq::new(frames.len(), |k: int| (frames[k] * hop_size) as usize)
}

/// The onsets of samples, as samples.
pub open spec fn energy_onsets(
    samples: Seq<F32>,
    frame_size: int,
    hop_size: int,
    threshold_ratio: F32,
) -> Seq<usize> {
    let flux = rises(rms_curve(samples, frame_size, hop_size));
    let max = peak_height(flux, flux.len());
    if frame_count(samples.len() as int, frame_size, hop_size) < 2 || max <= ratio(
        1,
        10_000_000_000,
    ) {
        Seq::empty()
    } else {
        frame_starts(onset_frames(flux, max * threshold_ratio, flux.len()), hop_size)
    }
}

proof fn lemma_frame_fits(len: int, frame_size: int, hop_size: int, i: int)
    requires
        0 < frame_size <= len,
        hop_size > 0,
        0 <= i < frame_count(len, frame_size, hop_size),
    ensures
        0 <= i * hop_size,
        i * hop_size + frame_size <= len,
{
    let q = (len - frame_size) / hop_size;
    assert(0 <= i * hop_size <= q * hop_size) by (nonlinear_arith)
        requires
            0 <= i <= q,
            hop_size > 0,
    ;
    assert(q * hop_size <= len - frame_size) by (nonlinear_arith)
        requires
            q == (len - frame_size) / hop_size,
            hop_size > 0,
    ;
}

fn compute_rms(samples: &[F32], frame_size: usize, hop_size: usize) -> (r: Vec<F32>)
    requires
        0 < frame_size <= samples@.len(),
        hop_size > 0,
    ensures
        r@ == rms_curve(samples@, frame_size as int, hop_size as int),
{
    let len: usize = samples.len();
    let rest: usize = len - frame_size;
    let last: usize = rest / hop_size;
    let mut r: Vec<F32> = Vec::new();
    let mut i: usize = 0;
    let mut more: bool = true;
    while more
        invariant
            0 < frame_size <= samples@.len(),
            hop_size > 0,
            len == samples@.len(),
            rest == samples@.len() - frame_size,
            last == rest as int / hop_size as int,
            more ==> i <= last,
            r@.len() == if more {
                i as int
            } else {
                last + 1
            },
            forall|k: int|
                0 <= k < r@.len() ==> r@[k] == frame_rms(
                    samples@,
                    frame_size as int,
                    hop_size as int,
                    k,
                ),
        decreases
            (if more {
                last - i + 1
            } else {
                0
            }),
    {
        proof {
            lemma_frame_fits(samples@.len() as int, frame_size as int, hop_size as int, i as int);
        }
        let start: usize = i * hop_size;
        let frame = slice_subrange(samples, start, start + frame_size);
        r.push((dot_product(frame, frame) / F32::from_usize(frame_size)).sqrt());
        more = i < last;
        if more {
            i = i + 1;
        }
    }
    assert(r@ =~= rms_curve(samples@, frame_size as int, hop_size as int));
    r
}

/// The exponent of the power of ten that a level in dB is: a ratio of amplitudes.
#[verifier::allow_in_spec]
pub fn level_exponent(level_db: F32) -> F32
    returns
        level_db / ratio(20, 1),
{
    level_db / ratio(20, 1)
}

/// Detects onsets where the energy rises by more than a part of the greatest rise.
/// `threshold_ratio` is that part; the onsets are samples, in order.
pub fn detect_energy_flux_onsets(
    samples: &[F32],
    frame_size: usize,
    hop_size: usize,
    threshold_ratio: F32,
) -> (r: Result<Vec<usize>, AnalysisError>)
    ensures
        gives(
            r,
            if samples@.len() == 0 {
                Outcome::Value(Seq::empty())
            } else if frame_size == 0 {
                Outcome::Invalid("Frame size must be > 0"@)
            } else if hop_size == 0 {
                Outcome::Invalid("Hop size must be > 0"@)
            } else if frame_size > samples@.len() {
                Outcome::Value(Seq::empty())
            } else {
                Outcome::Value(
                    energy_onsets(samples@, frame_size as int, hop_size as int, threshold_ratio),
                )
            },
        ),
{
    if samples.len() == 0 {
        return Ok(Vec::new());
    }
    if frame_size == 0 {
        return Err(invalid_input("Frame size must be > 0"));
    }
    if hop_size == 0 {
        return Err(invalid_input("Hop size must be > 0"));
    }
    if frame_size > samples.len() {
        return Ok(Vec::new());
    }
    if (samples.len() - frame_size) / hop_size == 0 {
        return Ok(Vec::new());
    }
    let rms: Vec<F32> = compute_rms(samples, frame_size, hop_size);
    let flux: Vec<F32> = compute_rises(rms.as_slice());
    let max = find_height(flux.as_slice());
    if max <= ratio(1, 10_000_000_000) {
        return Ok(Vec::new());
    }
    let threshold = max * threshold_ratio;
    let frames: Vec<usize> = find_onset_frames(flux.as_slice(), threshold);
    proof {
        super::flux_peaks::lemma_onset_frames_increase(flux@, threshold, flux@.len());
    }
    let len: usize = samples.len();
    let mut r: Vec<usize> = Vec::new();
    let mut k: usize = 0;
    while k < frames.len()
        invariant
            k <= frames.len(),
            len == samples@.len(),
            0 < frame_size <= samples@.len(),
            hop_size > 0,
            flux@.len() == frame_count(samples@.len() as int, frame_size as int, hop_size as int)
                - 1,
            forall|i: int| 0 <= i < frames@.len() ==> 1 <= #[trigger] frames@[i] <= flux@.len(),
            r@.len() == k,
            forall|i: int| 0 <= i < k ==> r@[i] == frames@[i] * hop_size,
        decreases frames.len() - k,
    {
        let frame: usize = frames[k];
        proof {
            lemma_frame_fits(
                samples@.len() as int,
                frame_size as int,
                hop_size as int,
                frame as int,
            );
        }
        r.push(frame * hop_size);
        k = k + 1;
    }
    assert(r@ =~= frame_starts(frames@, hop_size as int));
    Ok(r)
}

/// Onsets are in order, at least a hop apart, and within the samples.
pub proof fn lemma_energy_onsets_are_apart(
    samples: Seq<F32>,
    frame_size: int,
    hop_size: int,
    threshold_ratio: F32,
)
    requires
        0 < frame_size <= samples.len() <= usize::MAX,
        0 < hop_size,
    ensures
        forall|i: int, j: int|
            0 <= i < j < energy_onsets(samples, frame_size, hop_size, threshold_ratio).len()
                ==> energy_onsets(samples, frame_size, hop_size, threshold_ratio)[i] + hop_size
                <= energy_onsets(samples, frame_size, hop_size, threshold_ratio)[j],
        forall|i: int|
            0 <= i < energy_onsets(samples, frame_size, hop_size, threshold_ratio).len()
                ==> hop_size <= #[trigger] energy_onsets(
                samples,
                frame_size,
                hop_size,
                threshold_ratio,
            )[i] < samples.len(),
{
    let flux = rises(rms_curve(samples, frame_size, hop_size));
    let max = peak_height(flux, flux.len());
    let count = frame_count(samples.len() as int, frame_size, hop_size);
    let r = energy_onsets(samples, frame_size, hop_size, threshold_ratio);
    if r.len() > 0 {
        let frames = onset_frames(flux, max * threshold_ratio, flux.len());
        assert(r == frame_starts(frames, hop_size));
        assert(flux.len() == count - 1);
        assert(count - 1 <= samples.len()) by {
            lemma_frame_fits(samples.len() as int, frame_size, hop_size, count - 1);
            assert(count - 1 <= (count - 1) * hop_size) by (nonlinear_arith)
                requires
                    count >= 1,
                    hop_size >= 1,
            ;
        }
        super::flux_peaks::lemma_onset_frames_increase(flux, max * threshold_ratio, flux.len());
        assert forall|i: int| 0 <= i < r.len() implies r[i] == frames[i] * hop_size && hop_size
            <= #[trigger] r[i] < samples.len() by {
            let f = frames[i] as int;
            lemma_frame_fits(samples.len() as int, frame_size, hop_size, f);
            assert(hop_size <= f * hop_size) by (nonlinear_arith)
                requires
                    f >= 1,
                    hop_size >= 1,
            ;
        }
        assert forall|i: int, j: int| 0 <= i < j < r.len() implies r[i] + hop_size <= r[j] by {
            let f = frames[i] as int;
            let g = frames[j] as int;
            assert(f * hop_size + hop_size <= g * hop_size) by (nonlinear_arith)
                requires
                    f + 1 <= g,
                    hop_size >= 1,
            ;
        }
    }
}

/// Every onset at a threshold is one at any lower threshold too: lowering it only
/// adds onsets.
pub proof fn lemma_lower_threshold_adds_onsets(
    samples: Seq<F32>,
    frame_size: int,
    hop_size: int,
    low: F32,
    high: F32,
)
    requires
        0 < frame_size <= samples.len() <= usize::MAX,
        0 < hop_size,
        zero() <= low,
        low <= high,
    ensures
        energy_onsets(samples, frame_size, hop_size, high).len() <= energy_onsets(
            samples,
            frame_size,
            hop_size,
            low,
        ).len(),
        forall|x: usize|
            #[trigger] energy_onsets(samples, frame_size, hop_size, high).contains(x)
                ==> energy_onsets(samples, frame_size, hop_size, low).contains(x),
{
    let flux = rises(rms_curve(samples, frame_size, hop_size));
    let max = peak_height(flux, flux.len());
    let count = frame_count(samples.len() as int, frame_size, hop_size);
    if count >= 2 && !(max <= ratio(1, 10_000_000_000)) {
        assert(count - 1 <= samples.len()) by {
            lemma_frame_fits(samples.len() as int, frame_size, hop_size, count - 1);
            assert(count - 1 <= (count - 1) * hop_size) by (nonlinear_arith)
                requires
                    count >= 1,
                    hop_size >= 1,
            ;
        }
        assert forall|i: int| 0 <= i < flux.len() && #[trigger] flux[i] > max * high implies flux[i]
            > max * low by {
            lemma_above_the_lower(flux[i], max, low, high);
        }
        super::flux_peaks::lemma_lower_threshold_adds_frames(
            flux,
            max * low,
            max * high,
            flux.len(),
        );
        let few = onset_frames(flux, max * high, flux.len());
        let many = onset_frames(flux, max * low, flux.len());
        let r = frame_starts(few, hop_size);
        let all = frame_starts(many, hop_size);
        assert forall|x: usize| #[trigger] r.contains(x) implies all.contains(x) by {
            let i = choose|i: int| 0 <= i < r.len() && r[i] == x;
            assert(few.contains(few[i]));
            let j = choose|j: int| 0 <= j < many.len() && many[j] == few[i];
            assert(all[j] == x);
        }
    }
}

/// What is above a part of the greatest rise is above any lesser part.
proof fn lemma_above_the_lower(x: F32, max: F32, low: F32, high: F32)
    requires
        !(max <= ratio(1, 10_000_000_000)),
        zero() <= low,
        low <= high,
        x > max * high,
    ensures
        x > max * low,
{
    lemma_zero_and_one();
    lemma_ratio_order(0, 1, 1, 10_000_000_000);
    if max.is_nan() {
        reveal(F32::spec_mul);
    } else if !max.is_finite() || !high.is_finite() {
        lemma_nothing_above_infinity(x, max, high);
    } else {
        lemma_product_keeps_order(max, low, high);
    }
}

} // verus!
