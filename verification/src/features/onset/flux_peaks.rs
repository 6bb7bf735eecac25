//! Onsets as peaks of a flux curve.
use crate::error::AnalysisError;
use crate::float::one;
use crate::float::zero;
use crate::float::F32;
use crate::number_text::shortest;
use crate::number_text::shortest_of;
use vstd::prelude::*;
use vstd::string::StringExecFns;

verus! {

/// The flux at `i` is above the threshold and a local peak; a plateau counts at its
/// start. A curve of one value has no peak.
pub open spec fn is_flux_peak(flux: Seq<F32>, threshold: F32, i: int) -> bool {
    &&& flux.len() > 1
    &&& flux[i] > threshold
    &&& i > 0 ==> flux[i] > flux[i - 1]
    &&& i < flux.len() - 1 ==> flux[i] >= flux[i + 1]
}

/// The frames behind those of the first `n` flux values that are peaks.
pub open spec fn onset_frames(flux: Seq<F32>, threshold: F32, n: nat) -> Seq<usize>
    decreases n,
{
    if n == 0 {
        Seq::empty()
    } else if is_flux_peak(flux, threshold, n - 1) {
        onset_frames(flux, threshold, (n - 1) as nat).push(n as usize)
    } else {
        onset_frames(flux, threshold, (n - 1) as nat)
    }
}

/// Finds the frames behind the peaks of a flux curve.
pub fn find_onset_frames(flux: &[F32], threshold: F32) -> (r: Vec<usize>)
    ensures
        r@ == onset_frames(flux@, threshold, flux@.len()),
{
    let mut r: Vec<usize> = Vec::new();
    let n: usize = flux.len();
    let mut i: usize = 0;
    while i < n
        invariant
            i <= n,
            n == flux@.len(),
            r@ == onset_frames(flux@, threshold, i as nat),
        decreases n - i,
    {
        let peak: bool = n > 1 && flux[i] > threshold && (i == 0 || flux[i] > flux[i - 1]) && (i == n
            - 1 || flux[i] >= flux[i + 1]);
        i = i + 1;
        if peak {
            r.push(i);
        }
    }
    r
}

/// Onset frames are in increasing order, none twice, and each is one of the frames
/// behind a flux value.
pub proof fn lemma_onset_frames_increase(flux: Seq<F32>, threshold: F32, n: nat)
    requires
        n <= flux.len() <= usize::MAX,
    ensures
        forall|i: int, j: int|
            0 <= i < j < onset_frames(flux, threshold, n).len() ==> onset_frames(flux, threshold, n)[i]
                < onset_frames(flux, threshold, n)[j],
        forall|i: int|
            0 <= i < onset_frames(flux, threshold, n).len() ==> 1 <= #[trigger] onset_frames(
                flux,
                threshold,
                n,
            )[i] <= n,
    decreases n,
{
    if n > 0 {
        lemma_onset_frames_increase(flux, threshold, (n - 1) as nat);
        let before = onset_frames(flux, threshold, (n - 1) as nat);
        let all = onset_frames(flux, threshold, n);
        assert forall|i: int| 0 <= i < all.len() implies 1 <= #[trigger] all[i] <= n by {
            if i < before.len() {
                assert(all[i] == before[i]);
            }
        }
        assert forall|i: int, j: int| 0 <= i < j < all.len() implies all[i] < all[j] by {
            assert(all[i] == before[i]);
            if j < before.len() {
                assert(all[j] == before[j]);
            }
        }
    }
}

/// Every onset frame is a peak of the flux, and every peak is an onset frame.
pub proof fn lemma_onset_frames_are_the_peaks(flux: Seq<F32>, threshold: F32, n: nat, x: usize)
    requires
        n <= flux.len() <= usize::MAX,
    ensures
        onset_frames(flux, threshold, n).contains(x) <==> 1 <= x <= n && is_flux_peak(
            flux,
            threshold,
            x - 1,
        ),
    decreases n,
{
    if n > 0 {
        lemma_onset_frames_are_the_peaks(flux, threshold, (n - 1) as nat, x);
        let before = onset_frames(flux, threshold, (n - 1) as nat);
        if is_flux_peak(flux, threshold, n - 1) {
            let all = before.push(n as usize);
            if before.contains(x) {
                let k = choose|k: int| 0 <= k < before.len() && before[k] == x;
                assert(all[k] == x);
            }
            assert(all[before.len() as int] == n as usize);
        }
    }
}

/// A percentile is within its range.
#[verifier::allow_in_spec]
pub fn is_percentile(p: F32) -> bool
    returns
        zero() <= p && p <= one(),
{
    zero() <= p && p <= one()
}

pub open spec fn bad_percentile_text(p: F32) -> Seq<char> {
    "Threshold percentile must be in [0, 1], got "@ + shortest_of(p)
}

/// Checks the percentile of a threshold.
pub fn check_percentile(p: F32) -> (r: Result<(), AnalysisError>)
    ensures
        if is_percentile(p) {
            r is Ok
        } else {
            crate::error::is_invalid_input(r, bad_percentile_text(p))
        },
{
    if !is_percentile(p) {
        return Err(
            AnalysisError::InvalidInput(
                "Threshold percentile must be in [0, 1], got ".to_owned().concat(
                    shortest(p).as_str(),
                ),
            ),
        );
    }
    Ok(())
}

/// Every onset frame at a threshold is one at any lower threshold too.
pub proof fn lemma_lower_threshold_adds_frames(flux: Seq<F32>, low: F32, high: F32, n: nat)
    requires
        n <= flux.len() <= usize::MAX,
        forall|i: int| 0 <= i < flux.len() && #[trigger] flux[i] > high ==> flux[i] > low,
    ensures
        onset_frames(flux, high, n).len() <= onset_frames(flux, low, n).len(),
        forall|x: usize|
            #[trigger] onset_frames(flux, high, n).contains(x) ==> onset_frames(
                flux,
                low,
                n,
            ).contains(x),
    decreases n,
{
    if n > 0 {
        lemma_lower_threshold_adds_frames(flux, low, high, (n - 1) as nat);
    }
    assert forall|x: usize| #[trigger] onset_frames(flux, high, n).contains(x) implies onset_frames(
        flux,
        low,
        n,
    ).contains(x) by {
        lemma_onset_frames_are_the_peaks(flux, high, n, x);
        lemma_onset_frames_are_the_peaks(flux, low, n, x);
    }
}

} // verus!
