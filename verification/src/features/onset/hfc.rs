//! Onsets where the high-frequency content rises.
use super::flux_peaks::check_percentile;
use super::spectral_flux::find_percentile_onsets;
use super::spectral_flux::onsets_or_error;
use crate::error::gives;
use crate::error::invalid_input;
use crate::error::AnalysisError;
use crate::error::Outcome;
use crate::features::period::novelty::check_spectrogram;
use crate::features::period::novelty::compute_contents;
use crate::features::period::novelty::compute_rises;
use crate::features::period::novelty::contents_of;
use crate::features::period::novelty::rises;
use crate::float::F32;
use crate::features::period::novelty::first_other_len;
use crate::features::period::novelty::frequency_content;
use crate::features::period::novelty::lemma_spectrogram_is_even;
use crate::features::period::novelty::spectrogram_error;
use crate::float_laws::lemma_from_none;
use crate::float_laws::lemma_no_times_a_square;
use vstd::prelude::*;

verus! {

/// Detects onsets where the high-frequency content rises by more than a percentile
/// of all rises. The onsets are frames, in order.
pub fn detect_hfc_onsets(fft_magnitudes: &[Vec<F32>], sample_rate: u32, threshold_percentile: F32) -> (r: Result<
    Vec<usize>,
    AnalysisError,
>)
    ensures
        gives(
            r,
            if fft_magnitudes@.len() > 0 && sample_rate == 0 {
                Outcome::Invalid("Sample rate must be > 0"@)
            } else {
                onsets_or_error(
                    fft_magnitudes@,
                    threshold_percentile,
                    rises(contents_of(fft_magnitudes@, 0, fft_magnitudes@[0]@.len() as int)),
                )
            },
        ),
{
    if fft_magnitudes.len() == 0 {
        return Ok(Vec::new());
    }
    if sample_rate == 0 {
        return Err(invalid_input("Sample rate must be > 0"));
    }
    match check_percentile(threshold_percentile) {
        Err(e) => {
            return Err(e);
        },
        Ok(_) => {},
    }
    match check_spectrogram(fft_magnitudes) {
        Err(e) => {
            return Err(e);
        },
        Ok(_) => {},
    }
    if fft_magnitudes.len() < 2 {
        return Ok(Vec::new());
    }
    let contents: Vec<F32> = compute_contents(fft_magnitudes, 0, fft_magnitudes[0].len());
    let flux: Vec<F32> = compute_rises(contents.as_slice());
    Ok(find_percentile_onsets(flux.as_slice(), threshold_percentile))
}

/// The lowest bin counts nothing, as its number is zero.
proof fn lemma_content_without_lowest_bin(a: Seq<F32>, b: Seq<F32>, n: nat)
    requires
        n <= a.len(),
        a.len() == b.len(),
        n > 0 ==> a[0].is_finite() && b[0].is_finite(),
        forall|k: int| 1 <= k < a.len() ==> #[trigger] a[k] == b[k],
    ensures
        frequency_content(a, 0, n) == frequency_content(b, 0, n),
    decreases n,
{
    if n == 1 {
        lemma_from_none();
        lemma_no_times_a_square(a[0]);
        lemma_no_times_a_square(b[0]);
        assert(frequency_content(a, 0, 0) == frequency_content(b, 0, 0));
    } else if n > 1 {
        lemma_content_without_lowest_bin(a, b, (n - 1) as nat);
        assert(a[n - 1] == b[n - 1]);
    }
}

/// Spectrograms that differ in the lowest bin only have the same onsets.
pub proof fn lemma_lowest_bin_counts_nothing(a: Seq<Vec<F32>>, b: Seq<Vec<F32>>, percentile: F32)
    requires
        a.len() == b.len(),
        forall|i: int| 0 <= i < a.len() ==> (#[trigger] a[i])@.len() == b[i]@.len(),
        forall|i: int|
            0 <= i < a.len() && (#[trigger] a[i])@.len() > 0 ==> a[i]@[0].is_finite()
                && b[i]@[0].is_finite(),
        forall|i: int, k: int|
            0 <= i < a.len() && 1 <= k < a[i]@.len() ==> #[trigger] a[i]@[k] == b[i]@[k],
    ensures
        onsets_or_error(a, percentile, rises(contents_of(a, 0, a[0]@.len() as int)))
            == onsets_or_error(b, percentile, rises(contents_of(b, 0, b[0]@.len() as int))),
{
    if a.len() > 0 {
        let n = a[0]@.len();
        assert(a[0]@.len() == b[0]@.len());
        lemma_same_shape(a, b, n, 0);
        assert(spectrogram_error(a) == spectrogram_error(b));
        if spectrogram_error(a) is None {
            lemma_spectrogram_is_even(a);
            assert forall|i: int| 0 <= i < a.len() implies #[trigger] contents_of(a, 0, n as int)[i]
                == contents_of(b, 0, n as int)[i] by {
                assert(a[i]@.len() == n);
                lemma_content_without_lowest_bin(a[i]@, b[i]@, n);
            }
            assert(contents_of(a, 0, n as int) =~= contents_of(b, 0, n as int));
        }
    }
}

proof fn lemma_same_shape(a: Seq<Vec<F32>>, b: Seq<Vec<F32>>, n: nat, i: int)
    requires
        a.len() == b.len(),
        0 <= i <= a.len(),
        forall|k: int| 0 <= k < a.len() ==> (#[trigger] a[k])@.len() == b[k]@.len(),
    ensures
        first_other_len(a, n, i) == first_other_len(b, n, i),
        i <= first_other_len(a, n, i) <= a.len(),
        first_other_len(a, n, i) < a.len() ==> a[first_other_len(a, n, i)]@.len()
            == b[first_other_len(a, n, i)]@.len(),
    decreases a.len() - i,
{
    if i < a.len() {
        assert(a[i]@.len() == b[i]@.len());
        if a[i]@.len() == n {
            lemma_same_shape(a, b, n, i + 1);
        }
    }
}

} // verus!
