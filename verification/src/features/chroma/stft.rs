//! Short-time Fourier transform: the frames that are transformed, and the
//! magnitudes of what comes out.
use crate::features::onset::energy_flux::frame_count;
use crate::float::F32;
use crate::spectrogram::rows;
use super::tuning::pi;
use crate::float::one;
use crate::float::ratio;
use vstd::prelude::*;

verus! {

/// Frame `i` of samples, times a window.
pub open spec fn windowed_frame(samples: Seq<F32>, window: Seq<F32>, hop_size: int, i: int) -> Seq<F32> {
    Seq::new(window.len(), |k: int| samples[i * hop_size + k] * window[k])
}

/// The number of spectra of samples: one for each whole frame.
pub open spec fn spectrum_count(samples: int, frame_size: int, hop_size: int) -> int {
    if samples < frame_size {
        0
    } else {
        frame_count(samples, frame_size, hop_size)
    }
}

/// All whole frames of samples, times a window.
pub open spec fn windowed_frames(samples: Seq<F32>, window: Seq<F32>, hop_size: int) -> Seq<Seq<F32>> {
    Seq::new(
        spectrum_count(samples.len() as int, window.len() as int, hop_size) as nat,
        |i: int| windowed_frame(samples, window, hop_size, i),
    )
}

fn cut_frame(samples: &[F32], window: &[F32], start: usize) -> (r: Vec<F32>)
    requires
        start + window@.len() <= samples@.len(),
    ensures
        r@ == Seq::new(window@.len(), |k: int| samples@[start + k] * window@[k]),
{
    let mut r: Vec<F32> = Vec::new();
    let len: usize = samples.len();
    let mut k: usize = 0;
    while k < window.len()
        invariant
            k <= window.len(),
            len == samples@.len(),
            start + window@.len() <= samples@.len(),
            r@.len() == k,
            forall|j: int| 0 <= j < k ==> r@[j] == samples@[start + j] * window@[j],
        decreases window.len() - k,
    {
        r.push(samples[start + k] * window[k]);
        k = k + 1;
    }
    assert(r@ =~= Seq::new(window@.len(), |k: int| samples@[start + k] * window@[k]));
    r
}

/// Cuts samples into frames as long as the window, one every `hop_size` samples,
/// and multiplies each by the window: what is transformed.
pub fn stft_frames(samples: &[F32], window: &[F32], hop_size: usize) -> (r: Vec<Vec<F32>>)
    requires
        hop_size > 0,
    ensures
        rows(r@) == windowed_frames(samples@, window@, hop_size as int),
{
    let mut r: Vec<Vec<F32>> = Vec::new();
    let len: usize = samples.len();
    let size: usize = window.len();
    if len < size {
        assert(rows(r@) =~= windowed_frames(samples@, window@, hop_size as int));
        return r;
    }
    let last: usize = (len - size) / hop_size;
    let ghost want: Seq<Seq<F32>> = windowed_frames(samples@, window@, hop_size as int);
    let mut start: usize = 0;
    let mut i: usize = 0;
    let mut more: bool = true;
    while more
        invariant
            len == samples@.len(),
            size == window@.len(),
            size <= len,
            hop_size > 0,
            last == (len - size) as int / hop_size as int,
            want == windowed_frames(samples@, window@, hop_size as int),
            more ==> i <= last && start == i * hop_size,
            r@.len() == if more {
                i as int
            } else {
                last + 1
            },
            forall|k: int| 0 <= k < r@.len() ==> (#[trigger] r@[k])@ == want[k],
        decreases
            (if more {
                last - i + 1
            } else {
                0
            }),
    {
        proof {
            assert(i * hop_size <= last * hop_size) by (nonlinear_arith)
                requires
                    0 <= i <= last,
                    hop_size > 0,
            ;
            assert(last * hop_size <= len - size) by (nonlinear_arith)
                requires
                    last == (len - size) as int / hop_size as int,
                    hop_size > 0,
            ;
        }
        let row: Vec<F32> = cut_frame(samples, window, start);
        assert(row@ =~= want[i as int]);
        r.push(row);
        more = i < last;
        if more {
            proof {
                assert((i + 1) * hop_size == i * hop_size + hop_size) by (nonlinear_arith);
                assert((i + 1) * hop_size <= last * hop_size) by (nonlinear_arith)
                    requires
                        0 <= i + 1 <= last,
                        hop_size > 0,
                ;
            }
            start = start + hop_size;
            i = i + 1;
        }
    }
    assert(rows(r@) =~= want);
    r
}

/// A transform as its real and its imaginary parts.
#[derive(Debug, Clone)]
pub struct Spectrum {
    /// Real parts
    pub re: Vec<F32>,
    /// Imaginary parts
    pub im: Vec<F32>,
}

/// The length of a complex number.
#[verifier::allow_in_spec]
pub fn magnitude(re: F32, im: F32) -> F32
    returns
        (re * re + im * im).sqrt(),
{
    (re * re + im * im).sqrt()
}

/// The magnitudes of the first bins of a transform.
pub open spec fn magnitudes_of(s: Spectrum, n_bins: nat) -> Seq<F32> {
    Seq::new(n_bins, |b: int| magnitude(s.re@[b], s.im@[b]))
}

/// A transform has at least `n` bins.
pub open spec fn has_bins(s: Spectrum, n: nat) -> bool {
    s.re@.len() >= n && s.im@.len() >= n
}

fn find_magnitudes(s: &Spectrum, n_bins: usize) -> (r: Vec<F32>)
    requires
        has_bins(*s, n_bins as nat),
    ensures
        r@ == magnitudes_of(*s, n_bins as nat),
{
    let mut r: Vec<F32> = Vec::new();
    let mut b: usize = 0;
    while b < n_bins
        invariant
            b <= n_bins,
            has_bins(*s, n_bins as nat),
            r@.len() == b,
            forall|k: int| 0 <= k < b ==> r@[k] == magnitude(s.re@[k], s.im@[k]),
        decreases n_bins - b,
    {
        r.push(magnitude(s.re[b], s.im[b]));
        b = b + 1;
    }
    assert(r@ =~= magnitudes_of(*s, n_bins as nat));
    r
}

/// The magnitude spectrogram of transformed frames: for each, the bins up to the
/// highest frequency that the transform can tell.
pub fn compute_stft(transforms: &[Spectrum], frame_size: usize) -> (r: Vec<Vec<F32>>)
    requires
        frame_size > 0,
        forall|i: int|
            0 <= i < transforms@.len() ==> has_bins(
                #[trigger] transforms@[i],
                (frame_size as nat / 2 + 1) as nat,
            ),
    ensures
        rows(r@) == Seq::new(
            transforms@.len(),
            |i: int| magnitudes_of(transforms@[i], (frame_size as nat / 2 + 1) as nat),
        ),
{
    let n_bins: usize = frame_size / 2 + 1;
    let mut r: Vec<Vec<F32>> = Vec::new();
    let mut i: usize = 0;
    while i < transforms.len()
        invariant
            i <= transforms.len(),
            n_bins == frame_size / 2 + 1,
            forall|i: int|
                0 <= i < transforms@.len() ==> has_bins(#[trigger] transforms@[i], n_bins as nat),
            r@.len() == i,
            forall|k: int|
                0 <= k < i ==> (#[trigger] r@[k])@ == magnitudes_of(transforms@[k], n_bins as nat),
        decreases transforms.len() - i,
    {
        let row: Vec<F32> = find_magnitudes(&transforms[i], n_bins);
        r.push(row);
        i = i + 1;
    }
    assert(rows(r@) =~= Seq::new(
        transforms@.len(),
        |i: int| magnitudes_of(transforms@[i], (frame_size as nat / 2 + 1) as nat),
    ));
    r
}

/// The angle of place `i` of a window of `n`, in radians: a full turn over the window.
#[verifier::allow_in_spec]
pub fn window_angle(i: usize, n: usize) -> F32
    requires
        n > 0,
    returns
        ratio(2, 1) * pi() * F32::from_usize(i) / F32::from_usize((n - 1) as usize),
{
    ratio(2, 1) * pi() * F32::from_usize(i) / F32::from_usize(n - 1)
}

/// The angles of a window: what the cosines are taken of.
pub fn window_angles(n: usize) -> (r: Vec<F32>)
    ensures
        r@ == Seq::new(n as nat, |i: int| window_angle(i as usize, n)),
{
    let mut r: Vec<F32> = Vec::new();
    let mut i: usize = 0;
    while i < n
        invariant
            i <= n,
            r@.len() == i,
            forall|k: int| 0 <= k < i ==> r@[k] == window_angle(k as usize, n),
        decreases n - i,
    {
        r.push(window_angle(i, n));
        i = i + 1;
    }
    assert(r@ =~= Seq::new(n as nat, |i: int| window_angle(i as usize, n)));
    r
}

/// The Hann window with these cosines.
pub fn hann_window(cosines: &[F32]) -> (r: Vec<F32>)
    ensures
        r@ == Seq::new(cosines@.len(), |i: int| ratio(5, 10) * (one() - cosines@[i])),
{
    let mut r: Vec<F32> = Vec::new();
    let mut i: usize = 0;
    while i < cosines.len()
        invariant
            i <= cosines.len(),
            r@.len() == i,
            forall|k: int| 0 <= k < i ==> r@[k] == ratio(5, 10) * (one() - cosines@[k]),
        decreases cosines.len() - i,
    {
        r.push(ratio(5, 10) * (one() - cosines[i]));
        i = i + 1;
    }
    r
}

} // verus!
