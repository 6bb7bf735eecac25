//! Harmonic pitch class profiles: the peaks of a spectrum, each with its harmonics,
//! as energies of pitch classes.
//!
//! The powers, logarithms and weights that this takes come from outside; this
//! module finds the partials that they belong to, and adds them up.
use super::extractor::check_chroma_frames;
use super::extractor::chroma_frames_error;
use super::extractor::compute_frame_energies;
use super::extractor::frame_energies;
use super::extractor::gives_rows_and_curve;
use super::harmonic::band_floor;
use super::pitch::above_a4;
use super::pitch::add_tone;
use super::pitch::bin_frequency;
use super::pitch::frequency_resolution;
use super::pitch::no_classes;
use super::pitch::nyquist;
use super::pitch::tuned_semitone;
use super::pitch::with_tone;
use super::pitch::Neighbours;
use crate::error::AnalysisError;
use crate::float::clamp_unit;
use crate::float::one;
use crate::float::ratio;
use crate::float::zero;
use crate::float::F32;
use crate::sorting::arrange;
use crate::sorting::arranged;
use crate::sorting::sort_order;
use crate::sorting::sorted_order;
use crate::spectrogram::rows;
use crate::vector::normalize;
use crate::vector::normalized;
use vstd::prelude::*;

verus! {

/// How a profile is made.
#[derive(Debug, Clone, Copy)]
pub struct HpcpOptions {
    /// Sample rate in Hz
    pub sample_rate: u32,
    /// Length of the transform
    pub fft_size: usize,
    /// How many peaks of a frame are used
    pub peaks_per_frame: usize,
    /// How many harmonics of a peak are used
    pub num_harmonics: usize,
    /// Whiten the spectrum before peaks are picked
    pub enable_whitening: bool,
    /// Window of the whitening, in bins
    pub whitening_smooth_bins: usize,
    /// Lowest frequency in Hz
    pub fmin_hz: F32,
    /// Highest frequency in Hz
    pub fmax_hz: F32,
}

/// The highest frequency of the band.
#[verifier::allow_in_spec]
pub fn hpcp_ceiling(o: HpcpOptions) -> F32
    returns
        o.fmax_hz.min(nyquist(o.sample_rate)),
{
    o.fmax_hz.min(nyquist(o.sample_rate))
}

/// The frequency of a bin.
#[verifier::allow_in_spec]
pub fn hpcp_frequency(o: HpcpOptions, bin: usize) -> F32
    returns
        bin_frequency(bin, frequency_resolution(o.sample_rate, o.fft_size)),
{
    bin_frequency(bin, frequency_resolution(o.sample_rate, o.fft_size))
}

/// There is nothing that a profile could be made of.
pub open spec fn has_no_profile(row: Seq<F32>, o: HpcpOptions) -> bool {
    row.len() == 0 || o.sample_rate == 0 || o.fft_size == 0 || hpcp_ceiling(o) <= band_floor(o.fmin_hz)
}

// -------------------------------------------------------------- whitening

/// The sum of the first `n` magnitudes, none below zero, added up from the left.
pub open spec fn prefix_sum(row: Seq<F32>, n: nat) -> F32
    decreases n,
{
    if n == 0 {
        zero()
    } else {
        prefix_sum(row, (n - 1) as nat) + row[n - 1].max(zero())
    }
}

/// Half of the window of the whitening, which has an odd number of bins.
pub open spec fn whitening_radius(bins: usize) -> int {
    bins as int / 2
}

/// A magnitude in units of the mean around it; twenty at most.
pub open spec fn whitened_value(row: Seq<F32>, radius: int, i: int) -> F32 {
    let left = if i >= radius {
        i - radius
    } else {
        0
    };
    let right = if i + radius <= row.len() - 1 {
        i + radius
    } else {
        row.len() - 1
    };
    let mean = (prefix_sum(row, (right + 1) as nat) - prefix_sum(row, left as nat))
        / F32::from_usize((right + 1 - left) as usize).max(one());
    (row[i].max(zero()) / (mean + ratio(1, 1_000_000_000_000))).min(ratio(20, 1))
}

/// What peaks are picked from: the spectrum, whitened where that is wanted.
pub open spec fn picking_row(row: Seq<F32>, o: HpcpOptions) -> Seq<F32> {
    if o.enable_whitening && o.whitening_smooth_bins >= 3 {
        Seq::new(
            row.len(),
            |i: int| whitened_value(row, whitening_radius(o.whitening_smooth_bins), i),
        )
    } else {
        row
    }
}

fn whiten(row: &[F32], bins: usize) -> (r: Vec<F32>)
    ensures
        r@ == Seq::new(row@.len(), |i: int| whitened_value(row@, whitening_radius(bins), i)),
{
    let radius: usize = bins / 2;
    let len: usize = row.len();
    let mut prefix: Vec<F32> = Vec::new();
    let mut acc = zero();
    prefix.push(acc);
    let mut n: usize = 0;
    while n < len
        invariant
            n <= len,
            len == row@.len(),
            acc == prefix_sum(row@, n as nat),
            prefix@.len() == n + 1,
            forall|k: int| 0 <= k <= n ==> (#[trigger] prefix@[k]) == prefix_sum(row@, k as nat),
        decreases len - n,
    {
        acc = acc + row[n].max(zero());
        prefix.push(acc);
        n = n + 1;
    }
    let mut r: Vec<F32> = Vec::new();
    let mut i: usize = 0;
    while i < len
        invariant
            i <= len,
            len == row@.len(),
            radius == whitening_radius(bins),
            prefix@.len() == len + 1,
            forall|k: int| 0 <= k <= len ==> (#[trigger] prefix@[k]) == prefix_sum(row@, k as nat),
            r@.len() == i,
            forall|k: int| 0 <= k < i ==> r@[k] == whitened_value(row@, radius as int, k),
        decreases len - i,
    {
        let left: usize = if i >= radius {
            i - radius
        } else {
            0
        };
        let right: usize = if radius <= len - 1 - i {
            i + radius
        } else {
            len - 1
        };
        let mean = (prefix[right + 1] - prefix[left]) / F32::from_usize(right + 1 - left).max(
            one(),
        );
        r.push((row[i].max(zero()) / (mean + ratio(1, 1_000_000_000_000))).min(ratio(20, 1)));
        i = i + 1;
    }
    assert(r@ =~= Seq::new(row@.len(), |i: int| whitened_value(row@, whitening_radius(bins), i)));
    r
}

// ------------------------------------------------------------------ peaks

/// A bin is in the band.
#[verifier::allow_in_spec]
pub fn in_hpcp_band(o: HpcpOptions, bin: usize) -> bool
    returns
        !(hpcp_frequency(o, bin) < band_floor(o.fmin_hz)) && !(hpcp_frequency(o, bin)
            > hpcp_ceiling(o)),
{
    !(hpcp_frequency(o, bin) < band_floor(o.fmin_hz)) && !(hpcp_frequency(o, bin) > hpcp_ceiling(o))
}

/// A bin that is not at an end is a peak in the band.
pub open spec fn is_spectral_peak(m: Seq<F32>, o: HpcpOptions, i: int) -> bool {
    in_hpcp_band(o, i as usize) && !(m[i] <= m[i - 1]) && !(m[i] < m[i + 1])
}

/// Those of the bins below `n` that are peaks, but for the first one.
pub open spec fn peak_bins(m: Seq<F32>, o: HpcpOptions, n: nat) -> Seq<usize>
    decreases n,
{
    if n <= 1 {
        Seq::empty()
    } else {
        let before = peak_bins(m, o, (n - 1) as nat);
        if is_spectral_peak(m, o, n - 1) {
            before.push((n - 1) as usize)
        } else {
            before
        }
    }
}

/// All peaks of a spectrum, in order.
pub open spec fn all_peaks(m: Seq<F32>, o: HpcpOptions) -> Seq<usize> {
    if m.len() < 2 {
        Seq::empty()
    } else {
        peak_bins(m, o, (m.len() - 1) as nat)
    }
}

/// The heights of peaks.
pub open spec fn heights_of(m: Seq<F32>, bins: Seq<usize>) -> Seq<F32> {
    Seq::new(bins.len(), |i: int| m[bins[i] as int])
}

/// The number of peaks that are used: one at least, and no more than there are.
pub open spec fn used_peaks(o: HpcpOptions, n: int) -> int {
    if o.peaks_per_frame >= n {
        n
    } else if o.peaks_per_frame >= 1 {
        o.peaks_per_frame as int
    } else {
        1
    }
}

/// The highest peaks, the highest first; those that tie in order.
pub open spec fn highest_peaks(m: Seq<F32>, o: HpcpOptions) -> Seq<usize> {
    let bins = all_peaks(m, o);
    let sorted = arranged(bins, sorted_order(heights_of(m, bins), true, bins.len()));
    sorted.take(used_peaks(o, bins.len() as int))
}

pub(crate) proof fn lemma_peak_bins(m: Seq<F32>, o: HpcpOptions, n: nat)
    requires
        n < m.len() || n == 0,
        m.len() <= usize::MAX,
    ensures
        peak_bins(m, o, n).len() <= n,
        forall|i: int|
            0 <= i < peak_bins(m, o, n).len() ==> 1 <= #[trigger] peak_bins(m, o, n)[i] < n,
    decreases n,
{
    if n > 1 {
        lemma_peak_bins(m, o, (n - 1) as nat);
        let before = peak_bins(m, o, (n - 1) as nat);
        let all = peak_bins(m, o, n);
        assert forall|i: int| 0 <= i < all.len() implies 1 <= #[trigger] all[i] < n by {
            if i < before.len() {
                assert(all[i] == before[i]);
            }
        }
    }
}

fn find_highest_peaks(m: &[F32], o: HpcpOptions) -> (r: Vec<usize>)
    ensures
        r@ == highest_peaks(m@, o),
        forall|i: int| 0 <= i < r@.len() ==> (#[trigger] r@[i]) < m@.len(),
{
    let mut bins: Vec<usize> = Vec::new();
    let mut keys: Vec<F32> = Vec::new();
    let len: usize = m.len();
    let mut n: usize = 1;
    while len >= 2 && n < len - 1
        invariant
            1 <= n,
            len == m@.len(),
            len >= 2 ==> n <= len - 1,
            len < 2 ==> n == 1,
            bins@ == peak_bins(m@, o, n as nat),
            keys@ == heights_of(m@, bins@),
        decreases len - n,
    {
        if in_hpcp_band(o, n) && !(m[n] <= m[n - 1]) && !(m[n] < m[n + 1]) {
            bins.push(n);
            keys.push(m[n]);
            assert(keys@ =~= heights_of(m@, bins@));
        }
        n = n + 1;
    }
    assert(bins@ == all_peaks(m@, o));
    proof {
        if len >= 2 {
            lemma_peak_bins(m@, o, (len - 1) as nat);
        }
    }
    let order: Vec<usize> = sort_order(keys.as_slice(), true);
    let mut r: Vec<usize> = arrange(bins.as_slice(), order.as_slice());
    let used: usize = if o.peaks_per_frame >= r.len() {
        r.len()
    } else if o.peaks_per_frame >= 1 {
        o.peaks_per_frame
    } else {
        1
    };
    r.truncate(used);
    assert forall|i: int| 0 <= i < r@.len() implies (#[trigger] r@[i]) < m@.len() by {
        crate::sorting::lemma_sorted_order_lists_indices(keys@, true, keys@.len());
    }
    r
}

// --------------------------------------------------------------- partials

/// A harmonic of a peak.
#[derive(Debug, Clone, Copy)]
pub struct Partial {
    /// Bin of the peak
    pub bin: usize,
    /// Number of the harmonic, from one
    pub harmonic: usize,
    /// Frequency as a multiple of 440 Hz
    pub ratio: F32,
}

/// The frequency of a harmonic.
#[verifier::allow_in_spec]
pub fn harmonic_frequency(f0: F32, h: usize) -> F32
    returns
        f0 * F32::from_usize(h),
{
    f0 * F32::from_usize(h)
}

/// Those of the first `h` harmonics of a peak that are in the band.
pub open spec fn partials_of(o: HpcpOptions, bin: usize, h: nat) -> Seq<Partial>
    decreases h,
{
    if h == 0 {
        Seq::empty()
    } else {
        let before = partials_of(o, bin, (h - 1) as nat);
        let f = harmonic_frequency(hpcp_frequency(o, bin), h as usize);
        if !(f > hpcp_ceiling(o)) && !(f < band_floor(o.fmin_hz)) {
            before.push(Partial { bin, harmonic: h as usize, ratio: above_a4(f) })
        } else {
            before
        }
    }
}

pub open spec fn harmonic_count(o: HpcpOptions) -> nat {
    if o.num_harmonics >= 1 {
        o.num_harmonics as nat
    } else {
        1
    }
}

/// The partials of the first `n` peaks; a peak at no frequency has none.
pub open spec fn all_partials(o: HpcpOptions, peaks: Seq<usize>, n: nat) -> Seq<Partial>
    decreases n,
{
    if n == 0 {
        Seq::empty()
    } else {
        let before = all_partials(o, peaks, (n - 1) as nat);
        if hpcp_frequency(o, peaks[n - 1]) <= zero() {
            before
        } else {
            before + partials_of(o, peaks[n - 1], harmonic_count(o))
        }
    }
}

/// The partials of a spectrum.
pub open spec fn spectrum_partials(row: Seq<F32>, o: HpcpOptions) -> Seq<Partial> {
    let peaks = highest_peaks(picking_row(row, o), o);
    if has_no_profile(row, o) {
        Seq::empty()
    } else {
        all_partials(o, peaks, peaks.len())
    }
}

/// The peaks of partials are among `n` bins.
pub open spec fn are_partials_of(partials: Seq<Partial>, n: nat) -> bool {
    forall|i: int| 0 <= i < partials.len() ==> (#[trigger] partials[i]).bin < n
}

proof fn lemma_partials_of(o: HpcpOptions, bin: usize, h: nat)
    ensures
        are_partials_of(partials_of(o, bin, h), bin as nat + 1),
    decreases h,
{
    if h > 0 {
        lemma_partials_of(o, bin, (h - 1) as nat);
    }
}

fn push_partials(r: &mut Vec<Partial>, o: HpcpOptions, bin: usize)
    ensures
        final(r)@ == old(r)@ + partials_of(o, bin, harmonic_count(o)),
{
    let ghost before: Seq<Partial> = r@;
    let count: usize = if o.num_harmonics >= 1 {
        o.num_harmonics
    } else {
        1
    };
    let f0 = hpcp_frequency(o, bin);
    let mut h: usize = 0;
    assert(r@ =~= before + Seq::<Partial>::empty());
    while h < count
        invariant
            h <= count,
            f0 == hpcp_frequency(o, bin),
            r@ == before + partials_of(o, bin, h as nat),
        decreases count - h,
    {
        let ghost sofar: Seq<Partial> = partials_of(o, bin, h as nat);
        h = h + 1;
        let f = harmonic_frequency(f0, h);
        if !(f > hpcp_ceiling(o)) && !(f < band_floor(o.fmin_hz)) {
            let p = Partial { bin, harmonic: h, ratio: above_a4(f) };
            r.push(p);
            assert(r@ =~= before + sofar.push(p));
        }
    }
}

/// Finds the partials of a spectrum: the harmonics of its highest peaks.
pub fn find_partials(row: &[F32], o: HpcpOptions) -> (r: Vec<Partial>)
    ensures
        r@ == spectrum_partials(row@, o),
        are_partials_of(r@, row@.len()),
{
    let mut r: Vec<Partial> = Vec::new();
    if row.len() == 0 || o.sample_rate == 0 || o.fft_size == 0 || hpcp_ceiling(o) <= band_floor(
        o.fmin_hz,
    ) {
        return r;
    }
    let peaks: Vec<usize> = if o.enable_whitening && o.whitening_smooth_bins >= 3 {
        let white: Vec<F32> = whiten(row, o.whitening_smooth_bins);
        find_highest_peaks(white.as_slice(), o)
    } else {
        find_highest_peaks(row, o)
    };
    let mut n: usize = 0;
    while n < peaks.len()
        invariant
            n <= peaks.len(),
            r@ == all_partials(o, peaks@, n as nat),
            forall|i: int| 0 <= i < peaks@.len() ==> (#[trigger] peaks@[i]) < row@.len(),
            are_partials_of(r@, row@.len()),
        decreases peaks.len() - n,
    {
        if !(hpcp_frequency(o, peaks[n]) <= zero()) {
            proof {
                lemma_partials_of(o, peaks@[n as int], harmonic_count(o));
            }
            push_partials(&mut r, o, peaks[n]);
        }
        n = n + 1;
    }
    r
}

// ---------------------------------------------------------------- profile

/// The strength that a partial is given: that of its peak (its magnitude raised to
/// a power) and the decay of its harmonic (raised to its number less one), with
/// the binary logarithm of its ratio and the weights around its pitch.
#[derive(Debug, Clone, Copy)]
pub struct SoundedPartial {
    /// Number of the harmonic, from one
    pub harmonic: usize,
    /// Strength of the peak
    pub strength: F32,
    /// Decay of the harmonic
    pub decay: F32,
    /// Binary logarithm of the ratio to 440 Hz
    pub log2_ratio: F32,
    /// Weights around the pitch
    pub weights: Neighbours,
}

/// The magnitudes of the peaks of partials, none below zero: what their strengths are
/// powers of.
pub fn partial_magnitudes(row: &[F32], partials: &[Partial]) -> (r: Vec<F32>)
    requires
        are_partials_of(partials@, row@.len()),
    ensures
        r@ == Seq::new(partials@.len(), |i: int| row@[partials@[i].bin as int].max(zero())),
{
    let mut r: Vec<F32> = Vec::new();
    let mut n: usize = 0;
    while n < partials.len()
        invariant
            n <= partials.len(),
            are_partials_of(partials@, row@.len()),
            r@.len() == n,
            forall|i: int| 0 <= i < n ==> r@[i] == row@[partials@[i].bin as int].max(zero()),
        decreases partials.len() - n,
    {
        r.push(row[partials[n].bin].max(zero()));
        n = n + 1;
    }
    r
}

/// The ratios of partials to 440 Hz: what binary logarithms are taken of.
pub fn partial_ratios(partials: &[Partial]) -> (r: Vec<F32>)
    ensures
        r@ == Seq::new(partials@.len(), |i: int| partials@[i].ratio),
{
    let mut r: Vec<F32> = Vec::new();
    let mut n: usize = 0;
    while n < partials.len()
        invariant
            n <= partials.len(),
            r@.len() == n,
            forall|i: int| 0 <= i < n ==> r@[i] == partials@[i].ratio,
        decreases partials.len() - n,
    {
        r.push(partials[n].ratio);
        n = n + 1;
    }
    r
}

/// How often the decay counts for a harmonic: once less than its number.
#[verifier::allow_in_spec]
pub fn decay_steps(harmonic: usize) -> i32
    returns
        (if harmonic == 0 {
            -1i32
        } else if harmonic <= 0x8000_0000 {
            (harmonic - 1) as i32
        } else {
            i32::MAX
        }),
{
    if harmonic == 0 {
        -1
    } else if harmonic <= 0x8000_0000 {
        (harmonic - 1) as i32
    } else {
        i32::MAX
    }
}

/// The partials with these strengths, decays, binary logarithms and weights.
pub fn sound_partials(
    partials: &[Partial],
    strengths: &[F32],
    decays: &[F32],
    log2_ratios: &[F32],
    weights: &[Neighbours],
) -> (r: Vec<SoundedPartial>)
    requires
        strengths@.len() == partials@.len(),
        decays@.len() == partials@.len(),
        log2_ratios@.len() == partials@.len(),
        weights@.len() == partials@.len(),
    ensures
        r@ == Seq::new(
            partials@.len(),
            |i: int|
                SoundedPartial {
                    harmonic: partials@[i].harmonic,
                    strength: strengths@[i],
                    decay: decays@[i],
                    log2_ratio: log2_ratios@[i],
                    weights: weights@[i],
                },
        ),
{
    let mut r: Vec<SoundedPartial> = Vec::new();
    let mut n: usize = 0;
    while n < partials.len()
        invariant
            n <= partials.len(),
            strengths@.len() == partials@.len(),
            decays@.len() == partials@.len(),
            log2_ratios@.len() == partials@.len(),
            weights@.len() == partials@.len(),
            r@.len() == n,
            forall|i: int|
                0 <= i < n ==> r@[i] == (SoundedPartial {
                    harmonic: partials@[i].harmonic,
                    strength: strengths@[i],
                    decay: decays@[i],
                    log2_ratio: log2_ratios@[i],
                    weights: weights@[i],
                }),
        decreases partials.len() - n,
    {
        r.push(
            SoundedPartial {
                harmonic: partials[n].harmonic,
                strength: strengths[n],
                decay: decays[n],
                log2_ratio: log2_ratios[n],
                weights: weights[n],
            },
        );
        n = n + 1;
    }
    r
}

/// What a partial adds: the strength of its peak, less for a higher harmonic.
#[verifier::allow_in_spec]
pub fn partial_strength(p: SoundedPartial) -> F32
    returns
        p.strength * (p.decay / F32::from_usize(p.harmonic)),
{
    p.strength * (p.decay / F32::from_usize(p.harmonic))
}

/// What the first `n` partials give to a pitch class; a peak without strength
/// gives nothing.
pub open spec fn partial_sum(s: Seq<SoundedPartial>, tuning: F32, class: int, n: nat) -> F32
    decreases n,
{
    if n == 0 {
        zero()
    } else {
        let before = partial_sum(s, tuning, class, (n - 1) as nat);
        let p = s[n - 1];
        if p.strength <= zero() {
            before
        } else {
            with_tone(
                before,
                class,
                tuned_semitone(p.log2_ratio, tuning),
                partial_strength(p),
                p.weights,
            )
        }
    }
}

/// The profile of partials: what they give to the pitch classes, brought to length
/// one.
pub open spec fn profile_of(s: Seq<SoundedPartial>, tuning: F32) -> Seq<F32> {
    normalized(
        Seq::new(12, |c: int| partial_sum(s, tuning, c, s.len())),
        ratio(1, 10_000_000_000),
    )
}

/// Adds up partials to a profile.
pub fn frame_to_hpcp_tuned_band(partials: &[SoundedPartial], tuning: F32) -> (r: Vec<F32>)
    ensures
        r@ == profile_of(partials@, tuning),
        r@.len() == 12,
{
    let mut pc: Vec<F32> = no_classes();
    let mut n: usize = 0;
    while n < partials.len()
        invariant
            n <= partials.len(),
            pc@.len() == 12,
            forall|c: int|
                0 <= c < 12 ==> (#[trigger] pc@[c]) == partial_sum(
                    partials@,
                    tuning,
                    c,
                    n as nat,
                ),
        decreases partials.len() - n,
    {
        let p = partials[n];
        if !(p.strength <= zero()) {
            add_tone(
                &mut pc,
                tuned_semitone(p.log2_ratio, tuning),
                partial_strength(p),
                p.weights,
            );
        }
        n = n + 1;
    }
    assert(pc@ =~= Seq::new(12, |c: int| partial_sum(partials@, tuning, c, partials@.len())));
    normalize(&mut pc, ratio(1, 10_000_000_000));
    pc
}

/// The power that magnitudes are raised to.
#[verifier::allow_in_spec]
pub fn magnitude_power(mag_power: F32) -> F32
    returns
        mag_power.clamp(ratio(5, 100), one()),
{
    mag_power.clamp(ratio(5, 100), one())
}

/// The decay from one harmonic to the next.
#[verifier::allow_in_spec]
pub fn decay_factor(harmonic_decay: F32) -> F32
    returns
        clamp_unit(harmonic_decay),
{
    clamp_unit(harmonic_decay)
}

/// The profiles of frames, given their partials.
pub open spec fn profiles_of(sounded: Seq<Vec<SoundedPartial>>, tuning: F32) -> Seq<Seq<F32>> {
    Seq::new(sounded.len(), |i: int| profile_of(sounded[i]@, tuning))
}

/// The profiles of a spectrogram, with the energy of each frame. `sounded` are the
/// partials of each frame.
pub fn extract_hpcp_from_spectrogram_with_options_and_energy_tuned(
    magnitude_spec_frames: &[Vec<F32>],
    sounded: &[Vec<SoundedPartial>],
    tuning: F32,
) -> (r: Result<(Vec<Vec<F32>>, Vec<F32>), AnalysisError>)
    requires
        sounded@.len() == magnitude_spec_frames@.len(),
    ensures
        gives_rows_and_curve(
            r,
            chroma_frames_error(magnitude_spec_frames@),
            profiles_of(sounded@, tuning),
            frame_energies(magnitude_spec_frames@),
        ),
{
    match check_chroma_frames(magnitude_spec_frames) {
        Err(e) => {
            return Err(e);
        },
        Ok(_) => {},
    }
    let mut r: Vec<Vec<F32>> = Vec::new();
    let mut i: usize = 0;
    while i < sounded.len()
        invariant
            i <= sounded.len(),
            r@.len() == i,
            forall|k: int| 0 <= k < i ==> (#[trigger] r@[k])@ == profile_of(sounded@[k]@, tuning),
        decreases sounded.len() - i,
    {
        let row: Vec<F32> = frame_to_hpcp_tuned_band(sounded[i].as_slice(), tuning);
        r.push(row);
        i = i + 1;
    }
    assert(rows(r@) =~= profiles_of(sounded@, tuning));
    Ok((r, compute_frame_energies(magnitude_spec_frames)))
}

/// How many peaks of the bass band are used: twelve at most.
#[verifier::allow_in_spec]
pub fn bass_peaks(peaks_per_frame: usize) -> usize
    returns
        (if peaks_per_frame >= 12 {
            12
        } else if peaks_per_frame >= 1 {
            peaks_per_frame
        } else {
            1
        }),
{
    if peaks_per_frame >= 12 {
        12
    } else if peaks_per_frame >= 1 {
        peaks_per_frame
    } else {
        1
    }
}

/// A mixture of two profiles, brought to length one.
pub open spec fn blended(full: Seq<F32>, bass: Seq<F32>, w: F32) -> Seq<F32> {
    normalized(
        Seq::new(12, |c: int| (one() - w) * full[c] + w * bass[c]),
        ratio(1, 10_000_000_000),
    )
}

fn blend(full: &[F32], bass: &[F32], w: F32) -> (r: Vec<F32>)
    requires
        full@.len() == 12,
        bass@.len() == 12,
    ensures
        r@ == blended(full@, bass@, w),
{
    let mut r: Vec<F32> = Vec::new();
    let mut c: usize = 0;
    while c < 12
        invariant
            c <= 12,
            full@.len() == 12,
            bass@.len() == 12,
            r@.len() == c,
            forall|k: int| 0 <= k < c ==> r@[k] == (one() - w) * full@[k] + w * bass@[k],
        decreases 12 - c,
    {
        r.push((one() - w) * full[c] + w * bass[c]);
        c = c + 1;
    }
    assert(r@ =~= Seq::new(12, |c: int| (one() - w) * full@[c] + w * bass@[c]));
    normalize(&mut r, ratio(1, 10_000_000_000));
    r
}

/// The profiles of a spectrogram, mixed with those of its bass band, with the
/// energy of each frame.
pub fn extract_hpcp_bass_blend_from_spectrogram_with_options_and_energy_tuned(
    magnitude_spec_frames: &[Vec<F32>],
    full: &[Vec<SoundedPartial>],
    bass: &[Vec<SoundedPartial>],
    tuning: F32,
    bass_weight: F32,
) -> (r: Result<(Vec<Vec<F32>>, Vec<F32>), AnalysisError>)
    requires
        full@.len() == magnitude_spec_frames@.len(),
        bass@.len() == magnitude_spec_frames@.len(),
    ensures
        gives_rows_and_curve(
            r,
            chroma_frames_error(magnitude_spec_frames@),
            Seq::new(
                full@.len(),
                |i: int|
                    blended(
                        profile_of(full@[i]@, tuning),
                        profile_of(bass@[i]@, tuning),
                        clamp_unit(bass_weight),
                    ),
            ),
            frame_energies(magnitude_spec_frames@),
        ),
{
    match check_chroma_frames(magnitude_spec_frames) {
        Err(e) => {
            return Err(e);
        },
        Ok(_) => {},
    }
    let w = clamp_unit(bass_weight);
    let mut r: Vec<Vec<F32>> = Vec::new();
    let mut i: usize = 0;
    while i < full.len()
        invariant
            i <= full.len(),
            full@.len() == bass@.len(),
            r@.len() == i,
            forall|k: int|
                0 <= k < i ==> (#[trigger] r@[k])@ == blended(
                    profile_of(full@[k]@, tuning),
                    profile_of(bass@[k]@, tuning),
                    w,
                ),
        decreases full.len() - i,
    {
        let a: Vec<F32> = frame_to_hpcp_tuned_band(full[i].as_slice(), tuning);
        let b: Vec<F32> = frame_to_hpcp_tuned_band(bass[i].as_slice(), tuning);
        let row: Vec<F32> = blend(a.as_slice(), b.as_slice(), w);
        r.push(row);
        i = i + 1;
    }
    assert(rows(r@) =~= Seq::new(
        full@.len(),
        |i: int| blended(profile_of(full@[i]@, tuning), profile_of(bass@[i]@, tuning), w),
    ));
    Ok((r, compute_frame_energies(magnitude_spec_frames)))
}

} // verus!
