//! Spectrograms with one bin for each semitone, and chroma vectors from them.
//!
//! The logarithms of frequencies come from outside.
use super::extractor::gives_rows;
use super::harmonic::band_floor;
use super::pitch::bin_frequency;
use super::pitch::class_of;
use super::pitch::find_class;
use super::pitch::frequency_resolution;
use super::pitch::no_classes;
use super::pitch::nyquist;
use super::pitch::semitone_of;
use crate::error::invalid_input;
use crate::error::AnalysisError;
use crate::features::period::novelty::first_other_len;
use crate::float::one;
use crate::float::ratio;
use crate::float::zero;
use crate::float::F32;
use crate::spectrogram::rows;
use crate::text::decimal;
use crate::text::decimal_of;
use crate::vector::normalize;
use crate::vector::normalized;
use vstd::prelude::*;
use vstd::string::StringExecFns;

verus! {

/// The highest frequency of the semitones: below the Nyquist frequency by one.
#[verifier::allow_in_spec]
pub fn semitone_ceiling(fmax_hz: F32, sample_rate: u32) -> F32
    returns
        fmax_hz.min(nyquist(sample_rate) - one()),
{
    fmax_hz.min(nyquist(sample_rate) - one())
}

/// The semitones that a band of frequencies covers, and what belongs to them.
#[derive(Debug, Clone, Copy)]
pub struct SemitoneBand {
    /// Sample rate in Hz
    pub sample_rate: u32,
    /// Length of the transform
    pub fft_size: usize,
    /// Lowest frequency in Hz
    pub fmin_hz: F32,
    /// Highest frequency in Hz
    pub fmax_hz: F32,
    /// Binary logarithm of the ratio of the lowest frequency, kept in range, to 440 Hz
    pub log2_floor: F32,
    /// Binary logarithm of the ratio of the highest frequency, kept in range, to 440 Hz
    pub log2_ceiling: F32,
}

/// The lowest semitone of a band.
#[verifier::allow_in_spec]
pub fn lowest_semitone(band: SemitoneBand) -> i32
    returns
        semitone_of(band.log2_floor).floor().to_i32(),
{
    semitone_of(band.log2_floor).floor().to_i32()
}

/// The highest semitone of a band.
#[verifier::allow_in_spec]
pub fn highest_semitone(band: SemitoneBand) -> i32
    returns
        semitone_of(band.log2_ceiling).ceil().to_i32(),
{
    semitone_of(band.log2_ceiling).ceil().to_i32()
}

/// The number of semitones of a band; not above zero where it is none.
pub open spec fn semitone_count(band: SemitoneBand) -> int {
    highest_semitone(band) - lowest_semitone(band) + 1
}

/// A bin counts: it is in the band, and its magnitude is above zero.
#[verifier::allow_in_spec]
pub fn linear_bin_counts(band: SemitoneBand, bin: usize, magnitude: F32) -> bool
    returns
        ({
            let f = bin_frequency(bin, frequency_resolution(band.sample_rate, band.fft_size));
            !(magnitude <= zero()) && !(f < band_floor(band.fmin_hz)) && !(f >= semitone_ceiling(
                band.fmax_hz,
                band.sample_rate,
            )) && !(f >= nyquist(band.sample_rate))
        }),
{
    let f = bin_frequency(bin, frequency_resolution(band.sample_rate, band.fft_size));
    !(magnitude <= zero()) && !(f < band_floor(band.fmin_hz)) && !(f >= semitone_ceiling(
        band.fmax_hz,
        band.sample_rate,
    )) && !(f >= nyquist(band.sample_rate))
}

/// The place of a frequency among the semitones of a band.
#[verifier::allow_in_spec]
pub fn semitone_place(band: SemitoneBand, log2_ratio: F32) -> F32
    returns
        semitone_of(log2_ratio) - F32::from_i32(lowest_semitone(band)),
{
    semitone_of(log2_ratio) - F32::from_i32(lowest_semitone(band))
}

/// `acc` with what a bin at a place gives to semitone `s`, of `n`: the bin is
/// shared between the semitone below it and the one above.
pub open spec fn with_share(acc: F32, s: int, n: int, place: F32, magnitude: F32) -> F32 {
    let low = place.floor().to_usize() as int;
    let up = place.ceil().to_usize() as int;
    let high = if up <= n - 1 {
        up
    } else {
        n - 1
    };
    let share = place - F32::from_usize(low as usize);
    if low < n && s == low {
        acc + magnitude * (one() - share)
    } else if low < n && s == high {
        acc + magnitude * share
    } else {
        acc
    }
}

/// What the first `k` bins give to semitone `s`, of `n`.
pub open spec fn semitone_sum(
    row: Seq<F32>,
    log2_ratios: Seq<F32>,
    band: SemitoneBand,
    s: int,
    n: int,
    k: nat,
) -> F32
    decreases k,
{
    if k == 0 {
        zero()
    } else {
        let before = semitone_sum(row, log2_ratios, band, s, n, (k - 1) as nat);
        if linear_bin_counts(band, (k - 1) as usize, row[k - 1]) {
            with_share(before, s, n, semitone_place(band, log2_ratios[k - 1]), row[k - 1])
        } else {
            before
        }
    }
}

/// A frame with one bin for each semitone.
pub open spec fn semitone_row(row: Seq<F32>, log2_ratios: Seq<F32>, band: SemitoneBand) -> Seq<F32> {
    let n = semitone_count(band);
    Seq::new(n as nat, |s: int| semitone_sum(row, log2_ratios, band, s, n, row.len()))
}

/// What is wrong with a spectrogram or its band.
pub open spec fn semitone_error(frames: Seq<Vec<F32>>, band: SemitoneBand) -> Option<Seq<char>> {
    let n = frames[0]@.len();
    let i = first_other_len(frames, n, 0);
    if frames.len() == 0 {
        None
    } else if i < frames.len() {
        Some(
            "Inconsistent spectrogram frame lengths: frame 0 has "@ + decimal_of(n)
                + " bins, frame "@ + decimal_of(i as nat) + " has "@ + decimal_of(frames[i]@.len())
                + " bins"@,
        )
    } else if band.sample_rate == 0 || band.fft_size == 0 {
        Some("Sample rate and FFT size must be > 0"@)
    } else if semitone_count(band) <= 0 {
        Some("Invalid semitone range: fmin >= fmax"@)
    } else {
        None
    }
}

fn make_semitone_row(row: &[F32], log2_ratios: &[F32], band: SemitoneBand, n: usize) -> (r: Vec<F32>)
    requires
        log2_ratios@.len() >= row@.len(),
        n == semitone_count(band),
        n > 0,
    ensures
        r@ == semitone_row(row@, log2_ratios@, band),
{
    let mut r: Vec<F32> = vec![zero(); n];
    let mut k: usize = 0;
    while k < row.len()
        invariant
            k <= row.len(),
            log2_ratios@.len() >= row@.len(),
            n == semitone_count(band),
            n > 0,
            r@.len() == n,
            forall|s: int|
                0 <= s < n ==> (#[trigger] r@[s]) == semitone_sum(
                    row@,
                    log2_ratios@,
                    band,
                    s,
                    n as int,
                    k as nat,
                ),
        decreases row.len() - k,
    {
        let magnitude = row[k];
        if linear_bin_counts(band, k, magnitude) {
            let place = semitone_place(band, log2_ratios[k]);
            let low: usize = place.floor().to_usize();
            let up: usize = place.ceil().to_usize();
            let high: usize = if up <= n - 1 {
                up
            } else {
                n - 1
            };
            if low < n {
                let share = place - F32::from_usize(low);
                let v = r[low] + magnitude * (one() - share);
                r.set(low, v);
                if high != low {
                    let v = r[high] + magnitude * share;
                    r.set(high, v);
                }
            }
        }
        k = k + 1;
    }
    assert(r@ =~= semitone_row(row@, log2_ratios@, band));
    r
}

fn check_semitone_frames(frames: &[Vec<F32>]) -> (r: Result<(), AnalysisError>)
    requires
        frames@.len() > 0,
    ensures
        ({
            let n = frames@[0]@.len();
            let i = first_other_len(frames@, n, 0);
            if i < frames@.len() {
                crate::error::is_invalid_input(
                    r,
                    "Inconsistent spectrogram frame lengths: frame 0 has "@ + decimal_of(n)
                        + " bins, frame "@ + decimal_of(i as nat) + " has "@ + decimal_of(
                        frames@[i]@.len(),
                    ) + " bins"@,
                )
            } else {
                r is Ok
            }
        }),
{
    let n: usize = frames[0].len();
    let mut i: usize = 0;
    while i < frames.len()
        invariant
            i <= frames.len(),
            frames@.len() > 0,
            n == frames@[0]@.len(),
            first_other_len(frames@, n as nat, 0) == first_other_len(frames@, n as nat, i as int),
        decreases frames.len() - i,
    {
        let len: usize = frames[i].len();
        if len != n {
            let msg: String = "Inconsistent spectrogram frame lengths: frame 0 has ".to_owned().concat(
                decimal(n).as_str(),
            ).concat(" bins, frame ").concat(decimal(i).as_str()).concat(" has ").concat(
                decimal(len).as_str(),
            ).concat(" bins");
            return Err(AnalysisError::InvalidInput(msg));
        }
        i = i + 1;
    }
    Ok(())
}

/// Converts a spectrogram into one with a bin for each semitone of a band.
/// `log2_ratios` are the binary logarithms of the ratios of the frequencies of the
/// bins to 440 Hz.
pub fn convert_linear_to_log_frequency_spectrogram(
    linear_spec_frames: &[Vec<F32>],
    log2_ratios: &[F32],
    band: SemitoneBand,
) -> (r: Result<Vec<Vec<F32>>, AnalysisError>)
    requires
        semitone_count(band) <= usize::MAX,
        forall|i: int|
            0 <= i < linear_spec_frames@.len() ==> log2_ratios@.len()
                >= (#[trigger] linear_spec_frames@[i])@.len(),
    ensures
        gives_rows(
            r,
            semitone_error(linear_spec_frames@, band),
            Seq::new(
                linear_spec_frames@.len(),
                |i: int| semitone_row(linear_spec_frames@[i]@, log2_ratios@, band),
            ),
        ),
{
    let mut r: Vec<Vec<F32>> = Vec::new();
    let ghost want: Seq<Seq<F32>> = Seq::new(
        linear_spec_frames@.len(),
        |i: int| semitone_row(linear_spec_frames@[i]@, log2_ratios@, band),
    );
    if linear_spec_frames.len() == 0 {
        assert(rows(r@) =~= want);
        return Ok(r);
    }
    match check_semitone_frames(linear_spec_frames) {
        Err(e) => {
            return Err(e);
        },
        Ok(_) => {},
    }
    if band.sample_rate == 0 || band.fft_size == 0 {
        return Err(invalid_input("Sample rate and FFT size must be > 0"));
    }
    let count: i64 = highest_semitone(band) as i64 - lowest_semitone(band) as i64 + 1;
    if count <= 0 {
        return Err(invalid_input("Invalid semitone range: fmin >= fmax"));
    }
    let n: usize = count as usize;
    let mut i: usize = 0;
    while i < linear_spec_frames.len()
        invariant
            i <= linear_spec_frames.len(),
            n == semitone_count(band),
            n > 0,
            forall|i: int|
                0 <= i < linear_spec_frames@.len() ==> log2_ratios@.len()
                    >= (#[trigger] linear_spec_frames@[i])@.len(),
            r@.len() == i,
            forall|k: int|
                0 <= k < i ==> (#[trigger] r@[k])@ == semitone_row(
                    linear_spec_frames@[k]@,
                    log2_ratios@,
                    band,
                ),
        decreases linear_spec_frames.len() - i,
    {
        let row: Vec<F32> = make_semitone_row(
            linear_spec_frames[i].as_slice(),
            log2_ratios,
            band,
            n,
        );
        r.push(row);
        i = i + 1;
    }
    assert(rows(r@) =~= want);
    Ok(r)
}

/// The sum of the first `k` semitones of a class, those above zero; the first one
/// is semitone `offset`.
pub open spec fn octave_sum(row: Seq<F32>, offset: int, class: int, k: nat) -> F32
    decreases k,
{
    if k == 0 {
        zero()
    } else {
        let before = octave_sum(row, offset, class, (k - 1) as nat);
        if !(row[k - 1] <= zero()) && class_of(offset + k - 1) == class {
            before + row[k - 1]
        } else {
            before
        }
    }
}

/// The chroma vector of a frame with one bin for each semitone.
pub open spec fn octave_chroma(row: Seq<F32>, offset: int) -> Seq<F32> {
    normalized(
        Seq::new(12, |c: int| octave_sum(row, offset, c, row.len())),
        ratio(1, 10_000_000_000),
    )
}

fn make_octave_chroma(row: &[F32], offset: i32) -> (r: Vec<F32>)
    requires
        row@.len() <= 0x8000_0000,
    ensures
        r@ == octave_chroma(row@, offset as int),
{
    let mut chroma: Vec<F32> = no_classes();
    let mut k: usize = 0;
    while k < row.len()
        invariant
            k <= row.len(),
            row@.len() <= 0x8000_0000,
            chroma@.len() == 12,
            forall|c: int|
                0 <= c < 12 ==> (#[trigger] chroma@[c]) == octave_sum(
                    row@,
                    offset as int,
                    c,
                    k as nat,
                ),
        decreases row.len() - k,
    {
        if !(row[k] <= zero()) {
            let class: usize = find_class(offset as i64 + k as i64);
            let v = chroma[class] + row[k];
            chroma.set(class, v);
        }
        k = k + 1;
    }
    assert(chroma@ =~= Seq::new(12, |c: int| octave_sum(row@, offset as int, c, row@.len())));
    normalize(&mut chroma, ratio(1, 10_000_000_000));
    chroma
}

/// The chroma vectors of a spectrogram with one bin for each semitone, the first
/// of them semitone `semitone_offset`.
pub fn extract_chroma_from_log_frequency_spectrogram(
    log_freq_spec_frames: &[Vec<F32>],
    semitone_offset: i32,
) -> (r: Vec<Vec<F32>>)
    requires
        forall|i: int|
            0 <= i < log_freq_spec_frames@.len() ==> (#[trigger] log_freq_spec_frames@[i])@.len()
                <= 0x8000_0000,
    ensures
        rows(r@) == Seq::new(
            log_freq_spec_frames@.len(),
            |i: int| octave_chroma(log_freq_spec_frames@[i]@, semitone_offset as int),
        ),
{
    let mut r: Vec<Vec<F32>> = Vec::new();
    let mut i: usize = 0;
    while i < log_freq_spec_frames.len()
        invariant
            i <= log_freq_spec_frames.len(),
            forall|i: int|
                0 <= i < log_freq_spec_frames@.len() ==> (#[trigger] log_freq_spec_frames@[i])@.len()
                    <= 0x8000_0000,
            r@.len() == i,
            forall|k: int|
                0 <= k < i ==> (#[trigger] r@[k])@ == octave_chroma(
                    log_freq_spec_frames@[k]@,
                    semitone_offset as int,
                ),
        decreases log_freq_spec_frames.len() - i,
    {
        let row: Vec<F32> = make_octave_chroma(
            log_freq_spec_frames[i].as_slice(),
            semitone_offset,
        );
        r.push(row);
        i = i + 1;
    }
    assert(rows(r@) =~= Seq::new(
        log_freq_spec_frames@.len(),
        |i: int| octave_chroma(log_freq_spec_frames@[i]@, semitone_offset as int),
    ));
    r
}

} // verus!
