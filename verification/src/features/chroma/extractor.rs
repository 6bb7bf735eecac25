//! Chroma vectors from spectra.
//!
//! A spectrum comes as its magnitudes, none below zero, each raised to a fixed
//! power (0.6); the logarithms of the frequencies of its bins and the weights
//! around them come in a table.
use super::pitch::add_tone;
use super::pitch::bin_frequency;
use super::pitch::class_of;
use super::pitch::find_class;
use super::pitch::frequency_resolution;
use super::pitch::no_classes;
use super::pitch::nyquist;
use super::pitch::tuned_semitone;
use super::pitch::with_tone;
use super::pitch::Neighbours;
use super::stft::spectrum_count;
use crate::error::invalid_input;
use crate::error::AnalysisError;
use crate::features::period::novelty::check_frames;
use crate::features::period::novelty::frames_error;
use crate::float::ratio;
use crate::float::zero;
use crate::float::F32;
use crate::spectrogram::is_grid;
use crate::spectrogram::rows;
use crate::spectrogram::same_shape;
use crate::vector::dot_product;
use crate::vector::energy;
use crate::vector::normalize;
use crate::vector::normalized;
use vstd::prelude::*;

pub use super::beat_chroma::extract_beat_synchronous_chroma;
pub use super::harmonic::harmonic_spectrogram_hpss_median_mask;
pub use super::harmonic::harmonic_spectrogram_time_mask;
pub use super::harmonic::smooth_spectrogram_time;
pub use super::hpcp::extract_hpcp_bass_blend_from_spectrogram_with_options_and_energy_tuned;
pub use super::hpcp::extract_hpcp_from_spectrogram_with_options_and_energy_tuned;
pub use super::log_frequency::convert_linear_to_log_frequency_spectrogram;
pub use super::log_frequency::extract_chroma_from_log_frequency_spectrogram;
pub use super::stft::compute_stft;
pub use super::tuning::estimate_tuning_offset_semitones_from_spectrogram;

verus! {

/// For each bin, the binary logarithm of the ratio of its frequency to 440 Hz, and
/// the weights around its pitch.
#[derive(Debug, Clone)]
pub struct PitchTable {
    /// Binary logarithms
    pub log2_ratios: Vec<F32>,
    /// Weights
    pub weights: Vec<Neighbours>,
}

impl PitchTable {
    /// The table has an entry for each of `n` bins.
    pub open spec fn covers(self, n: nat) -> bool {
        self.log2_ratios@.len() >= n && self.weights@.len() >= n
    }
}

/// How a spectrum is mapped to pitch classes.
#[derive(Debug, Clone, Copy)]
pub struct ChromaOptions {
    /// Sample rate in Hz
    pub sample_rate: u32,
    /// Length of the transform
    pub fft_size: usize,
    /// Spread each bin over neighbouring classes
    pub soft_mapping: bool,
    /// Tuning offset in semitones
    pub tuning: F32,
}

/// A bin counts: its frequency is from 100 to 5000 Hz, and below the Nyquist
/// frequency.
#[verifier::allow_in_spec]
pub fn bin_counts(o: ChromaOptions, bin: usize) -> bool
    returns
        ({
            let f = bin_frequency(bin, frequency_resolution(o.sample_rate, o.fft_size));
            !(f < ratio(100, 1)) && !(f > ratio(5000, 1).min(nyquist(o.sample_rate))) && !(f
                >= nyquist(o.sample_rate))
        }),
{
    let f = bin_frequency(bin, frequency_resolution(o.sample_rate, o.fft_size));
    !(f < ratio(100, 1)) && !(f > ratio(5000, 1).min(nyquist(o.sample_rate))) && !(f >= nyquist(
        o.sample_rate,
    ))
}

/// What the first `n` bins give to a pitch class.
pub open spec fn class_sum(
    powers: Seq<F32>,
    log2_ratios: Seq<F32>,
    weights: Seq<Neighbours>,
    o: ChromaOptions,
    class: int,
    n: nat,
) -> F32
    decreases n,
{
    if n == 0 {
        zero()
    } else {
        let before = class_sum(powers, log2_ratios, weights, o, class, (n - 1) as nat);
        let semitone = tuned_semitone(log2_ratios[n - 1], o.tuning);
        if !bin_counts(o, (n - 1) as usize) {
            before
        } else if o.soft_mapping {
            with_tone(before, class, semitone, powers[n - 1], weights[n - 1])
        } else if class_of(semitone.round().to_i32() as int) == class {
            before + powers[n - 1]
        } else {
            before
        }
    }
}

/// The chroma vector of a spectrum: what its bins give to the twelve pitch
/// classes, brought to length one.
pub open spec fn chroma_of(powers: Seq<F32>, table: PitchTable, o: ChromaOptions) -> Seq<F32> {
    normalized(
        Seq::new(
            12,
            |c: int|
                class_sum(powers, table.log2_ratios@, table.weights@, o, c, powers.len()),
        ),
        ratio(1, 10_000_000_000),
    )
}

/// Maps a spectrum to a chroma vector.
pub fn frame_to_chroma_tuned(powers: &[F32], table: &PitchTable, o: ChromaOptions) -> (r: Vec<F32>)
    requires
        table.covers(powers@.len()),
    ensures
        r@ == chroma_of(powers@, *table, o),
        r@.len() == 12,
{
    let mut chroma: Vec<F32> = no_classes();
    let mut b: usize = 0;
    while b < powers.len()
        invariant
            b <= powers.len(),
            table.covers(powers@.len()),
            chroma@.len() == 12,
            forall|c: int|
                0 <= c < 12 ==> (#[trigger] chroma@[c]) == class_sum(
                    powers@,
                    table.log2_ratios@,
                    table.weights@,
                    o,
                    c,
                    b as nat,
                ),
        decreases powers.len() - b,
    {
        if bin_counts(o, b) {
            let semitone = tuned_semitone(table.log2_ratios[b], o.tuning);
            if o.soft_mapping {
                add_tone(&mut chroma, semitone, powers[b], table.weights[b]);
            } else {
                let class: usize = find_class(semitone.round().to_i32() as i64);
                let v = chroma[class] + powers[b];
                chroma.set(class, v);
            }
        }
        b = b + 1;
    }
    assert(chroma@ =~= Seq::new(
        12,
        |c: int|
            class_sum(powers@, table.log2_ratios@, table.weights@, o, c, powers@.len()),
    ));
    normalize(&mut chroma, ratio(1, 10_000_000_000));
    chroma
}

/// Maps a spectrum to a chroma vector, in the usual tuning.
pub fn frame_to_chroma(
    powers: &[F32],
    table: &PitchTable,
    sample_rate: u32,
    fft_size: usize,
    soft_mapping: bool,
) -> (r: Vec<F32>)
    requires
        table.covers(powers@.len()),
    ensures
        r@ == chroma_of(
            powers@,
            *table,
            (ChromaOptions { sample_rate, fft_size, soft_mapping, tuning: zero() }),
        ),
        r@.len() == 12,
{
    frame_to_chroma_tuned(
        powers,
        table,
        ChromaOptions { sample_rate, fft_size, soft_mapping, tuning: zero() },
    )
}

/// The chroma vectors of spectra.
pub open spec fn chromas_of(powers: Seq<Vec<F32>>, table: PitchTable, o: ChromaOptions) -> Seq<Seq<F32>> {
    Seq::new(powers.len(), |i: int| chroma_of(powers[i]@, table, o))
}

/// The energies of spectra.
pub open spec fn frame_energies(frames: Seq<Vec<F32>>) -> Seq<F32> {
    Seq::new(frames.len(), |i: int| energy(frames[i]@))
}

/// The frames are a spectrogram for chroma, or the reason why they are not.
pub open spec fn chroma_frames_error(frames: Seq<Vec<F32>>) -> Option<Seq<char>> {
    if frames.len() == 0 {
        None
    } else {
        frames_error(frames, "Empty spectrogram frames"@, "spectrogram "@)
    }
}

pub(crate) fn check_chroma_frames(frames: &[Vec<F32>]) -> (r: Result<(), AnalysisError>)
    ensures
        match chroma_frames_error(frames@) {
            Some(msg) => crate::error::is_invalid_input(r, msg),
            None => r is Ok,
        },
        r is Ok && frames@.len() > 0 ==> frames@[0]@.len() > 0
            && crate::features::period::novelty::all_have_len(frames@, frames@[0]@.len()),
{
    if frames.len() == 0 {
        return Ok(());
    }
    check_frames(frames, "Empty spectrogram frames", "spectrogram ")
}

/// The table covers every spectrum.
pub open spec fn table_covers(table: PitchTable, powers: Seq<Vec<F32>>) -> bool {
    forall|i: int| 0 <= i < powers.len() ==> table.covers((#[trigger] powers[i])@.len())
}

pub(crate) fn make_chromas(powers: &[Vec<F32>], table: &PitchTable, o: ChromaOptions) -> (r: Vec<Vec<F32>>)
    requires
        table_covers(*table, powers@),
    ensures
        rows(r@) == chromas_of(powers@, *table, o),
{
    let mut r: Vec<Vec<F32>> = Vec::new();
    let mut i: usize = 0;
    while i < powers.len()
        invariant
            i <= powers.len(),
            table_covers(*table, powers@),
            r@.len() == i,
            forall|k: int| 0 <= k < i ==> (#[trigger] r@[k])@ == chroma_of(powers@[k]@, *table, o),
        decreases powers.len() - i,
    {
        let row: Vec<F32> = frame_to_chroma_tuned(powers[i].as_slice(), table, o);
        r.push(row);
        i = i + 1;
    }
    assert(rows(r@) =~= chromas_of(powers@, *table, o));
    r
}

/// Computes the energies of spectra.
pub fn compute_frame_energies(frames: &[Vec<F32>]) -> (r: Vec<F32>)
    ensures
        r@ == frame_energies(frames@),
{
    let mut r: Vec<F32> = Vec::new();
    let mut i: usize = 0;
    while i < frames.len()
        invariant
            i <= frames.len(),
            r@.len() == i,
            forall|k: int| 0 <= k < i ==> r@[k] == energy(frames@[k]@),
        decreases frames.len() - i,
    {
        let row = frames[i].as_slice();
        r.push(dot_product(row, row));
        i = i + 1;
    }
    assert(r@ =~= frame_energies(frames@));
    r
}

/// `r` holds rows, or an error with this message.
pub open spec fn gives_rows(r: Result<Vec<Vec<F32>>, AnalysisError>, error: Option<Seq<char>>, want: Seq<Seq<F32>>) -> bool {
    match error {
        Some(msg) => crate::error::is_invalid_input(r, msg),
        None => r is Ok && rows(r->Ok_0@) == want,
    }
}

/// `r` holds rows and a curve, or an error with this message.
pub open spec fn gives_rows_and_curve(
    r: Result<(Vec<Vec<F32>>, Vec<F32>), AnalysisError>,
    error: Option<Seq<char>>,
    want: Seq<Seq<F32>>,
    curve: Seq<F32>,
) -> bool {
    match error {
        Some(msg) => crate::error::is_invalid_input(r, msg),
        None => r is Ok && rows(r->Ok_0.0@) == want && r->Ok_0.1@ == curve,
    }
}

/// The chroma vectors of a spectrogram. `powers` are its magnitudes, raised to
/// their power.
pub fn extract_chroma_from_spectrogram_with_options(
    magnitude_spec_frames: &[Vec<F32>],
    powers: &[Vec<F32>],
    table: &PitchTable,
    sample_rate: u32,
    fft_size: usize,
    soft_mapping: bool,
) -> (r: Result<Vec<Vec<F32>>, AnalysisError>)
    requires
        table_covers(*table, powers@),
        same_shape(rows(magnitude_spec_frames@), rows(powers@)),
    ensures
        gives_rows(
            r,
            chroma_frames_error(magnitude_spec_frames@),
            chromas_of(
                powers@,
                *table,
                (ChromaOptions { sample_rate, fft_size, soft_mapping, tuning: zero() }),
            ),
        ),
{
    match check_chroma_frames(magnitude_spec_frames) {
        Err(e) => {
            return Err(e);
        },
        Ok(_) => {},
    }
    Ok(
        make_chromas(
            powers,
            table,
            ChromaOptions { sample_rate, fft_size, soft_mapping, tuning: zero() },
        ),
    )
}

/// The chroma vectors of a spectrogram, with the energy of each frame.
pub fn extract_chroma_from_spectrogram_with_options_and_energy(
    magnitude_spec_frames: &[Vec<F32>],
    powers: &[Vec<F32>],
    table: &PitchTable,
    sample_rate: u32,
    fft_size: usize,
    soft_mapping: bool,
) -> (r: Result<(Vec<Vec<F32>>, Vec<F32>), AnalysisError>)
    requires
        table_covers(*table, powers@),
        same_shape(rows(magnitude_spec_frames@), rows(powers@)),
    ensures
        gives_rows_and_curve(
            r,
            chroma_frames_error(magnitude_spec_frames@),
            chromas_of(
                powers@,
                *table,
                (ChromaOptions { sample_rate, fft_size, soft_mapping, tuning: zero() }),
            ),
            frame_energies(magnitude_spec_frames@),
        ),
{
    extract_chroma_from_spectrogram_with_options_and_energy_tuned(
        magnitude_spec_frames,
        powers,
        table,
        ChromaOptions { sample_rate, fft_size, soft_mapping, tuning: zero() },
    )
}

/// The chroma vectors of a spectrogram in some tuning, with the energy of each frame.
pub fn extract_chroma_from_spectrogram_with_options_and_energy_tuned(
    magnitude_spec_frames: &[Vec<F32>],
    powers: &[Vec<F32>],
    table: &PitchTable,
    o: ChromaOptions,
) -> (r: Result<(Vec<Vec<F32>>, Vec<F32>), AnalysisError>)
    requires
        table_covers(*table, powers@),
        same_shape(rows(magnitude_spec_frames@), rows(powers@)),
    ensures
        gives_rows_and_curve(
            r,
            chroma_frames_error(magnitude_spec_frames@),
            chromas_of(powers@, *table, o),
            frame_energies(magnitude_spec_frames@),
        ),
{
    match check_chroma_frames(magnitude_spec_frames) {
        Err(e) => {
            return Err(e);
        },
        Ok(_) => {},
    }
    let chromas: Vec<Vec<F32>> = make_chromas(powers, table, o);
    let energies: Vec<F32> = compute_frame_energies(magnitude_spec_frames);
    Ok((chromas, energies))
}

/// What is wrong with the arguments of chroma extraction from samples.
pub open spec fn chroma_error(samples: nat, sample_rate: u32, frame_size: usize, hop_size: usize) -> Option<
    Seq<char>,
> {
    if samples == 0 {
        Some("Empty audio samples"@)
    } else if frame_size == 0 {
        Some("Frame size must be > 0"@)
    } else if hop_size == 0 {
        Some("Hop size must be > 0"@)
    } else if sample_rate == 0 {
        Some("Sample rate must be > 0"@)
    } else {
        None
    }
}

/// The chroma vectors of samples. `powers` are the magnitudes of their spectra,
/// raised to their power, one for each whole frame.
pub fn extract_chroma_with_options(
    samples: &[F32],
    powers: &[Vec<F32>],
    table: &PitchTable,
    sample_rate: u32,
    frame_size: usize,
    hop_size: usize,
    soft_mapping: bool,
) -> (r: Result<Vec<Vec<F32>>, AnalysisError>)
    requires
        table_covers(*table, powers@),
        frame_size > 0 && hop_size > 0 ==> is_grid(
            rows(powers@),
            spectrum_count(samples@.len() as int, frame_size as int, hop_size as int) as nat,
            (frame_size as nat / 2 + 1) as nat,
        ),
    ensures
        gives_rows(
            r,
            chroma_error(samples@.len(), sample_rate, frame_size, hop_size),
            chromas_of(
                powers@,
                *table,
                (ChromaOptions { sample_rate, fft_size: frame_size, soft_mapping, tuning: zero() }),
            ),
        ),
{
    if samples.len() == 0 {
        return Err(invalid_input("Empty audio samples"));
    }
    if frame_size == 0 {
        return Err(invalid_input("Frame size must be > 0"));
    }
    if hop_size == 0 {
        return Err(invalid_input("Hop size must be > 0"));
    }
    if sample_rate == 0 {
        return Err(invalid_input("Sample rate must be > 0"));
    }
    Ok(
        make_chromas(
            powers,
            table,
            ChromaOptions { sample_rate, fft_size: frame_size, soft_mapping, tuning: zero() },
        ),
    )
}

/// The chroma vectors of samples, spread over neighbouring classes.
pub fn extract_chroma(
    samples: &[F32],
    powers: &[Vec<F32>],
    table: &PitchTable,
    sample_rate: u32,
    frame_size: usize,
    hop_size: usize,
) -> (r: Result<Vec<Vec<F32>>, AnalysisError>)
    requires
        table_covers(*table, powers@),
        frame_size > 0 && hop_size > 0 ==> is_grid(
            rows(powers@),
            spectrum_count(samples@.len() as int, frame_size as int, hop_size as int) as nat,
            (frame_size as nat / 2 + 1) as nat,
        ),
    ensures
        gives_rows(
            r,
            chroma_error(samples@.len(), sample_rate, frame_size, hop_size),
            chromas_of(
                powers@,
                *table,
                (ChromaOptions {
                    sample_rate,
                    fft_size: frame_size,
                    soft_mapping: true,
                    tuning: zero(),
                }),
            ),
        ),
{
    extract_chroma_with_options(samples, powers, table, sample_rate, frame_size, hop_size, true)
}

} // verus!
