//! How an analysis looks for the key.
use crate::analysis::result::Key;
use crate::config::AnalysisConfig;
use crate::error::gives_plain;
use crate::error::AnalysisError;
use crate::error::Outcome;
use crate::features::chroma::normalization::sharpen_chroma;
use crate::features::chroma::normalization::unit_or_uniform;
use crate::features::chroma::smoothing::find_upper_median;
use crate::features::chroma::smoothing::median_smoothed;
use crate::features::chroma::smoothing::smooth_chroma;
use crate::features::chroma::smoothing::upper_median;
use crate::features::key::detector::chroma_error;
use crate::features::key::detector::ranked;
use crate::features::key::detector::weighted_detection;
use crate::features::key::detector::weights_of;
use crate::features::key::ensemble::combined_detection;
use crate::features::key::ensemble::detect_key_ensemble;
use crate::features::key::ensemble::share;
use crate::features::key::key_clarity::clarity_of;
use crate::features::key::key_clarity::compute_key_clarity;
use crate::features::key::result::Detection;
use crate::features::key::result::KeyDetectionResult;
use crate::features::key::segments::detect_key_by_segments;
use crate::features::key::segments::detect_key_multi_scale;
use crate::features::key::segments::detect_key_with_options;
use crate::features::key::segments::first_detection;
use crate::features::key::segments::multi_scale_detection;
use crate::features::key::segments::multi_scale_error;
use crate::features::key::segments::no_segments;
use crate::features::key::segments::optional_detection;
use crate::features::key::segments::scale_sums;
use crate::features::key::segments::table_of;
use crate::features::key::segments::with_segments;
use crate::features::key::segments::ModeOptions;
use crate::features::key::templates::profiles_of;
use crate::features::key::templates::KeyTemplates;
use crate::features::key::templates::TemplateSet;
use crate::float::clamp_unit;
use crate::float::one;
use crate::float::ratio;
use crate::float::zero;
use crate::float::F32;
use crate::float_laws::lemma_clamp_never_outside;
use crate::float_laws::lemma_zero_and_one;
use crate::float_laws::never_outside;
use crate::sorting::sum;
use crate::sorting::sum_of;
use crate::spectrogram::rows;
use crate::spectrogram::rows_reach;
use crate::features::chroma::harmonic::MedianMaskOptions;
use crate::features::chroma::hpcp::bass_peaks;
use crate::features::chroma::hpcp::HpcpOptions;
use crate::features::chroma::tuning::TuningOptions;
use vstd::prelude::*;

verus! {

/// Samples in a frame of key detection.
#[verifier::allow_in_spec]
pub fn key_frame_size(config: &AnalysisConfig) -> usize
    returns
        (if !config.enable_key_stft_override {
            config.frame_size
        } else if config.key_stft_frame_size >= 256 {
            config.key_stft_frame_size
        } else {
            256
        }),
{
    if !config.enable_key_stft_override {
        config.frame_size
    } else if config.key_stft_frame_size >= 256 {
        config.key_stft_frame_size
    } else {
        256
    }
}

/// Samples between frames of key detection.
#[verifier::allow_in_spec]
pub fn key_hop_size(config: &AnalysisConfig) -> usize
    returns
        (if !config.enable_key_stft_override {
            config.hop_size
        } else if config.key_stft_hop_size >= 1 {
            config.key_stft_hop_size
        } else {
            1
        }),
{
    if !config.enable_key_stft_override {
        config.hop_size
    } else if config.key_stft_hop_size >= 1 {
        config.key_stft_hop_size
    } else {
        1
    }
}

/// What is done to a spectrogram so that percussion does not hide the key.
#[derive(Debug, Clone, Copy, PartialEq, Eq, Structural)]
pub enum KeyConditioning {
    /// A mask of medians over time and over bins
    MedianMask,
    /// A mask of what lasts
    TimeMask,
    /// Smoothing over time
    TimeSmoothing,
    /// Nothing
    Nothing,
}

#[verifier::allow_in_spec]
pub fn key_conditioning(config: &AnalysisConfig, n_frames: usize) -> KeyConditioning
    returns
        (if n_frames == 0 {
            KeyConditioning::Nothing
        } else if config.enable_key_hpss_harmonic {
            KeyConditioning::MedianMask
        } else if config.enable_key_harmonic_mask {
            KeyConditioning::TimeMask
        } else if config.enable_key_spectrogram_time_smoothing {
            KeyConditioning::TimeSmoothing
        } else {
            KeyConditioning::Nothing
        }),
{
    if n_frames == 0 {
        KeyConditioning::Nothing
    } else if config.enable_key_hpss_harmonic {
        KeyConditioning::MedianMask
    } else if config.enable_key_harmonic_mask {
        KeyConditioning::TimeMask
    } else if config.enable_key_spectrogram_time_smoothing {
        KeyConditioning::TimeSmoothing
    } else {
        KeyConditioning::Nothing
    }
}

/// The spectrogram is turned into one of semitones.
#[verifier::allow_in_spec]
pub fn wants_semitones(config: &AnalysisConfig, n_frames: usize) -> bool
    returns
        config.enable_key_log_frequency && n_frames > 0,
{
    config.enable_key_log_frequency && n_frames > 0
}

/// The tuning is estimated: not of a spectrogram of semitones.
#[verifier::allow_in_spec]
pub fn wants_tuning(config: &AnalysisConfig, n_frames: usize, semitones: bool) -> bool
    returns
        config.enable_key_tuning_compensation && n_frames > 0 && !semitones,
{
    config.enable_key_tuning_compensation && n_frames > 0 && !semitones
}

/// A tuning offset, no greater than is allowed.
#[verifier::allow_in_spec]
pub fn limited_tuning(offset: F32, config: &AnalysisConfig) -> F32
    returns
        offset.clamp(
            config.key_tuning_max_abs_semitones.abs().neg(),
            config.key_tuning_max_abs_semitones.abs(),
        ),
{
    offset.clamp(
        config.key_tuning_max_abs_semitones.abs().neg(),
        config.key_tuning_max_abs_semitones.abs(),
    )
}

/// What the key is detected in.
#[derive(Debug, Clone, Copy, PartialEq, Eq, Structural)]
pub enum KeyFeature {
    /// Chroma of beats
    BeatChroma,
    /// Chroma of semitones
    SemitoneChroma,
    /// Harmonic pitch class profiles with the bass blended in
    BassBlend,
    /// Harmonic pitch class profiles
    Profiles,
    /// Chroma, corrected for tuning
    TunedChroma,
    /// Chroma
    Chroma,
}

#[verifier::allow_in_spec]
pub fn key_feature(config: &AnalysisConfig, n_beats: usize, semitones: bool, tuning: F32) -> KeyFeature
    returns
        (if semitones {
            KeyFeature::SemitoneChroma
        } else if config.enable_key_beat_synchronous && n_beats > 0 {
            KeyFeature::BeatChroma
        } else if config.enable_key_hpcp && config.enable_key_hpcp_bass_blend {
            KeyFeature::BassBlend
        } else if config.enable_key_hpcp {
            KeyFeature::Profiles
        } else if config.enable_key_tuning_compensation && tuning.abs() > ratio(1, 1_000_000) {
            KeyFeature::TunedChroma
        } else {
            KeyFeature::Chroma
        }),
{
    if semitones {
        KeyFeature::SemitoneChroma
    } else if config.enable_key_beat_synchronous && n_beats > 0 {
        KeyFeature::BeatChroma
    } else if config.enable_key_hpcp && config.enable_key_hpcp_bass_blend {
        KeyFeature::BassBlend
    } else if config.enable_key_hpcp {
        KeyFeature::Profiles
    } else if config.enable_key_tuning_compensation && tuning.abs() > ratio(1, 1_000_000) {
        KeyFeature::TunedChroma
    } else {
        KeyFeature::Chroma
    }
}

/// Chroma is sharpened.
#[verifier::allow_in_spec]
pub fn wants_sharpening(config: &AnalysisConfig) -> bool
    returns
        config.chroma_sharpening_power > one(),
{
    config.chroma_sharpening_power > one()
}

/// Sharpens chroma vectors, given their elements raised to the power.
pub fn sharpen_all(powers: &[Vec<F32>]) -> (r: Vec<Vec<F32>>)
    ensures
        rows(r@) == Seq::new(powers@.len(), |i: int| unit_or_uniform(powers@[i]@)),
{
    let mut r: Vec<Vec<F32>> = Vec::new();
    let mut i: usize = 0;
    while i < powers.len()
        invariant
            i <= powers.len(),
            r@.len() == i,
            forall|k: int| 0 <= k < i ==> r@[k]@ == unit_or_uniform(powers@[k]@),
        decreases powers.len() - i,
    {
        r.push(sharpen_chroma(powers[i].as_slice()));
        i = i + 1;
    }
    assert(rows(r@) =~= Seq::new(powers@.len(), |k: int| unit_or_uniform(powers@[k]@)));
    r
}

/// Smooths chroma over five frames, where there are more than that.
pub fn smooth_key_chroma(chroma: Vec<Vec<F32>>) -> (r: Vec<Vec<F32>>)
    requires
        chroma@.len() <= 5 || rows_reach(rows(chroma@), rows(chroma@)[0].len()),
    ensures
        rows(r@) == if chroma@.len() > 5 {
            median_smoothed(rows(chroma@), 5)
        } else {
            rows(chroma@)
        },
{
    if chroma.len() > 5 {
        smooth_chroma(chroma.as_slice(), 5)
    } else {
        chroma
    }
}

/// The first frame that is kept and the one behind the last: intro and outro are
/// left out where there are 200 frames and more than 50 of them are kept.
#[verifier::allow_in_spec]
pub fn kept_frames(n: usize, n_energies: usize, config: &AnalysisConfig) -> (usize, usize)
    returns
        ({
            let share = config.key_edge_trim_fraction.clamp(zero(), ratio(49, 100));
            let start = (F32::from_usize(n) * share).round().to_usize();
            let end = (F32::from_usize(n) * (one() - share)).round().to_usize();
            if config.enable_key_edge_trim && n == n_energies && n >= 200 && end > start && end
                - start > 50 && end <= n {
                (start, end)
            } else {
                (0, n)
            }
        }),
{
    let share = config.key_edge_trim_fraction.clamp(zero(), ratio(49, 100));
    let start: usize = (F32::from_usize(n) * share).round().to_usize();
    let end: usize = (F32::from_usize(n) * (one() - share)).round().to_usize();
    if config.enable_key_edge_trim && n == n_energies && n >= 200 && end > start && end - start > 50
        && end <= n {
        (start, end)
    } else {
        (0, n)
    }
}

/// The first energy that is kept and the one behind the last: those of the frames
/// that are kept, or all.
#[verifier::allow_in_spec]
pub fn kept_energies(n: usize, n_energies: usize, config: &AnalysisConfig) -> (usize, usize)
    returns
        (if kept_frames(n, n_energies, config) == (0usize, n) {
            (0, n_energies)
        } else {
            kept_frames(n, n_energies, config)
        }),
{
    let (start, end) = kept_frames(n, n_energies, config);
    if start == 0 && end == n {
        (0, n_energies)
    } else {
        (start, end)
    }
}

/// What is kept of the frames and of their energies are ranges of them, equally
/// long where there is an energy for each frame.

pub proof fn lemma_kept_frames_are_frames(n: usize, n_energies: usize, config: AnalysisConfig)
    ensures
        kept_frames(n, n_energies, &config).0 <= kept_frames(n, n_energies, &config).1 <= n,
        kept_energies(n, n_energies, &config).0 <= kept_energies(n, n_energies, &config).1
            <= n_energies,
        n == n_energies ==> kept_energies(n, n_energies, &config) == kept_frames(
            n,
            n_energies,
            &config,
        ),
{
}

/// The shares of the pitch classes in a chroma vector; none where it is silent.
pub open spec fn shares_of(chroma: Seq<F32>) -> Seq<F32> {
    if sum_of(chroma) <= ratio(1, 1_000_000_000_000) {
        Seq::empty()
    } else {
        Seq::new(chroma.len(), |i: int| chroma[i] / sum_of(chroma))
    }
}

/// The shares whose logarithms tonalness is computed from.
pub fn pitch_shares(chroma: &[F32]) -> (r: Vec<F32>)
    ensures
        r@ == shares_of(chroma@),
{
    let total = sum(chroma);
    let mut r: Vec<F32> = Vec::new();
    if total <= ratio(1, 1_000_000_000_000) {
        assert(r@ =~= shares_of(chroma@));
        return r;
    }
    let mut i: usize = 0;
    while i < chroma.len()
        invariant
            i <= chroma.len(),
            total == sum_of(chroma@),
            r@.len() == i,
            forall|k: int| 0 <= k < i ==> r@[k] == chroma@[k] / total,
        decreases chroma.len() - i,
    {
        r.push(chroma[i] / total);
        i = i + 1;
    }
    assert(r@ =~= shares_of(chroma@));
    r
}

/// The entropy of the first `n` shares, given their logarithms. Shares of nothing
/// add nothing.
pub open spec fn entropy_of(shares: Seq<F32>, logs: Seq<F32>, n: nat) -> F32
    decreases n,
{
    if n == 0 {
        zero()
    } else {
        let before = entropy_of(shares, logs, (n - 1) as nat);
        if shares[n - 1] > ratio(1, 1_000_000_000_000) {
            before - shares[n - 1] * logs[n - 1]
        } else {
            before
        }
    }
}

/// How far from an even spread shares are; zero where there are none.
pub open spec fn tonalness_of(shares: Seq<F32>, logs: Seq<F32>, log_of_twelve: F32) -> F32 {
    if shares.len() == 0 {
        zero()
    } else {
        clamp_unit(one() - entropy_of(shares, logs, shares.len()) / log_of_twelve)
    }
}

/// The tonalness of a chroma vector, given its shares and their logarithms.
pub fn tonalness(shares: &[F32], logs: &[F32], log_of_twelve: F32) -> (r: F32)
    requires
        shares@.len() <= logs@.len(),
    ensures
        r == tonalness_of(shares@, logs@, log_of_twelve),
{
    if shares.len() == 0 {
        return zero();
    }
    let mut entropy = zero();
    let mut i: usize = 0;
    while i < shares.len()
        invariant
            i <= shares.len(),
            shares@.len() <= logs@.len(),
            entropy == entropy_of(shares@, logs@, i as nat),
        decreases shares.len() - i,
    {
        if shares[i] > ratio(1, 1_000_000_000_000) {
            entropy = entropy - shares[i] * logs[i];
        }
        i = i + 1;
    }
    clamp_unit(one() - entropy / log_of_twelve)
}

/// Tonalness is not outside the range from zero to one.
pub proof fn lemma_tonalness_never_outside(shares: Seq<F32>, logs: Seq<F32>, log_of_twelve: F32)
    ensures
        never_outside(tonalness_of(shares, logs, log_of_twelve)),
{
    lemma_zero_and_one();
    lemma_clamp_never_outside(one() - entropy_of(shares, logs, shares.len()) / log_of_twelve);
}

/// Frames are weighed: it is asked for, and every frame has an energy.
#[verifier::allow_in_spec]
pub fn wants_weights(config: &AnalysisConfig, n_frames: usize, n_energies: usize) -> bool
    returns
        config.enable_key_frame_weighting && n_energies > 0 && n_energies == n_frames,
{
    config.enable_key_frame_weighting && n_energies > 0 && n_energies == n_frames
}

/// Tonalness as it counts: none below what is asked for.
#[verifier::allow_in_spec]
pub fn gated_tonalness(tonal: F32, config: &AnalysisConfig) -> F32
    returns
        (if tonal < config.key_min_tonalness {
            zero()
        } else {
            tonal
        }),
{
    if tonal < config.key_min_tonalness {
        zero()
    } else {
        tonal
    }
}

/// Energies as parts of their upper median.
pub open spec fn relative_energies_of(energies: Seq<F32>) -> Seq<F32> {
    let scale = upper_median(energies).max(ratio(1, 1_000_000_000_000));
    Seq::new(energies.len(), |i: int| (energies[i] / scale).max(zero()))
}

pub fn relative_energies(energies: &[F32]) -> (r: Vec<F32>)
    ensures
        r@ == relative_energies_of(energies@),
{
    let mut r: Vec<F32> = Vec::new();
    if energies.len() == 0 {
        assert(r@ =~= relative_energies_of(energies@));
        return r;
    }
    let scale = find_upper_median(energies).max(ratio(1, 1_000_000_000_000));
    let mut i: usize = 0;
    while i < energies.len()
        invariant
            i <= energies.len(),
            scale == upper_median(energies@).max(ratio(1, 1_000_000_000_000)),
            r@.len() == i,
            forall|k: int| 0 <= k < i ==> r@[k] == (energies@[k] / scale).max(zero()),
        decreases energies.len() - i,
    {
        r.push((energies[i] / scale).max(zero()));
        i = i + 1;
    }
    assert(r@ =~= relative_energies_of(energies@));
    r
}

/// The exponents of tonalness and of relative energy in a weight.
#[verifier::allow_in_spec]
pub fn weight_exponents(config: &AnalysisConfig) -> (F32, F32)
    returns
        (config.key_tonalness_power.max(zero()), config.key_energy_power.max(zero())),
{
    (config.key_tonalness_power.max(zero()), config.key_energy_power.max(zero()))
}

/// Weights of frames from powers of tonalness and of relative energy.
pub open spec fn products_of(tonal_powers: Seq<F32>, energy_powers: Seq<F32>) -> Seq<F32> {
    Seq::new(
        tonal_powers.len(),
        |i: int| (tonal_powers[i] * energy_powers[i]).max(zero()),
    )
}

/// How many of the first `n` weights are above zero.
pub open spec fn count_above_zero(w: Seq<F32>, n: nat) -> nat
    decreases n,
{
    if n == 0 {
        0
    } else if w[n - 1] > zero() {
        count_above_zero(w, (n - 1) as nat) + 1
    } else {
        count_above_zero(w, (n - 1) as nat)
    }
}

/// Weights leave enough to detect a key in: their sum is not nothing, and ten
/// frames count.
pub open spec fn weights_leave_enough(w: Seq<F32>) -> bool {
    !(sum_of(w) <= ratio(1, 1_000_000_000_000)) && count_above_zero(w, w.len()) >= 10
}

/// Weighs frames; not at all where the weights leave too little.
pub fn frame_weights(tonal_powers: &[F32], energy_powers: &[F32]) -> (r: Option<Vec<F32>>)
    requires
        tonal_powers@.len() == energy_powers@.len(),
    ensures
        ({
            let w = products_of(tonal_powers@, energy_powers@);
            if weights_leave_enough(w) {
                r is Some && r->Some_0@ == w
            } else {
                r is None
            }
        }),
{
    let mut w: Vec<F32> = Vec::new();
    let mut i: usize = 0;
    let mut used: usize = 0;
    while i < tonal_powers.len()
        invariant
            i <= tonal_powers.len(),
            tonal_powers@.len() == energy_powers@.len(),
            w@.len() == i,
            forall|k: int|
                0 <= k < i ==> w@[k] == (tonal_powers@[k] * energy_powers@[k]).max(zero()),
            used == count_above_zero(products_of(tonal_powers@, energy_powers@), i as nat),
            used <= i,
        decreases tonal_powers.len() - i,
    {
        let x = (tonal_powers[i] * energy_powers[i]).max(zero());
        if x > zero() {
            used = used + 1;
        }
        w.push(x);
        i = i + 1;
    }
    assert(w@ =~= products_of(tonal_powers@, energy_powers@));
    if sum(w.as_slice()) <= ratio(1, 1_000_000_000_000) || used < 10 {
        None
    } else {
        Some(w)
    }
}

/// How the mode of a key is told.
#[verifier::allow_in_spec]
pub fn mode_options_of(config: &AnalysisConfig) -> ModeOptions
    returns
        (ModeOptions {
            enable_mode_heuristic: config.enable_key_mode_heuristic,
            third_ratio_margin: config.key_mode_third_ratio_margin,
            flip_min_score_ratio: config.key_mode_flip_min_score_ratio,
            enable_minor_harmonic_bonus: config.enable_key_minor_harmonic_bonus,
            minor_leading_tone_bonus_weight: config.key_minor_leading_tone_bonus_weight,
        }),
{
    ModeOptions {
        enable_mode_heuristic: config.enable_key_mode_heuristic,
        third_ratio_margin: config.key_mode_third_ratio_margin,
        flip_min_score_ratio: config.key_mode_flip_min_score_ratio,
        enable_minor_harmonic_bonus: config.enable_key_minor_harmonic_bonus,
        minor_leading_tone_bonus_weight: config.key_minor_leading_tone_bonus_weight,
    }
}

/// How the key is detected.
#[derive(Debug, Clone, Copy, PartialEq, Eq, Structural)]
pub enum KeyMethod {
    /// With two sets of templates
    Ensemble,
    /// Over segments of several lengths
    MultiScale,
    /// Over segments of one length
    Segments,
    /// Over all frames
    AllFrames,
}

/// Some segment length is no greater than `n`.
pub open spec fn some_length_fits(lengths: Seq<usize>, n: nat) -> bool {
    exists|i: int| 0 <= i < lengths.len() && lengths[i] <= n
}

pub open spec fn key_method_of(config: AnalysisConfig, n: nat) -> KeyMethod {
    if config.enable_key_ensemble {
        KeyMethod::Ensemble
    } else if config.enable_key_multi_scale && some_length_fits(config.key_multi_scale_lengths@, n) {
        KeyMethod::MultiScale
    } else if config.enable_key_segment_voting && n >= config.key_segment_len_frames
        && config.key_segment_len_frames >= 120 && config.key_segment_hop_frames >= 1 {
        KeyMethod::Segments
    } else {
        KeyMethod::AllFrames
    }
}

/// How the key of `n` frames is detected.
pub fn key_method(config: &AnalysisConfig, n: usize) -> (r: KeyMethod)
    ensures
        r == key_method_of(*config, n as nat),
{
    if config.enable_key_ensemble {
        return KeyMethod::Ensemble;
    }
    if config.enable_key_multi_scale {
        let lengths = config.key_multi_scale_lengths.as_slice();
        let mut i: usize = 0;
        while i < lengths.len()
            invariant
                i <= lengths.len(),
                lengths@ == config.key_multi_scale_lengths@,
                !config.enable_key_ensemble,
                config.enable_key_multi_scale,
                forall|k: int| 0 <= k < i ==> lengths@[k] > n,
            decreases lengths.len() - i,
        {
            if lengths[i] <= n {
                assert(lengths@[i as int] <= n);
                return KeyMethod::MultiScale;
            }
            i = i + 1;
        }
    }
    if config.enable_key_segment_voting && n >= config.key_segment_len_frames
        && config.key_segment_len_frames >= 120 && config.key_segment_hop_frames >= 1 {
        KeyMethod::Segments
    } else {
        KeyMethod::AllFrames
    }
}

/// The key of a track.
#[derive(Debug, Clone, Copy)]
pub struct TrackKey {
    /// The key
    pub key: Key,
    /// Its confidence
    pub confidence: F32,
    /// Tonal strength
    pub clarity: F32,
}

/// The key of a track in which none was found.
#[verifier::allow_in_spec]
pub fn unknown_key() -> TrackKey
    returns
        (TrackKey { key: Key::Major(0), confidence: zero(), clarity: zero() }),
{
    TrackKey { key: Key::Major(0), confidence: zero(), clarity: zero() }
}

/// The key of a track is looked for: a frame fits into it.
#[verifier::allow_in_spec]
pub fn wants_key(n_samples: usize, config: &AnalysisConfig) -> bool
    returns
        n_samples >= config.frame_size,
{
    n_samples >= config.frame_size
}

/// The key that a detection comes to; an unknown one where it failed.
pub open spec fn track_key_from(error: Option<Seq<char>>, d: Detection) -> TrackKey {
    if error is Some {
        unknown_key()
    } else {
        TrackKey { key: d.key, confidence: d.confidence, clarity: clarity_of(d.all_scores) }
    }
}

fn take_key(
    r: Result<KeyDetectionResult, AnalysisError>,
    Ghost(error): Ghost<Option<Seq<char>>>,
    Ghost(d): Ghost<Detection>,
) -> (k: TrackKey)
    requires
        crate::features::key::detector::detects(r, error, d),
    ensures
        k == track_key_from(error, d),
{
    match r {
        Ok(found) => TrackKey {
            key: found.key,
            confidence: found.confidence,
            clarity: compute_key_clarity(found.all_scores.as_slice()),
        },
        Err(_) => unknown_key(),
    }
}

/// Frames from one voting segment to the next.
#[verifier::allow_in_spec]
pub fn voting_hop(config: &AnalysisConfig) -> usize
    returns
        (if config.key_segment_hop_frames <= config.key_segment_len_frames {
            config.key_segment_hop_frames
        } else {
            config.key_segment_len_frames
        }),
{
    if config.key_segment_hop_frames <= config.key_segment_len_frames {
        config.key_segment_hop_frames
    } else {
        config.key_segment_len_frames
    }
}

/// The key by two sets of templates.
pub open spec fn ensemble_key(
    chroma: Seq<Vec<F32>>,
    weights: Option<Seq<F32>>,
    config: AnalysisConfig,
) -> TrackKey {
    let total = config.key_ensemble_kk_weight + config.key_ensemble_temperley_weight;
    track_key_from(
        chroma_error(chroma, weights),
        combined_detection(
            weighted_detection(chroma, profiles_of(TemplateSet::KrumhanslKessler), weights),
            weighted_detection(chroma, profiles_of(TemplateSet::Temperley), weights),
            share(config.key_ensemble_kk_weight, total),
            share(config.key_ensemble_temperley_weight, total),
        ),
    )
}

/// The weights of the segment lengths; none where there are none.
pub open spec fn scale_weights_of(config: AnalysisConfig) -> Option<Seq<F32>> {
    if config.key_multi_scale_weights@.len() == 0 {
        None
    } else {
        Some(config.key_multi_scale_weights@)
    }
}

/// The key by segments of several lengths.
pub open spec fn multi_scale_key(
    chroma: Seq<Vec<F32>>,
    weights: Option<Seq<F32>>,
    config: AnalysisConfig,
) -> TrackKey {
    let templates = profiles_of(config.key_template_set);
    let options = mode_options_of(&config);
    let lengths = config.key_multi_scale_lengths@;
    let sums = scale_sums(
        chroma,
        templates,
        weights,
        options,
        clamp_unit(config.key_multi_scale_min_clarity),
        lengths,
        scale_weights_of(config),
        if config.key_multi_scale_hop >= 1 {
            config.key_multi_scale_hop as int
        } else {
            1
        },
        lengths.len(),
    );
    track_key_from(
        multi_scale_error(chroma, weights, lengths, sums),
        multi_scale_detection(chroma, templates, weights, options, sums),
    )
}

/// The key by all frames.
pub open spec fn whole_key(
    chroma: Seq<Vec<F32>>,
    weights: Option<Seq<F32>>,
    config: AnalysisConfig,
) -> TrackKey {
    track_key_from(
        chroma_error(chroma, weights),
        optional_detection(
            chroma,
            profiles_of(config.key_template_set),
            weights,
            mode_options_of(&config),
        ),
    )
}

/// The key by segments of one length; by all frames where no segment is clear
/// enough. A segment that cannot be used is an error.
pub open spec fn segments_key(
    chroma: Seq<Vec<F32>>,
    weights: Option<Seq<F32>>,
    config: AnalysisConfig,
) -> Outcome<TrackKey> {
    let sums = with_segments(
        no_segments(),
        chroma,
        profiles_of(config.key_template_set),
        weights,
        mode_options_of(&config),
        clamp_unit(config.key_segment_min_clarity),
        None,
        config.key_segment_len_frames as int,
        voting_hop(&config) as int,
        0,
    );
    match sums.error {
        Some(msg) => Outcome::Invalid(msg),
        None => if sums.used {
            Outcome::Value(track_key_from(None, first_detection(ranked(table_of(sums.scores)))))
        } else {
            Outcome::Value(whole_key(chroma, weights, config))
        },
    }
}

/// The key of a track.
pub open spec fn track_key_of(
    chroma: Seq<Vec<F32>>,
    weights: Option<Seq<F32>>,
    config: AnalysisConfig,
) -> Outcome<TrackKey> {
    match key_method_of(config, chroma.len()) {
        KeyMethod::Ensemble => Outcome::Value(ensemble_key(chroma, weights, config)),
        KeyMethod::MultiScale => Outcome::Value(multi_scale_key(chroma, weights, config)),
        KeyMethod::Segments => segments_key(chroma, weights, config),
        KeyMethod::AllFrames => Outcome::Value(whole_key(chroma, weights, config)),
    }
}

/// Detects the key of a track as the settings say. A key is unknown where the
/// detection failed.
pub fn detect_track_key(chroma: &[Vec<F32>], weights: Option<&[F32]>, config: &AnalysisConfig) -> (r: Result<
    TrackKey,
    AnalysisError,
>)
    requires
        weights is Some ==> weights->Some_0@.len() == chroma@.len(),
    ensures
        gives_plain(r, track_key_of(chroma@, weights_of(weights), *config)),
{
    let method = key_method(config, chroma.len());
    if method == KeyMethod::Ensemble {
        let ghost total: F32 = config.key_ensemble_kk_weight + config.key_ensemble_temperley_weight;
        return Ok(
            take_key(
                detect_key_ensemble(
                    chroma,
                    weights,
                    config.key_ensemble_kk_weight,
                    config.key_ensemble_temperley_weight,
                ),
                Ghost(chroma_error(chroma@, weights_of(weights))),
                Ghost(
                    combined_detection(
                        weighted_detection(
                            chroma@,
                            profiles_of(TemplateSet::KrumhanslKessler),
                            weights_of(weights),
                        ),
                        weighted_detection(
                            chroma@,
                            profiles_of(TemplateSet::Temperley),
                            weights_of(weights),
                        ),
                        share(config.key_ensemble_kk_weight, total),
                        share(config.key_ensemble_temperley_weight, total),
                    ),
                ),
            ),
        );
    }
    let templates = KeyTemplates::new_with_template_set(config.key_template_set);
    let options = mode_options_of(config);
    let ghost whole: Detection = optional_detection(
        chroma@,
        templates.profiles(),
        weights_of(weights),
        options,
    );
    if method == KeyMethod::MultiScale {
        let scale_weights = if config.key_multi_scale_weights.len() == 0 {
            None
        } else {
            Some(config.key_multi_scale_weights.as_slice())
        };
        let found = detect_key_multi_scale(
            chroma,
            &templates,
            weights,
            config.key_multi_scale_lengths.as_slice(),
            config.key_multi_scale_hop,
            clamp_unit(config.key_multi_scale_min_clarity),
            scale_weights,
            config.enable_key_mode_heuristic,
            config.key_mode_third_ratio_margin,
            config.key_mode_flip_min_score_ratio,
            config.enable_key_minor_harmonic_bonus,
            config.key_minor_leading_tone_bonus_weight,
        );
        let ghost sums = scale_sums(
            chroma@,
            templates.profiles(),
            weights_of(weights),
            options,
            clamp_unit(config.key_multi_scale_min_clarity),
            config.key_multi_scale_lengths@,
            scale_weights_of(*config),
            if config.key_multi_scale_hop >= 1 {
                config.key_multi_scale_hop as int
            } else {
                1
            },
            config.key_multi_scale_lengths@.len(),
        );
        return Ok(
            take_key(
                found,
                Ghost(
                    multi_scale_error(
                        chroma@,
                        weights_of(weights),
                        config.key_multi_scale_lengths@,
                        sums,
                    ),
                ),
                Ghost(
                    multi_scale_detection(
                        chroma@,
                        templates.profiles(),
                        weights_of(weights),
                        options,
                        sums,
                    ),
                ),
            ),
        );
    }
    if method == KeyMethod::Segments {
        let ghost sums = with_segments(
            no_segments(),
            chroma@,
            templates.profiles(),
            weights_of(weights),
            options,
            clamp_unit(config.key_segment_min_clarity),
            None,
            config.key_segment_len_frames as int,
            voting_hop(config) as int,
            0,
        );
        return match detect_key_by_segments(
            chroma,
            &templates,
            weights,
            options,
            clamp_unit(config.key_segment_min_clarity),
            config.key_segment_len_frames,
            voting_hop(config),
        ) {
            Err(e) => Err(e),
            Ok(found) => Ok(
                take_key(
                    found,
                    Ghost(
                        if sums.used {
                            None
                        } else {
                            chroma_error(chroma@, weights_of(weights))
                        },
                    ),
                    Ghost(
                        if sums.used {
                            first_detection(ranked(table_of(sums.scores)))
                        } else {
                            whole
                        },
                    ),
                ),
            ),
        };
    }
    Ok(
        take_key(
            detect_key_with_options(chroma, &templates, weights, options),
            Ghost(chroma_error(chroma@, weights_of(weights))),
            Ghost(whole),
        ),
    )
}


/// The band that the key is looked for in: its lowest and highest frequency in Hz.
#[verifier::allow_in_spec]
pub fn key_band() -> (F32, F32)
    returns
        (ratio(100, 1), ratio(5000, 1)),
{
    (ratio(100, 1), ratio(5000, 1))
}

/// How the medians of a mask are taken.
#[verifier::allow_in_spec]
pub fn median_mask_options_of(config: &AnalysisConfig, sample_rate: u32, fft_size: usize) -> MedianMaskOptions
    returns
        (MedianMaskOptions {
            sample_rate,
            fft_size,
            fmin_hz: key_band().0,
            fmax_hz: key_band().1,
            frame_step: config.key_hpss_frame_step,
            time_margin: config.key_hpss_time_margin,
            freq_margin: config.key_hpss_freq_margin,
        }),
{
    MedianMaskOptions {
        sample_rate,
        fft_size,
        fmin_hz: key_band().0,
        fmax_hz: key_band().1,
        frame_step: config.key_hpss_frame_step,
        time_margin: config.key_hpss_time_margin,
        freq_margin: config.key_hpss_freq_margin,
    }
}

/// How the tuning is estimated: from 80 to 2000 Hz.
#[verifier::allow_in_spec]
pub fn tuning_options_of(config: &AnalysisConfig, sample_rate: u32, fft_size: usize) -> TuningOptions
    returns
        (TuningOptions {
            sample_rate,
            fft_size,
            fmin_hz: ratio(80, 1),
            fmax_hz: ratio(2000, 1),
            frame_step: config.key_tuning_frame_step,
            peak_rel_threshold: config.key_tuning_peak_rel_threshold,
        }),
{
    TuningOptions {
        sample_rate,
        fft_size,
        fmin_hz: ratio(80, 1),
        fmax_hz: ratio(2000, 1),
        frame_step: config.key_tuning_frame_step,
        peak_rel_threshold: config.key_tuning_peak_rel_threshold,
    }
}

/// How profiles are made.
#[verifier::allow_in_spec]
pub fn hpcp_options_of(config: &AnalysisConfig, sample_rate: u32, fft_size: usize) -> HpcpOptions
    returns
        (HpcpOptions {
            sample_rate,
            fft_size,
            peaks_per_frame: config.key_hpcp_peaks_per_frame,
            num_harmonics: config.key_hpcp_num_harmonics,
            enable_whitening: config.enable_key_hpcp_whitening,
            whitening_smooth_bins: config.key_hpcp_whitening_smooth_bins,
            fmin_hz: key_band().0,
            fmax_hz: key_band().1,
        }),
{
    HpcpOptions {
        sample_rate,
        fft_size,
        peaks_per_frame: config.key_hpcp_peaks_per_frame,
        num_harmonics: config.key_hpcp_num_harmonics,
        enable_whitening: config.enable_key_hpcp_whitening,
        whitening_smooth_bins: config.key_hpcp_whitening_smooth_bins,
        fmin_hz: key_band().0,
        fmax_hz: key_band().1,
    }
}

/// How profiles of the bass are made: from fewer peaks, in a band of their own.
#[verifier::allow_in_spec]
pub fn bass_options_of(config: &AnalysisConfig, sample_rate: u32, fft_size: usize) -> HpcpOptions
    returns
        (HpcpOptions {
            peaks_per_frame: bass_peaks(config.key_hpcp_peaks_per_frame),
            fmin_hz: config.key_hpcp_bass_fmin_hz,
            fmax_hz: config.key_hpcp_bass_fmax_hz,
            ..hpcp_options_of(config, sample_rate, fft_size)
        }),
{
    HpcpOptions {
        peaks_per_frame: bass_peaks(config.key_hpcp_peaks_per_frame),
        fmin_hz: config.key_hpcp_bass_fmin_hz,
        fmax_hz: config.key_hpcp_bass_fmax_hz,
        ..hpcp_options_of(config, sample_rate, fft_size)
    }
}

} // verus!
