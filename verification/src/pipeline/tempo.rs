//! Which tempo an analysis settles on.
use crate::analysis::result::TempoCandidateDebug;
use crate::config::AnalysisConfig;
use crate::error::AnalysisError;
use crate::error::Outcome;
use crate::error::gives_plain;
use crate::features::period::laws::lemma_fused_tempo_above_zero;
use crate::features::period::laws::lemma_tempogram_tempo_above_zero;
use crate::features::period::legacy::LegacyBpmGuardrails;
use crate::features::period::legacy::bpm_search;
use crate::features::period::legacy::estimate_bpm;
use crate::features::period::legacy::estimate_bpm_with_guardrails;
use crate::features::period::multi_resolution::FusionOptions;
use crate::features::period::multi_resolution::fusion;
use crate::features::period::multi_resolution::fusion_tolerance;
use crate::features::period::tempogram::TempoSearch;
use crate::features::period::tempogram::TempogramCandidateDebug;
use crate::features::period::tempogram::curves_selection;
use crate::features::period::tempogram_curves::TempoCurve;
use crate::features::period::tempogram_curves::TempogramBandFusionConfig;
use crate::features::period::tempogram_curves::curve_views;
use crate::features::period::types::BpmEstimate;
use crate::float::F32;
use crate::float::clamp_unit;
use crate::float::one;
use crate::float::ratio;
use crate::float::zero;
use crate::float_laws::lemma_zero_and_one;
use vstd::prelude::*;

verus! {

/// How tempos from the onsets are weighed by their range.
#[verifier::allow_in_spec]
pub fn guardrails_of(config: &AnalysisConfig) -> LegacyBpmGuardrails
    returns
        (LegacyBpmGuardrails {
            preferred_min: config.legacy_bpm_preferred_min,
            preferred_max: config.legacy_bpm_preferred_max,
            soft_min: config.legacy_bpm_soft_min,
            soft_max: config.legacy_bpm_soft_max,
            mul_preferred: config.legacy_bpm_conf_mul_preferred,
            mul_soft: config.legacy_bpm_conf_mul_soft,
            mul_extreme: config.legacy_bpm_conf_mul_extreme,
        }),
{
    LegacyBpmGuardrails {
        preferred_min: config.legacy_bpm_preferred_min,
        preferred_max: config.legacy_bpm_preferred_max,
        soft_min: config.legacy_bpm_soft_min,
        soft_max: config.legacy_bpm_soft_max,
        mul_preferred: config.legacy_bpm_conf_mul_preferred,
        mul_soft: config.legacy_bpm_conf_mul_soft,
        mul_extreme: config.legacy_bpm_conf_mul_extreme,
    }
}

/// Estimates the tempo from the onsets; fewer than two give none. `acf` and the
/// tolerance are those of the estimate itself.
pub fn estimate_from_onsets(
    onsets: &[usize],
    sample_rate: u32,
    config: &AnalysisConfig,
    acf: &[F32],
    octave_tolerance_ratio: F32,
) -> (r: Result<Option<BpmEstimate>, AnalysisError>)
    ensures
        gives_plain(
            r,
            if onsets@.len() < 2 {
                Outcome::Value(None)
            } else {
                bpm_search(
                    onsets@,
                    sample_rate,
                    config.hop_size,
                    config.min_bpm,
                    config.max_bpm,
                    config.bpm_resolution,
                    acf@,
                    octave_tolerance_ratio,
                    if config.enable_legacy_bpm_guardrails {
                        Some(guardrails_of(config))
                    } else {
                        None
                    },
                )
            },
        ),
{
    if onsets.len() < 2 {
        Ok(None)
    } else if config.enable_legacy_bpm_guardrails {
        estimate_bpm_with_guardrails(
            onsets,
            sample_rate,
            config.hop_size,
            config.min_bpm,
            config.max_bpm,
            config.bpm_resolution,
            guardrails_of(config),
            acf,
            octave_tolerance_ratio,
        )
    } else {
        estimate_bpm(
            onsets,
            sample_rate,
            config.hop_size,
            config.min_bpm,
            config.max_bpm,
            config.bpm_resolution,
            acf,
            octave_tolerance_ratio,
        )
    }
}

/// How tempograms of bands are made and combined.
#[verifier::allow_in_spec]
pub fn band_fusion_of(config: &AnalysisConfig) -> TempogramBandFusionConfig
    returns
        (TempogramBandFusionConfig {
            enabled: config.enable_tempogram_band_fusion,
            low_max_hz: config.tempogram_band_low_max_hz,
            mid_max_hz: config.tempogram_band_mid_max_hz,
            high_max_hz: config.tempogram_band_high_max_hz,
            w_full: config.tempogram_band_w_full,
            w_low: config.tempogram_band_w_low,
            w_mid: config.tempogram_band_w_mid,
            w_high: config.tempogram_band_w_high,
            seed_only: config.tempogram_band_seed_only,
            support_threshold: config.tempogram_band_support_threshold,
            consensus_bonus: config.tempogram_band_consensus_bonus,
            enable_mel: config.enable_tempogram_mel_novelty,
            mel_n_mels: config.tempogram_mel_n_mels,
            mel_fmin_hz: config.tempogram_mel_fmin_hz,
            mel_fmax_hz: config.tempogram_mel_fmax_hz,
            mel_max_filter_bins: config.tempogram_mel_max_filter_bins,
            w_mel: config.tempogram_mel_weight,
            novelty_w_spectral: config.tempogram_novelty_w_spectral,
            novelty_w_energy: config.tempogram_novelty_w_energy,
            novelty_w_hfc: config.tempogram_novelty_w_hfc,
            novelty_local_mean_window: config.tempogram_novelty_local_mean_window,
            novelty_smooth_window: config.tempogram_novelty_smooth_window,
            debug_track_id: config.debug_track_id,
            debug_gt_bpm: config.debug_gt_bpm,
            debug_top_n: config.debug_top_n,
            superflux_max_filter_bins: config.tempogram_superflux_max_filter_bins,
        }),
{
    TempogramBandFusionConfig {
        enabled: config.enable_tempogram_band_fusion,
        low_max_hz: config.tempogram_band_low_max_hz,
        mid_max_hz: config.tempogram_band_mid_max_hz,
        high_max_hz: config.tempogram_band_high_max_hz,
        w_full: config.tempogram_band_w_full,
        w_low: config.tempogram_band_w_low,
        w_mid: config.tempogram_band_w_mid,
        w_high: config.tempogram_band_w_high,
        seed_only: config.tempogram_band_seed_only,
        support_threshold: config.tempogram_band_support_threshold,
        consensus_bonus: config.tempogram_band_consensus_bonus,
        enable_mel: config.enable_tempogram_mel_novelty,
        mel_n_mels: config.tempogram_mel_n_mels,
        mel_fmin_hz: config.tempogram_mel_fmin_hz,
        mel_fmax_hz: config.tempogram_mel_fmax_hz,
        mel_max_filter_bins: config.tempogram_mel_max_filter_bins,
        w_mel: config.tempogram_mel_weight,
        novelty_w_spectral: config.tempogram_novelty_w_spectral,
        novelty_w_energy: config.tempogram_novelty_w_energy,
        novelty_w_hfc: config.tempogram_novelty_w_hfc,
        novelty_local_mean_window: config.tempogram_novelty_local_mean_window,
        novelty_smooth_window: config.tempogram_novelty_smooth_window,
        debug_track_id: config.debug_track_id,
        debug_gt_bpm: config.debug_gt_bpm,
        debug_top_n: config.debug_top_n,
        superflux_max_filter_bins: config.tempogram_superflux_max_filter_bins,
    }
}

/// A tempogram is made: it is not ruled out, and there is a spectrogram.
#[verifier::allow_in_spec]
pub fn wants_tempogram(config: &AnalysisConfig, n_frames: usize) -> bool
    returns
        !config.force_legacy_bpm && n_frames > 0,
{
    !config.force_legacy_bpm && n_frames > 0
}

/// The tempogram is made from more than the full spectrum, or rewards agreement.
#[verifier::allow_in_spec]
pub fn uses_bands(config: &AnalysisConfig) -> bool
    returns
        config.enable_tempogram_band_fusion || config.enable_tempogram_mel_novelty
            || config.tempogram_band_consensus_bonus > zero(),
{
    config.enable_tempogram_band_fusion || config.enable_tempogram_mel_novelty
        || config.tempogram_band_consensus_bonus > zero()
}

/// How many candidates a tempogram lists: what is handed out, or as many as the
/// look at several resolutions needs.
#[verifier::allow_in_spec]
pub fn listed_candidates(config: &AnalysisConfig) -> usize
    returns
        (if !config.enable_tempogram_multi_resolution {
            config.tempogram_candidates_top_n
        } else if config.tempogram_candidates_top_n >= config.tempogram_multi_res_top_k
            && config.tempogram_candidates_top_n >= 10 {
            config.tempogram_candidates_top_n
        } else if config.tempogram_multi_res_top_k >= 10 {
            config.tempogram_multi_res_top_k
        } else {
            10
        }),
{
    if !config.enable_tempogram_multi_resolution {
        config.tempogram_candidates_top_n
    } else if config.tempogram_candidates_top_n >= config.tempogram_multi_res_top_k
        && config.tempogram_candidates_top_n >= 10 {
        config.tempogram_candidates_top_n
    } else if config.tempogram_multi_res_top_k >= 10 {
        config.tempogram_multi_res_top_k
    } else {
        10
    }
}

/// A slow tempo that is often half the true one.
#[verifier::allow_in_spec]
pub fn in_low_trap(bpm: F32) -> bool
    returns
        bpm >= ratio(55, 1) && bpm <= ratio(80, 1),
{
    bpm >= ratio(55, 1) && bpm <= ratio(80, 1)
}

/// A fast tempo that is often twice the true one.
#[verifier::allow_in_spec]
pub fn in_high_trap(bpm: F32) -> bool
    returns
        bpm >= ratio(170, 1) && bpm <= ratio(200, 1),
{
    bpm >= ratio(170, 1) && bpm <= ratio(200, 1)
}

/// The greatest score among the first `n` candidates within `tolerance` of a tempo.
pub open spec fn support_near(
    c: Seq<TempogramCandidateDebug>,
    bpm: F32,
    tolerance: F32,
    n: nat,
) -> F32
    decreases n,
{
    if n == 0 {
        zero()
    } else {
        let best = support_near(c, bpm, tolerance, (n - 1) as nat);
        if (c[n - 1].bpm - bpm).abs() <= tolerance {
            best.max(c[n - 1].score)
        } else {
            best
        }
    }
}

fn find_support_near(c: &[TempogramCandidateDebug], bpm: F32, tolerance: F32) -> (r: F32)
    ensures
        r == support_near(c@, bpm, tolerance, c@.len()),
{
    let mut best = zero();
    let mut i: usize = 0;
    while i < c.len()
        invariant
            i <= c.len(),
            best == support_near(c@, bpm, tolerance, i as nat),
        decreases c.len() - i,
    {
        if (c[i].bpm - bpm).abs() <= tolerance {
            best = best.max(c[i].score);
        }
        i = i + 1;
    }
    best
}

/// Support that nearly reaches that of the tempo found.
#[verifier::allow_in_spec]
pub fn competes(support: F32, base_support: F32) -> bool
    returns
        support > zero() && support >= base_support * ratio(90, 100),
{
    support > zero() && support >= base_support * ratio(90, 100)
}

/// A tempo that little speaks for, and whose double lies where doubles trap.
#[verifier::allow_in_spec]
pub fn may_be_half(base: BpmEstimate) -> bool
    returns
        (base.method_agreement == 0 || base.confidence < ratio(6, 100)) && in_high_trap(
            base.bpm * ratio(2, 1),
        ),
{
    (base.method_agreement == 0 || base.confidence < ratio(6, 100)) && in_high_trap(
        base.bpm * ratio(2, 1),
    )
}

/// The tempo found may be half or twice the true one: it lies in a trap, twice or
/// half of it has nearly as much support, or it is weak and folds into a trap.
pub open spec fn ambiguous(base: BpmEstimate, c: Seq<TempogramCandidateDebug>, resolution: F32) -> bool {
    let tolerance = ratio(2, 1).max(resolution);
    let support = support_near(c, base.bpm, tolerance, c.len());
    let double = support_near(c, base.bpm * ratio(2, 1), tolerance, c.len());
    let half = support_near(c, base.bpm * ratio(5, 10), tolerance, c.len());
    in_low_trap(base.bpm) || in_high_trap(base.bpm) || competes(double, support) || competes(
        half,
        support,
    ) || may_be_half(base)
}

pub fn is_ambiguous(base: BpmEstimate, candidates: &[TempogramCandidateDebug], resolution: F32) -> (r: bool)
    ensures
        r == ambiguous(base, candidates@, resolution),
{
    let tolerance = ratio(2, 1).max(resolution);
    let support = find_support_near(candidates, base.bpm, tolerance);
    let double = find_support_near(candidates, base.bpm * ratio(2, 1), tolerance);
    let half = find_support_near(candidates, base.bpm * ratio(5, 10), tolerance);
    in_low_trap(base.bpm) || in_high_trap(base.bpm) || competes(double, support) || competes(
        half,
        support,
    ) || may_be_half(base)
}

/// How many times the greater of two tempos is the other.
#[verifier::allow_in_spec]
pub fn tempo_ratio(bpm: F32, other: F32) -> F32
    returns
        (if bpm > ratio(1, 1_000_000) {
            (other / bpm).max(bpm / other)
        } else {
            one()
        }),
{
    if bpm > ratio(1, 1_000_000) {
        (other / bpm).max(bpm / other)
    } else {
        one()
    }
}

#[verifier::allow_in_spec]
pub fn is_about(x: F32, target: F32) -> bool
    returns
        (x - target).abs() < ratio(5, 100),
{
    (x - target).abs() < ratio(5, 100)
}

/// One tempo is about twice, three halves or four thirds of the other.
#[verifier::allow_in_spec]
pub fn is_family(rel: F32) -> bool
    returns
        is_about(rel, ratio(2, 1)) || is_about(rel, ratio(15, 10)) || is_about(rel, ratio(4, 3)),
{
    is_about(rel, ratio(2, 1)) || is_about(rel, ratio(15, 10)) || is_about(rel, ratio(4, 3))
}

/// The same with two thirds and three quarters, either way round.
#[verifier::allow_in_spec]
pub fn is_wide_family(rel: F32) -> bool
    returns
        is_family(rel) || is_about(rel, ratio(2, 3)) || is_about(rel, ratio(75, 100)),
{
    is_family(rel) || is_about(rel, ratio(2, 3)) || is_about(rel, ratio(75, 100))
}

/// A moderate tempo would give way to a fast one.
#[verifier::allow_in_spec]
pub fn turns_fast(from: F32, to: F32) -> bool
    returns
        from <= ratio(180, 1) && to > ratio(180, 1),
{
    from <= ratio(180, 1) && to > ratio(180, 1)
}

#[verifier::allow_in_spec]
pub fn is_common_tempo(bpm: F32) -> bool
    returns
        bpm >= ratio(70, 1) && bpm <= ratio(180, 1),
{
    bpm >= ratio(70, 1) && bpm <= ratio(180, 1)
}

/// The tempo found at several resolutions replaces that found at one: it is more
/// confident, or more agree on it, or it is a relative that leads out of a trap.
/// It never turns a moderate tempo into a fast one.
#[verifier::allow_in_spec]
pub fn replaces_base(base: BpmEstimate, other: BpmEstimate) -> bool
    returns
        !turns_fast(base.bpm, other.bpm) && (other.confidence >= base.confidence + ratio(5, 100)
            || (other.method_agreement > base.method_agreement && other.confidence
            >= base.confidence * ratio(90, 100)) || ((in_low_trap(base.bpm) || in_high_trap(
            base.bpm,
        )) && is_family(tempo_ratio(base.bpm, other.bpm)) && other.confidence >= base.confidence
            * ratio(88, 100) && (is_common_tempo(other.bpm) || base.bpm > ratio(180, 1)))),
{
    !turns_fast(base.bpm, other.bpm) && (other.confidence >= base.confidence + ratio(5, 100) || (
    other.method_agreement > base.method_agreement && other.confidence >= base.confidence * ratio(
        90,
        100,
    )) || ((in_low_trap(base.bpm) || in_high_trap(base.bpm)) && is_family(
        tempo_ratio(base.bpm, other.bpm),
    ) && other.confidence >= base.confidence * ratio(88, 100) && (is_common_tempo(other.bpm)
        || base.bpm > ratio(180, 1))))
}

/// The tempo of the percussive part replaces the one chosen so far: it is a common
/// tempo, a relative, and confident enough. It never turns a moderate tempo into a
/// fast one.
#[verifier::allow_in_spec]
pub fn percussive_replaces(base: BpmEstimate, chosen: BpmEstimate, other: BpmEstimate) -> bool
    returns
        !turns_fast(chosen.bpm, other.bpm) && is_wide_family(tempo_ratio(chosen.bpm, other.bpm))
            && is_common_tempo(other.bpm) && (other.confidence >= chosen.confidence + ratio(4, 100)
            || ((in_low_trap(base.bpm) || base.bpm < ratio(95, 1)) && other.confidence
            >= chosen.confidence * ratio(85, 100)) || (other.method_agreement
            > chosen.method_agreement && other.confidence >= chosen.confidence * ratio(92, 100))),
{
    !turns_fast(chosen.bpm, other.bpm) && is_wide_family(tempo_ratio(chosen.bpm, other.bpm))
        && is_common_tempo(other.bpm) && (other.confidence >= chosen.confidence + ratio(4, 100) || ((
    in_low_trap(base.bpm) || base.bpm < ratio(95, 1)) && other.confidence >= chosen.confidence
        * ratio(85, 100)) || (other.method_agreement > chosen.method_agreement && other.confidence
        >= chosen.confidence * ratio(92, 100)))
}

/// What a tempogram gives.
#[derive(Debug, Clone)]
pub struct TempogramRun {
    /// The tempo
    pub estimate: BpmEstimate,
    /// The candidates it was chosen from
    pub candidates: Vec<TempogramCandidateDebug>,
}

/// Which tempogram decides.
#[derive(Debug, Clone, Copy, PartialEq, Eq, Structural)]
pub enum TempogramSource {
    /// That of the main hop
    Base,
    /// That of several resolutions
    MultiResolution,
    /// That of the percussive part
    Percussive,
}

/// The percussive part of a track is looked at too.
pub open spec fn percussive_wanted(base: TempogramRun, fallback: bool) -> bool {
    fallback && percussive_triggered(base)
}

/// An ambiguous tempo is a slow one.
pub open spec fn percussive_triggered(base: TempogramRun) -> bool {
    in_low_trap(base.estimate.bpm)
}

/// The estimate after the look at several resolutions.
pub open spec fn after_resolutions(
    base: TempogramRun,
    multi: Option<TempogramRun>,
    resolution: F32,
) -> BpmEstimate {
    if multi_used(base, multi, resolution) {
        multi->Some_0.estimate
    } else {
        base.estimate
    }
}

/// The look at several resolutions decides: the tempo is ambiguous, and another
/// was found that replaces it.
pub open spec fn multi_used(base: TempogramRun, multi: Option<TempogramRun>, resolution: F32) -> bool {
    ambiguous(base.estimate, base.candidates@, resolution) && multi is Some && replaces_base(
        base.estimate,
        multi->Some_0.estimate,
    )
}

/// The percussive part decides.
pub open spec fn percussive_used(
    base: TempogramRun,
    multi: Option<TempogramRun>,
    percussive: Option<TempogramRun>,
    fallback: bool,
    resolution: F32,
) -> bool {
    percussive_wanted(base, fallback) && percussive is Some && percussive_replaces(
        base.estimate,
        after_resolutions(base, multi, resolution),
        percussive->Some_0.estimate,
    )
}

/// The tempo is looked at at several resolutions: that is asked for, and the tempo
/// is ambiguous.
pub fn wants_resolutions(base: &TempogramRun, config: &AnalysisConfig) -> (r: bool)
    ensures
        r == (config.enable_tempogram_multi_resolution && ambiguous(
            base.estimate,
            base.candidates@,
            config.bpm_resolution,
        )),
{
    config.enable_tempogram_multi_resolution && is_ambiguous(
        base.estimate,
        base.candidates.as_slice(),
        config.bpm_resolution,
    )
}

/// The percussive part is looked at: that is asked for, and the tempo is a slow one.
pub fn wants_percussive(base: &TempogramRun, config: &AnalysisConfig) -> (r: bool)
    ensures
        r == (config.enable_tempogram_multi_resolution && percussive_wanted(
            *base,
            config.enable_tempogram_percussive_fallback,
        )),
{
    config.enable_tempogram_multi_resolution && config.enable_tempogram_percussive_fallback
        && in_low_trap(base.estimate.bpm)
}

/// Which tempogram decides: that of the percussive part where it replaces the
/// others, else that of several resolutions where it replaces the first.
pub open spec fn deciding_source(
    base: TempogramRun,
    multi: Option<TempogramRun>,
    percussive: Option<TempogramRun>,
    fallback: bool,
    resolution: F32,
) -> TempogramSource {
    if percussive_used(base, multi, percussive, fallback, resolution) {
        TempogramSource::Percussive
    } else if multi_used(base, multi, resolution) {
        TempogramSource::MultiResolution
    } else {
        TempogramSource::Base
    }
}

pub open spec fn run_of(
    source: TempogramSource,
    base: TempogramRun,
    multi: Option<TempogramRun>,
    percussive: Option<TempogramRun>,
) -> TempogramRun {
    match source {
        TempogramSource::Base => base,
        TempogramSource::MultiResolution => multi->Some_0,
        TempogramSource::Percussive => percussive->Some_0,
    }
}

/// A candidate as it is handed out.
#[verifier::allow_in_spec]
pub fn shown_candidate(c: TempogramCandidateDebug) -> TempoCandidateDebug
    returns
        (TempoCandidateDebug {
            bpm: c.bpm,
            score: c.score,
            fft_norm: c.fft_norm,
            autocorr_norm: c.autocorr_norm,
            selected: c.selected,
        }),
{
    TempoCandidateDebug {
        bpm: c.bpm,
        score: c.score,
        fft_norm: c.fft_norm,
        autocorr_norm: c.autocorr_norm,
        selected: c.selected,
    }
}

pub open spec fn shown_candidates(c: Seq<TempogramCandidateDebug>) -> Seq<TempoCandidateDebug> {
    Seq::new(c.len(), |i: int| shown_candidate(c[i]))
}

fn show_candidates(c: &[TempogramCandidateDebug]) -> (r: Vec<TempoCandidateDebug>)
    ensures
        r@ == shown_candidates(c@),
{
    let mut r: Vec<TempoCandidateDebug> = Vec::new();
    let mut i: usize = 0;
    while i < c.len()
        invariant
            i <= c.len(),
            r@.len() == i,
            forall|k: int| 0 <= k < i ==> r@[k] == shown_candidate(c@[k]),
        decreases c.len() - i,
    {
        r.push(shown_candidate(c[i]));
        i = i + 1;
    }
    assert(r@ =~= shown_candidates(c@));
    r
}

/// What the tempograms of a track come to.
#[derive(Debug, Clone)]
pub struct TempogramChoice {
    /// The tempo, where there is one
    pub estimate: Option<BpmEstimate>,
    /// The candidates, where they are handed out
    pub candidates: Option<Vec<TempoCandidateDebug>>,
    /// Whether the tempo was ambiguous
    pub multi_res_triggered: Option<bool>,
    /// Whether several resolutions decided
    pub multi_res_used: Option<bool>,
    /// Whether the percussive part was worth a look
    pub percussive_triggered: Option<bool>,
    /// Whether the percussive part decided
    pub percussive_used: Option<bool>,
}

impl TempogramChoice {
    /// Nothing was found.
    pub open spec fn is_nothing(self) -> bool {
        self.estimate is None && self.candidates is None && self.multi_res_triggered is None
            && self.multi_res_used is None && self.percussive_triggered is None
            && self.percussive_used is None
    }

    /// The candidates are handed out where they are asked for.
    pub open spec fn shows(self, c: Seq<TempogramCandidateDebug>, config: AnalysisConfig) -> bool {
        if config.emit_tempogram_candidates {
            self.candidates is Some && self.candidates->Some_0@ == shown_candidates(c)
        } else {
            self.candidates is None
        }
    }
}

/// The estimate that up to three tempograms settle on.
pub open spec fn settled_estimate(
    base: Option<TempogramRun>,
    multi: Option<TempogramRun>,
    percussive: Option<TempogramRun>,
    config: AnalysisConfig,
) -> Option<BpmEstimate> {
    settled_run(
        base,
        multi,
        percussive,
        config.enable_tempogram_multi_resolution,
        config.enable_tempogram_percussive_fallback,
        config.bpm_resolution,
    )
}

/// The estimate that up to three tempograms settle on, where several resolutions
/// and the percussive part are looked at or not.
pub open spec fn settled_run(
    base: Option<TempogramRun>,
    multi: Option<TempogramRun>,
    percussive: Option<TempogramRun>,
    resolutions: bool,
    fallback: bool,
    resolution: F32,
) -> Option<BpmEstimate> {
    match base {
        None => None,
        Some(b) => if resolutions {
            Some(
                run_of(
                    deciding_source(b, multi, percussive, fallback, resolution),
                    b,
                    multi,
                    percussive,
                ).estimate,
            )
        } else {
            Some(b.estimate)
        },
    }
}

/// Settles on one of up to three tempograms. Where the tempo is not looked at
/// further, that of the main hop stands. `multi` and `percussive` are None where
/// they failed or were not made.
pub fn settle_tempogram(
    base: Option<TempogramRun>,
    multi: Option<TempogramRun>,
    percussive: Option<TempogramRun>,
    config: &AnalysisConfig,
) -> (r: TempogramChoice)
    ensures
        r.estimate == settled_estimate(base, multi, percussive, *config),
        match base {
            None => r.is_nothing(),
            Some(b) => if config.enable_tempogram_multi_resolution {
                let run = run_of(
                    deciding_source(
                        b,
                        multi,
                        percussive,
                        config.enable_tempogram_percussive_fallback,
                        config.bpm_resolution,
                    ),
                    b,
                    multi,
                    percussive,
                );
                &&& r.shows(run.candidates@, *config)
                &&& r.multi_res_triggered == Some(
                    ambiguous(b.estimate, b.candidates@, config.bpm_resolution),
                )
                &&& r.multi_res_used == Some(multi_used(b, multi, config.bpm_resolution))
                &&& r.percussive_triggered == Some(percussive_triggered(b))
                &&& r.percussive_used == if config.enable_tempogram_percussive_fallback {
                    Some(percussive_used(b, multi, percussive, true, config.bpm_resolution))
                } else {
                    None
                }
            } else {
                &&& r.shows(b.candidates@, *config)
                &&& r.multi_res_triggered is None && r.multi_res_used is None
                &&& r.percussive_triggered is None && r.percussive_used is None
            },
        },
{
    let b = match base {
        None => {
            return TempogramChoice {
                estimate: None,
                candidates: None,
                multi_res_triggered: None,
                multi_res_used: None,
                percussive_triggered: None,
                percussive_used: None,
            };
        },
        Some(b) => b,
    };
    if !config.enable_tempogram_multi_resolution {
        let shown = if config.emit_tempogram_candidates {
            Some(show_candidates(b.candidates.as_slice()))
        } else {
            None
        };
        return TempogramChoice {
            estimate: Some(b.estimate),
            candidates: shown,
            multi_res_triggered: None,
            multi_res_used: None,
            percussive_triggered: None,
            percussive_used: None,
        };
    }
    let triggered = is_ambiguous(b.estimate, b.candidates.as_slice(), config.bpm_resolution);
    let mut chosen = b.estimate;
    let mut used_multi = false;
    if triggered {
        if let Some(m) = &multi {
            if replaces_base(b.estimate, m.estimate) {
                chosen = m.estimate;
                used_multi = true;
            }
        }
    }
    let needed = in_low_trap(b.estimate.bpm);
    let mut used_percussive = false;
    if config.enable_tempogram_percussive_fallback && needed {
        if let Some(p) = &percussive {
            if percussive_replaces(b.estimate, chosen, p.estimate) {
                chosen = p.estimate;
                used_percussive = true;
            }
        }
    }
    let shown = if !config.emit_tempogram_candidates {
        None
    } else if used_percussive {
        match &percussive {
            Some(p) => Some(show_candidates(p.candidates.as_slice())),
            None => None,
        }
    } else if used_multi {
        match &multi {
            Some(m) => Some(show_candidates(m.candidates.as_slice())),
            None => None,
        }
    } else {
        Some(show_candidates(b.candidates.as_slice()))
    };
    TempogramChoice {
        estimate: Some(chosen),
        candidates: shown,
        multi_res_triggered: Some(triggered),
        multi_res_used: Some(used_multi),
        percussive_triggered: Some(needed),
        percussive_used: if config.enable_tempogram_percussive_fallback {
            Some(used_percussive)
        } else {
            None
        },
    }
}

/// Tempo and confidence of an estimate; zeros where there is none.
#[verifier::allow_in_spec]
pub fn tempo_or_zero(e: Option<BpmEstimate>) -> (F32, F32)
    returns
        (match e {
            Some(e) => (e.bpm, e.confidence),
            None => (zero(), zero()),
        }),
{
    match e {
        Some(e) => (e.bpm, e.confidence),
        None => (zero(), zero()),
    }
}

/// The tempo from the onsets is that of the tempogram, or its half, double, two
/// thirds or three halves, within two BPM.
#[verifier::allow_in_spec]
pub fn confirms(from_onsets: F32, bpm: F32) -> bool
    returns
        from_onsets > zero() && ((from_onsets - bpm).abs() <= ratio(2, 1) || (from_onsets - bpm
            * ratio(5, 10)).abs() <= ratio(2, 1) || (from_onsets - bpm * ratio(2, 1)).abs()
            <= ratio(2, 1) || (from_onsets - bpm * ratio(2, 3)).abs() <= ratio(2, 1) || (from_onsets
            - bpm * ratio(15, 10)).abs() <= ratio(2, 1)),
{
    from_onsets > zero() && ((from_onsets - bpm).abs() <= ratio(2, 1) || (from_onsets - bpm * ratio(
        5,
        10,
    )).abs() <= ratio(2, 1) || (from_onsets - bpm * ratio(2, 1)).abs() <= ratio(2, 1) || (
    from_onsets - bpm * ratio(2, 3)).abs() <= ratio(2, 1) || (from_onsets - bpm * ratio(
        15,
        10,
    )).abs() <= ratio(2, 1))
}

/// The confidence of the tempogram once the tempo from the onsets has been heard.
#[verifier::allow_in_spec]
pub fn heard_confidence(confidence: F32, bpm: F32, from_onsets: (F32, F32)) -> F32
    returns
        (if confirms(from_onsets.0, bpm) {
            clamp_unit(clamp_unit(confidence) + ratio(12, 100) * clamp_unit(from_onsets.1))
        } else if from_onsets.0 > zero() {
            clamp_unit(clamp_unit(confidence) * ratio(90, 100))
        } else {
            clamp_unit(confidence)
        }),
{
    if confirms(from_onsets.0, bpm) {
        clamp_unit(clamp_unit(confidence) + ratio(12, 100) * clamp_unit(from_onsets.1))
    } else if from_onsets.0 > zero() {
        clamp_unit(clamp_unit(confidence) * ratio(90, 100))
    } else {
        clamp_unit(confidence)
    }
}

/// The tempo and its confidence that the onsets and the tempogram come to.
pub open spec fn tempo_of(
    from_onsets: Option<BpmEstimate>,
    tempogram: Option<BpmEstimate>,
    legacy: bool,
    fused: bool,
) -> (F32, F32) {
    if legacy {
        tempo_or_zero(from_onsets)
    } else if fused {
        if tempo_or_zero(tempogram).0 <= zero() {
            tempo_or_zero(from_onsets)
        } else {
            (
                tempo_or_zero(tempogram).0,
                heard_confidence(
                    tempo_or_zero(tempogram).1,
                    tempo_or_zero(tempogram).0,
                    tempo_or_zero(from_onsets),
                ),
            )
        }
    } else if tempogram is Some {
        tempo_or_zero(tempogram)
    } else {
        tempo_or_zero(from_onsets)
    }
}

/// The tempo of a track and its confidence; zeros where none was found. The
/// tempogram decides; the onsets confirm it where they are asked, and stand in
/// for it where it failed.
#[verifier::allow_in_spec]
pub fn settle_tempo(
    from_onsets: Option<BpmEstimate>,
    tempogram: Option<BpmEstimate>,
    config: &AnalysisConfig,
) -> (F32, F32)
    returns
        tempo_of(from_onsets, tempogram, config.force_legacy_bpm, config.enable_bpm_fusion),
{
    if config.force_legacy_bpm {
        tempo_or_zero(from_onsets)
    } else if config.enable_bpm_fusion {
        if tempo_or_zero(tempogram).0 <= zero() {
            tempo_or_zero(from_onsets)
        } else {
            (
                tempo_or_zero(tempogram).0,
                heard_confidence(
                    tempo_or_zero(tempogram).1,
                    tempo_or_zero(tempogram).0,
                    tempo_or_zero(from_onsets),
                ),
            )
        }
    } else if tempogram.is_some() {
        tempo_or_zero(tempogram)
    } else {
        tempo_or_zero(from_onsets)
    }
}

/// A tempo up to 180 BPM never gives way to a faster one by the look at several
/// resolutions or at the percussive part.
pub proof fn lemma_moderate_tempo_stays(
    base: TempogramRun,
    multi: Option<TempogramRun>,
    percussive: Option<TempogramRun>,
    fallback: bool,
    resolution: F32,
)
    requires
        base.estimate.bpm <= ratio(180, 1),
    ensures
        !(run_of(
            deciding_source(base, multi, percussive, fallback, resolution),
            base,
            multi,
            percussive,
        ).estimate.bpm > ratio(180, 1)),
{
}

/// What the tempogram of a track is searched for.
pub open spec fn search_of(config: AnalysisConfig, sample_rate: u32) -> TempoSearch {
    TempoSearch {
        sample_rate,
        hop_size: config.hop_size as u32,
        min_bpm: config.min_bpm,
        max_bpm: config.max_bpm,
        step: config.bpm_resolution,
    }
}

/// A run was not made, or is what a tempogram came to.
pub open spec fn is_run_of(
    run: Option<TempogramRun>,
    outcome: Outcome<(BpmEstimate, Seq<TempogramCandidateDebug>)>,
) -> bool {
    run matches Some(r) ==> (outcome matches Outcome::Value((estimate, _)) && r.estimate == estimate)
}

/// Up to three tempograms with tempos above zero settle on such a tempo.
proof fn lemma_settled_above_zero(
    base: Option<TempogramRun>,
    multi: Option<TempogramRun>,
    percussive: Option<TempogramRun>,
    outcomes: (
        Outcome<(BpmEstimate, Seq<TempogramCandidateDebug>)>,
        Outcome<(BpmEstimate, Seq<TempogramCandidateDebug>)>,
        Outcome<(BpmEstimate, Seq<TempogramCandidateDebug>)>,
    ),
    resolutions: bool,
    fallback: bool,
    resolution: F32,
)
    requires
        is_run_of(base, outcomes.0),
        is_run_of(multi, outcomes.1),
        is_run_of(percussive, outcomes.2),
        outcomes.0 matches Outcome::Value((e, _)) ==> zero() < e.bpm,
        base is Some ==> (outcomes.1 matches Outcome::Value((e, _)) ==> zero() < e.bpm),
        outcomes.2 matches Outcome::Value((e, _)) ==> zero() < e.bpm,
    ensures
        settled_run(base, multi, percussive, resolutions, fallback, resolution) matches Some(e)
            ==> zero() < e.bpm,
{
}

proof fn lemma_fusion_keeps_found_tempo(
    from_onsets: Option<BpmEstimate>,
    tempogram: Option<BpmEstimate>,
    legacy: bool,
    fused: bool,
)
    requires
        tempogram matches Some(e) ==> zero() < e.bpm,
    ensures
        tempo_of(from_onsets, tempogram, legacy, fused).0 == tempo_of(
            from_onsets,
            tempogram,
            legacy,
            false,
        ).0,
        !legacy && tempogram is Some ==> tempo_of(from_onsets, tempogram, legacy, fused).0
            == tempogram->Some_0.bpm,
{
    lemma_zero_and_one();
}

/// Fusion may change the confidence, never the tempo: with it and without it the
/// tempo is the same, whatever tempograms were made and whatever they found, and where
/// there is a tempogram and it is not ruled out, the tempo is the one it found.
#[verifier::spinoff_prover]
pub proof fn lemma_fusion_keeps_tempo(
    from_onsets: Option<BpmEstimate>,
    base: Option<TempogramRun>,
    multi: Option<TempogramRun>,
    percussive: Option<TempogramRun>,
    curves: Seq<TempoCurve>,
    percussive_curves: Seq<TempoCurve>,
    hops: (Seq<TempogramCandidateDebug>, Seq<TempogramCandidateDebug>, Seq<TempogramCandidateDebug>),
    novelty: Option<Seq<F32>>,
    sample_rate: u32,
    cfg: Option<TempogramBandFusionConfig>,
    config: AnalysisConfig,
)
    requires
        7 * (16 * curves.len() + 2) <= usize::MAX,
        7 * (16 * percussive_curves.len() + 2) <= usize::MAX,
        hops.1.len() <= usize::MAX,
        is_run_of(base, curves_selection(curve_views(curves), search_of(config, sample_rate), cfg)),
        is_run_of(
            multi,
            fusion(hops.0, hops.1, hops.2, novelty, sample_rate, fusion_options_of(&config)),
        ),
        is_run_of(
            percussive,
            curves_selection(curve_views(percussive_curves), search_of(config, sample_rate), cfg),
        ),
    ensures
        ({
            let on = AnalysisConfig { enable_bpm_fusion: true, ..config };
            let off = AnalysisConfig { enable_bpm_fusion: false, ..config };
            let found = settled_estimate(base, multi, percussive, config);
            &&& settled_estimate(base, multi, percussive, on) == found
            &&& settled_estimate(base, multi, percussive, off) == found
            &&& settle_tempo(from_onsets, found, &on).0 == settle_tempo(from_onsets, found, &off).0
            &&& !config.force_legacy_bpm && found is Some ==> settle_tempo(
                from_onsets,
                found,
                &config,
            ).0 == found->Some_0.bpm
        }),
{
    let found = settled_estimate(base, multi, percussive, config);
    let p = search_of(config, sample_rate);
    let o = fusion_options_of(&config);
    lemma_tempogram_tempo_above_zero(curves, p, cfg);
    lemma_tempogram_tempo_above_zero(percussive_curves, p, cfg);
    if base is Some {
        lemma_fused_tempo_above_zero(hops.0, hops.1, hops.2, novelty, sample_rate, o);
    }
    lemma_settled_above_zero(
        base,
        multi,
        percussive,
        (
            curves_selection(curve_views(curves), p, cfg),
            fusion(hops.0, hops.1, hops.2, novelty, sample_rate, o),
            curves_selection(curve_views(percussive_curves), p, cfg),
        ),
        config.enable_tempogram_multi_resolution,
        config.enable_tempogram_percussive_fallback,
        config.bpm_resolution,
    );
    lemma_fusion_keeps_found_tempo(from_onsets, found, config.force_legacy_bpm, true);
    lemma_fusion_keeps_found_tempo(
        from_onsets,
        found,
        config.force_legacy_bpm,
        config.enable_bpm_fusion,
    );
}

/// How far tempos an octave apart may be off, in cents.
#[verifier::allow_in_spec]
pub fn octave_tolerance_cents() -> F32
    returns
        ratio(50, 1),
{
    ratio(50, 1)
}

/// How tempograms of several resolutions are fused.
#[verifier::allow_in_spec]
pub fn fusion_options_of(config: &AnalysisConfig) -> FusionOptions
    returns
        (FusionOptions {
            min_bpm: config.min_bpm,
            max_bpm: config.max_bpm,
            tolerance: fusion_tolerance(config.bpm_resolution),
            w512: config.tempogram_multi_res_w512,
            w256: config.tempogram_multi_res_w256,
            w1024: config.tempogram_multi_res_w1024,
            double_time_512_factor: config.tempogram_multi_res_double_time_512_factor,
            margin_threshold: config.tempogram_multi_res_margin_threshold,
            use_human_prior: config.tempogram_multi_res_use_human_prior,
        }),
{
    FusionOptions {
        min_bpm: config.min_bpm,
        max_bpm: config.max_bpm,
        tolerance: fusion_tolerance(config.bpm_resolution),
        w512: config.tempogram_multi_res_w512,
        w256: config.tempogram_multi_res_w256,
        w1024: config.tempogram_multi_res_w1024,
        double_time_512_factor: config.tempogram_multi_res_double_time_512_factor,
        margin_threshold: config.tempogram_multi_res_margin_threshold,
        use_human_prior: config.tempogram_multi_res_use_human_prior,
    }
}

} // verus!
