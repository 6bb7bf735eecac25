//! What an analysis can be told.
use crate::features::key::templates::TemplateSet;
use crate::float::ratio;
use crate::float::F32;
use vstd::prelude::*;

verus! {

/// How loudness is evened out.
#[derive(Debug, Clone, Copy, PartialEq, Eq, Structural)]
pub enum NormalizationMethod {
    /// The greatest sample decides
    Peak,
}

/// Settings of an analysis.
#[derive(Debug, Clone)]
pub struct AnalysisConfig {
    /// Level in dB below which audio is silent
    pub min_amplitude_db: F32,
    /// How loudness is evened out
    pub normalization: NormalizationMethod,
    /// Even out loudness
    pub enable_normalization: bool,
    /// Cut silence off
    pub enable_silence_trimming: bool,
    /// Let several onset detectors vote
    pub enable_onset_consensus: bool,
    /// Percentile above which the detectors on spectra see an onset
    pub onset_threshold_percentile: F32,
    /// Width in milliseconds of what counts as one onset
    pub onset_consensus_tolerance_ms: u32,
    /// Weights of energy flux, spectral flux, high-frequency content and percussive onsets
    pub onset_consensus_weights: [F32; 4],
    /// Let the percussive detector vote
    pub enable_hpss_onsets: bool,
    /// Median filter margin of the harmonic-percussive separation
    pub hpss_margin: usize,
    /// Take the tempo from the onsets alone
    pub force_legacy_bpm: bool,
    /// Let the tempo from the onsets confirm that of the tempogram
    pub enable_bpm_fusion: bool,
    /// Weigh tempos from the onsets by their range
    pub enable_legacy_bpm_guardrails: bool,
    /// Look at an ambiguous tempo at several resolutions
    pub enable_tempogram_multi_resolution: bool,
    /// Candidates taken from the resolution of the main hop
    pub tempogram_multi_res_top_k: usize,
    /// Weight of hop 512
    pub tempogram_multi_res_w512: F32,
    /// Weight of hop 256
    pub tempogram_multi_res_w256: F32,
    /// Weight of hop 1024
    pub tempogram_multi_res_w1024: F32,
    /// Discount on what hop 1024 says of other octaves
    pub tempogram_multi_res_structural_discount: F32,
    /// Factor on double time at hop 512
    pub tempogram_multi_res_double_time_512_factor: F32,
    /// Margin below which octaves are ambiguous
    pub tempogram_multi_res_margin_threshold: F32,
    /// Prefer tempos at which people tap
    pub tempogram_multi_res_use_human_prior: bool,
    /// Look at the percussive part of a track with an ambiguous slow tempo
    pub enable_tempogram_percussive_fallback: bool,
    /// Compute tempograms of frequency bands too
    pub enable_tempogram_band_fusion: bool,
    /// Upper edge of the low band in Hz
    pub tempogram_band_low_max_hz: F32,
    /// Upper edge of the middle band in Hz
    pub tempogram_band_mid_max_hz: F32,
    /// Upper edge of the high band in Hz
    pub tempogram_band_high_max_hz: F32,
    /// Weight of the full spectrum
    pub tempogram_band_w_full: F32,
    /// Weight of the low band
    pub tempogram_band_w_low: F32,
    /// Weight of the middle band
    pub tempogram_band_w_mid: F32,
    /// Weight of the high band
    pub tempogram_band_w_high: F32,
    /// Let bands propose tempos and not score them
    pub tempogram_band_seed_only: bool,
    /// Support from which a band counts as agreeing
    pub tempogram_band_support_threshold: F32,
    /// Bonus for every further band that agrees
    pub tempogram_band_consensus_bonus: F32,
    /// Weight of spectral flux in novelty
    pub tempogram_novelty_w_spectral: F32,
    /// Weight of energy flux in novelty
    pub tempogram_novelty_w_energy: F32,
    /// Weight of high-frequency content in novelty
    pub tempogram_novelty_w_hfc: F32,
    /// Frames of the local mean taken off novelty
    pub tempogram_novelty_local_mean_window: usize,
    /// Frames over which novelty is smoothed
    pub tempogram_novelty_smooth_window: usize,
    /// Track to print details of
    pub debug_track_id: Option<u32>,
    /// Known tempo of that track
    pub debug_gt_bpm: Option<F32>,
    /// Candidates printed
    pub debug_top_n: usize,
    /// Compute the tempogram of mel novelty too
    pub enable_tempogram_mel_novelty: bool,
    /// Mel bands
    pub tempogram_mel_n_mels: usize,
    /// Lower edge of the mel bands in Hz
    pub tempogram_mel_fmin_hz: F32,
    /// Upper edge of the mel bands in Hz
    pub tempogram_mel_fmax_hz: F32,
    /// Maximum filter over mel bands
    pub tempogram_mel_max_filter_bins: usize,
    /// Weight of mel novelty
    pub tempogram_mel_weight: F32,
    /// Maximum filter over bins in novelty
    pub tempogram_superflux_max_filter_bins: usize,
    /// Hand tempo candidates out
    pub emit_tempogram_candidates: bool,
    /// How many
    pub tempogram_candidates_top_n: usize,
    /// Lower end of the preferred tempos
    pub legacy_bpm_preferred_min: F32,
    /// Upper end of the preferred tempos
    pub legacy_bpm_preferred_max: F32,
    /// Lower end of the acceptable tempos
    pub legacy_bpm_soft_min: F32,
    /// Upper end of the acceptable tempos
    pub legacy_bpm_soft_max: F32,
    /// Factor on the confidence of preferred tempos
    pub legacy_bpm_conf_mul_preferred: F32,
    /// Factor on the confidence of acceptable tempos
    pub legacy_bpm_conf_mul_soft: F32,
    /// Factor on the confidence of other tempos
    pub legacy_bpm_conf_mul_extreme: F32,
    /// Slowest tempo in BPM
    pub min_bpm: F32,
    /// Fastest tempo in BPM
    pub max_bpm: F32,
    /// Distance of tempos in BPM
    pub bpm_resolution: F32,
    /// Samples in a frame
    pub frame_size: usize,
    /// Samples between frames
    pub hop_size: usize,
    /// Frequency of A4 in Hz
    pub center_frequency: F32,
    /// Spread a bin over neighbouring semitones
    pub soft_chroma_mapping: bool,
    /// How far, in semitones
    pub soft_mapping_sigma: F32,
    /// Exponent that sharpens chroma; one leaves it as it is
    pub chroma_sharpening_power: F32,
    /// Smooth spectra over time for key detection
    pub enable_key_spectrogram_time_smoothing: bool,
    /// Frames on each side of the smoothing
    pub key_spectrogram_smooth_margin: usize,
    /// Weigh frames by tonalness and energy
    pub enable_key_frame_weighting: bool,
    /// Tonalness below which a frame does not count
    pub key_min_tonalness: F32,
    /// Exponent of tonalness in the weight
    pub key_tonalness_power: F32,
    /// Exponent of energy in the weight
    pub key_energy_power: F32,
    /// Keep what lasts in spectra for key detection
    pub enable_key_harmonic_mask: bool,
    /// Exponent of the mask
    pub key_harmonic_mask_power: F32,
    /// Keep what lasts by median filters
    pub enable_key_hpss_harmonic: bool,
    /// Frames from one filtered frame to the next
    pub key_hpss_frame_step: usize,
    /// Filter margin in frames
    pub key_hpss_time_margin: usize,
    /// Filter margin in bins
    pub key_hpss_freq_margin: usize,
    /// Exponent of the median mask
    pub key_hpss_mask_power: F32,
    /// Use frames of their own for key detection
    pub enable_key_stft_override: bool,
    /// Samples in such a frame
    pub key_stft_frame_size: usize,
    /// Samples between such frames
    pub key_stft_hop_size: usize,
    /// Detect the key in semitone spectra
    pub enable_key_log_frequency: bool,
    /// Align chroma to beats
    pub enable_key_beat_synchronous: bool,
    /// Detect the key over segments of several lengths
    pub enable_key_multi_scale: bool,
    /// Key profiles
    pub key_template_set: TemplateSet,
    /// Combine both sets of key profiles
    pub enable_key_ensemble: bool,
    /// Weight of the Krumhansl-Kessler profiles
    pub key_ensemble_kk_weight: F32,
    /// Weight of the Temperley profiles
    pub key_ensemble_temperley_weight: F32,
    /// Take the median key of segments
    pub enable_key_median: bool,
    /// Frames in such a segment
    pub key_median_segment_length_frames: usize,
    /// Frames between such segments
    pub key_median_segment_hop_frames: usize,
    /// Fewest segments for a median
    pub key_median_min_segments: usize,
    /// Segment lengths in frames
    pub key_multi_scale_lengths: Vec<usize>,
    /// Frames between segments
    pub key_multi_scale_hop: usize,
    /// Clarity from which a segment counts
    pub key_multi_scale_min_clarity: F32,
    /// Weights of the lengths; all the same where there are none
    pub key_multi_scale_weights: Vec<F32>,
    /// Correct for tuning
    pub enable_key_tuning_compensation: bool,
    /// Greatest correction in semitones
    pub key_tuning_max_abs_semitones: F32,
    /// Frames from one looked at for tuning to the next
    pub key_tuning_frame_step: usize,
    /// Share of the greatest bin from which a bin is looked at
    pub key_tuning_peak_rel_threshold: F32,
    /// Leave intro and outro out of key detection
    pub enable_key_edge_trim: bool,
    /// Share left out at each end
    pub key_edge_trim_fraction: F32,
    /// Let segments vote on the key
    pub enable_key_segment_voting: bool,
    /// Frames in a voting segment
    pub key_segment_len_frames: usize,
    /// Frames between voting segments
    pub key_segment_hop_frames: usize,
    /// Clarity from which a segment votes
    pub key_segment_min_clarity: F32,
    /// Let the best key give way to its parallel key
    pub enable_key_mode_heuristic: bool,
    /// How clearly the third must speak for a mode
    pub key_mode_third_ratio_margin: F32,
    /// Share of the best score that the parallel key must have
    pub key_mode_flip_min_score_ratio: F32,
    /// Use harmonic pitch class profiles
    pub enable_key_hpcp: bool,
    /// Peaks in a frame
    pub key_hpcp_peaks_per_frame: usize,
    /// Harmonics of a peak
    pub key_hpcp_num_harmonics: usize,
    /// Factor from one harmonic to the next
    pub key_hpcp_harmonic_decay: F32,
    /// Exponent of a magnitude
    pub key_hpcp_mag_power: F32,
    /// Whiten spectra before peaks are found
    pub enable_key_hpcp_whitening: bool,
    /// Bins over which whitening averages
    pub key_hpcp_whitening_smooth_bins: usize,
    /// Blend in the profile of the bass
    pub enable_key_hpcp_bass_blend: bool,
    /// Lower edge of the bass in Hz
    pub key_hpcp_bass_fmin_hz: F32,
    /// Upper edge of the bass in Hz
    pub key_hpcp_bass_fmax_hz: F32,
    /// Weight of the bass
    pub key_hpcp_bass_weight: F32,
    /// Let minor keys gain by their leading tone
    pub enable_key_minor_harmonic_bonus: bool,
    /// By how much
    pub key_minor_leading_tone_bonus_weight: F32,
    /// Refine by a model
    pub enable_ml_refinement: bool,
}

#[verifier::allow_in_spec]
fn quarter() -> F32
    returns
        ratio(25, 100),
{
    ratio(25, 100)
}

fn scale_lengths() -> (r: Vec<usize>)
    ensures
        r@ == seq![120usize, 360usize, 720usize],
{
    let mut r: Vec<usize> = Vec::new();
    r.push(120);
    r.push(360);
    r.push(720);
    assert(r@ =~= seq![120usize, 360usize, 720usize]);
    r
}

impl Default for AnalysisConfig {
    fn default() -> (c: AnalysisConfig)
        ensures
            c.min_amplitude_db == ratio(40, 1).neg(),
            c.normalization == NormalizationMethod::Peak,
            c.enable_normalization == true,
            c.enable_silence_trimming == true,
            c.enable_onset_consensus == true,
            c.onset_threshold_percentile == ratio(80, 100),
            c.onset_consensus_tolerance_ms == 50,
            forall|i: int| 0 <= i < 4 ==> c.onset_consensus_weights@[i] == ratio(25, 100),
            c.enable_hpss_onsets == false,
            c.hpss_margin == 10,
            c.force_legacy_bpm == false,
            c.enable_bpm_fusion == false,
            c.enable_legacy_bpm_guardrails == true,
            c.enable_tempogram_multi_resolution == true,
            c.tempogram_multi_res_top_k == 10,
            c.tempogram_multi_res_w512 == ratio(45, 100),
            c.tempogram_multi_res_w256 == ratio(35, 100),
            c.tempogram_multi_res_w1024 == ratio(20, 100),
            c.tempogram_multi_res_structural_discount == ratio(85, 100),
            c.tempogram_multi_res_double_time_512_factor == ratio(92, 100),
            c.tempogram_multi_res_margin_threshold == ratio(8, 100),
            c.tempogram_multi_res_use_human_prior == false,
            c.enable_tempogram_percussive_fallback == true,
            c.enable_tempogram_band_fusion == true,
            c.tempogram_band_low_max_hz == ratio(200, 1),
            c.tempogram_band_mid_max_hz == ratio(2000, 1),
            c.tempogram_band_high_max_hz == ratio(8000, 1),
            c.tempogram_band_w_full == ratio(40, 100),
            c.tempogram_band_w_low == ratio(25, 100),
            c.tempogram_band_w_mid == ratio(20, 100),
            c.tempogram_band_w_high == ratio(15, 100),
            c.tempogram_band_seed_only == true,
            c.tempogram_band_support_threshold == ratio(25, 100),
            c.tempogram_band_consensus_bonus == ratio(8, 100),
            c.tempogram_novelty_w_spectral == ratio(30, 100),
            c.tempogram_novelty_w_energy == ratio(35, 100),
            c.tempogram_novelty_w_hfc == ratio(35, 100),
            c.tempogram_novelty_local_mean_window == 16,
            c.tempogram_novelty_smooth_window == 5,
            c.debug_track_id == None::<u32>,
            c.debug_gt_bpm == None::<F32>,
            c.debug_top_n == 5,
            c.enable_tempogram_mel_novelty == true,
            c.tempogram_mel_n_mels == 40,
            c.tempogram_mel_fmin_hz == ratio(30, 1),
            c.tempogram_mel_fmax_hz == ratio(8000, 1),
            c.tempogram_mel_max_filter_bins == 2,
            c.tempogram_mel_weight == ratio(15, 100),
            c.tempogram_superflux_max_filter_bins == 4,
            c.emit_tempogram_candidates == false,
            c.tempogram_candidates_top_n == 10,
            c.legacy_bpm_preferred_min == ratio(75, 1),
            c.legacy_bpm_preferred_max == ratio(150, 1),
            c.legacy_bpm_soft_min == ratio(60, 1),
            c.legacy_bpm_soft_max == ratio(180, 1),
            c.legacy_bpm_conf_mul_preferred == ratio(130, 100),
            c.legacy_bpm_conf_mul_soft == ratio(50, 100),
            c.legacy_bpm_conf_mul_extreme == ratio(10, 100),
            c.min_bpm == ratio(60, 1),
            c.max_bpm == ratio(180, 1),
            c.bpm_resolution == ratio(1, 1),
            c.frame_size == 2048,
            c.hop_size == 512,
            c.center_frequency == ratio(440, 1),
            c.soft_chroma_mapping == true,
            c.soft_mapping_sigma == ratio(5, 10),
            c.chroma_sharpening_power == ratio(1, 1),
            c.enable_key_spectrogram_time_smoothing == true,
            c.key_spectrogram_smooth_margin == 12,
            c.enable_key_frame_weighting == true,
            c.key_min_tonalness == ratio(10, 100),
            c.key_tonalness_power == ratio(2, 1),
            c.key_energy_power == ratio(50, 100),
            c.enable_key_harmonic_mask == true,
            c.key_harmonic_mask_power == ratio(2, 1),
            c.enable_key_hpss_harmonic == false,
            c.key_hpss_frame_step == 4,
            c.key_hpss_time_margin == 8,
            c.key_hpss_freq_margin == 8,
            c.key_hpss_mask_power == ratio(2, 1),
            c.enable_key_stft_override == false,
            c.key_stft_frame_size == 8192,
            c.key_stft_hop_size == 512,
            c.enable_key_log_frequency == false,
            c.enable_key_beat_synchronous == false,
            c.enable_key_multi_scale == false,
            c.key_template_set == TemplateSet::KrumhanslKessler,
            c.enable_key_ensemble == false,
            c.key_ensemble_kk_weight == ratio(5, 10),
            c.key_ensemble_temperley_weight == ratio(5, 10),
            c.enable_key_median == false,
            c.key_median_segment_length_frames == 480,
            c.key_median_segment_hop_frames == 120,
            c.key_median_min_segments == 3,
            c.key_multi_scale_lengths@ == seq![120usize, 360usize, 720usize],
            c.key_multi_scale_hop == 60,
            c.key_multi_scale_min_clarity == ratio(20, 100),
            c.key_multi_scale_weights@.len() == 0,
            c.enable_key_tuning_compensation == true,
            c.key_tuning_max_abs_semitones == ratio(25, 100),
            c.key_tuning_frame_step == 20,
            c.key_tuning_peak_rel_threshold == ratio(35, 100),
            c.enable_key_edge_trim == true,
            c.key_edge_trim_fraction == ratio(15, 100),
            c.enable_key_segment_voting == true,
            c.key_segment_len_frames == 1024,
            c.key_segment_hop_frames == 512,
            c.key_segment_min_clarity == ratio(20, 100),
            c.enable_key_mode_heuristic == true,
            c.key_mode_third_ratio_margin == ratio(5, 100),
            c.key_mode_flip_min_score_ratio == ratio(92, 100),
            c.enable_key_hpcp == false,
            c.key_hpcp_peaks_per_frame == 24,
            c.key_hpcp_num_harmonics == 4,
            c.key_hpcp_harmonic_decay == ratio(60, 100),
            c.key_hpcp_mag_power == ratio(50, 100),
            c.enable_key_hpcp_whitening == false,
            c.key_hpcp_whitening_smooth_bins == 31,
            c.enable_key_hpcp_bass_blend == true,
            c.key_hpcp_bass_fmin_hz == ratio(55, 1),
            c.key_hpcp_bass_fmax_hz == ratio(300, 1),
            c.key_hpcp_bass_weight == ratio(35, 100),
            c.enable_key_minor_harmonic_bonus == true,
            c.key_minor_leading_tone_bonus_weight == ratio(8, 10),
            c.enable_ml_refinement == false,
    {
        AnalysisConfig {
            min_amplitude_db: ratio(40, 1).neg(),
            normalization: NormalizationMethod::Peak,
            enable_normalization: true,
            enable_silence_trimming: true,
            enable_onset_consensus: true,
            onset_threshold_percentile: ratio(80, 100),
            onset_consensus_tolerance_ms: 50,
            onset_consensus_weights: [quarter(), quarter(), quarter(), quarter()],
            enable_hpss_onsets: false,
            hpss_margin: 10,
            force_legacy_bpm: false,
            enable_bpm_fusion: false,
            enable_legacy_bpm_guardrails: true,
            enable_tempogram_multi_resolution: true,
            tempogram_multi_res_top_k: 10,
            tempogram_multi_res_w512: ratio(45, 100),
            tempogram_multi_res_w256: ratio(35, 100),
            tempogram_multi_res_w1024: ratio(20, 100),
            tempogram_multi_res_structural_discount: ratio(85, 100),
            tempogram_multi_res_double_time_512_factor: ratio(92, 100),
            tempogram_multi_res_margin_threshold: ratio(8, 100),
            tempogram_multi_res_use_human_prior: false,
            enable_tempogram_percussive_fallback: true,
            enable_tempogram_band_fusion: true,
            tempogram_band_low_max_hz: ratio(200, 1),
            tempogram_band_mid_max_hz: ratio(2000, 1),
            tempogram_band_high_max_hz: ratio(8000, 1),
            tempogram_band_w_full: ratio(40, 100),
            tempogram_band_w_low: ratio(25, 100),
            tempogram_band_w_mid: ratio(20, 100),
            tempogram_band_w_high: ratio(15, 100),
            tempogram_band_seed_only: true,
            tempogram_band_support_threshold: ratio(25, 100),
            tempogram_band_consensus_bonus: ratio(8, 100),
            tempogram_novelty_w_spectral: ratio(30, 100),
            tempogram_novelty_w_energy: ratio(35, 100),
            tempogram_novelty_w_hfc: ratio(35, 100),
            tempogram_novelty_local_mean_window: 16,
            tempogram_novelty_smooth_window: 5,
            debug_track_id: None,
            debug_gt_bpm: None,
            debug_top_n: 5,
            enable_tempogram_mel_novelty: true,
            tempogram_mel_n_mels: 40,
            tempogram_mel_fmin_hz: ratio(30, 1),
            tempogram_mel_fmax_hz: ratio(8000, 1),
            tempogram_mel_max_filter_bins: 2,
            tempogram_mel_weight: ratio(15, 100),
            tempogram_superflux_max_filter_bins: 4,
            emit_tempogram_candidates: false,
            tempogram_candidates_top_n: 10,
            legacy_bpm_preferred_min: ratio(75, 1),
            legacy_bpm_preferred_max: ratio(150, 1),
            legacy_bpm_soft_min: ratio(60, 1),
            legacy_bpm_soft_max: ratio(180, 1),
            legacy_bpm_conf_mul_preferred: ratio(130, 100),
            legacy_bpm_conf_mul_soft: ratio(50, 100),
            legacy_bpm_conf_mul_extreme: ratio(10, 100),
            min_bpm: ratio(60, 1),
            max_bpm: ratio(180, 1),
            bpm_resolution: ratio(1, 1),
            frame_size: 2048,
            hop_size: 512,
            center_frequency: ratio(440, 1),
            soft_chroma_mapping: true,
            soft_mapping_sigma: ratio(5, 10),
            chroma_sharpening_power: ratio(1, 1),
            enable_key_spectrogram_time_smoothing: true,
            key_spectrogram_smooth_margin: 12,
            enable_key_frame_weighting: true,
            key_min_tonalness: ratio(10, 100),
            key_tonalness_power: ratio(2, 1),
            key_energy_power: ratio(50, 100),
            enable_key_harmonic_mask: true,
            key_harmonic_mask_power: ratio(2, 1),
            enable_key_hpss_harmonic: false,
            key_hpss_frame_step: 4,
            key_hpss_time_margin: 8,
            key_hpss_freq_margin: 8,
            key_hpss_mask_power: ratio(2, 1),
            enable_key_stft_override: false,
            key_stft_frame_size: 8192,
            key_stft_hop_size: 512,
            enable_key_log_frequency: false,
            enable_key_beat_synchronous: false,
            enable_key_multi_scale: false,
            key_template_set: TemplateSet::KrumhanslKessler,
            enable_key_ensemble: false,
            key_ensemble_kk_weight: ratio(5, 10),
            key_ensemble_temperley_weight: ratio(5, 10),
            enable_key_median: false,
            key_median_segment_length_frames: 480,
            key_median_segment_hop_frames: 120,
            key_median_min_segments: 3,
            key_multi_scale_lengths: scale_lengths(),
            key_multi_scale_hop: 60,
            key_multi_scale_min_clarity: ratio(20, 100),
            key_multi_scale_weights: Vec::new(),
            enable_key_tuning_compensation: true,
            key_tuning_max_abs_semitones: ratio(25, 100),
            key_tuning_frame_step: 20,
            key_tuning_peak_rel_threshold: ratio(35, 100),
            enable_key_edge_trim: true,
            key_edge_trim_fraction: ratio(15, 100),
            enable_key_segment_voting: true,
            key_segment_len_frames: 1024,
            key_segment_hop_frames: 512,
            key_segment_min_clarity: ratio(20, 100),
            enable_key_mode_heuristic: true,
            key_mode_third_ratio_margin: ratio(5, 100),
            key_mode_flip_min_score_ratio: ratio(92, 100),
            enable_key_hpcp: false,
            key_hpcp_peaks_per_frame: 24,
            key_hpcp_num_harmonics: 4,
            key_hpcp_harmonic_decay: ratio(60, 100),
            key_hpcp_mag_power: ratio(50, 100),
            enable_key_hpcp_whitening: false,
            key_hpcp_whitening_smooth_bins: 31,
            enable_key_hpcp_bass_blend: true,
            key_hpcp_bass_fmin_hz: ratio(55, 1),
            key_hpcp_bass_fmax_hz: ratio(300, 1),
            key_hpcp_bass_weight: ratio(35, 100),
            enable_key_minor_harmonic_bonus: true,
            key_minor_leading_tone_bonus_weight: ratio(8, 10),
            enable_ml_refinement: false,
        }
    }
}

} // verus!
