use stratum_dsp::analysis::result::AnalysisFlag;
use stratum_dsp::analysis::result::BeatGrid;
use stratum_dsp::analysis::result::Key;
use stratum_dsp::config::AnalysisConfig;
use stratum_dsp::config::NormalizationMethod;
use stratum_dsp::error::AnalysisError;
use stratum_dsp::features::onset::consensus::OnsetCandidate;
use stratum_dsp::features::period::tempogram::TempogramCandidateDebug;
use stratum_dsp::features::period::types::BpmEstimate;
use stratum_dsp::float::F32;
use stratum_dsp::pipeline::key;
use stratum_dsp::pipeline::key::KeyConditioning;
use stratum_dsp::pipeline::key::KeyFeature;
use stratum_dsp::pipeline::key::KeyMethod;
use stratum_dsp::pipeline::onsets;
use stratum_dsp::pipeline::report;
use stratum_dsp::pipeline::report::Findings;
use stratum_dsp::pipeline::tempo;
use stratum_dsp::pipeline::tempo::TempogramRun;

fn f(x: f32) -> F32 {
    F32 { bits: x.to_bits() }
}

fn g(x: F32) -> f32 {
    f32::from_bits(x.bits)
}

fn row(v: &[f32]) -> Vec<F32> {
    v.iter().map(|&x| f(x)).collect()
}

fn estimate(bpm: f32, confidence: f32, agreement: u32) -> BpmEstimate {
    BpmEstimate { bpm: f(bpm), confidence: f(confidence), method_agreement: agreement }
}

fn candidate(bpm: f32, score: f32) -> TempogramCandidateDebug {
    TempogramCandidateDebug {
        bpm: f(bpm),
        score: f(score),
        fft_norm: f(0.5),
        autocorr_norm: f(0.5),
        selected: false,
    }
}

fn run(bpm: f32, confidence: f32, agreement: u32) -> TempogramRun {
    TempogramRun {
        estimate: estimate(bpm, confidence, agreement),
        candidates: vec![candidate(bpm, 0.8)],
    }
}

#[test]
fn input_is_checked() {
    match onsets::check_audio(&[], 44100) {
        Err(AnalysisError::InvalidInput(m)) => assert_eq!(m, "Empty audio samples"),
        _ => panic!("expected an error"),
    }
    match onsets::check_audio(&row(&[0.5]), 0) {
        Err(AnalysisError::InvalidInput(m)) => assert_eq!(m, "Invalid sample rate"),
        _ => panic!("expected an error"),
    }
    assert!(onsets::check_audio(&row(&[0.5]), 44100).is_ok());
    match onsets::check_sounds(&[]) {
        Err(AnalysisError::ProcessingError(m)) => {
            assert_eq!(m, "Audio is entirely silent after trimming")
        }
        _ => panic!("expected an error"),
    }
}

#[test]
fn frames_past_the_end_are_dropped() {
    assert_eq!(onsets::frames_to_samples(&[4, 1, 1, 9, usize::MAX], 512, 4000), vec![512, 2048]);
}

#[test]
fn onsets_that_two_methods_agree_on_are_preferred() {
    let c = |time: usize, voted_by: u32| OnsetCandidate {
        time_samples: time,
        time_seconds: f(0.0),
        confidence: f(0.5),
        voted_by,
    };
    assert_eq!(onsets::agree_onsets(&[c(900, 2), c(100, 1), c(500, 3)], &[7]), vec![500, 900]);
    assert_eq!(onsets::agree_onsets(&[c(900, 1), c(100, 1)], &[7]), vec![100, 900]);
    assert_eq!(onsets::agree_onsets(&[], &[7]), vec![7]);
}

#[test]
fn detectors_vote_where_they_are_asked() {
    let mut frames = vec![vec![f(0.1); 32]; 40];
    for i in [10usize, 20, 30] {
        frames[i] = vec![f(1.0); 32];
    }
    let mut config = AnalysisConfig::default();
    config.hop_size = 512;
    let energy = vec![10 * 512, 20 * 512];
    let voted = onsets::tempo_onsets(&energy, &frames, 40 * 512, 44100, &config);
    assert!(!voted.is_empty() && voted.windows(2).all(|w| w[0] < w[1]));
    assert!(voted.iter().any(|&o| o.abs_diff(10 * 512) <= 1024));
    config.enable_onset_consensus = false;
    assert_eq!(onsets::tempo_onsets(&energy, &frames, 40 * 512, 44100, &config), energy);
    config.enable_onset_consensus = true;
    config.onset_consensus_tolerance_ms = 0;
    assert_eq!(onsets::tempo_onsets(&energy, &frames, 40 * 512, 44100, &config), energy);
}

#[test]
fn ambiguous_tempos() {
    let one = f(1.0);
    assert!(tempo::is_ambiguous(estimate(70.0, 0.9, 2), &[], one));
    assert!(tempo::is_ambiguous(estimate(180.0, 0.9, 2), &[], one));
    assert!(!tempo::is_ambiguous(estimate(120.0, 0.9, 2), &[candidate(120.0, 0.8)], one));
    let rivals = [candidate(120.0, 0.8), candidate(60.5, 0.75)];
    assert!(tempo::is_ambiguous(estimate(120.0, 0.9, 2), &rivals, one));
    assert!(tempo::is_ambiguous(estimate(92.0, 0.01, 2), &[candidate(92.0, 0.8)], one));
    assert!(!tempo::is_ambiguous(estimate(92.0, 0.5, 2), &[candidate(92.0, 0.8)], one));
}

#[test]
fn several_resolutions_replace_a_trapped_tempo() {
    let mut config = AnalysisConfig::default();
    config.emit_tempogram_candidates = true;
    config.enable_tempogram_percussive_fallback = false;
    let r = tempo::settle_tempogram(
        Some(run(62.0, 0.5, 1)),
        Some(run(124.0, 0.45, 1)),
        None,
        &config,
    );
    assert_eq!(g(r.estimate.unwrap().bpm), 124.0);
    assert_eq!(g(r.candidates.unwrap()[0].bpm), 124.0);
    assert_eq!((r.multi_res_triggered, r.multi_res_used), (Some(true), Some(true)));
    assert_eq!((r.percussive_triggered, r.percussive_used), (Some(true), None));
}

#[test]
fn a_moderate_tempo_does_not_turn_fast() {
    let config = AnalysisConfig::default();
    let r = tempo::settle_tempogram(
        Some(run(75.0, 0.1, 0)),
        Some(run(225.0, 0.9, 2)),
        Some(run(230.0, 0.9, 2)),
        &config,
    );
    assert_eq!(g(r.estimate.unwrap().bpm), 75.0);
    assert_eq!((r.multi_res_used, r.percussive_used), (Some(false), Some(false)));
}

#[test]
fn the_percussive_part_can_decide() {
    let mut config = AnalysisConfig::default();
    config.enable_tempogram_percussive_fallback = true;
    let r = tempo::settle_tempogram(
        Some(run(64.0, 0.5, 1)),
        None,
        Some(run(128.0, 0.43, 1)),
        &config,
    );
    assert_eq!(g(r.estimate.unwrap().bpm), 128.0);
    assert_eq!(r.percussive_used, Some(true));
}

#[test]
fn without_a_tempogram_nothing_is_settled() {
    let config = AnalysisConfig::default();
    let r = tempo::settle_tempogram(None, None, None, &config);
    assert!(r.estimate.is_none() && r.candidates.is_none() && r.multi_res_triggered.is_none());
    let mut single = AnalysisConfig::default();
    single.enable_tempogram_multi_resolution = false;
    let r = tempo::settle_tempogram(Some(run(62.0, 0.5, 1)), None, None, &single);
    assert_eq!(g(r.estimate.unwrap().bpm), 62.0);
    assert!(r.multi_res_triggered.is_none() && r.percussive_used.is_none());
}

#[test]
fn tempo_of_tempogram_and_onsets() {
    let mut config = AnalysisConfig::default();
    let onsets = Some(estimate(60.5, 0.5, 1));
    let tempogram = Some(estimate(121.0, 0.8, 2));
    let plain = |t: (F32, F32)| (g(t.0), g(t.1));
    assert_eq!(plain(tempo::settle_tempo(onsets, tempogram, &config)), (121.0, 0.8));
    assert_eq!(plain(tempo::settle_tempo(onsets, None, &config)), (60.5, 0.5));
    assert_eq!(plain(tempo::settle_tempo(None, None, &config)), (0.0, 0.0));
    config.enable_bpm_fusion = true;
    let (bpm, confidence) = plain(tempo::settle_tempo(onsets, tempogram, &config));
    assert_eq!(bpm, 121.0);
    assert!((confidence - 0.86).abs() < 1e-6);
    let (bpm, confidence) =
        plain(tempo::settle_tempo(Some(estimate(97.0, 0.5, 1)), tempogram, &config));
    assert_eq!(bpm, 121.0);
    assert!((confidence - 0.72).abs() < 1e-6);
    config.force_legacy_bpm = true;
    assert_eq!(plain(tempo::settle_tempo(onsets, tempogram, &config)), (60.5, 0.5));
}

#[test]
fn candidates_listed() {
    let mut config = AnalysisConfig::default();
    config.tempogram_candidates_top_n = 3;
    config.tempogram_multi_res_top_k = 5;
    assert_eq!(tempo::listed_candidates(&config), 10);
    config.tempogram_multi_res_top_k = 25;
    assert_eq!(tempo::listed_candidates(&config), 25);
    config.enable_tempogram_multi_resolution = false;
    assert_eq!(tempo::listed_candidates(&config), 3);
}

#[test]
fn frames_of_key_detection() {
    let mut config = AnalysisConfig::default();
    config.enable_key_stft_override = false;
    assert_eq!((key::key_frame_size(&config), key::key_hop_size(&config)), (2048, 512));
    config.enable_key_stft_override = true;
    config.key_stft_frame_size = 100;
    config.key_stft_hop_size = 0;
    assert_eq!((key::key_frame_size(&config), key::key_hop_size(&config)), (256, 1));
}

#[test]
fn what_the_key_is_detected_in() {
    let mut config = AnalysisConfig::default();
    config.enable_key_hpss_harmonic = false;
    config.enable_key_harmonic_mask = true;
    assert_eq!(key::key_conditioning(&config, 10), KeyConditioning::TimeMask);
    assert_eq!(key::key_conditioning(&config, 0), KeyConditioning::Nothing);
    config.enable_key_hpss_harmonic = true;
    assert_eq!(key::key_conditioning(&config, 10), KeyConditioning::MedianMask);
    config.enable_key_hpcp = true;
    config.enable_key_hpcp_bass_blend = false;
    assert_eq!(key::key_feature(&config, 0, false, f(0.0)), KeyFeature::Profiles);
    assert_eq!(key::key_feature(&config, 0, true, f(0.0)), KeyFeature::SemitoneChroma);
    config.enable_key_beat_synchronous = true;
    assert_eq!(key::key_feature(&config, 9, false, f(0.0)), KeyFeature::BeatChroma);
    config.enable_key_beat_synchronous = false;
    config.enable_key_hpcp = false;
    config.enable_key_tuning_compensation = true;
    assert_eq!(key::key_feature(&config, 9, false, f(0.1)), KeyFeature::TunedChroma);
    assert_eq!(key::key_feature(&config, 9, false, f(0.0)), KeyFeature::Chroma);
    config.key_tuning_max_abs_semitones = f(0.25);
    assert_eq!(g(key::limited_tuning(f(0.4), &config)), 0.25);
    assert_eq!(g(key::limited_tuning(f(-0.4), &config)), -0.25);
}

#[test]
fn edges_are_trimmed_from_long_tracks() {
    let mut config = AnalysisConfig::default();
    config.enable_key_edge_trim = true;
    config.key_edge_trim_fraction = f(0.15);
    assert_eq!(key::kept_frames(1000, 1000, &config), (150, 850));
    assert_eq!(key::kept_frames(199, 199, &config), (0, 199));
    assert_eq!(key::kept_frames(1000, 999, &config), (0, 1000));
    config.key_edge_trim_fraction = f(0.9);
    assert_eq!(key::kept_frames(1000, 1000, &config), (0, 1000));
}

#[test]
fn tonalness_of_a_tone_and_of_noise() {
    let log_of_twelve = f(12.0f32.ln());
    let tonal = |chroma: &[f32]| {
        let shares = key::pitch_shares(&row(chroma));
        let logs: Vec<F32> = shares.iter().map(|&x| f(g(x).ln())).collect();
        g(key::tonalness(&shares, &logs, log_of_twelve))
    };
    let mut tone = [0.0f32; 12];
    tone[3] = 0.7;
    assert_eq!(tonal(&tone), 1.0);
    assert!(tonal(&[0.5; 12]) < 1e-5);
    assert_eq!(tonal(&[0.0; 12]), 0.0);
}

#[test]
fn weights_need_ten_frames() {
    let tonal = row(&[0.5; 12]);
    let energy = key::relative_energies(&row(&[4.0, 2.0, 2.0, 2.0, 2.0, 2.0, 2.0, 2.0, 2.0, 2.0, 2.0, 1.0]));
    assert_eq!((g(energy[0]), g(energy[1]), g(energy[11])), (2.0, 1.0, 0.5));
    let w = key::frame_weights(&tonal, &energy).unwrap();
    assert_eq!((g(w[0]), g(w[11])), (1.0, 0.25));
    let mut few = vec![f(0.0); 12];
    for x in few.iter_mut().take(9) {
        *x = f(1.0);
    }
    assert!(key::frame_weights(&few, &energy).is_none());
}

fn triads(frames: usize) -> Vec<Vec<F32>> {
    let mut chroma = vec![f(0.0); 12];
    for c in [0usize, 4, 7] {
        chroma[c] = f(0.57735);
    }
    vec![chroma; frames]
}

#[test]
fn key_by_every_method() {
    let mut config = AnalysisConfig::default();
    config.enable_key_mode_heuristic = false;
    config.enable_key_minor_harmonic_bonus = false;
    config.enable_key_segment_voting = false;
    let chroma = triads(400);
    assert_eq!(key::key_method(&config, 400), KeyMethod::AllFrames);
    let whole = key::detect_track_key(&chroma, None, &config).unwrap();
    assert_eq!(whole.key, Key::Major(0));
    config.enable_key_segment_voting = true;
    config.key_segment_len_frames = 150;
    config.key_segment_hop_frames = 75;
    config.key_segment_min_clarity = f(0.0);
    assert_eq!(key::key_method(&config, 400), KeyMethod::Segments);
    assert_eq!(key::detect_track_key(&chroma, None, &config).unwrap().key, Key::Major(0));
    config.enable_key_multi_scale = true;
    assert_eq!(key::key_method(&config, 400), KeyMethod::MultiScale);
    assert_eq!(key::key_method(&config, 119), KeyMethod::AllFrames);
    assert_eq!(key::detect_track_key(&chroma, None, &config).unwrap().key, Key::Major(0));
    config.enable_key_ensemble = true;
    assert_eq!(key::key_method(&config, 400), KeyMethod::Ensemble);
    let found = key::detect_track_key(&chroma, None, &config).unwrap();
    assert_eq!(found.key, Key::Major(0));
    assert!(g(found.clarity) > 0.0 && g(found.clarity) <= 1.0);
    let unknown = key::detect_track_key(&[], None, &config).unwrap();
    assert_eq!((unknown.key, g(unknown.confidence)), (Key::Major(0), 0.0));
}

#[test]
fn warnings_and_flags() {
    let nothing = tempo::settle_tempogram(None, None, None, &AnalysisConfig::default());
    let findings = Findings {
        bpm: f(0.0),
        bpm_confidence: f(0.0),
        key: key::unknown_key(),
        beat_grid: BeatGrid { downbeats: vec![], beats: vec![], bars: vec![] },
        grid_stability: f(0.25),
        tempogram: nothing,
        n_samples: 88200,
        sample_rate: 44100,
        n_energy_onsets: 0,
        processing_time_ms: f(12.5),
    };
    let r = report::build_result(findings);
    assert_eq!(
        r.metadata.confidence_warnings,
        vec![
            "BPM detection failed: insufficient onsets or estimation error",
            "Low beat grid stability: 0.25 (may indicate tempo variation)",
            "Low key detection confidence: 0.00 (may indicate ambiguous or atonal music)",
            "Low key clarity: 0.00 (track may be atonal or have weak tonality)",
        ]
    );
    assert_eq!(r.metadata.flags, vec![AnalysisFlag::WeakTonality]);
    assert_eq!(g(r.metadata.duration_seconds), 2.0);
    assert_eq!(g(r.metadata.onset_method_consensus), 0.0);
    assert_eq!(r.metadata.methods_used, vec!["energy_flux", "chroma_extraction", "key_detection"]);
    assert_eq!(r.metadata.algorithm_version, "0.1.0-alpha");
    let c = stratum_dsp::compute_confidence(&r);
    assert_eq!(c.confidence_level(), "Low");
}

#[test]
fn beats_are_looked_for_with_a_tempo_and_two_onsets() {
    assert!(report::wants_beats(f(120.0), 2));
    assert!(!report::wants_beats(f(0.0), 2));
    assert!(!report::wants_beats(f(120.0), 1));
    assert_eq!(report::onset_seconds(&[44100, 22050], 44100), row(&[1.0, 0.5]));
    let (grid, stability) = report::grid_or_empty(None);
    assert!(grid.beats.is_empty() && g(stability) == 0.0);
}

#[test]
fn documented_defaults() {
    let c = AnalysisConfig::default();
    assert_eq!(c.normalization, NormalizationMethod::Peak);
    assert_eq!((g(c.min_bpm), g(c.max_bpm), g(c.bpm_resolution)), (60.0, 180.0, 1.0));
    assert_eq!((c.frame_size, c.hop_size), (2048, 512));
    assert_eq!(g(c.min_amplitude_db), -40.0);
    assert_eq!(c.key_multi_scale_lengths, vec![120, 360, 720]);
    assert!(c.key_multi_scale_weights.is_empty());
    assert!(c.onset_consensus_weights.iter().all(|&w| g(w) == 0.25));
}

