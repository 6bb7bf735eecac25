use stratum_dsp::error::AnalysisError;
use stratum_dsp::features::beat_tracking::grid::detect_downbeats_with_time_sig;
use stratum_dsp::features::beat_tracking::grid::generate_beat_grid_from_positions_with_time_sig;
use stratum_dsp::features::beat_tracking::grid::BeatPosition;
use stratum_dsp::features::beat_tracking::time_signature::TimeSignature;
use stratum_dsp::features::period::beat_contrast::beat_contrast_score;
use stratum_dsp::features::period::legacy::combine_candidates;
use stratum_dsp::features::period::legacy::estimate_bpm_with_guardrails;
use stratum_dsp::features::period::legacy::LegacyBpmGuardrails;
use stratum_dsp::features::period::mel::mel_superflux_novelty;
use stratum_dsp::features::period::mel::MelFilterbank;
use stratum_dsp::features::period::multi_resolution::check_long_enough;
use stratum_dsp::features::period::multi_resolution::family_factor;
use stratum_dsp::features::period::multi_resolution::fused_confidence;
use stratum_dsp::features::period::multi_resolution::fusion_tolerance;
use stratum_dsp::features::period::multi_resolution::hop_agreement;
use stratum_dsp::features::period::multi_resolution::multi_resolution_tempogram_from_samples;
use stratum_dsp::features::period::multi_resolution::total_support;
use stratum_dsp::features::period::multi_resolution::FusionOptions;
use stratum_dsp::features::period::multi_resolution::HopScores;
use stratum_dsp::features::period::novelty::combined_novelty_with_params;
use stratum_dsp::features::period::novelty::energy_flux_novelty_band;
use stratum_dsp::features::period::novelty::hfc_novelty_band;
use stratum_dsp::features::period::novelty::mel_points;
use stratum_dsp::features::period::novelty::mel_range;
use stratum_dsp::features::period::novelty::superflux_novelty_band;
use stratum_dsp::features::period::tempogram::estimate_bpm_tempogram;
use stratum_dsp::features::period::tempogram::estimate_bpm_tempogram_band_fusion;
use stratum_dsp::features::period::tempogram::estimate_bpm_tempogram_with_candidates_band_fusion;
use stratum_dsp::features::period::tempogram::TempogramCandidateDebug;
use stratum_dsp::features::period::tempogram_curves::tempogram_curves;
use stratum_dsp::features::period::tempogram_curves::Band;
use stratum_dsp::features::period::tempogram_curves::TempoCurve;
use stratum_dsp::features::period::tempogram_fft::remove_mean_and_window;
use stratum_dsp::features::period::types::BpmCandidate;
use stratum_dsp::config::AnalysisConfig;
use stratum_dsp::float::F32;
use stratum_dsp::pipeline::tempo::band_fusion_of;
use stratum_dsp::pipeline::tempo::guardrails_of;

fn f(x: f32) -> F32 {
    F32 { bits: x.to_bits() }
}

fn g(x: F32) -> f32 {
    f32::from_bits(x.bits)
}

fn row(v: &[f32]) -> Vec<F32> {
    v.iter().map(|&x| f(x)).collect()
}

fn candidate(bpm: f32, score: f32) -> TempogramCandidateDebug {
    TempogramCandidateDebug {
        bpm: f(bpm),
        score: f(score),
        fft_norm: f(score),
        autocorr_norm: f(score),
        selected: false,
    }
}

fn fusion() -> FusionOptions {
    FusionOptions {
        min_bpm: f(40.0),
        max_bpm: f(240.0),
        tolerance: fusion_tolerance(f(1.0)),
        w512: f(0.45),
        w256: f(0.35),
        w1024: f(0.2),
        double_time_512_factor: f(0.92),
        margin_threshold: f(0.08),
        use_human_prior: false,
    }
}

#[test]
fn three_hops_agree_on_a_tempo() {
    let c = [candidate(120.0, 0.9), candidate(97.0, 0.2)];
    let (estimate, listed) =
        multi_resolution_tempogram_from_samples(&c, &c, &c, None, 44100, fusion()).unwrap();
    assert!((g(estimate.bpm) - 120.0).abs() < 1.0);
    assert!(g(estimate.confidence) > 0.0 && g(estimate.confidence) <= 1.0);
    assert!(listed.iter().filter(|x| x.selected).count() <= 1);
}

#[test]
fn a_tempo_needs_candidates() {
    assert!(multi_resolution_tempogram_from_samples(&[], &[], &[], None, 44100, fusion()).is_err());
    match check_long_enough(2047, 2048) {
        Err(AnalysisError::InvalidInput(m)) => assert_eq!(m, "Audio too short for STFT"),
        _ => panic!("expected an error"),
    }
    assert!(check_long_enough(2048, 2048).is_ok());
}

#[test]
fn support_of_hops() {
    let s = HopScores { s256: f(0.5), s512: f(0.25), s1024: f(0.0) };
    assert_eq!(g(total_support(s)), 0.75);
    assert_eq!(hop_agreement(s), 2);
    let factors: Vec<f32> = (0..5).map(|k| g(family_factor(k))).collect();
    assert_eq!(factors, vec![1.0, 1.5, 2.0 / 3.0, 4.0 / 3.0, 0.75]);
    assert_eq!(g(fused_confidence(f(1.0), f(1.0))), 0.0);
    assert!(g(fused_confidence(f(1.0), f(0.5))) > 0.0);
}

#[test]
fn contrast_is_higher_at_the_right_tempo() {
    let mut novelty = vec![f(0.05); 1200];
    for i in (0..1200).step_by(43) {
        novelty[i] = f(1.0);
    }
    let at = |bpm: f32| g(beat_contrast_score(&novelty, 44100, 512, f(bpm)));
    let bpm = 60.0 * 44100.0 / 512.0 / 43.0;
    assert!(at(bpm) > at(bpm * 1.17));
    assert_eq!(g(beat_contrast_score(&[], 44100, 512, f(120.0))), 0.0);
}

#[test]
fn guardrails_weigh_tempos() {
    let rails = guardrails_of(&AnalysisConfig::default());
    let c = |bpm: f32, confidence: f32| BpmCandidate { bpm: f(bpm), confidence: f(confidence) };
    let tolerance = f((50.0f32 / 1200.0).exp2());
    let lists = || (vec![c(200.0, 0.9), c(117.0, 0.6)], vec![c(117.0, 0.3), c(200.0, 0.6)]);
    let (a, b) = lists();
    let guarded = combine_candidates(a, b, tolerance, Some(rails)).unwrap();
    assert_eq!(g(guarded.bpm).round(), 117.0);
    assert_eq!(g(rails.mul_for(f(200.0))), g(rails.mul_extreme));
    assert!(combine_candidates(vec![], vec![], tolerance, None).is_none());
    let outside = LegacyBpmGuardrails { mul_soft: f(7.0), mul_extreme: f(-1.0), ..rails };
    let sane = outside.clamp_sane();
    assert!(g(sane.mul_soft) >= 0.0 && g(sane.mul_extreme) >= 0.0);
    assert!(estimate_bpm_with_guardrails(
        &[],
        44100,
        512,
        f(60.0),
        f(180.0),
        f(1.0),
        rails,
        &[],
        tolerance
    )
    .map(|e| e.is_none())
    .unwrap_or(true));
}

fn clicks(frames: usize, bins: usize, every: usize) -> Vec<Vec<F32>> {
    (0..frames)
        .map(|i| vec![if i % every == 0 { f(1.0) } else { f(0.01) }; bins])
        .collect()
}

fn logs(frames: &[Vec<F32>]) -> Vec<Vec<F32>> {
    frames.iter().map(|r| r.iter().map(|&x| f((1.0 + g(x)).ln())).collect()).collect()
}

#[test]
fn novelty_of_bands() {
    let frames = clicks(40, 16, 8);
    let energy = energy_flux_novelty_band(&frames, 4, 12).unwrap();
    let hfc = hfc_novelty_band(&frames, 4, 12).unwrap();
    let flux = superflux_novelty_band(&logs(&frames), 2, 4, 12).unwrap();
    for curve in [&energy, &hfc, &flux] {
        let best = curve.iter().map(|&x| g(x)).fold(0.0f32, f32::max);
        assert_eq!(best, 1.0);
        assert!(curve.iter().all(|&x| g(x) >= 0.0));
    }
    let mixed =
        combined_novelty_with_params(&flux, &energy, &hfc, f(0.3), f(0.35), f(0.35), 5, 3);
    assert_eq!(mixed.len(), flux.len().min(energy.len()).min(hfc.len()));
}

#[test]
fn mel_bands() {
    let (low, high) = mel_range(44100, f(30.0), f(8000.0));
    assert_eq!((g(low), g(high)), (30.0, 8000.0));
    let (_, cut) = mel_range(8000, f(30.0), f(8000.0));
    assert_eq!(g(cut), 4000.0);
    let points = mel_points(f(0.0), f(10.0), 4);
    assert_eq!(points, row(&[0.0, 2.0, 4.0, 6.0, 8.0, 10.0]));
    let corners = row(&[0.0, 400.0, 800.0, 1600.0, 3200.0]);
    let bank = MelFilterbank::new(8000, 65, &corners).unwrap();
    let loud = bank.apply_logmag(&vec![f(1.0); 65]);
    assert_eq!(loud.len(), bank.n_mels);
    assert!(loud.iter().all(|&x| g(x) > 0.0));
    assert!(matches!(MelFilterbank::new(0, 65, &corners), Err(AnalysisError::InvalidInput(_))));
    assert!(matches!(MelFilterbank::new(8000, 1, &corners), Err(AnalysisError::InvalidInput(_))));
    let curve = mel_superflux_novelty(&logs(&clicks(40, 65, 8)), 8000, &corners, 1).unwrap();
    assert_eq!(curve.iter().map(|&x| g(x)).fold(0.0f32, f32::max), 1.0);
}

fn power_spectrum(novelty: &[F32]) -> Vec<F32> {
    let n = novelty.len();
    let turn = 2.0 * std::f32::consts::PI;
    let window: Vec<F32> = (0..n)
        .map(|i| f(0.5 * (1.0 - (turn * i as f32 / (n.max(2) - 1) as f32).cos())))
        .collect();
    let x = remove_mean_and_window(novelty, &window);
    (0..n)
        .map(|k| {
            let (mut re, mut im) = (0.0f64, 0.0f64);
            for (i, &v) in x.iter().enumerate() {
                let a = -2.0 * std::f64::consts::PI * ((k * i) % n) as f64 / n as f64;
                re += g(v) as f64 * a.cos();
                im += g(v) as f64 * a.sin();
            }
            f((re * re + im * im) as f32)
        })
        .collect()
}

#[test]
fn bands_vote_on_the_tempo() {
    let config = AnalysisConfig::default();
    let mut cfg = band_fusion_of(&config);
    cfg.enabled = true;
    cfg.enable_mel = false;
    cfg.seed_only = false;
    cfg.w_full = f(0.4);
    cfg.w_low = f(0.25);
    cfg.w_mid = f(0.2);
    cfg.w_high = f(0.15);
    let every = 43;
    let frames = clicks(860, 65, every);
    let find = |cfg| {
        let mut curves: Vec<TempoCurve> = tempogram_curves(
            &frames,
            &logs(&frames),
            &[],
            44100,
            512,
            f(60.0),
            f(180.0),
            f(1.0),
            cfg,
        )
        .unwrap();
        for c in &mut curves {
            c.power_spectrum = power_spectrum(&c.novelty);
        }
        curves
    };
    let expected = 60.0 * 44100.0 / 512.0 / every as f32;
    let curves = find(Some(cfg));
    assert!(curves.len() > 1 && matches!(curves[0].band, Band::Full));
    let fused =
        estimate_bpm_tempogram_band_fusion(&curves, 44100, 512, f(60.0), f(180.0), f(1.0), cfg)
            .unwrap();
    assert!((g(fused.bpm) - expected).abs() < 2.0, "{}", g(fused.bpm));
    let (same, listed) = estimate_bpm_tempogram_with_candidates_band_fusion(
        &curves,
        44100,
        512,
        f(60.0),
        f(180.0),
        f(1.0),
        5,
        cfg,
    )
    .unwrap();
    assert_eq!(g(same.bpm), g(fused.bpm));
    assert!(listed.len() <= 6 && listed.iter().any(|c| c.selected));
    let plain =
        estimate_bpm_tempogram(&find(None), 44100, 512, f(60.0), f(180.0), f(1.0)).unwrap();
    assert!((g(plain.bpm) - expected).abs() < 2.0);
}

#[test]
fn downbeats_of_three_four() {
    let beats: Vec<F32> = (0..9).map(|i| f(i as f32 * 0.5)).collect();
    let down = detect_downbeats_with_time_sig(&beats, f(120.0), TimeSignature::ThreeFour).unwrap();
    assert_eq!(down, row(&[0.0, 1.5, 3.0]));
    let positions: Vec<BeatPosition> = beats
        .iter()
        .map(|&t| BeatPosition { beat_index: 0, time_seconds: t, confidence: f(0.9) })
        .collect();
    let grid =
        generate_beat_grid_from_positions_with_time_sig(&positions, f(120.0), TimeSignature::FourFour)
            .unwrap();
    assert_eq!(grid.beats, beats);
    assert_eq!(grid.downbeats, row(&[0.0, 2.0, 4.0]));
    assert_eq!(grid.bars, grid.downbeats);
    match generate_beat_grid_from_positions_with_time_sig(&[], f(120.0), TimeSignature::FourFour) {
        Err(AnalysisError::InvalidInput(m)) => {
            assert_eq!(m, "Cannot generate grid: no beat positions")
        }
        _ => panic!("expected an error"),
    }
}

