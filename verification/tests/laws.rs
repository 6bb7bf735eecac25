use stratum_dsp::analysis::confidence::AnalysisConfidence;
use stratum_dsp::analysis::result::Key;
use stratum_dsp::config::AnalysisConfig;
use stratum_dsp::features::beat_tracking::bayesian::BayesianBeatTracker;
use stratum_dsp::features::beat_tracking::grid::find_onsets_to_retrace;
use stratum_dsp::features::beat_tracking::grid::generate_beat_grid_from_positions;
use stratum_dsp::features::beat_tracking::grid::BeatPosition;
use stratum_dsp::features::beat_tracking::tempo_variation::detect_tempo_variations;
use stratum_dsp::features::beat_tracking::tempo_variation::TempoSegment;
use stratum_dsp::features::key::detector::detect_key;
use stratum_dsp::features::key::key_changes::detect_key_changes;
use stratum_dsp::features::key::templates::KeyTemplates;
use stratum_dsp::features::onset::consensus::vote_onsets;
use stratum_dsp::features::onset::consensus::OnsetConsensus;
use stratum_dsp::features::period::candidate_filter::merge_bpm_candidates;
use stratum_dsp::features::period::comb_filter::estimate_bpm_from_comb_filter;
use stratum_dsp::features::period::comb_filter::score_bpm_candidate;
use stratum_dsp::features::period::novelty::combined_novelty;
use stratum_dsp::features::period::novelty::energy_flux_novelty;
use stratum_dsp::features::period::novelty::hfc_novelty;
use stratum_dsp::features::period::novelty::spectral_flux_novelty;
use stratum_dsp::features::period::novelty::superflux_novelty;
use stratum_dsp::features::period::peak_picking::find_peaks;
use stratum_dsp::features::period::types::BpmCandidate;
use stratum_dsp::float::F32;
use stratum_dsp::pipeline::key::kept_energies;
use stratum_dsp::pipeline::key::kept_frames;
use stratum_dsp::pipeline::tempo::wants_percussive;
use stratum_dsp::pipeline::tempo::wants_resolutions;
use stratum_dsp::pipeline::tempo::TempogramRun;
use stratum_dsp::features::period::types::BpmEstimate;
use stratum_dsp::features::beat_tracking::grid::prepare_onsets;
use stratum_dsp::features::key::detector::detect_key_weighted;
use stratum_dsp::features::key::ensemble::detect_key_ensemble;
use stratum_dsp::features::key::templates::TemplateSet;
use stratum_dsp::features::onset::energy_flux::detect_energy_flux_onsets;
use stratum_dsp::features::onset::hfc::detect_hfc_onsets;
use stratum_dsp::features::onset::hpss::hpss_decompose;
use stratum_dsp::features::chroma::smoothing::smooth_chroma;
use stratum_dsp::features::chroma::smoothing::smooth_chroma_average;
use stratum_dsp::pipeline::tempo::settle_tempo;
use stratum_dsp::statistics::value_at_percentile;

fn f(x: f32) -> F32 {
    F32 { bits: x.to_bits() }
}

fn g(x: F32) -> f32 {
    f32::from_bits(x.bits)
}

fn row(v: &[f32]) -> Vec<F32> {
    v.iter().map(|&x| f(x)).collect()
}

struct Noise(u32);

impl Noise {
    fn next(&mut self) -> f32 {
        self.0 = self.0.wrapping_mul(1664525).wrapping_add(1013904223);
        (self.0 >> 8) as f32 / (1 << 24) as f32
    }
}

fn spectrogram(seed: u32) -> Vec<Vec<F32>> {
    let mut noise = Noise(seed);
    (0..60).map(|_| (0..24).map(|_| f(noise.next() * 3.0)).collect()).collect()
}

fn in_unit(x: F32) -> bool {
    (0.0..=1.0).contains(&g(x))
}

#[test]
fn novelty_curves_lie_between_zero_and_one() {
    for seed in 1..6 {
        let frames = spectrogram(seed);
        let spectral = spectral_flux_novelty(&frames).unwrap();
        let superflux = superflux_novelty(&frames, 3).unwrap();
        let energy = energy_flux_novelty(&frames).unwrap();
        let hfc = hfc_novelty(&frames, 44100).unwrap();
        let mixed = combined_novelty(&superflux, &energy, &hfc);
        for curve in [&spectral, &superflux, &energy, &hfc, &mixed] {
            assert_eq!(curve.len(), frames.len() - 1);
            assert!(curve.iter().all(|&x| in_unit(x)));
        }
    }
}

#[test]
fn peaks_stand_by_height() {
    let mut noise = Noise(9);
    let signal: Vec<F32> = (0..200).map(|_| f(noise.next())).collect();
    for distance in [0usize, 1, 5, 20] {
        let peaks = find_peaks(&signal, f(0.2), distance);
        assert!(!peaks.is_empty());
        assert!(peaks.windows(2).all(|w| g(w[0].1) >= g(w[1].1)));
        for (i, a) in peaks.iter().enumerate() {
            for b in &peaks[i + 1..] {
                assert!(distance == 0 || a.0.abs_diff(b.0) >= distance);
            }
        }
    }
}

#[test]
fn comb_scores_are_parts_of_all_beats() {
    let onsets: Vec<usize> = (0..16).map(|i| i * 22050).collect();
    assert_eq!(g(score_bpm_candidate(&onsets, 44100, f(120.0), f(0.1)).unwrap()), 1.0);
    for bpm in [63.0f32, 90.0, 121.0, 177.0] {
        assert!(in_unit(score_bpm_candidate(&onsets, 44100, f(bpm), f(0.1)).unwrap()));
    }
    let found =
        estimate_bpm_from_comb_filter(&onsets, 44100, 512, f(80.0), f(160.0), f(1.0)).unwrap();
    assert!(found.iter().all(|c| in_unit(c.confidence) && g(c.confidence) >= 0.1));
}

#[test]
fn ranked_estimates_never_overtake() {
    let mut noise = Noise(77);
    let mut list = |n: usize| -> Vec<BpmCandidate> {
        (0..n)
            .map(|_| BpmCandidate {
                bpm: f(40.0 + 200.0 * noise.next()),
                confidence: f(noise.next()),
            })
            .collect()
    };
    let merged = merge_bpm_candidates(list(9), list(9), f((50.0f32 / 1200.0).exp2())).unwrap();
    assert!(merged.len() > 2);
    for w in merged.windows(2) {
        assert!(g(w[0].confidence) >= g(w[1].confidence));
        if g(w[0].confidence) == g(w[1].confidence) {
            assert!(w[0].method_agreement >= w[1].method_agreement);
        }
    }
    assert!(merged.iter().all(|e| in_unit(e.confidence)));
}

#[test]
fn candidates_lie_within_their_clusters() {
    let consensus = OnsetConsensus {
        energy_flux: vec![1000, 9000],
        spectral_flux: vec![1300, 9100],
        hfc: vec![1600],
        hpss: vec![20000],
    };
    let found = vote_onsets(consensus, [f(0.25); 4], 20, 44100).unwrap();
    assert_eq!(found.len(), 3);
    let by_time = |low: usize, high: usize| {
        found.iter().find(|c| (low..=high).contains(&c.time_samples)).unwrap()
    };
    assert_eq!(by_time(1000, 1600).voted_by, 3);
    assert_eq!(by_time(9000, 9100).voted_by, 2);
    assert_eq!(by_time(20000, 20000).voted_by, 1);
    assert!(found.windows(2).all(|w| g(w[0].confidence) >= g(w[1].confidence)));
}

#[test]
fn grids_are_in_order() {
    let times = [2.0f32, 0.5, 1.5, 0.0, 1.0];
    let positions: Vec<BeatPosition> = times
        .iter()
        .map(|&t| BeatPosition { beat_index: 0, time_seconds: f(t), confidence: f(1.0) })
        .collect();
    let grid = generate_beat_grid_from_positions(&positions, f(120.0)).unwrap();
    assert_eq!(grid.beats, row(&[0.0, 0.5, 1.0, 1.5, 2.0]));
    assert_eq!(grid.bars, grid.downbeats);
}

#[test]
fn tracker_confidence_stays_between_zero_and_one() {
    let mut tracker = BayesianBeatTracker::new(f(120.0), f(7.5));
    assert!(in_unit(tracker.get_confidence()));
    for scale in [0.0f32, 0.5, 40.0] {
        let n = tracker.generate_bpm_candidates().len();
        let likelihoods: Vec<F32> = (0..n).map(|i| f(scale * i as f32)).collect();
        let before = g(tracker.get_bpm());
        let priors: Vec<F32> = (0..n).map(|i| f(1.0 / (1.0 + i as f32))).collect();
        tracker.update_with_onsets(&row(&[0.0, 0.5]), &likelihoods, &priors).unwrap();
        assert!(in_unit(tracker.get_confidence()));
        assert!((g(tracker.get_bpm()) - before).abs() <= 5.0);
    }
}

#[test]
fn stretches_have_confidences() {
    let mut noise = Noise(5);
    let mut t = 0.0f32;
    let beats: Vec<F32> = (0..60)
        .map(|_| {
            t += 0.3 + 0.4 * noise.next();
            f(t)
        })
        .collect();
    let segments = detect_tempo_variations(&beats, f(120.0)).unwrap();
    assert!(segments.iter().all(|s| in_unit(s.confidence)));
}

#[test]
fn only_varying_stretches_are_retraced() {
    let segment = |start: f32, end: f32, is_variable: bool| TempoSegment {
        start_time: f(start),
        end_time: f(end),
        bpm: f(120.0),
        confidence: f(0.5),
        is_variable,
    };
    let onsets = row(&[0.0, 1.0, 2.0, 3.0]);
    let plan = find_onsets_to_retrace(
        &onsets,
        &[segment(0.0, 1.0, false), segment(0.5, 2.5, true), segment(4.0, 5.0, true)],
    );
    assert_eq!(plan, vec![None, Some(row(&[1.0, 2.0])), None]);
}

#[test]
fn key_changes_are_in_the_order_of_time() {
    let tones = |classes: [usize; 3]| {
        let mut c = vec![f(0.0); 12];
        for x in classes {
            c[x] = f(0.57735);
        }
        c
    };
    let mut chroma = vec![tones([0, 4, 7]); 90];
    chroma.extend(vec![tones([6, 10, 1]); 90]);
    chroma.extend(vec![tones([2, 6, 9]); 90]);
    let found =
        detect_key_changes(&chroma, 1000, 100, &KeyTemplates::new(), f(3.0), f(1.0)).unwrap();
    assert!(found.segment_keys.windows(2).all(|w| g(w[0].0) <= g(w[1].0)));
    assert!(found.key_changes.windows(2).all(|w| g(w[0].timestamp) <= g(w[1].timestamp)));
    assert!(found.key_changes.iter().all(|c| c.from_key != c.to_key));
    assert_eq!(found.segment_keys[0].1, Key::Major(0));
}

#[test]
fn the_key_with_the_highest_score_is_detected() {
    let mut noise = Noise(31);
    for _ in 0..20 {
        let chroma: Vec<Vec<F32>> =
            (0..10).map(|_| (0..12).map(|_| f(noise.next())).collect()).collect();
        let d = detect_key(&chroma, &KeyTemplates::new()).unwrap();
        assert_eq!(d.key, d.all_scores[0].0);
        assert!(d.all_scores.windows(2).all(|w| g(w[0].1) >= g(w[1].1)));
    }
}

#[test]
fn likelihoods_and_priors_are_at_most_one() {
    let tracker = BayesianBeatTracker::new(f(120.0), f(0.5));
    let onsets = row(&[0.0, 0.51, 0.98, 1.55, 2.02]);
    for bpm in [60.0f32, 97.0, 120.0, 180.0] {
        assert!(g(tracker.compute_likelihood(&onsets, f(bpm)).unwrap().unwrap()) <= 0.0);
        assert!(g(tracker.prior_exponent(f(bpm))) <= g(tracker.prior_exponent(f(120.0))));
    }
    assert_eq!(g(tracker.prior_exponent(f(120.0))), 0.0);
}

#[test]
fn every_confidence_has_one_level() {
    for k in 0..=100 {
        let c = AnalysisConfidence {
            bpm_confidence: f(0.5),
            key_confidence: f(0.5),
            grid_stability: f(0.5),
            overall_confidence: f(k as f32 / 100.0),
            flags: vec![],
        };
        let levels = [c.is_high_confidence(), c.is_medium_confidence(), c.is_low_confidence()];
        assert_eq!(levels.iter().filter(|&&x| x).count(), 1);
        let word = if levels[0] { "High" } else if levels[1] { "Medium" } else { "Low" };
        assert_eq!(c.confidence_level(), word);
    }
}

#[test]
fn percentiles_are_values() {
    let values = row(&[4.0, 1.0, 3.0, 2.0, 5.0]);
    for (p, expected) in [(0.0, 1.0), (0.5, 3.0), (0.8, 5.0), (1.0, 5.0)] {
        assert_eq!(g(value_at_percentile(&values, f(p))), expected);
    }
}

#[test]
fn energies_are_kept_with_their_frames() {
    let mut config = AnalysisConfig::default();
    config.enable_key_edge_trim = true;
    config.key_edge_trim_fraction = f(0.1);
    assert_eq!(kept_frames(500, 500, &config), (50, 450));
    assert_eq!(kept_energies(500, 500, &config), (50, 450));
    assert_eq!(kept_energies(500, 7, &config), (0, 7));
}

#[test]
fn further_tempograms_are_asked_for() {
    let mut config = AnalysisConfig::default();
    config.enable_tempogram_multi_resolution = true;
    config.enable_tempogram_percussive_fallback = true;
    let run = |bpm: f32| TempogramRun {
        estimate: BpmEstimate { bpm: f(bpm), confidence: f(0.5), method_agreement: 1 },
        candidates: vec![],
    };
    assert!(wants_resolutions(&run(62.0), &config) && wants_percussive(&run(62.0), &config));
    assert!(wants_resolutions(&run(180.0), &config) && !wants_percussive(&run(180.0), &config));
    assert!(!wants_resolutions(&run(120.0), &config));
    config.enable_tempogram_multi_resolution = false;
    assert!(!wants_resolutions(&run(62.0), &config) && !wants_percussive(&run(62.0), &config));
}

#[test]
fn fusion_keeps_the_tempo() {
    let estimate = |bpm: f32, confidence: f32| {
        Some(BpmEstimate { bpm: f(bpm), confidence: f(confidence), method_agreement: 1 })
    };
    for onsets in [None, estimate(60.0, 0.9), estimate(133.0, 0.2)] {
        for tempogram in [None, estimate(120.0, 0.5)] {
            let on = AnalysisConfig { enable_bpm_fusion: true, ..AnalysisConfig::default() };
            let off = AnalysisConfig { enable_bpm_fusion: false, ..AnalysisConfig::default() };
            let with = settle_tempo(onsets, tempogram, &on);
            let without = settle_tempo(onsets, tempogram, &off);
            assert_eq!(g(with.0), g(without.0));
        }
    }
}

#[test]
fn templates_of_no_weight_add_nothing() {
    let mut noise = Noise(91);
    let chroma: Vec<Vec<F32>> =
        (0..20).map(|_| (0..12).map(|_| f(noise.next())).collect()).collect();
    for (set, kk, temperley) in [
        (TemplateSet::KrumhanslKessler, 1.0f32, 0.0f32),
        (TemplateSet::Temperley, 0.0, 0.7),
    ] {
        let single =
            detect_key_weighted(&chroma, &KeyTemplates::new_with_template_set(set), None).unwrap();
        let both = detect_key_ensemble(&chroma, None, f(kk), f(temperley)).unwrap();
        assert_eq!(both.all_scores, single.all_scores);
        assert_eq!(both.key, single.all_scores[0].0);
        assert_eq!(both.top_keys, single.all_scores[..3].to_vec());
    }
    let silent = vec![vec![f(-0.0); 12]; 3];
    let single = detect_key_weighted(&silent, &KeyTemplates::new(), None).unwrap();
    let both = detect_key_ensemble(&silent, None, f(1.0), f(0.0)).unwrap();
    assert_eq!(both.all_scores, single.all_scores);
    assert_eq!(both.key, single.all_scores[0].0);
}

#[test]
fn a_lower_threshold_only_adds_onsets() {
    let mut noise = Noise(3);
    let samples: Vec<F32> = (0..20000).map(|i| f(noise.next() * ((i / 700) % 5) as f32)).collect();
    let mut fewer = detect_energy_flux_onsets(&samples, 512, 128, f(0.9)).unwrap();
    for level in [0.5f32, 0.1, 0.01] {
        let more = detect_energy_flux_onsets(&samples, 512, 128, f(level)).unwrap();
        assert!(fewer.len() <= more.len() && fewer.iter().all(|x| more.contains(x)));
        fewer = more;
    }
    assert!(fewer.len() > 3);
}

#[test]
fn the_order_of_onsets_does_not_matter() {
    let onsets = row(&[0.5, 2.0, 1.0, 0.5, 3.25, 0.0]);
    let others = row(&[0.0, 0.5, 0.5, 3.25, 1.0, 2.0]);
    let a = prepare_onsets(f(120.0), &onsets).unwrap();
    assert_eq!(a, row(&[0.0, 0.5, 0.5, 1.0, 2.0, 3.25]));
    assert_eq!(a, prepare_onsets(f(120.0), &others).unwrap());
    let signed = prepare_onsets(f(120.0), &row(&[1.0, -0.0, 0.5, 0.0])).unwrap();
    assert_eq!(signed, row(&[0.0, 0.0, 0.5, 1.0]));
    assert_eq!(signed, prepare_onsets(f(120.0), &row(&[0.0, 0.5, -0.0, 1.0])).unwrap());
}

#[test]
fn harmonic_and_percussive_parts_add_up() {
    let mut noise = Noise(57);
    let frames: Vec<Vec<F32>> = (0..14)
        .map(|_| (0..9).map(|b| f(noise.next() * 10.0f32.powi(4 * b - 20))).collect())
        .collect();
    for margin in [0usize, 2, 30] {
        let (harmonic, percussive) = hpss_decompose(&frames, margin).unwrap();
        for i in 0..frames.len() {
            for b in 0..frames[i].len() {
                let (h, p, value) = (g(harmonic[i][b]), g(percussive[i][b]), g(frames[i][b]));
                assert!(h >= 0.0 && p >= 0.0);
                assert!((h as f64 + p as f64 - value as f64).abs() <= value as f64 / 1048576.0 + 3e-45);
                assert!((h + p - value).abs() <= value / 1048576.0 + 3e-45);
            }
        }
    }
}

#[test]
fn a_window_of_one_leaves_chroma_of_any_shape() {
    let ragged = vec![row(&[1.0, 2.0, 3.0]), row(&[4.0]), row(&[])];
    assert_eq!(smooth_chroma(&ragged, 1), ragged);
    assert_eq!(smooth_chroma_average(&ragged, 0), ragged);
}

#[test]
fn the_lowest_bin_counts_nothing() {
    let frames = spectrogram(12);
    let mut others = frames.clone();
    let mut noise = Noise(13);
    for frame in &mut others {
        frame[0] = f(noise.next() * 900.0 - 450.0);
    }
    let a = detect_hfc_onsets(&frames, 44100, f(0.4)).unwrap();
    assert_eq!(a, detect_hfc_onsets(&others, 44100, f(0.4)).unwrap());
    assert!(!a.is_empty() && a.windows(2).all(|w| w[0] < w[1]));
}
