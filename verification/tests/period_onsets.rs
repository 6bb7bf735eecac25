use rustfft::num_complex::Complex;
use rustfft::FftPlanner;
use stratum_dsp::error::AnalysisError;
use stratum_dsp::features::period::autocorrelation;
use stratum_dsp::features::period::autocorrelation::onset_signal;
use stratum_dsp::features::period::autocorrelation::scale_autocorrelation;
use stratum_dsp::features::period::autocorrelation::squared_magnitudes;
use stratum_dsp::features::period::autocorrelation::transform_size;
use stratum_dsp::features::period::candidate_filter;
use stratum_dsp::features::period::comb_filter;
use stratum_dsp::features::period::legacy;
use stratum_dsp::features::period::types;
use stratum_dsp::float::F32;

fn f(x: f32) -> F32 {
    F32 { bits: x.to_bits() }
}

fn g(x: F32) -> f32 {
    f32::from_bits(x.bits)
}

fn row(v: &[f32]) -> Vec<F32> {
    v.iter().map(|&x| f(x)).collect()
}

fn transformed(input: &[F32], size: usize) -> Vec<Complex<f32>> {
    let mut buffer: Vec<Complex<f32>> = input.iter().map(|&v| Complex::new(g(v), 0.0)).collect();
    buffer.resize(size, Complex::new(0.0, 0.0));
    FftPlanner::new().plan_fft_forward(size).process(&mut buffer);
    buffer
}

fn autocorrelation(signal: &[F32]) -> Vec<F32> {
    let size = transform_size(signal.len());
    let t = transformed(signal, size);
    let re: Vec<F32> = t.iter().map(|c| f(c.re)).collect();
    let im: Vec<F32> = t.iter().map(|c| f(c.im)).collect();
    let mut buffer: Vec<Complex<f32>> =
        squared_magnitudes(&re, &im).iter().map(|&v| Complex::new(g(v), 0.0)).collect();
    FftPlanner::new().plan_fft_inverse(size).process(&mut buffer);
    let back: Vec<F32> = buffer.iter().map(|c| f(c.re)).collect();
    scale_autocorrelation(&back, signal.len())
}

#[derive(Clone)]
struct BpmCandidate {
    bpm: f32,
    confidence: f32,
}

struct BpmEstimate {
    bpm: f32,
    confidence: f32,
    method_agreement: u32,
}

fn plain(c: Vec<types::BpmCandidate>) -> Vec<BpmCandidate> {
    c.iter().map(|c| BpmCandidate { bpm: g(c.bpm), confidence: g(c.confidence) }).collect()
}

fn acf_of(onsets: &[usize], hop_size: usize) -> Vec<F32> {
    if onsets.len() < 2 || hop_size == 0 {
        return Vec::new();
    }
    autocorrelation(&onset_signal(onsets, hop_size))
}

fn estimate_bpm_from_autocorrelation(
    onsets: &[usize],
    sample_rate: u32,
    hop_size: usize,
    min_bpm: f32,
    max_bpm: f32,
) -> Result<Vec<BpmCandidate>, AnalysisError> {
    let acf = acf_of(onsets, hop_size);
    autocorrelation::estimate_bpm_from_autocorrelation(
        onsets, sample_rate, hop_size, f(min_bpm), f(max_bpm), &acf,
    )
    .map(plain)
}

fn compute_autocorrelation_fft(signal: &[f32]) -> Result<Vec<f32>, AnalysisError> {
    Ok(autocorrelation(&row(signal)).iter().map(|&x| g(x)).collect())
}

fn find_peaks_in_acf(acf: &[f32], offset: usize) -> Result<Vec<(usize, f32)>, AnalysisError> {
    let peaks = autocorrelation::find_peaks_in_acf(&row(acf), offset);
    Ok(peaks.iter().map(|&(lag, x)| (lag, g(x))).collect())
}

fn octave_ratio(cents: f32) -> F32 {
    f((cents / 1200.0).exp2())
}

fn merge_bpm_candidates(
    autocorr: Vec<BpmCandidate>,
    comb: Vec<BpmCandidate>,
    cents: f32,
) -> Result<Vec<BpmEstimate>, AnalysisError> {
    let back = |c: Vec<BpmCandidate>| -> Vec<types::BpmCandidate> {
        c.iter()
            .map(|c| types::BpmCandidate { bpm: f(c.bpm), confidence: f(c.confidence) })
            .collect()
    };
    let merged =
        candidate_filter::merge_bpm_candidates(back(autocorr), back(comb), octave_ratio(cents))?;
    Ok(merged
        .iter()
        .map(|e| BpmEstimate {
            bpm: g(e.bpm),
            confidence: g(e.confidence),
            method_agreement: e.method_agreement,
        })
        .collect())
}

fn estimate_bpm_from_comb_filter(
    onsets: &[usize],
    sample_rate: u32,
    hop_size: usize,
    min_bpm: f32,
    max_bpm: f32,
    resolution: f32,
) -> Result<Vec<BpmCandidate>, AnalysisError> {
    comb_filter::estimate_bpm_from_comb_filter(
        onsets, sample_rate, hop_size, f(min_bpm), f(max_bpm), f(resolution),
    )
    .map(plain)
}

fn coarse_to_fine_search(
    onsets: &[usize],
    sample_rate: u32,
    hop_size: usize,
    min_bpm: f32,
    max_bpm: f32,
    range: f32,
) -> Result<Vec<BpmCandidate>, AnalysisError> {
    comb_filter::coarse_to_fine_search(
        onsets, sample_rate, hop_size, f(min_bpm), f(max_bpm), f(range),
    )
    .map(plain)
}

fn score_bpm_candidate(
    onsets: &[usize],
    sample_rate: u32,
    bpm: f32,
    tolerance: f32,
) -> Result<f32, AnalysisError> {
    comb_filter::score_bpm_candidate(onsets, sample_rate, f(bpm), f(tolerance)).map(g)
}

#[test]
fn test_autocorrelation_basic_120bpm() {
    // Create onsets for 120 BPM at 44.1kHz, 512 hop
    // 120 BPM = 0.5s per beat = 22050 samples per beat
    // At 512 hop: 22050 / 512 ≈ 43 frames per beat
    let sample_rate = 44100;
    let hop_size = 512;
    let bpm = 120.0;
    let period_samples = (60.0 * sample_rate as f32) / bpm;
    let period_frames = (period_samples / hop_size as f32).round() as usize;

    // Generate 4 beats worth of onsets
    let mut onsets = Vec::new();
    for beat in 0..4 {
        let frame = beat * period_frames;
        let sample = frame * hop_size;
        onsets.push(sample);
    }

    let candidates =
        estimate_bpm_from_autocorrelation(&onsets, sample_rate, hop_size, 60.0, 180.0).unwrap();

    assert!(!candidates.is_empty(), "Should find at least one candidate");

    // Best candidate should be close to 120 BPM
    let best = &candidates[0];
    assert!(
        (best.bpm - 120.0).abs() < 5.0,
        "Best BPM should be close to 120, got {:.2}",
        best.bpm
    );
    assert!(best.confidence > 0.0, "Confidence should be positive");
}

#[test]
fn test_autocorrelation_empty_onsets() {
    let result = estimate_bpm_from_autocorrelation(&[], 44100, 512, 60.0, 180.0);
    assert!(result.is_err());
}

#[test]
fn test_autocorrelation_single_onset() {
    let onsets = vec![1000];
    let result = estimate_bpm_from_autocorrelation(&onsets, 44100, 512, 60.0, 180.0);
    // Should return empty (need at least 2 onsets)
    assert!(result.is_ok());
    assert!(result.unwrap().is_empty());
}

#[test]
fn test_autocorrelation_invalid_params() {
    let onsets = vec![1000, 2000];

    // Invalid sample rate
    let result = estimate_bpm_from_autocorrelation(&onsets, 0, 512, 60.0, 180.0);
    assert!(result.is_err());

    // Invalid hop size
    let result = estimate_bpm_from_autocorrelation(&onsets, 44100, 0, 60.0, 180.0);
    assert!(result.is_err());

    // Invalid BPM range
    let result = estimate_bpm_from_autocorrelation(&onsets, 44100, 512, 180.0, 60.0);
    assert!(result.is_err());
}

#[test]
fn test_autocorrelation_128bpm() {
    // Test 128 BPM
    let sample_rate = 44100;
    let hop_size = 512;
    let bpm = 128.0;
    let period_samples = (60.0 * sample_rate as f32) / bpm;
    let period_frames = (period_samples / hop_size as f32).round() as usize;

    let mut onsets = Vec::new();
    for beat in 0..4 {
        let frame = beat * period_frames;
        let sample = frame * hop_size;
        onsets.push(sample);
    }

    let candidates =
        estimate_bpm_from_autocorrelation(&onsets, sample_rate, hop_size, 60.0, 180.0).unwrap();

    assert!(!candidates.is_empty());
    let best = &candidates[0];
    assert!(
        (best.bpm - 128.0).abs() < 5.0,
        "Best BPM should be close to 128, got {:.2}",
        best.bpm
    );
}

#[test]
fn test_compute_autocorrelation_fft() {
    // Simple periodic signal: [1, 0, 1, 0, 1, 0]
    let signal = vec![1.0, 0.0, 1.0, 0.0, 1.0, 0.0];
    let acf = compute_autocorrelation_fft(&signal).unwrap();

    assert_eq!(acf.len(), signal.len());

    // ACF[0] should be maximum (self-correlation)
    assert!(acf[0] > 0.0);

    // ACF should be symmetric (approximately)
    // ACF[2] should be high (period of 2)
    if acf.len() > 2 {
        assert!(acf[2] > 0.0);
    }
}

#[test]
fn test_find_peaks_in_acf() {
    // Create ACF with clear peaks
    let acf = vec![0.1, 0.2, 0.5, 0.3, 0.4, 0.6, 0.2, 0.1];
    let peaks = find_peaks_in_acf(&acf, 0).unwrap();

    assert!(!peaks.is_empty());
    // Should find peak at index 2 (value 0.5) and index 5 (value 0.6)
    assert!(peaks.iter().any(|(idx, _)| *idx == 2 || *idx == 5));
}

#[test]
fn test_merge_candidates_agreement() {
    // Both methods agree on 120 BPM
    let autocorr = vec![BpmCandidate {
        bpm: 120.0,
        confidence: 0.9,
    }];
    let comb = vec![BpmCandidate {
        bpm: 120.0,
        confidence: 0.85,
    }];

    let merged = merge_bpm_candidates(autocorr, comb, 50.0).unwrap();

    assert!(!merged.is_empty());
    let best = &merged[0];
    assert!((best.bpm - 120.0).abs() < 1.0);
    assert!(best.confidence > 0.9, "Confidence should be boosted");
    assert_eq!(best.method_agreement, 2);
}

#[test]
fn test_merge_candidates_octave_error() {
    // Autocorr finds 2x (octave error), comb finds correct
    let autocorr = vec![BpmCandidate {
        bpm: 240.0, // 2x error
        confidence: 0.8,
    }];
    let comb = vec![BpmCandidate {
        bpm: 120.0, // Correct
        confidence: 0.9,
    }];

    let merged = merge_bpm_candidates(autocorr, comb, 50.0).unwrap();

    assert!(!merged.is_empty());
    let best = &merged[0];
    // Should prefer comb's value (120 BPM)
    assert!((best.bpm - 120.0).abs() < 1.0);
}

#[test]
fn test_merge_candidates_octave_error_half() {
    // Autocorr finds 0.5x (octave error), comb finds correct
    let autocorr = vec![BpmCandidate {
        bpm: 60.0, // 0.5x error
        confidence: 0.8,
    }];
    let comb = vec![BpmCandidate {
        bpm: 120.0, // Correct
        confidence: 0.9,
    }];

    let merged = merge_bpm_candidates(autocorr, comb, 50.0).unwrap();

    assert!(!merged.is_empty());
    let best = &merged[0];
    // Should prefer comb's value (120 BPM)
    assert!((best.bpm - 120.0).abs() < 1.0);
}

#[test]
fn test_merge_candidates_grouping() {
    // Candidates within tolerance should be grouped
    let autocorr = vec![
        BpmCandidate {
            bpm: 120.0,
            confidence: 0.8,
        },
        BpmCandidate {
            bpm: 121.0, // Within ±2 BPM
            confidence: 0.7,
        },
    ];
    let comb = vec![BpmCandidate {
        bpm: 120.5, // Within ±2 BPM
        confidence: 0.85,
    }];

    let merged = merge_bpm_candidates(autocorr, comb, 50.0).unwrap();

    // Should group into one estimate
    assert_eq!(merged.len(), 1);
    let best = &merged[0];
    // Average should be around 120.2
    assert!((best.bpm - 120.0).abs() < 2.0);
    assert_eq!(best.method_agreement, 3); // All 3 candidates grouped
}

#[test]
fn test_merge_candidates_empty() {
    let merged = merge_bpm_candidates(vec![], vec![], 50.0).unwrap();
    assert!(merged.is_empty());
}

#[test]
fn test_merge_candidates_single_method() {
    // Only autocorr has candidates
    let autocorr = vec![BpmCandidate {
        bpm: 120.0,
        confidence: 0.8,
    }];
    let comb = vec![];

    let merged = merge_bpm_candidates(autocorr, comb, 50.0).unwrap();

    assert!(!merged.is_empty());
    let best = &merged[0];
    assert_eq!(best.method_agreement, 1);
    // Confidence should not be boosted (only one method)
    assert!(best.confidence <= 0.8);
}

#[test]
fn test_merge_candidates_sorted() {
    let autocorr = vec![
        BpmCandidate {
            bpm: 120.0,
            confidence: 0.9,
        },
        BpmCandidate {
            bpm: 130.0,
            confidence: 0.7,
        },
    ];
    let comb = vec![BpmCandidate {
        bpm: 120.0,
        confidence: 0.85,
    }];

    let merged = merge_bpm_candidates(autocorr, comb, 50.0).unwrap();

    // Should be sorted by confidence (highest first)
    for i in 1..merged.len() {
        assert!(
            merged[i - 1].confidence >= merged[i].confidence,
            "Should be sorted by confidence"
        );
    }
}

#[test]
fn test_comb_filter_120bpm() {
    // Create onsets for 120 BPM at 44.1kHz
    let sample_rate = 44100;
    let hop_size = 512;
    let bpm = 120.0;
    let period_samples = (60.0 * sample_rate as f32) / bpm;

    // Generate 4 beats worth of onsets
    let mut onsets = Vec::new();
    for beat in 0..4 {
        let sample = (beat as f32 * period_samples).round() as usize;
        onsets.push(sample);
    }

    let candidates =
        estimate_bpm_from_comb_filter(&onsets, sample_rate, hop_size, 60.0, 180.0, 1.0)
            .unwrap();

    assert!(!candidates.is_empty(), "Should find at least one candidate");

    // Best candidate should be close to 120 BPM
    let best = &candidates[0];
    assert!(
        (best.bpm - 120.0).abs() < 5.0,
        "Best BPM should be close to 120, got {:.2}",
        best.bpm
    );
    assert!(best.confidence > 0.0, "Confidence should be positive");
}

#[test]
fn test_comb_filter_empty_onsets() {
    let result = estimate_bpm_from_comb_filter(&[], 44100, 512, 60.0, 180.0, 1.0);
    assert!(result.is_err());
}

#[test]
fn test_comb_filter_single_onset() {
    let onsets = vec![1000];
    let result = estimate_bpm_from_comb_filter(&onsets, 44100, 512, 60.0, 180.0, 1.0);
    assert!(result.is_ok());
    assert!(result.unwrap().is_empty());
}

#[test]
fn test_comb_filter_invalid_params() {
    let onsets = vec![1000, 2000];

    // Invalid sample rate
    let result = estimate_bpm_from_comb_filter(&onsets, 0, 512, 60.0, 180.0, 1.0);
    assert!(result.is_err());

    // Invalid BPM range
    let result = estimate_bpm_from_comb_filter(&onsets, 44100, 512, 180.0, 60.0, 1.0);
    assert!(result.is_err());

    // Invalid resolution
    let result = estimate_bpm_from_comb_filter(&onsets, 44100, 512, 60.0, 180.0, 0.0);
    assert!(result.is_err());
}

#[test]
fn test_comb_filter_128bpm() {
    let sample_rate = 44100;
    let hop_size = 512;
    let bpm = 128.0;
    let period_samples = (60.0 * sample_rate as f32) / bpm;

    let mut onsets = Vec::new();
    for beat in 0..4 {
        let sample = (beat as f32 * period_samples).round() as usize;
        onsets.push(sample);
    }

    let candidates =
        estimate_bpm_from_comb_filter(&onsets, sample_rate, hop_size, 60.0, 180.0, 1.0)
            .unwrap();

    assert!(!candidates.is_empty());
    let best = &candidates[0];
    assert!(
        (best.bpm - 128.0).abs() < 5.0,
        "Best BPM should be close to 128, got {:.2}",
        best.bpm
    );
}

#[test]
fn test_score_bpm_candidate() {
    let sample_rate = 44100;
    let bpm = 120.0;

    // Perfect alignment: onsets at exact beat intervals
    let period_samples = (60.0 * sample_rate as f32) / bpm;
    let perfect_onsets: Vec<usize> = (0..4)
        .map(|beat| (beat as f32 * period_samples).round() as usize)
        .collect();

    let score = score_bpm_candidate(&perfect_onsets, sample_rate, bpm, 0.1).unwrap();
    assert!(
        score > 0.8,
        "Perfect alignment should score high, got {:.3}",
        score
    );

    // Random onsets should score low
    let random_onsets = vec![1000, 5000, 12000, 25000];
    let score = score_bpm_candidate(&random_onsets, sample_rate, bpm, 0.1).unwrap();
    assert!(
        score < 0.5,
        "Random onsets should score low, got {:.3}",
        score
    );
}

#[test]
fn test_comb_filter_resolution() {
    let sample_rate = 44100;
    let hop_size = 512;
    let bpm = 120.0;
    let period_samples = (60.0 * sample_rate as f32) / bpm;

    let mut onsets = Vec::new();
    for beat in 0..4 {
        let sample = (beat as f32 * period_samples).round() as usize;
        onsets.push(sample);
    }

    // Test with different resolutions
    let candidates_1 =
        estimate_bpm_from_comb_filter(&onsets, sample_rate, hop_size, 60.0, 180.0, 1.0)
            .unwrap();

    let candidates_05 =
        estimate_bpm_from_comb_filter(&onsets, sample_rate, hop_size, 60.0, 180.0, 0.5)
            .unwrap();

    // Higher resolution should find more candidates
    assert!(candidates_05.len() >= candidates_1.len());
}

#[test]
fn test_coarse_to_fine_search() {
    let sample_rate = 44100;
    let hop_size = 512;
    let bpm = 120.0;
    let period_samples = (60.0 * sample_rate as f32) / bpm;

    let mut onsets = Vec::new();
    for beat in 0..4 {
        let sample = (beat as f32 * period_samples).round() as usize;
        onsets.push(sample);
    }

    let candidates = coarse_to_fine_search(
        &onsets,
        sample_rate,
        hop_size,
        60.0,
        180.0,
        5.0, // refinement_range
    )
    .unwrap();

    assert!(!candidates.is_empty(), "Should find at least one candidate");

    // Best candidate should be close to 120 BPM
    let best = &candidates[0];
    assert!(
        (best.bpm - 120.0).abs() < 5.0,
        "Best BPM should be close to 120, got {:.2}",
        best.bpm
    );
    assert!(best.confidence > 0.0, "Confidence should be positive");
}

#[test]
fn test_coarse_to_fine_search_empty() {
    let result = coarse_to_fine_search(&[], 44100, 512, 60.0, 180.0, 5.0);
    assert!(result.is_err());
}

#[test]
fn test_coarse_to_fine_search_performance() {
    // Test that coarse-to-fine is faster than full search
    // (We can't easily measure time in unit tests, but we can verify it works)
    let sample_rate = 44100;
    let hop_size = 512;
    let bpm = 128.0;
    let period_samples = (60.0 * sample_rate as f32) / bpm;

    let mut onsets = Vec::new();
    for beat in 0..8 {
        let sample = (beat as f32 * period_samples).round() as usize;
        onsets.push(sample);
    }

    let candidates =
        coarse_to_fine_search(&onsets, sample_rate, hop_size, 60.0, 180.0, 5.0).unwrap();

    assert!(!candidates.is_empty());
    let best = &candidates[0];
    assert!(
        (best.bpm - 128.0).abs() < 5.0,
        "Best BPM should be close to 128, got {:.2}",
        best.bpm
    );
}


fn beats_at(bpm: f32, n: usize) -> Vec<usize> {
    (0..n).map(|i| (i as f32 * 60.0 * 44100.0 / bpm).round() as usize).collect()
}

#[test]
fn candidates_lie_in_the_range_the_surest_first() {
    let onsets = beats_at(125.0, 24);
    for candidates in [
        estimate_bpm_from_autocorrelation(&onsets, 44100, 512, 80.0, 160.0).unwrap(),
        estimate_bpm_from_comb_filter(&onsets, 44100, 512, 80.0, 160.0, 1.0).unwrap(),
    ] {
        assert!(!candidates.is_empty());
        assert!(candidates.iter().all(|c| c.bpm >= 80.0 && c.bpm <= 160.0));
        assert!(candidates.windows(2).all(|w| w[0].confidence >= w[1].confidence));
    }
}

#[test]
fn messages_name_what_is_wrong() {
    match estimate_bpm_from_comb_filter(&[1000, 2000], 44100, 512, 180.0, 60.0, 1.0) {
        Err(AnalysisError::InvalidInput(m)) => assert_eq!(m, "Invalid BPM range: [180.0, 60.0]"),
        _ => panic!("expected an error"),
    }
    match estimate_bpm_from_comb_filter(&[1000, 2000], 1, 512, 70.0, 90.0, 1.0) {
        Err(AnalysisError::NumericalError(m)) => {
            assert_eq!(m, "Invalid period: 0.86 samples for BPM 70.00")
        }
        _ => panic!("expected an error"),
    }
    match estimate_bpm_from_autocorrelation(&[10, 20], 44100, 512, 60.0, 180.0) {
        Err(AnalysisError::ProcessingError(m)) => {
            assert_eq!(m, "Signal too short for autocorrelation")
        }
        _ => panic!("expected an error"),
    }
}

#[test]
fn steady_onsets_have_their_tempo() {
    let onsets = beats_at(126.0, 48);
    let acf = acf_of(&onsets, 512);
    let e = legacy::estimate_bpm(
        &onsets, 44100, 512, f(60.0), f(180.0), f(1.0), &acf, octave_ratio(50.0),
    )
    .unwrap()
    .unwrap();
    assert!((g(e.bpm) - 126.0).abs() < 2.0, "got {}", g(e.bpm));
}

#[test]
fn guardrails_scale_confidence_by_range() {
    let rails = legacy::LegacyBpmGuardrails {
        preferred_min: f(75.0),
        preferred_max: f(150.0),
        soft_min: f(60.0),
        soft_max: f(180.0),
        mul_preferred: f(1.0),
        mul_soft: f(0.5),
        mul_extreme: f(0.1),
    };
    assert_eq!(g(rails.mul_for(f(120.0))), 1.0);
    assert_eq!(g(rails.mul_for(f(160.0))), 0.5);
    assert_eq!(g(rails.mul_for(f(200.0))), 0.1);
    assert_eq!(g(rails.mul_for(f(f32::NAN))), 0.0);
}

fn candidate(bpm: f32, confidence: f32) -> BpmCandidate {
    BpmCandidate { bpm, confidence }
}

#[test]
fn a_moved_candidate_is_not_counted_again() {
    let merged = merge_bpm_candidates(
        vec![candidate(120.0, 0.9), candidate(60.0, 0.7)],
        vec![candidate(120.0, 0.85)],
        50.0,
    )
    .unwrap();
    assert_eq!(merged.len(), 1);
    assert_eq!(merged[0].bpm, 120.0);
    assert_eq!(merged[0].method_agreement, 2);
    let alone =
        merge_bpm_candidates(vec![candidate(240.0, 0.2)], vec![candidate(120.0, 0.3)], 50.0).unwrap();
    assert_eq!(alone.len(), 1);
    assert_eq!(alone[0].method_agreement, 2);
    assert_eq!(alone[0].confidence, (0.2f32 + 0.3) * 1.2);
}

#[test]
fn merged_estimates_come_by_confidence() {
    let merged =
        merge_bpm_candidates(vec![candidate(200.0, 0.9), candidate(120.0, 0.5)], vec![], 50.0).unwrap();
    assert_eq!(merged.len(), 2);
    assert_eq!((merged[0].bpm, merged[0].confidence), (200.0, 0.9));
    assert_eq!((merged[1].bpm, merged[1].confidence), (120.0, 0.5));
}

#[test]
fn agreement_raises_confidence_to_one_at_most() {
    let high = merge_bpm_candidates(vec![candidate(120.0, 0.9)], vec![candidate(120.0, 0.85)], 50.0)
        .unwrap();
    assert_eq!((high[0].bpm, high[0].confidence, high[0].method_agreement), (120.0, 1.0, 2));
    let low = merge_bpm_candidates(vec![candidate(120.0, 0.25)], vec![candidate(121.0, 0.5)], 50.0)
        .unwrap();
    assert_eq!((low[0].bpm, low[0].confidence), (120.5, 0.75 * 1.2));
}
