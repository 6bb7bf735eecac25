use stratum_dsp::analysis::confidence::AnalysisConfidence;
use stratum_dsp::analysis::result::AnalysisMetadata;
use stratum_dsp::analysis::result::AnalysisResult;
use stratum_dsp::analysis::result::BeatGrid;
use stratum_dsp::analysis::result::Key;
use stratum_dsp::float::F32;

fn f(x: f32) -> F32 {
    F32 { bits: x.to_bits() }
}

fn g(x: F32) -> f32 {
    f32::from_bits(x.bits)
}

struct Scores {
    bpm_confidence: f32,
    key_confidence: f32,
    grid_stability: f32,
    overall_confidence: f32,
    inner: AnalysisConfidence,
}

impl Scores {
    fn is_high_confidence(&self) -> bool {
        self.inner.is_high_confidence()
    }

    fn is_low_confidence(&self) -> bool {
        self.inner.is_low_confidence()
    }

    fn is_medium_confidence(&self) -> bool {
        self.inner.is_medium_confidence()
    }

    fn confidence_level(&self) -> &'static str {
        self.inner.confidence_level()
    }
}

fn compute_confidence(result: &AnalysisResult) -> Scores {
    let inner = stratum_dsp::compute_confidence(result);
    Scores {
        bpm_confidence: g(inner.bpm_confidence),
        key_confidence: g(inner.key_confidence),
        grid_stability: g(inner.grid_stability),
        overall_confidence: g(inner.overall_confidence),
        inner,
    }
}

fn create_test_result(
    bpm: f32,
    bpm_confidence: f32,
    key: Key,
    key_confidence: f32,
    key_clarity: f32,
    grid_stability: f32,
) -> AnalysisResult {
    AnalysisResult {
        bpm: f(bpm),
        bpm_confidence: f(bpm_confidence),
        key,
        key_confidence: f(key_confidence),
        key_clarity: f(key_clarity),
        beat_grid: BeatGrid {
            downbeats: vec![],
            beats: vec![],
            bars: vec![],
        },
        grid_stability: f(grid_stability),
        metadata: AnalysisMetadata {
            duration_seconds: f(30.0),
            sample_rate: 44100,
            processing_time_ms: f(100.0),
            algorithm_version: "0.1.0-alpha".to_string(),
            onset_method_consensus: f(1.0),
            methods_used: vec![],
            flags: vec![],
            confidence_warnings: vec![],
            tempogram_candidates: None,
            tempogram_multi_res_triggered: None,
            tempogram_multi_res_used: None,
            tempogram_percussive_triggered: None,
            tempogram_percussive_used: None,
        },
    }
}

#[test]
fn test_compute_confidence_all_good() {
    let result = create_test_result(
        120.0,
        0.9,
        Key::Major(0),
        0.8,
        0.7, // High key clarity
        0.85,
    );

    let confidence = compute_confidence(&result);

    assert_eq!(confidence.bpm_confidence, 0.9);
    assert_eq!(confidence.key_confidence, 0.8);
    assert_eq!(confidence.grid_stability, 0.85);

    // Overall: 0.9*0.4 + 0.8*0.3 + 0.85*0.3 = 0.36 + 0.24 + 0.255 = 0.855
    assert!((confidence.overall_confidence - 0.855).abs() < 0.01);
}

#[test]
fn test_compute_confidence_bpm_failed() {
    let result = create_test_result(
        0.0,
        0.0,
        Key::Major(0),
        0.8,
        0.7, // High key clarity
        0.85,
    );

    let confidence = compute_confidence(&result);

    assert_eq!(confidence.bpm_confidence, 0.0);
    assert_eq!(confidence.key_confidence, 0.8);
    assert_eq!(confidence.grid_stability, 0.85);

    // Overall: Only key and grid, but BPM failed so overall is reduced
    // Only key succeeded: 0.8 * 0.6 = 0.48
    assert!((confidence.overall_confidence - 0.48).abs() < 0.01);
}

#[test]
fn test_compute_confidence_key_failed() {
    let result = create_test_result(
        120.0,
        0.9,
        Key::Major(0),
        0.0,
        0.0, // No key clarity when key failed
        0.85,
    );

    let confidence = compute_confidence(&result);

    assert_eq!(confidence.bpm_confidence, 0.9);
    assert_eq!(confidence.key_confidence, 0.0);
    assert_eq!(confidence.grid_stability, 0.85);

    // Overall: Only BPM succeeded: 0.9 * 0.6 = 0.54
    assert!((confidence.overall_confidence - 0.54).abs() < 0.01);
}

#[test]
fn test_compute_confidence_all_failed() {
    let result = create_test_result(
        0.0,
        0.0,
        Key::Major(0),
        0.0,
        0.0, // No key clarity
        0.0,
    );

    let confidence = compute_confidence(&result);

    assert_eq!(confidence.bpm_confidence, 0.0);
    assert_eq!(confidence.key_confidence, 0.0);
    assert_eq!(confidence.grid_stability, 0.0);
    assert_eq!(confidence.overall_confidence, 0.0);
}

#[test]
fn test_compute_confidence_with_warnings() {
    let mut result = create_test_result(
        120.0,
        0.9,
        Key::Major(0),
        0.8,
        0.7, // High key clarity
        0.85,
    );

    result
        .metadata
        .confidence_warnings
        .push("BPM detection failed: insufficient onsets".to_string());

    let confidence = compute_confidence(&result);

    // BPM confidence should be reduced due to warning
    assert!(confidence.bpm_confidence < 0.9);
    assert!(confidence.bpm_confidence > 0.0);
}

#[test]
fn test_compute_confidence_clamping() {
    // Test that confidences are clamped to [0, 1]
    let result = create_test_result(
        120.0,
        1.5, // > 1.0
        Key::Major(0),
        -0.5, // < 0.0
        0.7,  // Normal key clarity
        2.0,  // > 1.0
    );

    let confidence = compute_confidence(&result);

    assert!(confidence.bpm_confidence <= 1.0);
    assert!(confidence.key_confidence >= 0.0);
    assert!(confidence.grid_stability <= 1.0);
    assert!(confidence.overall_confidence >= 0.0);
    assert!(confidence.overall_confidence <= 1.0);
}

#[test]
fn test_confidence_helper_methods() {
    let result = create_test_result(120.0, 0.9, Key::Major(0), 0.8, 0.7, 0.85);

    let confidence = compute_confidence(&result);

    // Should be high confidence
    assert!(confidence.is_high_confidence());
    assert!(!confidence.is_low_confidence());
    assert!(!confidence.is_medium_confidence());
    assert_eq!(confidence.confidence_level(), "High");

    // Test low confidence case
    let low_result = create_test_result(0.0, 0.0, Key::Major(0), 0.0, 0.0, 0.0);

    let low_confidence = compute_confidence(&low_result);
    assert!(low_confidence.is_low_confidence());
    assert!(!low_confidence.is_high_confidence());
    assert_eq!(low_confidence.confidence_level(), "Low");
}

#[test]
fn test_key_clarity_adjustment() {
    // Test that low key clarity reduces confidence
    let high_clarity_result = create_test_result(
        120.0,
        0.9,
        Key::Major(0),
        0.8,
        0.7, // High clarity
        0.85,
    );

    let low_clarity_result = create_test_result(
        120.0,
        0.9,
        Key::Major(0),
        0.8,
        0.1, // Low clarity
        0.85,
    );

    let high_conf = compute_confidence(&high_clarity_result);
    let low_conf = compute_confidence(&low_clarity_result);

    // Low clarity should result in lower key confidence
    assert!(low_conf.key_confidence < high_conf.key_confidence);
}
