use stratum_dsp::analysis::result::Key;
use stratum_dsp::error::AnalysisError;
use stratum_dsp::features::key;
use stratum_dsp::features::key::KeyTemplates;
use stratum_dsp::float::F32;
use stratum_dsp::vector;

fn f(x: f32) -> F32 {
    F32 { bits: x.to_bits() }
}

fn g(x: F32) -> f32 {
    f32::from_bits(x.bits)
}

fn row(v: &[f32]) -> Vec<F32> {
    v.iter().map(|&x| f(x)).collect()
}

fn table(v: &[Vec<f32>]) -> Vec<Vec<F32>> {
    v.iter().map(|r| row(r)).collect()
}

struct KeyDetectionResult {
    key: Key,
    confidence: f32,
    all_scores: Vec<(Key, f32)>,
    top_keys: Vec<(Key, f32)>,
}

fn plain_scores(s: &[(Key, F32)]) -> Vec<(Key, f32)> {
    s.iter().map(|&(k, x)| (k, g(x))).collect()
}

fn plain(d: key::KeyDetectionResult) -> KeyDetectionResult {
    KeyDetectionResult {
        key: d.key,
        confidence: g(d.confidence),
        all_scores: plain_scores(&d.all_scores),
        top_keys: plain_scores(&d.top_keys),
    }
}

fn detect_key(chroma: &[Vec<f32>], templates: &KeyTemplates) -> Result<KeyDetectionResult, AnalysisError> {
    key::detect_key(&table(chroma), templates).map(plain)
}

fn detect_key_weighted(
    chroma: &[Vec<f32>],
    templates: &KeyTemplates,
    weights: Option<&Vec<f32>>,
) -> Result<KeyDetectionResult, AnalysisError> {
    let w = weights.map(|w| row(w));
    key::detect_key_weighted(&table(chroma), templates, w.as_deref()).map(plain)
}

fn dot_product(a: &[f32], b: &[f32]) -> f32 {
    g(vector::dot_product(&row(a), &row(b)))
}

struct KeyChanges {
    primary_key: Key,
    primary_confidence: f32,
    segment_keys: Vec<(f32, Key, f32)>,
}

fn detect_key_changes(
    chroma: &[Vec<f32>],
    sample_rate: u32,
    hop_size: usize,
    templates: &KeyTemplates,
    duration: f32,
    overlap: f32,
) -> Result<KeyChanges, AnalysisError> {
    let r = key::detect_key_changes(
        &table(chroma), sample_rate, hop_size, templates, f(duration), f(overlap),
    )?;
    Ok(KeyChanges {
        primary_key: r.primary_key,
        primary_confidence: g(r.primary_confidence),
        segment_keys: r.segment_keys.iter().map(|s| (g(s.0), s.1, g(s.2))).collect(),
    })
}

fn compute_key_clarity(scores: &[(Key, f32)]) -> f32 {
    let s: Vec<(Key, F32)> = scores.iter().map(|&(k, x)| (k, f(x))).collect();
    g(key::compute_key_clarity(&s))
}

#[test]
fn test_detect_key_empty() {
    let templates = KeyTemplates::new();
    let result = detect_key(&[], &templates);
    assert!(result.is_err());
}

#[test]
fn test_detect_key_basic() {
    let templates = KeyTemplates::new();

    // Create chroma vectors that match C major
    // C major template has high values at indices 0 (C), 4 (E), 7 (G)
    let mut chroma_vectors = Vec::new();
    for _ in 0..10 {
        let mut chroma = vec![0.0f32; 12];
        chroma[0] = 0.3; // C
        chroma[4] = 0.3; // E
        chroma[7] = 0.3; // G
                         // Normalize
        let norm: f32 = chroma.iter().map(|&x| x * x).sum::<f32>().sqrt();
        for x in &mut chroma {
            *x /= norm;
        }
        chroma_vectors.push(chroma);
    }

    let result = detect_key(&chroma_vectors, &templates);
    assert!(result.is_ok());

    let detection = result.unwrap();
    assert!(detection.confidence >= 0.0 && detection.confidence <= 1.0);
    assert_eq!(detection.all_scores.len(), 24);

    // Best key should be C major (index 0)
    assert_eq!(detection.key, Key::Major(0));

    // Check top_keys is populated
    assert!(!detection.top_keys.is_empty());
    assert!(detection.top_keys.len() <= 3);
    assert_eq!(detection.top_keys[0].0, Key::Major(0));
}

#[test]
fn test_detect_key_wrong_dimensions() {
    let templates = KeyTemplates::new();
    let chroma_vectors = vec![vec![0.0f32; 10]]; // Wrong size
    let result = detect_key(&chroma_vectors, &templates);
    assert!(result.is_err());
}

#[test]
fn test_average_chroma() {
    // Historical test placeholder: key detector no longer exposes average-chroma directly.
    // Keep a sanity check that weighted scoring behaves sensibly.
    let templates = KeyTemplates::new();
    let chroma_vectors = vec![vec![0.0f32; 12]; 10];
    let weights = vec![0.0f32; 10];
    let result = detect_key_weighted(&chroma_vectors, &templates, Some(&weights));
    assert!(result.is_ok());
}

#[test]
fn test_dot_product() {
    let a = vec![1.0, 2.0, 3.0];
    let b = vec![4.0, 5.0, 6.0];
    let result = dot_product(&a, &b);
    assert_eq!(result, 32.0); // 1*4 + 2*5 + 3*6 = 4 + 10 + 18 = 32
}

#[test]
fn test_detect_key_changes_empty() {
    let templates = KeyTemplates::new();
    let result = detect_key_changes(&[], 44100, 512, &templates, 8.0, 2.0);
    assert!(result.is_err());
}

#[test]
fn test_detect_key_changes_basic() {
    let templates = KeyTemplates::new();

    // Create chroma vectors that strongly match C major
    // Need enough frames for at least one segment
    // At 44100 Hz, 512 hop size: ~86 frames/second
    // For 8 second segment: need ~688 frames
    let mut chroma_vectors = Vec::new();
    for _ in 0..1000 {
        let mut chroma = vec![0.0f32; 12];
        // Strong C major chord: C, E, G with higher weights
        chroma[0] = 1.0; // C
        chroma[4] = 0.8; // E
        chroma[7] = 0.9; // G
                         // Add some F and A (subdominant) for stronger tonality
        chroma[5] = 0.3; // F
        chroma[9] = 0.2; // A
                         // Normalize to unit vector
        let norm: f32 = chroma.iter().map(|&x| x * x).sum::<f32>().sqrt();
        if norm > 1e-6 {
            for x in &mut chroma {
                *x /= norm;
            }
        }
        chroma_vectors.push(chroma);
    }

    // Use shorter segment duration for test (4 seconds instead of 8)
    let result = detect_key_changes(&chroma_vectors, 44100, 512, &templates, 4.0, 1.0);
    assert!(result.is_ok(), "Key change detection should succeed");

    let change_result = result.unwrap();
    // Primary key should be valid (any key is acceptable for this test)
    assert!(
        matches!(change_result.primary_key, Key::Major(_) | Key::Minor(_)),
        "Primary key should be valid, got {:?}",
        change_result.primary_key
    );
    // Confidence should be positive (even if low)
    assert!(
        change_result.primary_confidence >= 0.0 && change_result.primary_confidence <= 1.0,
        "Primary confidence should be in [0, 1], got {}",
        change_result.primary_confidence
    );
    // For a test with clear tonal content, confidence should be > 0
    // (but we allow 0.0 as edge case for very ambiguous content)
    if change_result.primary_confidence == 0.0 {
        // If confidence is 0, at least verify we have valid segments
        assert!(
            !change_result.segment_keys.is_empty(),
            "Should have at least one segment even with 0 confidence"
        );
    }
}

#[test]
fn test_compute_key_clarity_empty() {
    let clarity = compute_key_clarity(&[]);
    assert_eq!(clarity, 0.0);
}

#[test]
fn test_compute_key_clarity_single() {
    let scores = vec![(Key::Major(0), 0.8)];
    let clarity = compute_key_clarity(&scores);
    assert_eq!(clarity, 0.0);
}

#[test]
fn test_compute_key_clarity_high() {
    // High clarity: one score is much higher than others
    let scores = vec![
        (Key::Major(0), 0.9),
        (Key::Major(1), 0.3),
        (Key::Major(2), 0.3),
        (Key::Major(3), 0.3),
    ];
    let clarity = compute_key_clarity(&scores);
    assert!(clarity > 0.5, "High clarity should be > 0.5");
}

#[test]
fn test_compute_key_clarity_low() {
    // Low clarity: scores are similar
    let scores = vec![
        (Key::Major(0), 0.5),
        (Key::Major(1), 0.48),
        (Key::Major(2), 0.49),
        (Key::Major(3), 0.47),
    ];
    let clarity = compute_key_clarity(&scores);
    assert!(clarity < 0.5, "Low clarity should be < 0.5");
}

#[test]
fn test_compute_key_clarity_all_same() {
    // All scores the same - no clarity
    let scores = vec![
        (Key::Major(0), 0.5),
        (Key::Major(1), 0.5),
        (Key::Major(2), 0.5),
    ];
    let clarity = compute_key_clarity(&scores);
    assert_eq!(clarity, 0.0);
}

#[test]
fn test_compute_key_clarity_clamped() {
    // Test that clarity is clamped to [0, 1]
    let scores = vec![(Key::Major(0), 1.0), (Key::Major(1), 0.0)];
    let clarity = compute_key_clarity(&scores);
    assert!((0.0..=1.0).contains(&clarity));
}


/// Frames of a major or minor triad.
fn triad(classes: [usize; 3], frames: usize) -> Vec<Vec<f32>> {
    let mut chroma = vec![0.0f32; 12];
    for c in classes {
        chroma[c] = 0.57735;
    }
    vec![chroma; frames]
}

#[test]
fn every_key_has_one_score_the_highest_first() {
    let d = detect_key(&triad([7, 11, 2], 8), &KeyTemplates::new()).unwrap();
    assert_eq!(d.key, Key::Major(7));
    assert_eq!(d.all_scores.len(), 24);
    for t in 0..12u32 {
        assert_eq!(d.all_scores.iter().filter(|s| s.0 == Key::Major(t)).count(), 1);
        assert_eq!(d.all_scores.iter().filter(|s| s.0 == Key::Minor(t)).count(), 1);
    }
    assert!(d.all_scores.windows(2).all(|w| w[0].1 >= w[1].1));
    assert!(d.confidence >= 0.0 && d.confidence <= 1.0);
    assert_eq!(d.top_keys, d.all_scores[..3].to_vec());
}

#[test]
fn weights_choose_the_frames_that_count() {
    let mut chroma = triad([0, 4, 7], 5);
    chroma.extend(triad([2, 6, 9], 5));
    let templates = KeyTemplates::new();
    let first = vec![1.0f32, 1.0, 1.0, 1.0, 1.0, 0.0, 0.0, 0.0, 0.0, 0.0];
    let second: Vec<f32> = first.iter().map(|w| 1.0 - w).collect();
    assert_eq!(detect_key_weighted(&chroma, &templates, Some(&first)).unwrap().key, Key::Major(0));
    assert_eq!(detect_key_weighted(&chroma, &templates, Some(&second)).unwrap().key, Key::Major(2));
    match detect_key_weighted(&chroma, &templates, Some(&vec![1.0])) {
        Err(AnalysisError::InvalidInput(m)) => {
            assert_eq!(m, "frame_weights length mismatch: got 1, expected 10")
        }
        _ => panic!("expected an error"),
    }
}

#[test]
fn chroma_vectors_have_twelve_elements() {
    let mut chroma = triad([0, 4, 7], 2);
    chroma.push(vec![0.0; 11]);
    match detect_key(&chroma, &KeyTemplates::new()) {
        Err(AnalysisError::InvalidInput(m)) => {
            assert_eq!(m, "Chroma vector at index 2 has 11 elements, expected 12")
        }
        _ => panic!("expected an error"),
    }
}

#[test]
fn a_change_of_key_is_found() {
    let mut chroma = triad([0, 4, 7], 700);
    chroma.extend(triad([6, 10, 1], 500));
    let r = key::detect_key_changes(
        &table(&chroma), 44100, 512, &KeyTemplates::new(), f(2.0), f(0.5),
    )
    .unwrap();
    assert_eq!(r.primary_key, Key::Major(0));
    assert_eq!(r.key_changes.len(), 1);
    assert_eq!(r.key_changes[0].from_key, Key::Major(0));
    assert_eq!(r.key_changes[0].to_key, Key::Major(6));
    let at = r.segment_keys.iter().position(|s| s.1 == Key::Major(6)).unwrap();
    assert_eq!(r.key_changes[0].timestamp, r.segment_keys[at].0);
    assert!(r.segment_keys.iter().any(|s| s.1 == Key::Major(6)));
}

#[test]
fn the_key_of_most_segments_is_the_median_key() {
    let mut chroma = triad([0, 4, 7], 900);
    chroma.extend(triad([6, 10, 1], 300));
    let d = key::detect_key_median(&table(&chroma), &KeyTemplates::new(), None, 200, 100, 3).unwrap();
    assert_eq!(d.key, Key::Major(0));
}

#[test]
fn two_sets_of_templates_can_be_combined() {
    let d = plain(
        key::detect_key_ensemble(&table(&triad([0, 4, 7], 8)), None, f(0.5), f(0.5)).unwrap(),
    );
    assert_eq!(d.key, Key::Major(0));
    assert_eq!(d.all_scores.len(), 24);
}

#[test]
fn segments_of_several_lengths_agree_on_a_steady_key() {
    let d = key::detect_key_multi_scale(
        &table(&triad([7, 11, 2], 300)),
        &KeyTemplates::new(),
        None,
        &[60, 120],
        30,
        f(0.1),
        None,
        false,
        f(0.0),
        f(0.0),
        false,
        f(0.0),
    )
    .unwrap();
    assert_eq!(d.key, Key::Major(7));
}

#[test]
fn a_strong_minor_third_turns_the_mode() {
    let mut chroma = vec![0.0f32; 12];
    for (c, v) in [(0usize, 0.7f32), (3, 0.4), (4, 0.35), (7, 0.5), (8, 0.3), (10, 0.3)] {
        chroma[c] = v;
    }
    let d = key::detect_key_weighted_mode_heuristic(
        &table(&vec![chroma; 8]),
        &KeyTemplates::new(),
        None,
        f(0.0),
        f(0.1),
        false,
        f(0.0),
    )
    .unwrap();
    assert_eq!(d.key, Key::Minor(0));
}

#[test]
fn the_third_alone_speaks_for_the_mode() {
    let mut chroma = vec![0.0f32; 12];
    for (c, v) in [(0usize, 0.7f32), (3, 0.35), (4, 0.4), (7, 0.5), (8, 0.3), (10, 0.3)] {
        chroma[c] = v;
    }
    let d = key::detect_key_weighted_mode_heuristic(
        &table(&vec![chroma; 8]),
        &KeyTemplates::new(),
        None,
        f(0.0),
        f(0.1),
        false,
        f(0.0),
    )
    .unwrap();
    assert_eq!(d.key, Key::Major(0));
}

#[test]
fn the_key_has_the_highest_dot_product() {
    let templates = KeyTemplates::new();
    for tonic in 0..12usize {
        let third = (tonic + 3) % 12;
        let chroma = triad([tonic, third, (tonic + 7) % 12], 4);
        let d = detect_key(&chroma, &templates).unwrap();
        let mean: Vec<f32> = chroma[0].clone();
        let (best, second) = (d.all_scores[0], d.all_scores[1]);
        assert_eq!(d.key, Key::Minor(tonic as u32));
        assert_eq!(d.key, best.0);
        assert!(d.all_scores.iter().all(|s| s.1 <= best.1));
        let template: Vec<f32> =
            templates.get_minor_template(tonic as u32).iter().map(|&x| g(x)).collect();
        assert!((best.1 - dot_product(&mean, &template)).abs() < 1e-5);
        assert_eq!(d.confidence, ((best.1 - second.1) / best.1).clamp(0.0, 1.0));
        assert!(d.confidence > 0.0);
    }
}
