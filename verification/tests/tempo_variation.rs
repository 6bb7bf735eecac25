use stratum_dsp::error::AnalysisError;
use stratum_dsp::features::beat_tracking::tempo_variation;
use stratum_dsp::float::F32;

fn f(x: f32) -> F32 {
    F32 { bits: x.to_bits() }
}

fn g(x: F32) -> f32 {
    f32::from_bits(x.bits)
}

fn row(v: &[f32]) -> Vec<F32> {
    v.iter().map(|&x| f(x)).collect()
}

#[derive(Clone)]
struct TempoSegment {
    start_time: f32,
    end_time: f32,
    bpm: f32,
    confidence: f32,
    is_variable: bool,
}

fn detect_tempo_variations(beats: &[f32], bpm: f32) -> Result<Vec<TempoSegment>, AnalysisError> {
    let found = tempo_variation::detect_tempo_variations(&row(beats), f(bpm))?;
    Ok(found
        .iter()
        .map(|s| TempoSegment {
            start_time: g(s.start_time),
            end_time: g(s.end_time),
            bpm: g(s.bpm),
            confidence: g(s.confidence),
            is_variable: s.is_variable,
        })
        .collect())
}

fn has_tempo_variation(segments: &[TempoSegment]) -> bool {
    let s: Vec<tempo_variation::TempoSegment> = segments
        .iter()
        .map(|s| tempo_variation::TempoSegment {
            start_time: f(s.start_time),
            end_time: f(s.end_time),
            bpm: f(s.bpm),
            confidence: f(s.confidence),
            is_variable: s.is_variable,
        })
        .collect();
    tempo_variation::has_tempo_variation(&s)
}

#[test]
fn test_detect_tempo_variations_constant() {
    // Constant tempo: 120 BPM (0.5s intervals)
    let beat_interval = 60.0 / 120.0;
    let beats: Vec<f32> = (0..20).map(|i| i as f32 * beat_interval).collect();

    let segments = detect_tempo_variations(&beats, 120.0).unwrap();

    assert!(!segments.is_empty());
    // Constant tempo should have low variation
    assert!(!has_tempo_variation(&segments));
}

#[test]
fn test_detect_tempo_variations_variable() {
    // Variable tempo: starts at 120 BPM, speeds up to 140 BPM
    let mut beats = Vec::new();
    let mut time = 0.0;
    for i in 0..20 {
        let bpm = 120.0 + (i as f32 * 1.0); // Gradually increases
        let interval = 60.0 / bpm;
        time += interval;
        beats.push(time);
    }

    let segments = detect_tempo_variations(&beats, 120.0).unwrap();

    assert!(!segments.is_empty());
    // Variable tempo should be detected
    // Note: May not always detect if variation is gradual
}

#[test]
fn test_detect_tempo_variations_insufficient_beats() {
    let beats = vec![0.0, 0.5, 1.0]; // Only 3 beats

    let segments = detect_tempo_variations(&beats, 120.0).unwrap();

    assert_eq!(segments.len(), 1);
    assert_eq!(segments[0].bpm, 120.0);
}

#[test]
fn test_detect_tempo_variations_empty() {
    let segments = detect_tempo_variations(&[], 120.0).unwrap();

    assert_eq!(segments.len(), 1);
    assert_eq!(segments[0].bpm, 120.0);
}

#[test]
fn test_has_tempo_variation() {
    let segments = vec![
        TempoSegment {
            start_time: 0.0,
            end_time: 4.0,
            bpm: 120.0,
            confidence: 0.8,
            is_variable: false,
        },
        TempoSegment {
            start_time: 4.0,
            end_time: 8.0,
            bpm: 130.0,
            confidence: 0.6,
            is_variable: true,
        },
    ];

    assert!(has_tempo_variation(&segments));

    let constant_segments = vec![TempoSegment {
        start_time: 0.0,
        end_time: 4.0,
        bpm: 120.0,
        confidence: 0.8,
        is_variable: false,
    }];

    assert!(!has_tempo_variation(&constant_segments));
}


#[test]
fn segments_lie_within_the_beats() {
    let beats: Vec<f32> = (0..40).map(|i| i as f32 * 0.5).collect();
    let segments = detect_tempo_variations(&beats, 120.0).unwrap();
    assert!(segments.len() > 1);
    for s in &segments {
        assert!(s.start_time >= 0.0 && s.start_time < 19.5 && s.end_time <= 19.5);
        assert!(s.confidence >= 0.0 && s.confidence <= 1.0);
        assert_eq!(s.bpm, 120.0);
    }
    assert!(segments.windows(2).all(|w| w[0].start_time < w[1].start_time));
}

#[test]
fn tempo_must_be_above_zero_to_vary() {
    let beats = vec![0.0, 0.5, 1.0, 1.5, 2.0];
    match detect_tempo_variations(&beats, 0.0) {
        Err(AnalysisError::InvalidInput(m)) => assert_eq!(m, "Invalid nominal BPM: 0.00"),
        _ => panic!("expected an error"),
    }
}
