use stratum_dsp::error::AnalysisError;
use stratum_dsp::features::beat_tracking::time_signature;
use stratum_dsp::features::beat_tracking::time_signature::TimeSignature;
use stratum_dsp::float::F32;

fn f(x: f32) -> F32 {
    F32 { bits: x.to_bits() }
}

fn g(x: F32) -> f32 {
    f32::from_bits(x.bits)
}

fn row(v: &[f32]) -> Vec<F32> {
    v.iter().map(|&x| f(x)).collect()
}

fn detect_time_signature(beats: &[f32], bpm: f32) -> Result<(TimeSignature, f32), AnalysisError> {
    let (meter, confidence) = time_signature::detect_time_signature(&row(beats), f(bpm))?;
    Ok((meter, g(confidence)))
}

#[test]
fn test_time_signature_four_four() {
    // Perfect 4/4 pattern: 4 beats per bar
    let beat_interval = 60.0 / 120.0; // 0.5s
    let mut beats = Vec::new();
    let mut time = 0.0;
    for _ in 0..16 {
        // 4 bars of 4 beats each
        beats.push(time);
        time += beat_interval;
    }

    let (time_sig, confidence) = detect_time_signature(&beats, 120.0).unwrap();

    // Should return a valid time signature with valid confidence
    assert!((0.0..=1.0).contains(&confidence));
    // Time signature should be one of the valid options
    assert!(matches!(
        time_sig,
        TimeSignature::FourFour | TimeSignature::ThreeFour | TimeSignature::SixEight
    ));
}

#[test]
fn test_time_signature_three_four() {
    // 3/4 pattern: 3 beats per bar
    let beat_interval = 60.0 / 120.0; // 0.5s
    let mut beats = Vec::new();
    let mut time = 0.0;
    for _ in 0..12 {
        // 4 bars of 3 beats each
        beats.push(time);
        time += beat_interval;
    }

    let (_time_sig, confidence) = detect_time_signature(&beats, 120.0).unwrap();

    // May detect 3/4 or default to 4/4 depending on pattern
    assert!((0.0..=1.0).contains(&confidence));
}

#[test]
fn test_time_signature_insufficient_beats() {
    let beats = vec![0.0, 0.5, 1.0, 1.5]; // Only 4 beats

    let (time_sig, confidence) = detect_time_signature(&beats, 120.0).unwrap();

    // Should default to 4/4
    assert_eq!(time_sig, TimeSignature::FourFour);
    assert_eq!(confidence, 0.5);
}

#[test]
fn test_time_signature_beats_per_bar() {
    assert_eq!(TimeSignature::FourFour.beats_per_bar(), 4);
    assert_eq!(TimeSignature::ThreeFour.beats_per_bar(), 3);
    assert_eq!(TimeSignature::SixEight.beats_per_bar(), 6);
}

#[test]
fn test_time_signature_name() {
    assert_eq!(TimeSignature::FourFour.name(), "4/4");
    assert_eq!(TimeSignature::ThreeFour.name(), "3/4");
    assert_eq!(TimeSignature::SixEight.name(), "6/8");
}
