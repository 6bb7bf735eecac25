use stratum_dsp::error::AnalysisError;
use stratum_dsp::features::period::novelty;
use stratum_dsp::features::period::peak_picking;
use stratum_dsp::float::F32;

fn f(x: f32) -> F32 {
    F32 { bits: x.to_bits() }
}

fn g(x: F32) -> f32 {
    f32::from_bits(x.bits)
}

fn row(v: &[f32]) -> Vec<F32> {
    v.iter().map(|&x| f(x)).collect()
}

fn table(v: &[Vec<f32>]) -> Vec<Vec<F32>> {
    v.iter().map(|r| row(r)).collect()
}

fn flat(v: &[F32]) -> Vec<f32> {
    v.iter().map(|&x| g(x)).collect()
}

fn spectral_flux_novelty(frames: &[Vec<f32>]) -> Result<Vec<f32>, AnalysisError> {
    Ok(flat(&novelty::spectral_flux_novelty(&table(frames))?))
}

fn energy_flux_novelty(frames: &[Vec<f32>]) -> Result<Vec<f32>, AnalysisError> {
    Ok(flat(&novelty::energy_flux_novelty(&table(frames))?))
}

fn hfc_novelty(frames: &[Vec<f32>], sample_rate: u32) -> Result<Vec<f32>, AnalysisError> {
    Ok(flat(&novelty::hfc_novelty(&table(frames), sample_rate)?))
}

fn combined_novelty(spectral: &[f32], energy: &[f32], hfc: &[f32]) -> Vec<f32> {
    flat(&novelty::combined_novelty(&row(spectral), &row(energy), &row(hfc)))
}

fn find_peaks(signal: &[f32], threshold: f32, min_distance: usize) -> Vec<(usize, f32)> {
    let peaks = peak_picking::find_peaks(&row(signal), f(threshold), min_distance);
    peaks.iter().map(|&(i, x)| (i, g(x))).collect()
}

#[test]
fn test_spectral_flux_novelty_basic() {
    // Create spectrogram with a spectral change
    let mut spectrogram = vec![vec![0.1f32; 1024]; 10];

    // Frame 5: different spectral pattern
    for bin in 0..512 {
        spectrogram[5][bin] = 1.0f32;
    }

    let novelty = spectral_flux_novelty(&spectrogram).unwrap();

    // Should have 9 values (10 frames - 1)
    assert_eq!(novelty.len(), 9);

    // Should detect change around frame 5
    assert!(novelty[4] > 0.0 || novelty[5] > 0.0);
}

#[test]
fn test_spectral_flux_novelty_empty() {
    let spectrogram = vec![];
    let novelty = spectral_flux_novelty(&spectrogram).unwrap();
    assert!(novelty.is_empty());
}

#[test]
fn test_spectral_flux_novelty_single_frame() {
    let spectrogram = vec![vec![0.5f32; 1024]];
    let novelty = spectral_flux_novelty(&spectrogram).unwrap();
    // Need at least 2 frames
    assert!(novelty.is_empty());
}

#[test]
fn test_energy_flux_novelty_basic() {
    let mut spectrogram = vec![vec![0.1f32; 1024]; 10];

    // Frame 5: higher energy
    for bin in 0..1024 {
        spectrogram[5][bin] = 1.0f32;
    }

    let novelty = energy_flux_novelty(&spectrogram).unwrap();

    assert_eq!(novelty.len(), 9);
    // Should detect energy increase at frame 5
    assert!(novelty[4] > 0.0 || novelty[5] > 0.0);
}

#[test]
fn test_hfc_novelty_basic() {
    let mut spectrogram = vec![vec![0.1f32; 1024]; 10];

    // Frame 5: high-frequency content
    for bin in 512..1024 {
        spectrogram[5][bin] = 1.0f32;
    }

    let novelty = hfc_novelty(&spectrogram, 44100).unwrap();

    assert_eq!(novelty.len(), 9);
    // Should detect HFC increase at frame 5
    assert!(novelty[4] > 0.0 || novelty[5] > 0.0);
}

#[test]
fn test_combined_novelty() {
    let spectral = vec![0.0, 0.5, 1.0, 0.5, 0.0];
    let energy = vec![0.0, 0.3, 0.8, 0.3, 0.0];
    let hfc = vec![0.0, 0.2, 0.6, 0.2, 0.0];

    let combined = combined_novelty(&spectral, &energy, &hfc);

    assert_eq!(combined.len(), 5);
    // Conditioning can reshape small synthetic examples; just validate normalization/range.
    assert!(combined.iter().all(|&v| (0.0..=1.0).contains(&v)));
    assert!(combined.iter().copied().fold(0.0f32, f32::max) > 0.0);
}

#[test]
fn test_combined_novelty_different_lengths() {
    let spectral = vec![0.0, 0.5, 1.0];
    let energy = vec![0.0, 0.3, 0.8, 0.3];
    let hfc = vec![0.0, 0.2];

    let combined = combined_novelty(&spectral, &energy, &hfc);

    // Should use minimum length (2)
    assert_eq!(combined.len(), 2);
}

#[test]
fn test_find_peaks_basic() {
    let signal = vec![0.0, 0.5, 1.0, 0.7, 0.3, 0.9, 0.2];
    let peaks = find_peaks(&signal, 0.5, 2);

    assert!(!peaks.is_empty());
    // Should find peak at index 2 (value 1.0) and index 5 (value 0.9)
    assert!(peaks.iter().any(|(idx, _)| *idx == 2));
    assert!(peaks.iter().any(|(idx, _)| *idx == 5));
}

#[test]
fn test_find_peaks_empty() {
    let signal = vec![];
    let peaks = find_peaks(&signal, 0.5, 2);
    assert!(peaks.is_empty());
}

#[test]
fn test_find_peaks_too_short() {
    let signal = vec![1.0, 2.0];
    let peaks = find_peaks(&signal, 0.5, 2);
    // Need at least 3 points for local maximum
    assert!(peaks.is_empty());
}

#[test]
fn test_find_peaks_threshold() {
    let signal = vec![0.1, 0.2, 0.3, 0.4, 0.3, 0.2, 0.1];
    // Relative threshold (0.5 = 50% of max)
    let peaks = find_peaks(&signal, 0.5, 1);
    // Peak at index 3 (value 0.4), threshold = 0.4 * 0.5 = 0.2
    assert!(!peaks.is_empty());

    // Absolute threshold
    let peaks = find_peaks(&signal, 0.5, 1);
    // Should be empty (max is 0.4, threshold 0.5 > 0.4)
    // Actually, relative threshold 0.5 means 0.2, so peak should be found
    assert!(!peaks.is_empty());
}

#[test]
fn test_find_peaks_min_distance() {
    // Two close peaks
    let signal = vec![0.0, 0.5, 1.0, 0.8, 0.9, 0.3, 0.1];
    let peaks = find_peaks(&signal, 0.3, 3);

    // With min_distance=3, should only keep one of the close peaks
    // Peak at index 2 (value 1.0) and index 4 (value 0.9) are 2 apart
    // Should keep the higher one (index 2)
    assert!(!peaks.is_empty());
}

#[test]
fn test_find_peaks_edge_cases() {
    // First element is peak
    let signal = vec![1.0, 0.5, 0.3];
    let peaks = find_peaks(&signal, 0.5, 1);
    assert!(peaks.iter().any(|(idx, _)| *idx == 0));

    // Last element is peak
    let signal = vec![0.3, 0.5, 1.0];
    let peaks = find_peaks(&signal, 0.5, 1);
    assert!(peaks.iter().any(|(idx, _)| *idx == 2));
}

#[test]
fn test_find_peaks_all_below_threshold() {
    let signal = vec![0.1, 0.2, 0.3, 0.2, 0.1];
    // Use absolute threshold > max value (0.3)
    // Use threshold > 1.0 to force absolute mode
    let peaks = find_peaks(&signal, 1.0, 1); // Absolute threshold > 0.3
                                             // All values below threshold
    assert!(peaks.is_empty());
}

#[test]
fn test_find_peaks_sorted() {
    let signal = vec![0.0, 0.5, 1.0, 0.7, 0.3, 0.9, 0.2];
    let peaks = find_peaks(&signal, 0.3, 1);

    // Should be sorted by value (highest first)
    for i in 1..peaks.len() {
        assert!(
            peaks[i - 1].1 >= peaks[i].1,
            "Peaks should be sorted by value"
        );
    }
}


#[test]
fn flux_curves_have_exact_values() {
    let frames = vec![vec![1.0f32, 0.0], vec![1.0, 1.0], vec![3.0, 1.0]];
    assert_eq!(energy_flux_novelty(&frames).unwrap(), vec![0.125, 1.0]);
    let logs: Vec<Vec<f32>> =
        frames.iter().map(|r| r.iter().map(|x| (1.0 + x).ln()).collect()).collect();
    let flux = flat(&novelty::superflux_novelty(&table(&logs), 1).unwrap());
    assert_eq!(flux.len(), 2);
}

#[test]
fn frames_must_be_alike() {
    let frames = vec![vec![0.5f32; 8], vec![0.5; 8], vec![0.5; 7]];
    match energy_flux_novelty(&frames) {
        Err(AnalysisError::InvalidInput(m)) => assert_eq!(
            m,
            "Inconsistent frame lengths: frame 0 has 8 bins, frame 2 has 7 bins"
        ),
        _ => panic!("expected an error"),
    }
}

#[test]
fn peaks_keep_their_distance() {
    let signal: Vec<f32> = (0..60).map(|i| ((i * 7) % 11) as f32).collect();
    let peaks = find_peaks(&signal, 0.1, 6);
    for (i, a) in peaks.iter().enumerate() {
        for b in &peaks[i + 1..] {
            assert!(a.0.abs_diff(b.0) >= 6);
        }
    }
}
