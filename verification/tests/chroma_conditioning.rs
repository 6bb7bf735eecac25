use stratum_dsp::features::chroma::normalization;
use stratum_dsp::features::chroma::smoothing;
use stratum_dsp::float::F32;

fn f(x: f32) -> F32 {
    F32 { bits: x.to_bits() }
}

fn g(x: F32) -> f32 {
    f32::from_bits(x.bits)
}

fn row(v: &[f32]) -> Vec<F32> {
    v.iter().map(|&x| f(x)).collect()
}

fn table(v: &[Vec<f32>]) -> Vec<Vec<F32>> {
    v.iter().map(|r| row(r)).collect()
}

fn flat(v: &[F32]) -> Vec<f32> {
    v.iter().map(|&x| g(x)).collect()
}

fn sharpen_chroma(chroma: &[f32], power: f32) -> Vec<f32> {
    let powers: Vec<F32> = chroma.iter().map(|&x| f(x.powf(power))).collect();
    flat(&normalization::sharpen_chroma(&powers))
}

fn l2_normalize_chroma(chroma: &[f32]) -> Vec<f32> {
    flat(&normalization::l2_normalize_chroma(&row(chroma)))
}

fn smooth_chroma(chroma: &[Vec<f32>], window: usize) -> Vec<Vec<f32>> {
    smoothing::smooth_chroma(&table(chroma), window).iter().map(|r| flat(r)).collect()
}

fn smooth_chroma_average(chroma: &[Vec<f32>], window: usize) -> Vec<Vec<f32>> {
    smoothing::smooth_chroma_average(&table(chroma), window).iter().map(|r| flat(r)).collect()
}

#[test]
fn test_sharpen_chroma() {
    let chroma = vec![0.1, 0.2, 0.3, 0.4, 0.5, 0.6, 0.5, 0.4, 0.3, 0.2, 0.1, 0.0];
    let sharpened = sharpen_chroma(&chroma, 2.0);

    assert_eq!(sharpened.len(), 12);

    // Check normalization
    let norm: f32 = sharpened.iter().map(|&x| x * x).sum::<f32>().sqrt();
    assert!((norm - 1.0).abs() < 0.01);

    // Check that stronger values are more prominent
    // The peak at index 5 (0.6) should be even stronger after sharpening
    assert!(sharpened[5] > chroma[5] || chroma[5] < 0.1);
}

#[test]
fn test_sharpen_chroma_power_one() {
    let chroma = vec![0.1, 0.2, 0.3, 0.4, 0.5, 0.6, 0.5, 0.4, 0.3, 0.2, 0.1, 0.0];
    let sharpened = sharpen_chroma(&chroma, 1.0);

    // Power 1.0 should preserve relative magnitudes (after normalization)
    let norm_orig: f32 = chroma.iter().map(|&x| x * x).sum::<f32>().sqrt();
    let normalized_orig: Vec<f32> = chroma.iter().map(|&x| x / norm_orig).collect();

    // Should be approximately equal (within numerical precision)
    for (a, b) in normalized_orig.iter().zip(sharpened.iter()) {
        assert!((a - b).abs() < 0.01);
    }
}

#[test]
fn test_sharpen_chroma_empty() {
    let result = sharpen_chroma(&[], 2.0);
    assert_eq!(result.len(), 0);
}

#[test]
fn test_l2_normalize_chroma() {
    let chroma = vec![1.0, 2.0, 3.0, 4.0, 5.0, 6.0, 5.0, 4.0, 3.0, 2.0, 1.0, 0.0];
    let normalized = l2_normalize_chroma(&chroma);

    assert_eq!(normalized.len(), 12);

    // Check L2 norm is 1.0
    let norm: f32 = normalized.iter().map(|&x| x * x).sum::<f32>().sqrt();
    assert!((norm - 1.0).abs() < 0.01);
}

#[test]
fn test_l2_normalize_chroma_empty() {
    let result = l2_normalize_chroma(&[]);
    assert_eq!(result.len(), 0);
}

#[test]
fn test_l2_normalize_chroma_zero() {
    let chroma = vec![0.0; 12];
    let normalized = l2_normalize_chroma(&chroma);

    // Should return uniform distribution when input is all zeros
    let expected = 1.0 / (12.0f32).sqrt();
    for &x in &normalized {
        assert!((x - expected).abs() < 0.01);
    }
}

#[test]
fn test_smooth_chroma_empty() {
    let result = smooth_chroma(&[], 5);
    assert_eq!(result.len(), 0);
}

#[test]
fn test_smooth_chroma_single_frame() {
    let chroma_vectors = vec![vec![0.1; 12]];
    let smoothed = smooth_chroma(&chroma_vectors, 5);
    assert_eq!(smoothed.len(), 1);
    assert_eq!(smoothed[0].len(), 12);
}

#[test]
fn test_smooth_chroma_basic() {
    // Create chroma vectors with some variation
    let mut chroma_vectors = Vec::new();
    for i in 0..10 {
        let mut chroma = vec![0.0f32; 12];
        chroma[i % 12] = 1.0;
        chroma_vectors.push(chroma);
    }

    let smoothed = smooth_chroma(&chroma_vectors, 3);
    assert_eq!(smoothed.len(), 10);

    for chroma in &smoothed {
        assert_eq!(chroma.len(), 12);
    }
}

#[test]
fn test_smooth_chroma_window_size_one() {
    let chroma_vectors = vec![vec![0.1; 12]; 5];
    let smoothed = smooth_chroma(&chroma_vectors, 1);
    assert_eq!(smoothed.len(), chroma_vectors.len());
}

#[test]
fn test_smooth_chroma_average() {
    let mut chroma_vectors = Vec::new();
    for i in 0..10 {
        let mut chroma = vec![0.0f32; 12];
        chroma[i % 12] = 1.0;
        chroma_vectors.push(chroma);
    }

    let smoothed = smooth_chroma_average(&chroma_vectors, 3);
    assert_eq!(smoothed.len(), 10);

    for chroma in &smoothed {
        assert_eq!(chroma.len(), 12);
    }
}

#[test]
fn test_smooth_chroma_even_window_size() {
    // Window size 4 should be converted to 5
    let chroma_vectors = vec![vec![0.1; 12]; 10];
    let smoothed = smooth_chroma(&chroma_vectors, 4);
    assert_eq!(smoothed.len(), 10);
}


#[test]
fn smoothing_takes_medians_and_means() {
    let chroma: Vec<Vec<f32>> =
        [1.0f32, 5.0, 2.0, 9.0, 3.0].iter().map(|&x| vec![x, -x]).collect();
    let medians: Vec<f32> = smooth_chroma(&chroma, 3).iter().map(|r| r[0]).collect();
    assert_eq!(medians, vec![5.0, 2.0, 5.0, 3.0, 9.0]);
    let means: Vec<f32> = smooth_chroma_average(&chroma, 3).iter().map(|r| r[0]).collect();
    assert_eq!(means[1], 8.0 / 3.0);
    assert_eq!(means[4], 6.0);
    assert!(smooth_chroma(&chroma, 4).iter().all(|r| r.len() == 2));
}
