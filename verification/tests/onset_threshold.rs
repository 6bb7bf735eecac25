use stratum_dsp::error::AnalysisError;
use stratum_dsp::features::onset::threshold;
use stratum_dsp::float::F32;

fn f(x: f32) -> F32 {
    F32 { bits: x.to_bits() }
}

fn g(x: F32) -> f32 {
    f32::from_bits(x.bits)
}

fn row(v: &[f32]) -> Vec<F32> {
    v.iter().map(|&x| f(x)).collect()
}

fn adaptive_threshold_median_mad(values: &[f32], k: f32) -> Result<f32, AnalysisError> {
    threshold::adaptive_threshold_median_mad(&row(values), f(k)).map(g)
}

fn percentile_threshold(values: &[f32], percentile: f32) -> Result<f32, AnalysisError> {
    threshold::percentile_threshold(&row(values), f(percentile)).map(g)
}

#[test]
fn test_adaptive_threshold_median_mad_basic() {
    // Test with simple values
    let values = vec![1.0, 2.0, 3.0, 4.0, 5.0, 100.0]; // Outlier at 100
    let threshold = adaptive_threshold_median_mad(&values, 2.5).unwrap();

    // Median is 3.5, MAD should be around 1.5
    // Threshold should be robust to the outlier
    assert!(threshold > 3.5);
    assert!(threshold < 50.0); // Should not be affected by outlier
}

#[test]
fn test_adaptive_threshold_median_mad_empty() {
    let result = adaptive_threshold_median_mad(&[], 2.5);
    assert!(result.is_err());
}

#[test]
fn test_adaptive_threshold_median_mad_single_value() {
    let values = vec![5.0];
    let threshold = adaptive_threshold_median_mad(&values, 2.5).unwrap();
    assert_eq!(threshold, 5.0); // MAD of single value is 0
}

#[test]
fn test_percentile_threshold_basic() {
    let values = vec![1.0, 2.0, 3.0, 4.0, 5.0];
    let threshold = percentile_threshold(&values, 0.8).unwrap();

    // 80th percentile of [1,2,3,4,5] with 5 elements:
    // threshold_idx = (5 * 0.8) = 4, so sorted[4] = 5.0
    assert!((threshold - 5.0).abs() < 0.1);

    // Test 50th percentile (median)
    let threshold_50 = percentile_threshold(&values, 0.5).unwrap();
    assert!((threshold_50 - 3.0).abs() < 0.1);
}

#[test]
fn test_percentile_threshold_empty() {
    let result = percentile_threshold(&[], 0.8);
    assert!(result.is_err());
}

#[test]
fn test_percentile_threshold_invalid_percentile() {
    let values = vec![1.0, 2.0, 3.0];
    assert!(percentile_threshold(&values, -0.1).is_err());
    assert!(percentile_threshold(&values, 1.1).is_err());
}


#[test]
fn threshold_is_median_and_deviation() {
    assert_eq!(adaptive_threshold_median_mad(&[1.0, 2.0, 3.0, 4.0, 5.0, 100.0], 2.0).unwrap(), 6.5);
    match adaptive_threshold_median_mad(&[1.0], -1.0) {
        Err(AnalysisError::InvalidInput(m)) => {
            assert_eq!(m, "MAD multiplier k must be non-negative")
        }
        _ => panic!("expected an error"),
    }
}
