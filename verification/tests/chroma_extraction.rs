use rustfft::num_complex::Complex;
use rustfft::FftPlanner;
use stratum_dsp::error::AnalysisError;
use stratum_dsp::features::chroma::extractor;
use stratum_dsp::features::chroma::extractor::PitchTable;
use stratum_dsp::features::chroma::pitch::bin_ratios;
use stratum_dsp::features::chroma::pitch::gaussian_exponents;
use stratum_dsp::features::chroma::pitch::Neighbours;
use stratum_dsp::features::chroma::stft::compute_stft;
use stratum_dsp::features::chroma::stft::stft_frames;
use stratum_dsp::features::chroma::stft::Spectrum;
use stratum_dsp::float::F32;

const EPSILON: f32 = 1e-10;

fn f(x: f32) -> F32 {
    F32 { bits: x.to_bits() }
}

fn g(x: F32) -> f32 {
    f32::from_bits(x.bits)
}

fn row(v: &[f32]) -> Vec<F32> {
    v.iter().map(|&x| f(x)).collect()
}

fn flat(v: &[F32]) -> Vec<f32> {
    v.iter().map(|&x| g(x)).collect()
}

fn hann(n: usize) -> Vec<F32> {
    (0..n)
        .map(|i| {
            let x = 2.0 * std::f32::consts::PI * i as f32 / (n - 1) as f32;
            f(0.5 * (1.0 - x.cos()))
        })
        .collect()
}

fn transformed(input: &[F32], size: usize) -> Vec<Complex<f32>> {
    let mut buffer: Vec<Complex<f32>> = input.iter().map(|&v| Complex::new(g(v), 0.0)).collect();
    buffer.resize(size, Complex::new(0.0, 0.0));
    FftPlanner::new().plan_fft_forward(size).process(&mut buffer);
    buffer
}

fn spectrogram(samples: &[F32], frame_size: usize, hop_size: usize) -> Vec<Vec<F32>> {
    if samples.len() < frame_size || frame_size == 0 || hop_size == 0 {
        return Vec::new();
    }
    let frames = stft_frames(samples, &hann(frame_size), hop_size);
    let transforms: Vec<Spectrum> = frames
        .iter()
        .map(|frame| {
            let t = transformed(frame, frame_size);
            Spectrum {
                re: t.iter().map(|c| f(c.re)).collect(),
                im: t.iter().map(|c| f(c.im)).collect(),
            }
        })
        .collect();
    compute_stft(&transforms, frame_size)
}

fn pitch_table(sample_rate: u32, fft_size: usize, n_bins: usize, sigma: f32) -> PitchTable {
    let log2_ratios: Vec<F32> =
        bin_ratios(sample_rate, fft_size, n_bins).iter().map(|&x| f(g(x).log2())).collect();
    let e = |x: F32| f(g(x).exp());
    let weights = gaussian_exponents(&log2_ratios, f(0.0), f(sigma))
        .iter()
        .map(|n| Neighbours { below: e(n.below), at: e(n.at), above: e(n.above) })
        .collect();
    PitchTable { log2_ratios, weights }
}

fn powers(frame: &[F32]) -> Vec<F32> {
    frame.iter().map(|&m| f(g(m).max(0.0).powf(0.6))).collect()
}

fn extract_chroma_with_options(
    samples: &[f32],
    sample_rate: u32,
    frame_size: usize,
    hop_size: usize,
    soft: bool,
    sigma: f32,
) -> Result<Vec<Vec<f32>>, AnalysisError> {
    let s = row(samples);
    let p: Vec<Vec<F32>> =
        spectrogram(&s, frame_size, hop_size).iter().map(|frame| powers(frame)).collect();
    let table = pitch_table(sample_rate, frame_size, frame_size / 2 + 1, sigma);
    let chroma = extractor::extract_chroma_with_options(
        &s, &p, &table, sample_rate, frame_size, hop_size, soft,
    )?;
    Ok(chroma.iter().map(|c| flat(c)).collect())
}

fn extract_chroma(
    samples: &[f32],
    sample_rate: u32,
    frame_size: usize,
    hop_size: usize,
) -> Result<Vec<Vec<f32>>, AnalysisError> {
    let s = row(samples);
    let p: Vec<Vec<F32>> =
        spectrogram(&s, frame_size, hop_size).iter().map(|frame| powers(frame)).collect();
    let table = pitch_table(sample_rate, frame_size, frame_size / 2 + 1, 0.5);
    let chroma = extractor::extract_chroma(&s, &p, &table, sample_rate, frame_size, hop_size)?;
    Ok(chroma.iter().map(|c| flat(c)).collect())
}

fn frame_to_chroma(
    magnitude: &[f32],
    sample_rate: u32,
    fft_size: usize,
    soft: bool,
    sigma: f32,
) -> Result<Vec<f32>, AnalysisError> {
    let table = pitch_table(sample_rate, fft_size, magnitude.len(), sigma);
    let p = powers(&row(magnitude));
    Ok(flat(&extractor::frame_to_chroma(&p, &table, sample_rate, fft_size, soft)))
}

#[test]
fn test_extract_chroma_empty() {
    let result = extract_chroma(&[], 44100, 2048, 512);
    assert!(result.is_err());
}

#[test]
fn test_extract_chroma_short() {
    // Very short audio (less than one frame)
    let samples = vec![0.0f32; 1000];
    let result = extract_chroma(&samples, 44100, 2048, 512);
    assert!(result.is_ok());
    let chroma_vectors = result.unwrap();
    assert_eq!(chroma_vectors.len(), 0);
}

#[test]
fn test_extract_chroma_basic() {
    // Generate a simple sine wave at A4 (440 Hz)
    let sample_rate = 44100;
    let duration_samples = sample_rate * 2; // 2 seconds
    let mut samples = Vec::with_capacity(duration_samples);

    for i in 0..duration_samples {
        let t = i as f32 / sample_rate as f32;
        samples.push((2.0 * std::f32::consts::PI * 440.0 * t).sin());
    }

    let result = extract_chroma(&samples, sample_rate as u32, 2048, 512);
    assert!(result.is_ok());

    let chroma_vectors = result.unwrap();
    assert!(!chroma_vectors.is_empty());

    // Check that each chroma vector has 12 elements
    for chroma in &chroma_vectors {
        assert_eq!(chroma.len(), 12);

        // Check normalization (L2 norm should be ~1.0)
        let norm: f32 = chroma.iter().map(|&x| x * x).sum::<f32>().sqrt();
        assert!((norm - 1.0).abs() < 0.01 || norm < EPSILON);
    }

    // A4 should map to semitone class 9 (A)
    // Check that A (index 9) has significant energy
    let avg_chroma: Vec<f32> = (0..12)
        .map(|i| chroma_vectors.iter().map(|v| v[i]).sum::<f32>() / chroma_vectors.len() as f32)
        .collect();

    // A (index 9) should be prominent
    assert!(
        avg_chroma[9] > 0.1,
        "A semitone class should be prominent for A4 tone"
    );
}

#[test]
fn test_frame_to_chroma() {
    let sample_rate = 44100;
    let fft_size = 2048;

    // Create a magnitude spectrum with energy at A4 (440 Hz)
    let mut magnitude = vec![0.0f32; fft_size / 2 + 1];
    let bin_a4 = (440.0 * fft_size as f32 / sample_rate as f32) as usize;
    if bin_a4 < magnitude.len() {
        magnitude[bin_a4] = 1.0;
    }

    let chroma = frame_to_chroma(&magnitude, sample_rate, fft_size, false, 0.5).unwrap();
    assert_eq!(chroma.len(), 12);

    // Check normalization
    let norm: f32 = chroma.iter().map(|&x| x * x).sum::<f32>().sqrt();
    assert!((norm - 1.0).abs() < 0.01 || norm < EPSILON);
}

#[test]
fn test_invalid_parameters() {
    let samples = vec![0.0f32; 10000];

    // Zero frame size
    assert!(extract_chroma(&samples, 44100, 0, 512).is_err());

    // Zero hop size
    assert!(extract_chroma(&samples, 44100, 2048, 0).is_err());

    // Zero sample rate
    assert!(extract_chroma(&samples, 0, 2048, 512).is_err());
}

#[test]
fn test_soft_chroma_mapping() {
    let sample_rate = 44100;
    let duration_samples = sample_rate * 2; // 2 seconds
    let mut samples = Vec::with_capacity(duration_samples);

    for i in 0..duration_samples {
        let t = i as f32 / sample_rate as f32;
        samples.push((2.0 * std::f32::consts::PI * 440.0 * t).sin());
    }

    // Test with soft mapping enabled
    let result_soft =
        extract_chroma_with_options(&samples, sample_rate as u32, 2048, 512, true, 0.5);
    assert!(result_soft.is_ok());

    // Test with soft mapping disabled
    let result_hard =
        extract_chroma_with_options(&samples, sample_rate as u32, 2048, 512, false, 0.5);
    assert!(result_hard.is_ok());

    // Both should produce valid chroma vectors
    let chroma_soft = result_soft.unwrap();
    let chroma_hard = result_hard.unwrap();

    assert_eq!(chroma_soft.len(), chroma_hard.len());
    assert!(!chroma_soft.is_empty());
}


#[test]
fn a_tone_lands_on_its_pitch_class() {
    let mut magnitude = vec![0.0f32; 4097];
    magnitude[82] = 1.0; // 441.4 Hz
    let chroma = frame_to_chroma(&magnitude, 44100, 8192, false, 0.5).unwrap();
    for (class, &x) in chroma.iter().enumerate() {
        assert_eq!(x, if class == 9 { 1.0 } else { 0.0 });
    }
    let soft = frame_to_chroma(&magnitude, 44100, 8192, true, 0.5).unwrap();
    assert!(soft[9] > soft[8] && soft[9] > soft[10] && soft[8] > 0.0 && soft[10] > 0.0);
}

#[test]
fn magnitudes_are_those_of_the_transform() {
    let samples: Vec<F32> =
        (0..256).map(|i| f((2.0 * std::f32::consts::PI * 8.0 * i as f32 / 64.0).sin())).collect();
    let frames = spectrogram(&samples, 64, 32);
    assert_eq!(frames.len(), 7);
    for frame in &frames {
        assert_eq!(frame.len(), 33);
        let loudest = (0..33).max_by(|&a, &b| g(frame[a]).partial_cmp(&g(frame[b])).unwrap());
        assert_eq!(loudest, Some(8));
    }
}
