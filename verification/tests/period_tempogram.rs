use rustfft::num_complex::Complex;
use rustfft::FftPlanner;
use stratum_dsp::error::AnalysisError;
use stratum_dsp::features::period::autocorrelation::squared_magnitudes;
use stratum_dsp::features::period::multi_resolution;
use stratum_dsp::features::period::novelty::log_arguments;
use stratum_dsp::features::period::tempogram;
use stratum_dsp::features::period::tempogram_autocorr;
use stratum_dsp::features::period::tempogram_curves::tempogram_curves;
use stratum_dsp::features::period::tempogram_curves::TempoCurve;
use stratum_dsp::features::period::tempogram_fft;
use stratum_dsp::features::period::types;
use stratum_dsp::float::F32;

fn f(x: f32) -> F32 {
    F32 { bits: x.to_bits() }
}

fn g(x: F32) -> f32 {
    f32::from_bits(x.bits)
}

fn row(v: &[f32]) -> Vec<F32> {
    v.iter().map(|&x| f(x)).collect()
}

fn table(v: &[Vec<f32>]) -> Vec<Vec<F32>> {
    v.iter().map(|r| row(r)).collect()
}

fn hann(n: usize) -> Vec<F32> {
    (0..n)
        .map(|i| {
            let x = 2.0 * std::f32::consts::PI * i as f32 / (n - 1) as f32;
            f(0.5 * (1.0 - x.cos()))
        })
        .collect()
}

fn transformed(input: &[F32], size: usize) -> Vec<Complex<f32>> {
    let mut buffer: Vec<Complex<f32>> = input.iter().map(|&v| Complex::new(g(v), 0.0)).collect();
    buffer.resize(size, Complex::new(0.0, 0.0));
    FftPlanner::new().plan_fft_forward(size).process(&mut buffer);
    buffer
}

fn power_spectrum(curve: &[F32]) -> Vec<F32> {
    if curve.is_empty() {
        return Vec::new();
    }
    let window = if curve.len() > 1 { hann(curve.len()) } else { vec![f(1.0)] };
    let input = tempogram_fft::remove_mean_and_window(curve, &window);
    let t = transformed(&input, input.len().next_power_of_two());
    let re: Vec<F32> = t.iter().map(|c| f(c.re)).collect();
    let im: Vec<F32> = t.iter().map(|c| f(c.im)).collect();
    squared_magnitudes(&re, &im)
}

fn curves(
    frames: &[Vec<f32>],
    sample_rate: u32,
    hop_size: u32,
    min_bpm: f32,
    max_bpm: f32,
    resolution: f32,
) -> Result<Vec<TempoCurve>, AnalysisError> {
    let rows = table(frames);
    let logs: Vec<Vec<F32>> = log_arguments(&rows)
        .iter()
        .map(|r| r.iter().map(|&x| f(g(x).ln())).collect())
        .collect();
    let mut curves = tempogram_curves(
        &rows, &logs, &[], sample_rate, hop_size, f(min_bpm), f(max_bpm), f(resolution), None,
    )?;
    for c in &mut curves {
        c.power_spectrum = power_spectrum(&c.novelty);
    }
    Ok(curves)
}

struct BpmEstimate {
    bpm: f32,
    confidence: f32,
}

fn plain(e: types::BpmEstimate) -> BpmEstimate {
    BpmEstimate { bpm: g(e.bpm), confidence: g(e.confidence) }
}

fn estimate_bpm_tempogram(
    frames: &[Vec<f32>],
    sample_rate: u32,
    hop_size: u32,
    min_bpm: f32,
    max_bpm: f32,
    resolution: f32,
) -> Result<BpmEstimate, AnalysisError> {
    let c = curves(frames, sample_rate, hop_size, min_bpm, max_bpm, resolution)?;
    tempogram::estimate_bpm_tempogram(
        &c, sample_rate, hop_size, f(min_bpm), f(max_bpm), f(resolution),
    )
    .map(plain)
}

fn multi_resolution_analysis(
    frames: &[Vec<f32>],
    sample_rate: u32,
    hop_size: u32,
    min_bpm: f32,
    max_bpm: f32,
    resolution: f32,
) -> Result<BpmEstimate, AnalysisError> {
    let c = curves(frames, sample_rate, hop_size, min_bpm, max_bpm, resolution).unwrap_or_default();
    multi_resolution::multi_resolution_analysis(
        &c, sample_rate, f(min_bpm), f(max_bpm), f(resolution),
    )
    .map(plain)
}

fn back(t: &[(f32, f32)]) -> Vec<(F32, F32)> {
    t.iter().map(|&(a, b)| (f(a), f(b))).collect()
}

fn forth(t: &[(F32, F32)]) -> Vec<(f32, f32)> {
    t.iter().map(|&(a, b)| (g(a), g(b))).collect()
}

fn autocorrelation_tempogram(
    curve: &[f32],
    sample_rate: u32,
    hop_size: u32,
    min_bpm: f32,
    max_bpm: f32,
    resolution: f32,
) -> Result<Vec<(f32, f32)>, AnalysisError> {
    let t = tempogram_autocorr::autocorrelation_tempogram(
        &row(curve), sample_rate, hop_size, f(min_bpm), f(max_bpm), f(resolution),
    )?;
    Ok(forth(&t))
}

struct AutocorrBest {
    bpm: f32,
    confidence: f32,
    strength: f32,
}

fn find_best_bpm_autocorr(t: &[(f32, f32)]) -> Option<AutocorrBest> {
    tempogram_autocorr::find_best_bpm_autocorr(&back(t)).map(|b| AutocorrBest {
        bpm: g(b.bpm),
        confidence: g(b.confidence),
        strength: g(b.strength),
    })
}

fn fft_tempogram(
    curve: &[f32],
    sample_rate: u32,
    hop_size: u32,
    min_bpm: f32,
    max_bpm: f32,
) -> Result<Vec<(f32, f32)>, AnalysisError> {
    let c = row(curve);
    let power = power_spectrum(&c);
    let t = tempogram_fft::fft_tempogram(&c, sample_rate, hop_size, f(min_bpm), f(max_bpm), &power)?;
    Ok(forth(&t))
}

struct FftBest {
    bpm: f32,
    confidence: f32,
    power: f32,
}

fn find_best_bpm_fft(t: &[(f32, f32)]) -> Option<FftBest> {
    tempogram_fft::find_best_bpm_fft(&back(t)).map(|b| FftBest {
        bpm: g(b.bpm),
        confidence: g(b.confidence),
        power: g(b.power),
    })
}

#[test]
fn test_estimate_bpm_tempogram_basic() {
    // Create spectrogram with periodic pattern
    let mut spectrogram = vec![vec![0.1f32; 1024]; 500];

    // Add periodic pattern (simulating 120 BPM)
    let period = 43; // Approximate for 120 BPM at 44.1kHz, 512 hop
    for (i, frame) in spectrogram.iter_mut().enumerate() {
        if i % period == 0 {
            for bin in 0..512 {
                frame[bin] = 1.0;
            }
        }
    }

    let result = estimate_bpm_tempogram(&spectrogram, 44100, 512, 100.0, 140.0, 0.5).unwrap();

    // Should find BPM around 120
    assert!(
        result.bpm >= 115.0 && result.bpm <= 125.0,
        "Expected BPM around 120, got {:.1}",
        result.bpm
    );
    assert!(result.confidence >= 0.0 && result.confidence <= 1.0);
}

#[test]
fn test_estimate_bpm_tempogram_empty() {
    let spectrogram = vec![];
    let result = estimate_bpm_tempogram(&spectrogram, 44100, 512, 40.0, 240.0, 0.5);
    assert!(result.is_err());
}

#[test]
fn test_estimate_bpm_tempogram_agreement() {
    // This test would require mocking the tempogram methods to ensure agreement
    // For now, we test that the function runs without error
    let spectrogram = vec![vec![0.5f32; 1024]; 200];
    let result = estimate_bpm_tempogram(&spectrogram, 44100, 512, 40.0, 240.0, 0.5);

    // Should either succeed or fail gracefully
    match result {
        Ok(est) => {
            assert!(est.bpm >= 40.0 && est.bpm <= 240.0);
            assert!(est.confidence >= 0.0 && est.confidence <= 1.0);
        }
        Err(_) => {
            // Failure is acceptable for random input
        }
    }
}

#[test]
fn test_multi_resolution_analysis_basic() {
    // Create spectrogram with periodic pattern
    let mut spectrogram = vec![vec![0.1f32; 1024]; 500];

    // Add periodic pattern
    let period = 43;
    for (i, frame) in spectrogram.iter_mut().enumerate() {
        if i % period == 0 {
            for bin in 0..512 {
                frame[bin] = 1.0;
            }
        }
    }

    let result = multi_resolution_analysis(&spectrogram, 44100, 512, 100.0, 140.0, 0.5);

    // Should either succeed or fail gracefully
    match result {
        Ok(est) => {
            assert!(est.bpm >= 100.0 && est.bpm <= 140.0);
            assert!(est.confidence >= 0.0 && est.confidence <= 1.0);
        }
        Err(_) => {
            // Failure is acceptable for test input
        }
    }
}

#[test]
fn test_multi_resolution_analysis_empty() {
    let spectrogram = vec![];
    let result = multi_resolution_analysis(&spectrogram, 44100, 512, 40.0, 240.0, 0.5);
    assert!(result.is_err());
}

#[test]
fn test_autocorrelation_tempogram_periodic() {
    // Create periodic novelty curve (120 BPM = 2 beats per second)
    // At 44.1kHz, 512 hop: frame_rate = 44100/512 ≈ 86.13 Hz
    // For 120 BPM: frames_per_beat = 86.13 / 2 ≈ 43 frames
    let sample_rate = 44100;
    let hop_size = 512;
    let frame_rate = sample_rate as f32 / hop_size as f32;
    let beats_per_second = 120.0 / 60.0;
    let frames_per_beat = frame_rate / beats_per_second;

    // Create novelty curve with periodicity at frames_per_beat
    let period = frames_per_beat as usize;
    let mut novelty = vec![0.0f32; 500];
    for (i, val) in novelty.iter_mut().enumerate() {
        if i % period == 0 {
            *val = 1.0;
        }
    }

    let tempogram =
        autocorrelation_tempogram(&novelty, sample_rate, hop_size, 100.0, 140.0, 1.0).unwrap();

    // Should find 120 BPM (or close) as top candidate
    let best = find_best_bpm_autocorr(&tempogram).unwrap();
    assert!(
        best.bpm >= 115.0 && best.bpm <= 125.0,
        "Expected BPM around 120, got {:.1}",
        best.bpm
    );
}

#[test]
fn test_autocorrelation_tempogram_empty() {
    let novelty = vec![];
    let result = autocorrelation_tempogram(&novelty, 44100, 512, 40.0, 240.0, 0.5);
    assert!(result.is_err());
}

#[test]
fn test_autocorrelation_tempogram_invalid_params() {
    let novelty = vec![0.5f32; 100];

    // Invalid sample rate
    let result = autocorrelation_tempogram(&novelty, 0, 512, 40.0, 240.0, 0.5);
    assert!(result.is_err());

    // Invalid hop size
    let result = autocorrelation_tempogram(&novelty, 44100, 0, 40.0, 240.0, 0.5);
    assert!(result.is_err());

    // Invalid BPM range
    let result = autocorrelation_tempogram(&novelty, 44100, 512, 240.0, 40.0, 0.5);
    assert!(result.is_err());
}

#[test]
fn test_find_best_bpm_autocorr() {
    let tempogram = vec![(120.0, 0.9), (60.0, 0.3), (180.0, 0.2)];

    let result = find_best_bpm_autocorr(&tempogram).unwrap();

    assert_eq!(result.bpm, 120.0);
    assert_eq!(result.strength, 0.9);
    // Confidence is prominence-style: (best - second) / best = (0.9 - 0.3) / 0.9 = 0.666...
    assert!((result.confidence - (2.0 / 3.0)).abs() < 1e-6);
}

#[test]
fn test_find_best_bpm_autocorr_empty() {
    let tempogram = vec![];
    let result = find_best_bpm_autocorr(&tempogram);
    assert!(result.is_none());
}

#[test]
fn test_fft_tempogram_periodic() {
    // Create periodic novelty curve (120 BPM = 2 beats per second)
    // At 44.1kHz, 512 hop: frame_rate = 44100/512 ≈ 86.13 Hz
    // For 120 BPM: frequency = 2 Hz
    let sample_rate = 44100;
    let hop_size = 512;
    let frame_rate = sample_rate as f32 / hop_size as f32;
    let beats_per_second = 120.0 / 60.0;
    let frames_per_beat = frame_rate / beats_per_second;

    // Create novelty curve with periodicity at frames_per_beat
    let period = frames_per_beat as usize;
    let mut novelty = vec![0.0f32; 500];
    for (i, val) in novelty.iter_mut().enumerate() {
        if i % period == 0 {
            *val = 1.0;
        }
    }

    let tempogram = fft_tempogram(&novelty, sample_rate, hop_size, 100.0, 140.0).unwrap();

    // Should find 120 BPM (or close) as top candidate
    let best = find_best_bpm_fft(&tempogram).unwrap();
    assert!(
        best.bpm >= 115.0 && best.bpm <= 125.0,
        "Expected BPM around 120, got {:.1}",
        best.bpm
    );
}

#[test]
fn test_fft_tempogram_empty() {
    let novelty = vec![];
    let result = fft_tempogram(&novelty, 44100, 512, 40.0, 240.0);
    assert!(result.is_err());
}

#[test]
fn test_fft_tempogram_invalid_params() {
    let novelty = vec![0.5f32; 100];

    // Invalid sample rate
    let result = fft_tempogram(&novelty, 0, 512, 40.0, 240.0);
    assert!(result.is_err());

    // Invalid hop size
    let result = fft_tempogram(&novelty, 44100, 0, 40.0, 240.0);
    assert!(result.is_err());

    // Invalid BPM range
    let result = fft_tempogram(&novelty, 44100, 512, 240.0, 40.0);
    assert!(result.is_err());
}

#[test]
fn test_find_best_bpm_fft() {
    let tempogram = vec![(120.0, 0.9), (60.0, 0.3), (180.0, 0.2)];

    let result = find_best_bpm_fft(&tempogram).unwrap();

    assert_eq!(result.bpm, 120.0);
    assert_eq!(result.power, 0.9);
    // Confidence is prominence-style: (best - second) / best = (0.9 - 0.3) / 0.9 = 0.666...
    assert!((result.confidence - (2.0 / 3.0)).abs() < 1e-6);
}

#[test]
fn test_find_best_bpm_fft_empty() {
    let tempogram = vec![];
    let result = find_best_bpm_fft(&tempogram);
    assert!(result.is_none());
}


fn pulses(frames: usize, period: usize) -> Vec<Vec<f32>> {
    (0..frames).map(|i| vec![if i % period == 0 { 1.0f32 } else { 0.1 }; 64]).collect()
}

#[test]
fn candidates_near_the_tempo_are_marked() {
    let c = curves(&pulses(400, 43), 44100, 512, 60.0, 180.0, 1.0).unwrap();
    let (e, listed) = tempogram::estimate_bpm_tempogram_with_candidates(
        &c, 44100, 512, f(60.0), f(180.0), f(1.0), 8,
    )
    .unwrap();
    assert!(listed.len() <= 8 && !listed.is_empty());
    assert!(listed.iter().all(|x| x.selected == ((g(x.bpm) - g(e.bpm)).abs() < 0.75)));
    assert!(listed.iter().all(|x| g(x.bpm) >= 60.0 && g(x.bpm) <= 180.0));
    assert!(listed.windows(2).all(|w| g(w[0].score) >= g(w[1].score)));
    assert!(g(e.confidence) >= 0.0 && g(e.confidence) <= 1.0 && e.method_agreement <= 2);
}

#[test]
fn entries_stand_by_strength() {
    let curve: Vec<f32> = (0..300).map(|i| if i % 43 == 0 { 1.0 } else { 0.0 }).collect();
    let t = autocorrelation_tempogram(&curve, 44100, 512, 100.0, 140.0, 1.0).unwrap();
    assert_eq!(t.len(), 41);
    assert!(t.windows(2).all(|w| w[0].1 >= w[1].1));
    let mut tempos: Vec<f32> = t.iter().map(|e| e.0).collect();
    tempos.sort_by(|a, b| a.partial_cmp(b).unwrap());
    assert_eq!(tempos, (100..=140).map(|b| b as f32).collect::<Vec<f32>>());
}

#[test]
fn messages_of_tempograms() {
    match autocorrelation_tempogram(&[0.5; 10], 44100, 512, 240.0, 40.0, 0.5) {
        Err(AnalysisError::InvalidInput(m)) => assert_eq!(m, "Invalid BPM range: min=240, max=40"),
        _ => panic!("expected an error"),
    }
    match autocorrelation_tempogram(&[0.5; 10], 44100, 512, 40.0, 240.0, -0.25) {
        Err(AnalysisError::InvalidInput(m)) => {
            assert_eq!(m, "BPM resolution must be > 0, got -0.25")
        }
        _ => panic!("expected an error"),
    }
    match estimate_bpm_tempogram(&[], 44100, 512, 40.0, 240.0, 0.5) {
        Err(AnalysisError::InvalidInput(m)) => assert_eq!(m, "Empty magnitude frames"),
        _ => panic!("expected an error"),
    }
    match multi_resolution_analysis(&[], 44100, 512, 40.0, 240.0, 0.5) {
        Err(AnalysisError::ProcessingError(m)) => {
            assert_eq!(m, "All multi-resolution tempogram analyses failed")
        }
        _ => panic!("expected an error"),
    }
}

#[test]
fn agreeing_resolutions_are_averaged() {
    let e = |bpm: f32, confidence: f32| types::BpmEstimate {
        bpm: f(bpm),
        confidence: f(confidence),
        method_agreement: 1,
    };
    let mean = multi_resolution::consensus(&[e(120.0, 0.5), e(121.0, 0.25)]).unwrap();
    assert_eq!((g(mean.bpm), mean.method_agreement), (120.5, 2));
    assert!((g(mean.confidence) - 0.45).abs() < 1e-6);
    let best = multi_resolution::consensus(&[e(120.0, 0.5), e(90.0, 0.25)]).unwrap();
    assert_eq!((g(best.bpm), best.method_agreement), (120.0, 1));
    assert!((g(best.confidence) - 0.45).abs() < 1e-6);
}

#[test]
fn methods_that_agree_are_averaged() {
    let frames = pulses(500, 43);
    let c = curves(&frames, 44100, 512, 100.0, 140.0, 5.0).unwrap();
    let fft: Vec<(f32, f32)> = tempogram_fft::fft_tempogram(
        &c[0].novelty, 44100, 512, f(100.0), f(140.0), &c[0].power_spectrum,
    )
    .unwrap()
    .iter()
    .map(|&(b, x)| (g(b), g(x)))
    .collect();
    let autocorr: Vec<(f32, f32)> = tempogram_autocorr::autocorrelation_tempogram(
        &c[0].novelty, 44100, 512, f(100.0), f(140.0), f(5.0),
    )
    .unwrap()
    .iter()
    .map(|&(b, x)| (g(b), g(x)))
    .collect();
    let a = find_best_bpm_fft(&fft).unwrap();
    let b = find_best_bpm_autocorr(&autocorr).unwrap();
    let e = estimate_bpm_tempogram(&frames, 44100, 512, 100.0, 140.0, 5.0).unwrap();
    assert!((a.bpm - b.bpm).abs() <= 2.0, "{} {}", a.bpm, b.bpm);
    assert_eq!(e.bpm, (a.bpm + b.bpm) / 2.0);
    assert_eq!(e.confidence, (a.confidence.max(b.confidence) * 1.2).min(1.0));
}

#[test]
fn of_methods_that_differ_the_surer_one_decides() {
    let curve = |spectrum: Vec<f32>| -> Vec<TempoCurve> {
        let mut c = curves(&pulses(500, 43), 44100, 512, 60.0, 180.0, 1.0).unwrap();
        c[0].power_spectrum = row(&spectrum);
        c
    };
    let mut clear = vec![0.0f32; 512];
    clear[7] = 1.0;
    let e = tempogram::estimate_bpm_tempogram(&curve(clear), 44100, 512, f(60.0), f(180.0), f(1.0))
        .unwrap();
    assert!((g(e.bpm) - 7.0 * 44100.0 / 512.0 / 512.0 * 60.0).abs() < 0.01, "{}", g(e.bpm));
    assert_eq!((g(e.confidence), e.method_agreement), (1.0, 1));
    let mut c = curves(&pulses(500, 43), 44100, 512, 100.0, 140.0, 5.0).unwrap();
    let mut flat = vec![0.0f32; 512];
    flat[10] = 1.0;
    flat[11] = 1.0;
    c[0].power_spectrum = row(&flat);
    let e = tempogram::estimate_bpm_tempogram(&c, 44100, 512, f(100.0), f(140.0), f(5.0)).unwrap();
    assert_eq!((g(e.bpm), e.method_agreement), (120.0, 1));
    assert!(g(e.confidence) > 0.0);
}
