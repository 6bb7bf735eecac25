use stratum_dsp::error::AnalysisError;
use stratum_dsp::features::chroma::beat_chroma::extract_beat_synchronous_chroma;
use stratum_dsp::features::chroma::extractor::extract_chroma_from_spectrogram_with_options;
use stratum_dsp::features::chroma::extractor::extract_chroma_from_spectrogram_with_options_and_energy;
use stratum_dsp::features::chroma::extractor::extract_chroma_from_spectrogram_with_options_and_energy_tuned;
use stratum_dsp::features::chroma::extractor::ChromaOptions;
use stratum_dsp::features::chroma::extractor::PitchTable;
use stratum_dsp::features::chroma::harmonic::band_ceiling;
use stratum_dsp::features::chroma::harmonic::band_floor;
use stratum_dsp::features::chroma::harmonic::harmonic_spectrogram_hpss_median_mask;
use stratum_dsp::features::chroma::harmonic::harmonic_spectrogram_time_mask;
use stratum_dsp::features::chroma::harmonic::mask_exponent;
use stratum_dsp::features::chroma::harmonic::median_mask_parts;
use stratum_dsp::features::chroma::harmonic::smooth_spectrogram_time;
use stratum_dsp::features::chroma::harmonic::time_mask_parts;
use stratum_dsp::features::chroma::harmonic::MedianMaskOptions;
use stratum_dsp::features::chroma::hpcp::bass_peaks;
use stratum_dsp::features::chroma::hpcp::decay_factor;
use stratum_dsp::features::chroma::hpcp::extract_hpcp_bass_blend_from_spectrogram_with_options_and_energy_tuned;
use stratum_dsp::features::chroma::hpcp::extract_hpcp_from_spectrogram_with_options_and_energy_tuned;
use stratum_dsp::features::chroma::hpcp::find_partials;
use stratum_dsp::features::chroma::hpcp::magnitude_power;
use stratum_dsp::features::chroma::hpcp::HpcpOptions;
use stratum_dsp::features::chroma::hpcp::SoundedPartial;
use stratum_dsp::features::chroma::log_frequency::convert_linear_to_log_frequency_spectrogram;
use stratum_dsp::features::chroma::log_frequency::extract_chroma_from_log_frequency_spectrogram;
use stratum_dsp::features::chroma::log_frequency::highest_semitone;
use stratum_dsp::features::chroma::log_frequency::lowest_semitone;
use stratum_dsp::features::chroma::log_frequency::semitone_ceiling;
use stratum_dsp::features::chroma::log_frequency::SemitoneBand;
use stratum_dsp::features::chroma::pitch::above_a4;
use stratum_dsp::features::chroma::pitch::bin_ratios;
use stratum_dsp::features::chroma::pitch::circle_distance;
use stratum_dsp::features::chroma::pitch::gaussian_exponents;
use stratum_dsp::features::chroma::pitch::nyquist;
use stratum_dsp::features::chroma::pitch::semitone_of;
use stratum_dsp::features::chroma::pitch::Neighbours;
use stratum_dsp::features::chroma::tuning::average_direction;
use stratum_dsp::features::chroma::tuning::deviation_angle;
use stratum_dsp::features::chroma::tuning::estimate_tuning_offset_semitones_from_spectrogram;
use stratum_dsp::features::chroma::tuning::find_strong_bins;
use stratum_dsp::features::chroma::tuning::TuningOptions;
use stratum_dsp::features::chroma::tuning::TuningVote;
use stratum_dsp::float::F32;

fn f(x: f32) -> F32 {
    F32 { bits: x.to_bits() }
}

fn g(x: F32) -> f32 {
    f32::from_bits(x.bits)
}

fn row(v: &[f32]) -> Vec<F32> {
    v.iter().map(|&x| f(x)).collect()
}

const RATE: u32 = 44100;
const SIZE: usize = 32768;

fn bin_of(hz: f32) -> usize {
    (hz * SIZE as f32 / RATE as f32).round() as usize
}

/// A spectrum with lines at given frequencies.
fn lines(hz: &[(f32, f32)]) -> Vec<F32> {
    let mut v = vec![f(0.0); SIZE / 2 + 1];
    for &(x, m) in hz {
        v[bin_of(x)] = f(m);
    }
    v
}

fn raised(e: &[Neighbours]) -> Vec<Neighbours> {
    let up = |x: F32| f(g(x).exp());
    e.iter().map(|n| Neighbours { below: up(n.below), at: up(n.at), above: up(n.above) }).collect()
}

fn log2_ratios() -> Vec<F32> {
    bin_ratios(RATE, SIZE, SIZE / 2 + 1).iter().map(|&x| f(g(x).log2())).collect()
}

fn table(tuning: f32) -> PitchTable {
    let log2_ratios = log2_ratios();
    let weights = raised(&gaussian_exponents(&log2_ratios, f(tuning), f(0.5)));
    PitchTable { log2_ratios, weights }
}

fn powers(frames: &[Vec<F32>]) -> Vec<Vec<F32>> {
    frames.iter().map(|r| r.iter().map(|&m| f(g(m).max(0.0).powf(0.6))).collect()).collect()
}

fn strongest(v: &[F32]) -> usize {
    let mut best = 0;
    for i in 0..v.len() {
        if g(v[i]) > g(v[best]) {
            best = i;
        }
    }
    best
}

fn shift(hz: f32, semitones: f32) -> f32 {
    hz * (semitones / 12.0).exp2()
}

#[test]
fn pitches() {
    assert_eq!(g(nyquist(44100)), 22050.0);
    assert_eq!(g(above_a4(f(880.0))), 2.0);
    assert_eq!(g(semitone_of(f(1.0))), 69.0);
    assert_eq!(g(semitone_of(f(0.0))), 57.0);
    assert_eq!(g(circle_distance(f(11.75), 0)), 0.25);
    assert_eq!(g(circle_distance(f(1.0), 7)), 6.0);
}

#[test]
fn tuning_moves_the_pitch_class() {
    let frames = vec![lines(&[(shift(440.0, 0.6), 1.0)])];
    for soft_mapping in [false, true] {
        let chroma = |tuning: f32| {
            extract_chroma_from_spectrogram_with_options_and_energy_tuned(
                &frames,
                &powers(&frames),
                &table(tuning),
                ChromaOptions { sample_rate: RATE, fft_size: SIZE, soft_mapping, tuning: f(tuning) },
            )
            .unwrap()
        };
        assert_eq!(strongest(&chroma(0.0).0[0]), 10);
        assert_eq!(strongest(&chroma(0.5).0[0]), 9);
    }
}

#[test]
fn energies_of_frames() {
    let frames = vec![lines(&[(440.0, 0.5), (660.0, 2.0)]), lines(&[])];
    let (chroma, energies) = extract_chroma_from_spectrogram_with_options_and_energy(
        &frames,
        &powers(&frames),
        &table(0.0),
        RATE,
        SIZE,
        false,
    )
    .unwrap();
    assert_eq!(chroma.len(), 2);
    assert_eq!(strongest(&chroma[0]), 4);
    assert!(chroma[1].iter().all(|&x| g(x) == 0.0));
    assert!(g(energies[0]) > 0.0 && g(energies[1]) == 0.0);
    let plain = extract_chroma_from_spectrogram_with_options(
        &frames,
        &powers(&frames),
        &table(0.0),
        RATE,
        SIZE,
        false,
    )
    .unwrap();
    assert_eq!(plain[0], chroma[0]);
}

#[test]
fn chroma_by_beats() {
    let a = lines(&[(440.0, 1.0)]);
    let c = lines(&[(523.25, 1.0)]);
    let frames = vec![a.clone(), a.clone(), a, c.clone(), c.clone(), c];
    let o = ChromaOptions { sample_rate: RATE, fft_size: SIZE, soft_mapping: false, tuning: f(0.0) };
    let beats = row(&[0.0, 3.0, 6.0]);
    let (chroma, energies) =
        extract_beat_synchronous_chroma(&frames, &powers(&frames), &table(0.0), o, 44100, &beats)
            .unwrap();
    assert_eq!((strongest(&chroma[0]), strongest(&chroma[1])), (9, 0));
    assert_eq!(chroma.len(), energies.len());
    match extract_beat_synchronous_chroma(&frames, &powers(&frames), &table(0.0), o, 44100, &[]) {
        Err(AnalysisError::InvalidInput(m)) => {
            assert_eq!(m, "Beat-synchronous chroma requires at least one beat time")
        }
        _ => panic!("expected an error"),
    }
}

#[test]
fn smoothing_over_time() {
    let frames = vec![row(&[0.0, 3.0]), row(&[3.0, 3.0]), row(&[0.0, 3.0])];
    let r = smooth_spectrogram_time(&frames, 1).unwrap();
    assert_eq!(r[1], row(&[1.0, 3.0]));
    assert_eq!(r[0], row(&[1.5, 3.0]));
    assert_eq!(smooth_spectrogram_time(&frames, 0).unwrap(), frames);
}

#[test]
fn a_click_is_masked_over_time() {
    let mut frames = vec![row(&[1.0, 0.0]); 9];
    frames[4][1] = f(1.0);
    let (lasting, passing) = time_mask_parts(&frames, 4).unwrap();
    let p = g(mask_exponent(f(2.0)));
    assert_eq!(p, 2.0);
    let up = |rows: &[Vec<F32>]| -> Vec<Vec<F32>> {
        rows.iter().map(|r| r.iter().map(|&x| f(g(x).powf(p))).collect()).collect()
    };
    let r = harmonic_spectrogram_time_mask(&frames, &up(&lasting), &up(&passing));
    assert!(g(r[4][0]) > 0.99);
    assert!(g(r[4][1]) < 0.1);
    assert_eq!(g(r[0][1]), 0.0);
}

#[test]
fn a_click_is_masked_by_medians() {
    let mut frames = vec![vec![f(0.01); 65]; 21];
    for x in frames.iter_mut() {
        x[20] = f(1.0);
    }
    for b in 0..65 {
        frames[10][b] = f(1.0);
    }
    let o = MedianMaskOptions {
        sample_rate: 8192,
        fft_size: 128,
        fmin_hz: f(100.0),
        fmax_hz: f(4000.0),
        frame_step: 1,
        time_margin: 4,
        freq_margin: 4,
    };
    assert_eq!(g(band_floor(o.fmin_hz)), 100.0);
    assert_eq!(g(band_ceiling(o.fmin_hz, o.fmax_hz, o.sample_rate)), 4000.0);
    let (lasting, spreading) = median_mask_parts(&frames, o).unwrap();
    let up = |rows: &[Vec<F32>]| -> Vec<Vec<F32>> {
        rows.iter().map(|r| r.iter().map(|&x| f(g(x).powf(2.0))).collect()).collect()
    };
    let r = harmonic_spectrogram_hpss_median_mask(&frames, o, &up(&lasting), &up(&spreading)).unwrap();
    assert_eq!(r.len(), frames.len());
    assert!(g(r[3][20]) > 0.9);
    assert!(g(r[10][40]) < 0.1);
}

fn hpcp_options() -> HpcpOptions {
    HpcpOptions {
        sample_rate: RATE,
        fft_size: SIZE,
        peaks_per_frame: 24,
        num_harmonics: 4,
        enable_whitening: false,
        whitening_smooth_bins: 21,
        fmin_hz: f(100.0),
        fmax_hz: f(5000.0),
    }
}

fn sounded(row: &[F32], o: HpcpOptions) -> Vec<SoundedPartial> {
    let partials = find_partials(row, o);
    let log2: Vec<F32> = partials.iter().map(|p| f(g(p.ratio).log2())).collect();
    let weights = raised(&gaussian_exponents(&log2, f(0.0), f(0.5)));
    let power = g(magnitude_power(f(0.6)));
    let decay = g(decay_factor(f(0.6)));
    partials
        .iter()
        .enumerate()
        .map(|(i, p)| SoundedPartial {
            harmonic: p.harmonic,
            strength: f(g(row[p.bin]).max(0.0).powf(power)),
            decay: f(decay.powi(p.harmonic as i32 - 1)),
            log2_ratio: log2[i],
            weights: weights[i],
        })
        .collect()
}

#[test]
fn profile_of_a_harmonic_tone() {
    let frame = lines(&[(220.0, 1.0), (440.0, 0.8), (660.0, 0.6), (880.0, 0.5)]);
    let o = hpcp_options();
    let frames = vec![frame.clone()];
    let full = vec![sounded(&frame, o)];
    assert!(full[0].iter().any(|p| p.harmonic == 1));
    let (profile, energies) =
        extract_hpcp_from_spectrogram_with_options_and_energy_tuned(&frames, &full, f(0.0)).unwrap();
    assert_eq!(strongest(&profile[0]), 9);
    assert!(g(energies[0]) > 0.0);
    let whitened = vec![sounded(&frame, HpcpOptions { enable_whitening: true, ..o })];
    let (profile, _) =
        extract_hpcp_from_spectrogram_with_options_and_energy_tuned(&frames, &whitened, f(0.0))
            .unwrap();
    assert_eq!(strongest(&profile[0]), 9);
}

#[test]
fn bass_blend_between_its_ends() {
    let frame = lines(&[(130.81, 1.0), (659.26, 0.7)]);
    let o = hpcp_options();
    let bass_options = HpcpOptions {
        fmin_hz: f(55.0),
        fmax_hz: f(300.0),
        peaks_per_frame: bass_peaks(o.peaks_per_frame),
        ..o
    };
    let frames = vec![frame.clone()];
    let full = vec![sounded(&frame, o)];
    let bass = vec![sounded(&frame, bass_options)];
    let blend = |w: f32| {
        extract_hpcp_bass_blend_from_spectrogram_with_options_and_energy_tuned(
            &frames,
            &full,
            &bass,
            f(0.0),
            f(w),
        )
        .unwrap()
        .0[0]
            .clone()
    };
    let alone = |s: &[Vec<SoundedPartial>]| {
        extract_hpcp_from_spectrogram_with_options_and_energy_tuned(&frames, s, f(0.0)).unwrap().0[0]
            .clone()
    };
    for (a, b) in blend(0.0).iter().zip(alone(&full).iter()) {
        assert!((g(*a) - g(*b)).abs() < 1e-6);
    }
    for (a, b) in blend(1.0).iter().zip(alone(&bass).iter()) {
        assert!((g(*a) - g(*b)).abs() < 1e-6);
    }
    assert!(g(blend(1.0)[0]) > g(blend(0.0)[0]));
}

#[test]
fn tuning_of_a_detuned_tone() {
    let o = TuningOptions {
        sample_rate: RATE,
        fft_size: SIZE,
        fmin_hz: f(80.0),
        fmax_hz: f(2000.0),
        frame_step: 1,
        peak_rel_threshold: f(0.35),
    };
    let log2 = log2_ratios();
    for cents in [-30.0f32, -10.0, 20.0, 40.0] {
        let frames = vec![lines(&[(shift(880.0, cents / 100.0), 1.0), (300.0, 0.1)]); 4];
        let strong = find_strong_bins(&frames, o).unwrap();
        assert_eq!(strong.len(), 4);
        let votes: Vec<TuningVote> = strong
            .iter()
            .map(|s| {
                let angle = g(deviation_angle(log2[s.bin]));
                TuningVote {
                    weight: f(g(frames[s.frame][s.bin]).sqrt()),
                    sin: f(angle.sin()),
                    cos: f(angle.cos()),
                }
            })
            .collect();
        let angle = average_direction(&votes).map(|(s, c)| f(g(s).atan2(g(c))));
        let offset = g(estimate_tuning_offset_semitones_from_spectrogram(angle));
        assert!((offset - cents / 100.0).abs() < 0.03, "{} {}", cents, offset);
    }
    assert!(average_direction(&[]).is_none());
    assert_eq!(g(estimate_tuning_offset_semitones_from_spectrogram(None)), 0.0);
}

fn semitone_band(fmin: f32, fmax: f32) -> SemitoneBand {
    let log2 = |x: F32| f(g(above_a4(x)).log2());
    SemitoneBand {
        sample_rate: RATE,
        fft_size: SIZE,
        fmin_hz: f(fmin),
        fmax_hz: f(fmax),
        log2_floor: log2(band_floor(f(fmin))),
        log2_ceiling: log2(semitone_ceiling(f(fmax), RATE)),
    }
}

#[test]
fn semitones_of_a_tone() {
    let band = semitone_band(110.0, 3520.0);
    assert_eq!((lowest_semitone(band), highest_semitone(band)), (33, 93));
    let frames = vec![lines(&[(440.0, 1.0)]), lines(&[(523.25, 2.0)])];
    let rows = convert_linear_to_log_frequency_spectrogram(&frames, &log2_ratios(), band).unwrap();
    assert_eq!(strongest(&rows[0]), 57 - 33);
    let chroma = extract_chroma_from_log_frequency_spectrogram(&rows, lowest_semitone(band));
    assert_eq!((strongest(&chroma[0]), strongest(&chroma[1])), (9, 0));
    assert!(chroma.iter().all(|v| v.len() == 12));
}

#[test]
fn empty_semitone_bands_are_refused() {
    let frames = vec![lines(&[(440.0, 1.0)])];
    let told = |r: Result<Vec<Vec<F32>>, AnalysisError>| match r {
        Err(AnalysisError::InvalidInput(m)) => m,
        _ => panic!("expected an error"),
    };
    let upside_down = semitone_band(3520.0, 110.0);
    assert_eq!(
        told(convert_linear_to_log_frequency_spectrogram(&frames, &log2_ratios(), upside_down)),
        "Invalid semitone range: fmin >= fmax"
    );
    let mut no_rate = semitone_band(110.0, 3520.0);
    no_rate.sample_rate = 0;
    assert_eq!(
        told(convert_linear_to_log_frequency_spectrogram(&frames, &log2_ratios(), no_rate)),
        "Sample rate and FFT size must be > 0"
    );
}

