use stratum_dsp::config::AnalysisConfig;
use stratum_dsp::features::chroma::hpcp::decay_steps;
use stratum_dsp::features::chroma::hpcp::partial_magnitudes;
use stratum_dsp::features::chroma::hpcp::partial_ratios;
use stratum_dsp::features::chroma::hpcp::sound_partials;
use stratum_dsp::features::chroma::hpcp::Partial;
use stratum_dsp::features::chroma::pitch::chroma_bases;
use stratum_dsp::features::chroma::pitch::chroma_power;
use stratum_dsp::features::chroma::pitch::Neighbours;
use stratum_dsp::features::chroma::stft::hann_window;
use stratum_dsp::features::chroma::stft::window_angles;
use stratum_dsp::features::chroma::tuning::deviation_angle;
use stratum_dsp::features::chroma::tuning::make_votes;
use stratum_dsp::features::chroma::tuning::strong_angles;
use stratum_dsp::features::chroma::tuning::strong_magnitudes;
use stratum_dsp::features::chroma::tuning::weight_power;
use stratum_dsp::features::chroma::tuning::StrongBin;
use stratum_dsp::features::onset::energy_flux::level_exponent;
use stratum_dsp::features::period::candidate_filter::cents_exponent;
use stratum_dsp::features::period::multi_resolution::fusion_tolerance;
use stratum_dsp::features::period::novelty::mel_argument;
use stratum_dsp::features::period::novelty::mel_exponent;
use stratum_dsp::features::period::novelty::mel_frequency;
use stratum_dsp::features::period::novelty::mel_place;
use stratum_dsp::float::F32;
use stratum_dsp::pipeline::key;
use stratum_dsp::pipeline::onsets;
use stratum_dsp::pipeline::tempo;

fn f(x: f32) -> F32 {
    F32 { bits: x.to_bits() }
}

fn g(x: F32) -> f32 {
    f32::from_bits(x.bits)
}

fn row(v: &[f32]) -> Vec<F32> {
    v.iter().map(|&x| f(x)).collect()
}

fn flat(v: &[F32]) -> Vec<f32> {
    v.iter().map(|&x| g(x)).collect()
}

#[test]
fn hann_windows_are_those_of_machine_floats() {
    for n in [2usize, 5, 64, 1023] {
        let cosines: Vec<F32> = window_angles(n).iter().map(|&x| f(g(x).cos())).collect();
        let expected: Vec<f32> = (0..n)
            .map(|i| {
                let x = 2.0 * std::f32::consts::PI * i as f32 / (n - 1) as f32;
                0.5 * (1.0 - x.cos())
            })
            .collect();
        assert_eq!(flat(&hann_window(&cosines)), expected);
    }
}

#[test]
fn strong_bins_become_votes() {
    let frames = vec![row(&[0.0, -2.0, 3.0]), row(&[4.0, 5.0, 6.0])];
    let bins = [StrongBin { frame: 0, bin: 1 }, StrongBin { frame: 1, bin: 2 }];
    assert_eq!(flat(&strong_magnitudes(&frames, &bins)), vec![0.0, 6.0]);
    let log2 = row(&[0.0, 0.01, 0.5]);
    let angles = strong_angles(&log2, &bins);
    assert_eq!(flat(&angles), vec![g(deviation_angle(f(0.01))), g(deviation_angle(f(0.5)))]);
    assert_eq!(g(weight_power()), 0.5);
    let votes = make_votes(&row(&[1.0, 2.0]), &row(&[0.1, 0.2]), &row(&[0.3, 0.4]));
    assert_eq!((g(votes[1].weight), g(votes[1].sin), g(votes[1].cos)), (2.0, 0.2, 0.4));
}

#[test]
fn partials_are_sounded() {
    let spectrum = row(&[0.0, 9.0, -1.0]);
    let partials = [
        Partial { bin: 1, harmonic: 1, ratio: f(0.5) },
        Partial { bin: 2, harmonic: 3, ratio: f(1.5) },
    ];
    assert_eq!(flat(&partial_magnitudes(&spectrum, &partials)), vec![9.0, 0.0]);
    assert_eq!(flat(&partial_ratios(&partials)), vec![0.5, 1.5]);
    assert_eq!((decay_steps(1), decay_steps(3)), (0, 2));
    let w = Neighbours { below: f(0.1), at: f(1.0), above: f(0.2) };
    let s = sound_partials(
        &partials, &row(&[3.0, 0.0]), &row(&[1.0, 0.36]), &row(&[-1.0, 0.58]), &[w, w],
    );
    assert_eq!((s[0].harmonic, g(s[0].strength), g(s[0].decay)), (1, 3.0, 1.0));
    assert_eq!((s[1].harmonic, g(s[1].log2_ratio), g(s[1].weights.at)), (3, 0.58, 1.0));
}

#[test]
fn magnitudes_of_chroma_are_not_below_zero() {
    let bases = chroma_bases(&[row(&[1.0, -1.0]), row(&[])]);
    assert_eq!((flat(&bases[0]), bases[1].len()), (vec![1.0, 0.0], 0));
    assert_eq!(g(chroma_power()), 0.6);
}

#[test]
fn levels_and_intervals_are_exponents() {
    assert_eq!(g(onsets::energy_onset_level_db()), -20.0);
    assert_eq!(g(level_exponent(onsets::energy_onset_level_db())), -1.0);
    assert_eq!(onsets::shortest_silence_ms(), 500);
    assert_eq!(g(onsets::target_loudness_lufs()), -14.0);
    assert_eq!(g(onsets::headroom_db()), 1.0);
    assert_eq!(g(tempo::octave_tolerance_cents()), 50.0);
    assert_eq!(g(cents_exponent(f(50.0))), 50.0f32 / 1200.0);
}

#[test]
fn mel_scale_is_that_of_machine_floats() {
    for hz in [0.0f32, 30.0, 440.0, 8000.0] {
        let mel = mel_place(f(g(mel_argument(f(hz))).log10()));
        assert_eq!(g(mel), 2595.0 * (1.0 + hz / 700.0).log10());
        let back = mel_frequency(f(10.0f32.powf(g(mel_exponent(mel)))));
        assert_eq!(g(back), 700.0 * (10.0f32.powf(g(mel) / 2595.0) - 1.0));
    }
}

#[test]
fn options_come_from_the_configuration() {
    let config = AnalysisConfig::default();
    let o = tempo::fusion_options_of(&config);
    assert_eq!(o.min_bpm, config.min_bpm);
    assert_eq!(o.max_bpm, config.max_bpm);
    assert_eq!(o.tolerance, fusion_tolerance(config.bpm_resolution));
    assert_eq!(o.w512, config.tempogram_multi_res_w512);
    assert_eq!(o.w256, config.tempogram_multi_res_w256);
    assert_eq!(o.w1024, config.tempogram_multi_res_w1024);
    assert_eq!(o.use_human_prior, config.tempogram_multi_res_use_human_prior);
    assert_eq!((g(key::key_band().0), g(key::key_band().1)), (100.0, 5000.0));
    let t = key::tuning_options_of(&config, 44100, 2048);
    assert_eq!((g(t.fmin_hz), g(t.fmax_hz), t.fft_size), (80.0, 2000.0, 2048));
    let m = key::median_mask_options_of(&config, 48000, 4096);
    assert_eq!((g(m.fmin_hz), g(m.fmax_hz), m.sample_rate), (100.0, 5000.0, 48000));
    assert_eq!(m.time_margin, config.key_hpss_time_margin);
    let h = key::hpcp_options_of(&config, 44100, 2048);
    let b = key::bass_options_of(&config, 44100, 2048);
    assert_eq!(h.peaks_per_frame, config.key_hpcp_peaks_per_frame);
    assert_eq!((b.fmin_hz, b.fmax_hz), (config.key_hpcp_bass_fmin_hz, config.key_hpcp_bass_fmax_hz));
    assert_eq!(b.num_harmonics, h.num_harmonics);
}
