use stratum_dsp::analysis::result::BeatGrid;
use stratum_dsp::error::AnalysisError;
use stratum_dsp::features::beat_tracking::grid;
use stratum_dsp::float::F32;

fn f(x: f32) -> F32 {
    F32 { bits: x.to_bits() }
}

fn g(x: F32) -> f32 {
    f32::from_bits(x.bits)
}

fn row(v: &[f32]) -> Vec<F32> {
    v.iter().map(|&x| f(x)).collect()
}

fn flat(v: &[F32]) -> Vec<f32> {
    v.iter().map(|&x| g(x)).collect()
}

#[derive(Clone)]
struct BeatPosition {
    beat_index: u32,
    time_seconds: f32,
    confidence: f32,
}

struct Grid {
    beats: Vec<f32>,
    downbeats: Vec<f32>,
    bars: Vec<f32>,
}

fn plain(b: &BeatGrid) -> Grid {
    Grid { beats: flat(&b.beats), downbeats: flat(&b.downbeats), bars: flat(&b.bars) }
}

fn positions(p: &[BeatPosition]) -> Vec<grid::BeatPosition> {
    p.iter()
        .map(|p| grid::BeatPosition {
            beat_index: p.beat_index,
            time_seconds: f(p.time_seconds),
            confidence: f(p.confidence),
        })
        .collect()
}

/// A tracker that takes every onset for a beat.
fn every_onset(onsets: &[F32]) -> Vec<grid::BeatPosition> {
    onsets
        .iter()
        .enumerate()
        .map(|(i, &t)| grid::BeatPosition {
            beat_index: i as u32 % 4,
            time_seconds: t,
            confidence: f(1.0),
        })
        .collect()
}

fn generate_beat_grid(
    bpm: f32,
    _confidence: f32,
    onsets: &[f32],
    _sample_rate: u32,
) -> Result<(Grid, f32), AnalysisError> {
    let sorted = grid::prepare_onsets(f(bpm), &row(onsets))?;
    let beats = every_onset(&sorted);
    let (grid, stability) = grid::generate_beat_grid(f(bpm), &row(onsets), &beats, &[])?;
    Ok((plain(&grid), g(stability)))
}

fn detect_downbeats(beats: &[f32], bpm: f32) -> Result<Vec<f32>, AnalysisError> {
    Ok(flat(&grid::detect_downbeats(&row(beats), f(bpm))?))
}

fn calculate_grid_stability(p: &[BeatPosition], bpm: f32) -> Result<f32, AnalysisError> {
    Ok(g(grid::calculate_grid_stability(&positions(p), f(bpm))?))
}

fn generate_beat_grid_from_positions(p: &[BeatPosition], bpm: f32) -> Result<Grid, AnalysisError> {
    Ok(plain(&grid::generate_beat_grid_from_positions(&positions(p), f(bpm))?))
}

#[test]
fn test_generate_beat_grid_basic() {
    let bpm = 120.0;
    let bpm_confidence = 0.85;
    // Create onsets at 120 BPM (0.5s intervals)
    let onsets = vec![0.0, 0.5, 1.0, 1.5, 2.0, 2.5, 3.0, 3.5];
    let sample_rate = 44100;

    let (beat_grid, stability) =
        generate_beat_grid(bpm, bpm_confidence, &onsets, sample_rate).unwrap();

    assert!(!beat_grid.beats.is_empty());
    assert!((0.0..=1.0).contains(&stability));

    // Beats should be sorted
    for i in 1..beat_grid.beats.len() {
        assert!(beat_grid.beats[i] > beat_grid.beats[i - 1]);
    }
}

#[test]
fn test_generate_beat_grid_128bpm() {
    let bpm = 128.0;
    let bpm_confidence = 0.8;
    let beat_interval = 60.0 / 128.0;
    let onsets: Vec<f32> = (0..8).map(|i| i as f32 * beat_interval).collect();
    let sample_rate = 44100;

    let (beat_grid, stability) =
        generate_beat_grid(bpm, bpm_confidence, &onsets, sample_rate).unwrap();

    assert!(!beat_grid.beats.is_empty());
    assert!(stability > 0.0);
}

#[test]
fn test_generate_beat_grid_invalid_bpm() {
    let onsets = vec![0.0, 0.5, 1.0];
    assert!(generate_beat_grid(0.0, 0.8, &onsets, 44100).is_err());
    assert!(generate_beat_grid(350.0, 0.8, &onsets, 44100).is_err());
}

#[test]
fn test_generate_beat_grid_empty_onsets() {
    assert!(generate_beat_grid(120.0, 0.8, &[], 44100).is_err());
}

#[test]
fn test_detect_downbeats() {
    // Create beats at 120 BPM (0.5s intervals, 4 beats per bar = 2s per bar)
    let beats = vec![0.0, 0.5, 1.0, 1.5, 2.0, 2.5, 3.0, 3.5, 4.0];
    let bpm = 120.0;

    let downbeats = detect_downbeats(&beats, bpm).unwrap();

    assert!(!downbeats.is_empty());
    // First beat should be downbeat
    assert_eq!(downbeats[0], 0.0);

    // Should detect downbeats approximately every 2 seconds (4 beats)
    // At 120 BPM: 4 beats = 2.0 seconds
    if downbeats.len() > 1 {
        let bar_interval = downbeats[1] - downbeats[0];
        assert!(
            (bar_interval - 2.0).abs() < 0.3,
            "Bar interval should be ~2.0s"
        );
    }
}

#[test]
fn test_detect_downbeats_empty() {
    assert_eq!(detect_downbeats(&[], 120.0).unwrap().len(), 0);
}

#[test]
fn test_detect_downbeats_single_beat() {
    let downbeats = detect_downbeats(&[0.5], 120.0).unwrap();
    assert_eq!(downbeats.len(), 1);
    assert_eq!(downbeats[0], 0.5);
}

#[test]
fn test_calculate_grid_stability_perfect() {
    // Perfect 120 BPM beats (0.5s intervals)
    let beat_positions = vec![
        BeatPosition {
            beat_index: 0,
            time_seconds: 0.0,
            confidence: 1.0,
        },
        BeatPosition {
            beat_index: 1,
            time_seconds: 0.5,
            confidence: 1.0,
        },
        BeatPosition {
            beat_index: 2,
            time_seconds: 1.0,
            confidence: 1.0,
        },
        BeatPosition {
            beat_index: 3,
            time_seconds: 1.5,
            confidence: 1.0,
        },
    ];

    let stability = calculate_grid_stability(&beat_positions, 120.0).unwrap();
    assert!(stability > 0.9, "Perfect beats should have high stability");
}

#[test]
fn test_calculate_grid_stability_variable() {
    // Variable tempo beats
    let beat_positions = vec![
        BeatPosition {
            beat_index: 0,
            time_seconds: 0.0,
            confidence: 1.0,
        },
        BeatPosition {
            beat_index: 1,
            time_seconds: 0.4,
            confidence: 0.8,
        },
        BeatPosition {
            beat_index: 2,
            time_seconds: 0.9,
            confidence: 0.7,
        },
        BeatPosition {
            beat_index: 3,
            time_seconds: 1.6,
            confidence: 0.6,
        },
    ];

    let stability = calculate_grid_stability(&beat_positions, 120.0).unwrap();
    assert!(
        stability < 0.9,
        "Variable tempo should have lower stability"
    );
    assert!((0.0..=1.0).contains(&stability));
}

#[test]
fn test_calculate_grid_stability_insufficient_beats() {
    let beat_positions = vec![BeatPosition {
        beat_index: 0,
        time_seconds: 0.0,
        confidence: 1.0,
    }];

    let stability = calculate_grid_stability(&beat_positions, 120.0).unwrap();
    assert_eq!(
        stability, 0.0,
        "Need at least 2 beats for stability calculation"
    );
}

#[test]
fn test_generate_beat_grid_from_positions() {
    let beat_positions = vec![
        BeatPosition {
            beat_index: 0,
            time_seconds: 0.0,
            confidence: 1.0,
        },
        BeatPosition {
            beat_index: 1,
            time_seconds: 0.5,
            confidence: 0.9,
        },
        BeatPosition {
            beat_index: 2,
            time_seconds: 1.0,
            confidence: 0.8,
        },
        BeatPosition {
            beat_index: 3,
            time_seconds: 1.5,
            confidence: 0.7,
        },
        BeatPosition {
            beat_index: 4,
            time_seconds: 2.0,
            confidence: 0.6,
        },
    ];

    let grid = generate_beat_grid_from_positions(&beat_positions, 120.0).unwrap();

    assert_eq!(grid.beats.len(), 5);
    assert!(!grid.downbeats.is_empty());
    assert_eq!(grid.bars.len(), grid.downbeats.len());
}

#[test]
fn test_generate_beat_grid_from_positions_empty() {
    assert!(generate_beat_grid_from_positions(&[], 120.0).is_err());
}


#[test]
fn beats_found_anew_replace_those_of_an_uneven_stretch() {
    let times = [0.0f32, 0.4, 1.3, 1.6, 2.6, 2.9, 3.9, 4.2, 5.2, 5.5];
    let p: Vec<BeatPosition> = times
        .iter()
        .map(|&t| BeatPosition { beat_index: 0, time_seconds: t, confidence: 1.0 })
        .collect();
    let plan = grid::plan_segments(&positions(&p), f(120.0)).unwrap();
    assert!(plan.iter().any(|s| s.is_variable));
    let anew = every_onset(&row(&[0.0, 0.5, 1.0, 1.5, 2.0]));
    let retraced: Vec<Option<Vec<grid::BeatPosition>>> =
        plan.iter().enumerate().map(|(i, _)| if i == 0 { Some(anew.clone()) } else { None }).collect();
    let (b, stability) =
        grid::generate_beat_grid(f(120.0), &row(&times), &positions(&p), &retraced).unwrap();
    assert!(flat(&b.beats).contains(&0.5));
    assert!(g(stability) > 0.0 && g(stability) <= 1.0);
}

#[test]
fn downbeats_are_beats_a_bar_apart() {
    let beats: Vec<f32> = (0..33).map(|i| i as f32 * 0.5).collect();
    let downbeats = detect_downbeats(&beats, 120.0).unwrap();
    assert_eq!(downbeats, (0..9).map(|i| i as f32 * 2.0).collect::<Vec<f32>>());
}

#[test]
fn errors_of_a_grid() {
    match generate_beat_grid(0.0, 0.8, &[0.0], 44100) {
        Err(AnalysisError::InvalidInput(m)) => assert_eq!(m, "Invalid BPM estimate: 0.00"),
        _ => panic!("expected an error"),
    }
    match generate_beat_grid(120.0, 0.8, &[], 44100) {
        Err(AnalysisError::InvalidInput(m)) => {
            assert_eq!(m, "Cannot generate beat grid: no onsets provided")
        }
        _ => panic!("expected an error"),
    }
    match grid::generate_beat_grid(f(120.0), &row(&[0.0]), &[], &[]) {
        Err(AnalysisError::ProcessingError(m)) => {
            assert_eq!(m, "HMM beat tracking produced no beats")
        }
        _ => panic!("expected an error"),
    }
}
