//! What an analysis gives.
use crate::float::F32;
use vstd::prelude::*;

verus! {

/// A musical key: its mode, and its tonic as a pitch class (0 is C, 11 is B).
#[derive(Debug, Clone, Copy, PartialEq, Eq, Structural)]
pub enum Key {
    /// Major key
    Major(u32),
    /// Minor key
    Minor(u32),
}

impl Key {
    /// The tonic as a pitch class.
    #[verifier::allow_in_spec]
    pub fn tonic(self) -> u32
        returns
            (match self {
                Key::Major(i) => i,
                Key::Minor(i) => i,
            }),
    {
        match self {
            Key::Major(i) => i,
            Key::Minor(i) => i,
        }
    }

    #[verifier::allow_in_spec]
    pub fn is_major(self) -> bool
        returns
            (match self {
                Key::Major(_) => true,
                Key::Minor(_) => false,
            }),
    {
        match self {
            Key::Major(_) => true,
            Key::Minor(_) => false,
        }
    }
}

/// Beat positions, in seconds.
#[derive(Debug, Clone)]
pub struct BeatGrid {
    /// First beats of bars
    pub downbeats: Vec<F32>,
    /// All beats
    pub beats: Vec<F32>,
    /// Bar starts
    pub bars: Vec<F32>,
}

/// Issues that an analysis points out.
#[derive(Debug, Clone, Copy, PartialEq, Eq, Structural)]
pub enum AnalysisFlag {
    /// More than one tempo is plausible
    MultimodalBpm,
    /// The key is weakly established
    WeakTonality,
    /// The tempo changes
    TempoVariation,
}

/// A tempo candidate as it is shown to a caller.
#[derive(Debug, Clone, Copy)]
pub struct TempoCandidateDebug {
    /// Tempo in BPM
    pub bpm: F32,
    /// Combined score
    pub score: F32,
    /// Normalised FFT tempogram support
    pub fft_norm: F32,
    /// Normalised autocorrelation tempogram support
    pub autocorr_norm: F32,
    /// Whether this is the chosen candidate
    pub selected: bool,
}

/// How a result came about.
#[derive(Debug, Clone)]
pub struct AnalysisMetadata {
    /// Length of the analysed audio in seconds
    pub duration_seconds: F32,
    /// Sample rate in Hz
    pub sample_rate: u32,
    /// Processing time in milliseconds
    pub processing_time_ms: F32,
    /// Algorithm version
    pub algorithm_version: String,
    /// Agreement of the onset methods
    pub onset_method_consensus: F32,
    /// Methods used
    pub methods_used: Vec<String>,
    /// Issues found
    pub flags: Vec<AnalysisFlag>,
    /// Warnings about confidence
    pub confidence_warnings: Vec<String>,
    /// Tempo candidates, where they were asked for
    pub tempogram_candidates: Option<Vec<TempoCandidateDebug>>,
    /// Whether the multi-resolution tempogram was considered
    pub tempogram_multi_res_triggered: Option<bool>,
    /// Whether its result was used
    pub tempogram_multi_res_used: Option<bool>,
    /// Whether the percussive fallback was considered
    pub tempogram_percussive_triggered: Option<bool>,
    /// Whether its result was used
    pub tempogram_percussive_used: Option<bool>,
}

/// The result of an analysis.
#[derive(Debug, Clone)]
pub struct AnalysisResult {
    /// Tempo in BPM; zero where it could not be found
    pub bpm: F32,
    /// Confidence of the tempo
    pub bpm_confidence: F32,
    /// Musical key
    pub key: Key,
    /// Confidence of the key
    pub key_confidence: F32,
    /// Tonal strength
    pub key_clarity: F32,
    /// Beat grid
    pub beat_grid: BeatGrid,
    /// Stability of the beat grid
    pub grid_stability: F32,
    /// How the result came about
    pub metadata: AnalysisMetadata,
}

} // verus!
