//! Chroma vectors: the energy of the twelve pitch classes.
pub mod beat_chroma;
pub mod extractor;
pub mod harmonic;
pub mod hpcp;
pub mod laws;
pub mod log_frequency;
pub mod normalization;
pub mod pitch;
pub mod smoothing;
pub mod stft;
pub mod tuning;
