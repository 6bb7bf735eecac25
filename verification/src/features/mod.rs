//! Features of the audio: onsets, tempo, beats, chroma, key.
pub mod beat_tracking;
pub mod chroma;
pub mod key;
pub mod onset;
pub mod period;
