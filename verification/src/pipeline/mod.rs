//! The decisions of an analysis, from checked input to result.
pub mod onsets;
pub mod onset_laws;
pub mod tempo;
pub mod tempo_laws;
pub mod key;
pub mod key_laws;
pub mod report;
