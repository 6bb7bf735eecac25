//! Tempo estimation.
pub mod autocorrelation;
pub mod beat_contrast;
pub mod candidate_filter;
pub mod comb_filter;
pub mod conversion_laws;
pub mod flux_laws;
pub mod fusion_laws;
pub mod laws;
pub mod legacy;
pub mod mel;
pub mod multi_resolution;
pub mod novelty;
pub mod novelty_laws;
pub mod peak_picking;
pub mod score_laws;
pub mod selection_laws;
pub mod tempo_table;
pub mod tempogram;
pub mod tempogram_autocorr;
pub mod tempogram_curves;
pub mod tempogram_fft;
pub mod types;

pub use autocorrelation::estimate_bpm_from_autocorrelation;
pub use candidate_filter::merge_bpm_candidates;
pub use comb_filter::coarse_to_fine_search;
pub use comb_filter::estimate_bpm_from_comb_filter;
pub use legacy::estimate_bpm;
pub use legacy::estimate_bpm_with_guardrails;
pub use legacy::LegacyBpmGuardrails;
pub use multi_resolution::multi_resolution_analysis;
pub use peak_picking::find_peaks;
pub use tempogram::estimate_bpm_tempogram;
pub use types::BpmCandidate;
pub use types::BpmEstimate;
