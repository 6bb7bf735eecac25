//! Key detection by matching chroma vectors against key profiles.
pub mod choice_laws;
pub mod detector;
pub mod ensemble;
pub mod key_changes;
pub mod key_clarity;
pub mod laws;
pub mod median;
pub mod result;
pub mod score_laws;
pub mod score_sizes;
pub mod segment_laws;
pub mod segments;
pub mod templates;

pub use detector::detect_key;
pub use detector::detect_key_weighted;
pub use detector::detect_key_weighted_mode_heuristic;
pub use ensemble::detect_key_ensemble;
pub use key_changes::detect_key_changes;
pub use key_changes::KeyChange;
pub use key_changes::KeyChangeResult;
pub use key_clarity::compute_key_clarity;
pub use median::detect_key_median;
pub use result::KeyDetectionResult;
pub use segments::detect_key_multi_scale;
pub use templates::KeyTemplates;
