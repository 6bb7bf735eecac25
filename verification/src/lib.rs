//! Audio analysis for DJ applications: tempo, key and beat grid.
pub mod analysis;
pub mod config;
pub mod error;
pub mod features;
pub mod float;
pub mod float_laws;
pub mod float_order;
pub mod float_sizes;
pub mod ml;
pub mod number_text;
pub mod pipeline;
pub mod rounding;
pub mod shortest_decimal;
pub mod sorting;
pub mod spectrogram;
pub mod statistics;
pub mod statistics_laws;
pub mod sums;
pub mod text;
pub mod vector;
pub mod wide_nat;

pub use analysis::confidence::compute_confidence;
pub use analysis::confidence::AnalysisConfidence;
pub use analysis::result::AnalysisMetadata;
pub use analysis::result::AnalysisResult;
pub use analysis::result::BeatGrid;
pub use analysis::result::Key;
pub use config::AnalysisConfig;
pub use error::AnalysisError;
