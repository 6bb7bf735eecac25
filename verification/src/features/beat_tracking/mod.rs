//! Beat tracking.
pub mod bayesian;
pub mod grid;
pub mod grid_laws;
pub mod laws;
pub mod likelihood_laws;
pub mod meter_laws;
pub mod steadiness_laws;
pub mod tempo_variation;
pub mod time_signature;

pub use grid::generate_beat_grid;
pub use grid::BeatPosition;
