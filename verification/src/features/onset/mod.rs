//! Onset detection.
pub mod flux_peaks;
pub mod consensus;
pub mod energy_flux;
pub mod hfc;
pub mod hpss;
pub mod hpss_laws;
pub mod laws;
pub mod spectral_flux;
pub mod threshold;
pub mod window_laws;

pub use consensus::OnsetCandidate;
