//! Results of an analysis and how far they can be trusted.
pub mod confidence;
pub mod laws;
pub mod metadata;
pub mod result;
