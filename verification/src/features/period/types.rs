//! Tempo candidates and estimates.
use crate::float::F32;
use vstd::prelude::*;

verus! {

/// A tempo with its confidence.
#[derive(Debug, Clone, Copy)]
pub struct BpmCandidate {
    /// Tempo in BPM
    pub bpm: F32,
    /// Confidence, from zero to one
    pub confidence: F32,
}

/// A tempo that several methods or candidates speak for.
#[derive(Debug, Clone, Copy)]
pub struct BpmEstimate {
    /// Tempo in BPM
    pub bpm: F32,
    /// Confidence
    pub confidence: F32,
    /// How many agree
    pub method_agreement: u32,
}

} // verus!
