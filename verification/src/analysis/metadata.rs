//! Analysis metadata.
use super::result::AnalysisFlag;
use crate::float::zero;
use crate::float::F32;
use vstd::prelude::*;

verus! {

/// Analysis metadata.
#[derive(Debug, Clone)]
pub struct AnalysisMetadata {
    /// Algorithm version
    pub algorithm_version: String,
    /// Onset method consensus score
    pub onset_method_consensus: F32,
    /// Methods used
    pub methods_used: Vec<String>,
    /// Analysis flags
    pub flags: Vec<AnalysisFlag>,
}

impl AnalysisMetadata {
    /// Metadata of an analysis that has not found anything yet, by the given
    /// version of the algorithm.
    pub fn for_version(version: &str) -> (m: AnalysisMetadata)
        ensures
            m.algorithm_version@ == version@,
            m.onset_method_consensus == zero(),
            m.methods_used@.len() == 0,
            m.flags@.len() == 0,
    {
        AnalysisMetadata {
            algorithm_version: version.to_owned(),
            onset_method_consensus: zero(),
            methods_used: Vec::new(),
            flags: Vec::new(),
        }
    }
}

} // verus!
