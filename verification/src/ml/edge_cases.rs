//! Edge case detection.
use crate::analysis::result::AnalysisResult;
use vstd::prelude::*;

verus! {

/// The edge cases found in a result: none until there is a classifier for them.
pub fn detect_edge_cases(_result: &AnalysisResult) -> (flags: Vec<String>)
    ensures
        flags@.len() == 0,
{
    Vec::new()
}

} // verus!
