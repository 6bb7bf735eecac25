//! Model loading and inference.
use crate::error::is_not_implemented;
use crate::error::AnalysisError;
use crate::float::F32;
use vstd::prelude::*;

verus! {

/// A model for confidence refinement.
#[derive(Debug)]
pub struct OnnxModel {}

impl OnnxModel {
    /// Loads a model from a file. There is no model format yet, so this always fails.
    pub fn load(_path: &str) -> (r: Result<OnnxModel, AnalysisError>)
        ensures
            is_not_implemented(
                r,
                "Phase 2: ONNX model loading not yet implemented (enable during ML integration)"@,
            ),
    {
        Err(
            AnalysisError::NotImplemented(
                "Phase 2: ONNX model loading not yet implemented (enable during ML integration)".to_owned(),
            ),
        )
    }

    /// Runs the model on a feature vector. There is no model yet, so this always fails.
    pub fn infer(&self, _features: &[F32]) -> (r: Result<F32, AnalysisError>)
        ensures
            is_not_implemented(
                r,
                "Phase 2: ONNX inference not yet implemented (enable during ML integration)"@,
            ),
    {
        Err(
            AnalysisError::NotImplemented(
                "Phase 2: ONNX inference not yet implemented (enable during ML integration)".to_owned(),
            ),
        )
    }
}

} // verus!
