//! Refinement of a result.
use super::onnx_model::OnnxModel;
use crate::analysis::result::AnalysisResult;
use crate::error::is_not_implemented;
use crate::error::AnalysisError;
use crate::float::F32;
use vstd::prelude::*;

verus! {

/// Refines a result with a model. There is no model yet, so this always fails.
pub fn refine_with_ml(
    _initial_result: &AnalysisResult,
    _features: &[F32],
    _model: &OnnxModel,
) -> (r: Result<AnalysisResult, AnalysisError>)
    ensures
        is_not_implemented(
            r,
            "Phase 2: ML refinement not yet implemented (enable during ML integration)"@,
        ),
{
    Err(
        AnalysisError::NotImplemented(
            "Phase 2: ML refinement not yet implemented (enable during ML integration)".to_owned(),
        ),
    )
}

} // verus!
