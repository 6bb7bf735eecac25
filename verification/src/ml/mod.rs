//! Refinement of results by a learned model.
pub mod edge_cases;
pub mod onnx_model;
pub mod refinement;
