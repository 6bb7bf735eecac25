use stratum_dsp::error::AnalysisError;
use stratum_dsp::analysis::result;
use stratum_dsp::float::F32;
use stratum_dsp::ml::edge_cases::detect_edge_cases;
use stratum_dsp::ml::onnx_model::OnnxModel;
use stratum_dsp::ml::refinement::refine_with_ml;
use stratum_dsp::analysis::metadata::AnalysisMetadata;

#[test]
fn errors_as_text() {
    let e = |s: &str| s.to_string();
    assert_eq!(AnalysisError::InvalidInput(e("a")).message(), "Invalid input: a");
    assert_eq!(AnalysisError::DecodingError(e("b")).message(), "Decoding error: b");
    assert_eq!(AnalysisError::ProcessingError(e("c")).message(), "Processing error: c");
    assert_eq!(AnalysisError::NotImplemented(e("d")).message(), "Not implemented: d");
    assert_eq!(AnalysisError::NumericalError(e("e")).message(), "Numerical error: e");
}

#[test]
fn models_cannot_be_loaded_yet() {
    match OnnxModel::load("model.onnx") {
        Err(AnalysisError::NotImplemented(m)) => assert!(m.contains("not yet implemented")),
        _ => panic!("expected an error"),
    }
}

#[test]
fn fresh_metadata_is_empty() {
    let m = AnalysisMetadata::for_version("1.2.3");
    assert_eq!(m.algorithm_version, "1.2.3");
    assert!(m.methods_used.is_empty() && m.flags.is_empty());
    assert_eq!(m.onset_method_consensus.bits, 0);
}


fn some_result() -> result::AnalysisResult {
    let zero = F32 { bits: 0 };
    result::AnalysisResult {
        bpm: zero,
        bpm_confidence: zero,
        key: result::Key::Minor(3),
        key_confidence: zero,
        key_clarity: zero,
        beat_grid: result::BeatGrid { downbeats: vec![], beats: vec![], bars: vec![] },
        grid_stability: zero,
        metadata: result::AnalysisMetadata {
            duration_seconds: zero,
            sample_rate: 44100,
            processing_time_ms: zero,
            algorithm_version: "1".to_string(),
            onset_method_consensus: zero,
            methods_used: vec![],
            flags: vec![],
            confidence_warnings: vec![],
            tempogram_candidates: None,
            tempogram_multi_res_triggered: None,
            tempogram_multi_res_used: None,
            tempogram_percussive_triggered: None,
            tempogram_percussive_used: None,
        },
    }
}

#[test]
fn nothing_is_refined_yet() {
    let r = some_result();
    assert!(detect_edge_cases(&r).is_empty());
    assert_eq!((r.key.tonic(), r.key.is_major()), (3, false));
    let model = OnnxModel {};
    assert!(matches!(model.infer(&[]), Err(AnalysisError::NotImplemented(_))));
    assert!(matches!(refine_with_ml(&r, &[], &model), Err(AnalysisError::NotImplemented(_))));
}
