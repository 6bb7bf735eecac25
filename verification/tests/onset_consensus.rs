use stratum_dsp::error::AnalysisError;
use stratum_dsp::features::onset::consensus;
use stratum_dsp::features::onset::consensus::OnsetConsensus;
use stratum_dsp::float::F32;

fn f(x: f32) -> F32 {
    F32 { bits: x.to_bits() }
}

fn g(x: F32) -> f32 {
    f32::from_bits(x.bits)
}

struct OnsetCandidate {
    time_samples: usize,
    time_seconds: f32,
    confidence: f32,
    voted_by: u32,
}

fn vote_onsets(
    votes: OnsetConsensus,
    weights: [f32; 4],
    tolerance_ms: u32,
    sample_rate: u32,
) -> Result<Vec<OnsetCandidate>, AnalysisError> {
    let w = [f(weights[0]), f(weights[1]), f(weights[2]), f(weights[3])];
    let found = consensus::vote_onsets(votes, w, tolerance_ms, sample_rate)?;
    Ok(found
        .iter()
        .map(|c| OnsetCandidate {
            time_samples: c.time_samples,
            time_seconds: g(c.time_seconds),
            confidence: g(c.confidence),
            voted_by: c.voted_by,
        })
        .collect())
}

#[test]
fn test_consensus_voting_basic() {
    // Simple test: all methods detect the same onset
    let consensus = OnsetConsensus {
        energy_flux: vec![1000],
        spectral_flux: vec![1000],
        hfc: vec![1000],
        hpss: vec![1000],
    };

    let weights = [0.25, 0.25, 0.25, 0.25];
    let candidates = vote_onsets(consensus, weights, 50, 44100).unwrap();

    assert_eq!(candidates.len(), 1);
    assert_eq!(candidates[0].time_samples, 1000);
    assert_eq!(candidates[0].voted_by, 4);
    assert!((candidates[0].confidence - 1.0).abs() < 0.01);
}

#[test]
fn test_consensus_voting_clustering() {
    // Test clustering: onsets within tolerance should be merged
    let consensus = OnsetConsensus {
        energy_flux: vec![1000],
        spectral_flux: vec![1050], // Within 50ms at 44.1kHz (~2205 samples)
        hfc: vec![980],
        hpss: vec![1020],
    };

    let weights = [0.25, 0.25, 0.25, 0.25];
    // 50ms tolerance at 44.1kHz = 2205 samples
    let candidates = vote_onsets(consensus, weights, 50, 44100).unwrap();

    // All should cluster into one
    assert_eq!(candidates.len(), 1);
    assert_eq!(candidates[0].voted_by, 4);
    assert!((candidates[0].confidence - 1.0).abs() < 0.01);
}

#[test]
fn test_consensus_voting_separate_onsets() {
    // Test: two separate onsets far apart
    let consensus = OnsetConsensus {
        energy_flux: vec![1000, 50000],
        spectral_flux: vec![1050, 50500],
        hfc: vec![980, 50200],
        hpss: vec![1020, 49900],
    };

    let weights = [0.25, 0.25, 0.25, 0.25];
    let candidates = vote_onsets(consensus, weights, 50, 44100).unwrap();

    // Should have 2 clusters
    assert_eq!(candidates.len(), 2);
    assert_eq!(candidates[0].voted_by, 4);
    assert_eq!(candidates[1].voted_by, 4);
}

#[test]
fn test_consensus_voting_partial_agreement() {
    // Test: only some methods detect an onset
    let consensus = OnsetConsensus {
        energy_flux: vec![1000],
        spectral_flux: vec![1050],
        hfc: vec![],  // Doesn't detect
        hpss: vec![], // Doesn't detect
    };

    let weights = [0.3, 0.3, 0.2, 0.2];
    let candidates = vote_onsets(consensus, weights, 50, 44100).unwrap();

    assert_eq!(candidates.len(), 1);
    assert_eq!(candidates[0].voted_by, 2);
    // Confidence should be (0.3 + 0.3) / 1.0 = 0.6
    assert!((candidates[0].confidence - 0.6).abs() < 0.01);
}

#[test]
fn test_consensus_voting_weighted() {
    // Test: different weights affect confidence
    let consensus = OnsetConsensus {
        energy_flux: vec![1000],
        spectral_flux: vec![],
        hfc: vec![],
        hpss: vec![],
    };

    let weights = [0.5, 0.2, 0.2, 0.1];
    let candidates = vote_onsets(consensus, weights, 50, 44100).unwrap();

    assert_eq!(candidates.len(), 1);
    assert_eq!(candidates[0].voted_by, 1);
    // Confidence should be 0.5 / 1.0 = 0.5
    assert!((candidates[0].confidence - 0.5).abs() < 0.01);
}

#[test]
fn test_consensus_voting_empty() {
    // Test: no onsets detected
    let consensus = OnsetConsensus {
        energy_flux: vec![],
        spectral_flux: vec![],
        hfc: vec![],
        hpss: vec![],
    };

    let weights = [0.25, 0.25, 0.25, 0.25];
    let candidates = vote_onsets(consensus, weights, 50, 44100).unwrap();

    assert!(candidates.is_empty());
}

#[test]
fn test_consensus_voting_sorted_by_confidence() {
    // Test: results should be sorted by confidence (highest first)
    let consensus = OnsetConsensus {
        energy_flux: vec![1000, 20000], // First: all methods
        spectral_flux: vec![1050, 20050],
        hfc: vec![980, 20100],
        hpss: vec![1020, 19950],
        // Second: only one method
    };

    // Add a third onset detected by 2 methods
    let mut consensus2 = consensus.clone();
    consensus2.energy_flux.push(50000);
    consensus2.spectral_flux.push(50500);

    let weights = [0.25, 0.25, 0.25, 0.25];
    let candidates = vote_onsets(consensus2, weights, 50, 44100).unwrap();

    // Should have 3 candidates, sorted by confidence
    assert!(candidates.len() >= 2);

    // First should have highest confidence (all 4 methods)
    assert_eq!(candidates[0].voted_by, 4);

    // Confidence should be decreasing
    for i in 1..candidates.len() {
        assert!(candidates[i].confidence <= candidates[i - 1].confidence);
    }
}

#[test]
fn test_consensus_voting_invalid_parameters() {
    let consensus = OnsetConsensus {
        energy_flux: vec![1000],
        spectral_flux: vec![],
        hfc: vec![],
        hpss: vec![],
    };

    let weights = [0.25, 0.25, 0.25, 0.25];

    // Test zero sample rate
    let result = vote_onsets(consensus.clone(), weights, 50, 0);
    assert!(result.is_err());

    // Test zero tolerance
    let result = vote_onsets(consensus.clone(), weights, 0, 44100);
    assert!(result.is_err());

    // Test negative weights
    let negative_weights = [-0.1, 0.25, 0.25, 0.25];
    let result = vote_onsets(consensus, negative_weights, 50, 44100);
    assert!(result.is_err());
}

#[test]
fn test_consensus_voting_time_conversion() {
    // Test: verify time_seconds is calculated correctly
    let consensus = OnsetConsensus {
        energy_flux: vec![44100], // 1 second at 44.1kHz
        spectral_flux: vec![],
        hfc: vec![],
        hpss: vec![],
    };

    let weights = [1.0, 0.0, 0.0, 0.0];
    let candidates = vote_onsets(consensus, weights, 50, 44100).unwrap();

    assert_eq!(candidates.len(), 1);
    assert!((candidates[0].time_seconds - 1.0).abs() < 0.001);
}


#[test]
fn a_cluster_is_centred_on_its_votes() {
    let votes = OnsetConsensus {
        energy_flux: vec![1000],
        spectral_flux: vec![1100],
        hfc: vec![1301],
        hpss: vec![40000],
    };
    let found = vote_onsets(votes, [0.4, 0.3, 0.2, 0.1], 50, 44100).unwrap();
    assert_eq!(found.len(), 2);
    assert_eq!((found[0].time_samples, found[0].voted_by), (1133, 3));
    assert!((found[0].confidence - 0.9).abs() < 1e-6);
    assert_eq!((found[1].time_samples, found[1].voted_by), (40000, 1));
}

#[test]
fn a_method_has_one_vote_per_cluster() {
    let votes = OnsetConsensus {
        energy_flux: vec![1000, 1010],
        spectral_flux: vec![],
        hfc: vec![],
        hpss: vec![],
    };
    let found = vote_onsets(votes, [0.25, 0.25, 0.25, 0.25], 50, 44100).unwrap();
    assert_eq!(found.len(), 1);
    assert_eq!((found[0].time_samples, found[0].voted_by), (1005, 1));
    assert_eq!(found[0].confidence, 0.25);
}
