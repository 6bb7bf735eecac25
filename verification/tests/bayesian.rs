use stratum_dsp::error::AnalysisError;
use stratum_dsp::features::beat_tracking::bayesian;
use stratum_dsp::float::F32;

fn f(x: f32) -> F32 {
    F32 { bits: x.to_bits() }
}

fn g(x: F32) -> f32 {
    f32::from_bits(x.bits)
}

fn row(v: &[f32]) -> Vec<F32> {
    v.iter().map(|&x| f(x)).collect()
}

fn flat(v: &[F32]) -> Vec<f32> {
    v.iter().map(|&x| g(x)).collect()
}

struct BayesianBeatTracker {
    current_bpm: f32,
    current_confidence: f32,
    history: Vec<f32>,
    inner: bayesian::BayesianBeatTracker,
}

impl BayesianBeatTracker {
    fn new(bpm: f32, confidence: f32) -> Self {
        Self::from(bayesian::BayesianBeatTracker::new(f(bpm), f(confidence)))
    }

    fn from(inner: bayesian::BayesianBeatTracker) -> Self {
        BayesianBeatTracker {
            current_bpm: g(inner.current_bpm),
            current_confidence: g(inner.current_confidence),
            history: flat(&inner.history),
            inner,
        }
    }

    fn generate_bpm_candidates(&self) -> Vec<f32> {
        flat(&self.inner.generate_bpm_candidates())
    }

    fn compute_likelihood(&self, onsets: &[f32], bpm: f32) -> Result<f32, AnalysisError> {
        let exponent = self.inner.compute_likelihood(&row(onsets), f(bpm))?;
        Ok(exponent.map_or(0.0, |x| g(x).exp()))
    }

    fn compute_prior(&self, bpm: f32) -> f32 {
        g(self.inner.prior_exponent(f(bpm))).exp()
    }

    fn update_with_onsets(&mut self, onsets: &[f32], _rate: u32) -> Result<(f32, f32), AnalysisError> {
        let likelihoods: Vec<F32> = self
            .generate_bpm_candidates()
            .iter()
            .map(|&bpm| f(self.compute_likelihood(onsets, bpm).unwrap()))
            .collect();
        let priors: Vec<F32> = self
            .generate_bpm_candidates()
            .iter()
            .map(|&bpm| f(self.compute_prior(bpm)))
            .collect();
        let (bpm, confidence) = self.inner.update_with_onsets(&row(onsets), &likelihoods, &priors)?;
        self.current_bpm = g(self.inner.current_bpm);
        self.current_confidence = g(self.inner.current_confidence);
        self.history = flat(&self.inner.history);
        Ok((g(bpm), g(confidence)))
    }

    fn get_bpm(&self) -> f32 {
        g(self.inner.get_bpm())
    }

    fn get_confidence(&self) -> f32 {
        g(self.inner.get_confidence())
    }

    fn get_history(&self) -> Vec<f32> {
        flat(self.inner.get_history())
    }
}

#[test]
fn test_bayesian_tracker_creation() {
    let tracker = BayesianBeatTracker::new(120.0, 0.8);
    assert_eq!(tracker.current_bpm, 120.0);
    assert_eq!(tracker.current_confidence, 0.8);
    assert_eq!(tracker.history.len(), 1);
    assert_eq!(tracker.history[0], 120.0);
}

#[test]
fn test_bayesian_tracker_confidence_clamping() {
    // Test that confidence is clamped to [0, 1]
    let tracker1 = BayesianBeatTracker::new(120.0, 1.5);
    assert_eq!(tracker1.current_confidence, 1.0);

    let tracker2 = BayesianBeatTracker::new(120.0, -0.5);
    assert_eq!(tracker2.current_confidence, 0.0);
}

#[test]
fn test_generate_bpm_candidates() {
    let tracker = BayesianBeatTracker::new(120.0, 0.8);
    let candidates = tracker.generate_bpm_candidates();

    assert!(!candidates.is_empty());

    // Should include current BPM
    assert!(candidates.iter().any(|&bpm| (bpm - 120.0).abs() < 0.1));

    // Should test range around current BPM
    let min_candidate = candidates.iter().copied().fold(f32::INFINITY, f32::min);
    let max_candidate = candidates.iter().copied().fold(0.0f32, f32::max);

    assert!(min_candidate >= 115.0, "Min candidate should be around 115");
    assert!(max_candidate <= 125.0, "Max candidate should be around 125");
}

#[test]
fn test_compute_likelihood() {
    let tracker = BayesianBeatTracker::new(120.0, 0.8);

    // Perfect 120 BPM onsets (0.5s intervals)
    let perfect_onsets = vec![0.0, 0.5, 1.0, 1.5, 2.0];
    let likelihood = tracker.compute_likelihood(&perfect_onsets, 120.0).unwrap();

    assert!(likelihood > 0.0);
    assert!(likelihood <= 1.0);

    // Test with wrong BPM (should have lower likelihood)
    let wrong_likelihood = tracker.compute_likelihood(&perfect_onsets, 100.0).unwrap();
    assert!(
        likelihood > wrong_likelihood,
        "Correct BPM should have higher likelihood"
    );
}

#[test]
fn test_compute_likelihood_empty_onsets() {
    let tracker = BayesianBeatTracker::new(120.0, 0.8);
    let likelihood = tracker.compute_likelihood(&[], 120.0).unwrap();
    assert_eq!(likelihood, 0.0);
}

#[test]
fn test_compute_prior() {
    let tracker = BayesianBeatTracker::new(120.0, 0.8);

    // Prior at current BPM should be highest
    let prior_at_current = tracker.compute_prior(120.0);
    assert!(prior_at_current > 0.0);
    assert!(prior_at_current <= 1.0);

    // Prior at different BPM should be lower
    let prior_at_different = tracker.compute_prior(130.0);
    assert!(
        prior_at_current > prior_at_different,
        "Prior at current BPM should be higher than at different BPM"
    );
}

#[test]
fn test_update_with_onsets() {
    let mut tracker = BayesianBeatTracker::new(120.0, 0.8);

    // Update with perfect 120 BPM onsets
    let onsets = vec![0.0, 0.5, 1.0, 1.5, 2.0];
    let (new_bpm, new_confidence) = tracker.update_with_onsets(&onsets, 44100).unwrap();

    assert!(new_bpm > 0.0);
    assert!((0.0..=1.0).contains(&new_confidence));
    assert_eq!(tracker.current_bpm, new_bpm);
    assert_eq!(tracker.current_confidence, new_confidence);
    assert_eq!(tracker.history.len(), 2); // Initial + updated
}

#[test]
fn test_update_with_onsets_empty() {
    let mut tracker = BayesianBeatTracker::new(120.0, 0.8);
    assert!(tracker.update_with_onsets(&[], 44100).is_err());
}

#[test]
fn test_update_with_onsets_invalid_bpm() {
    let mut tracker1 = BayesianBeatTracker::new(0.0, 0.8);
    assert!(tracker1.update_with_onsets(&[0.0, 0.5], 44100).is_err());

    let mut tracker2 = BayesianBeatTracker::new(350.0, 0.8);
    assert!(tracker2.update_with_onsets(&[0.0, 0.5], 44100).is_err());
}

#[test]
fn test_get_bpm_and_confidence() {
    let tracker = BayesianBeatTracker::new(120.0, 0.85);
    assert_eq!(tracker.get_bpm(), 120.0);
    assert_eq!(tracker.get_confidence(), 0.85);
}

#[test]
fn test_get_history() {
    let mut tracker = BayesianBeatTracker::new(120.0, 0.8);
    tracker.update_with_onsets(&[0.0, 0.5, 1.0], 44100).unwrap();

    let history = tracker.get_history();
    assert_eq!(history.len(), 2);
    assert_eq!(history[0], 120.0);
}


#[test]
fn a_failed_update_changes_nothing() {
    let mut tracker = BayesianBeatTracker::new(120.0, 0.8);
    assert!(tracker.update_with_onsets(&[], 44100).is_err());
    assert_eq!(g(tracker.inner.current_bpm), 120.0);
    assert_eq!(g(tracker.inner.current_confidence), 0.8);
    assert_eq!(tracker.inner.history.len(), 1);
}

#[test]
fn revised_tempo_is_the_most_probable_one() {
    let mut tracker = BayesianBeatTracker::new(120.0, 0.8);
    let onsets: Vec<f32> = (0..40).map(|i| i as f32 * (60.0 / 122.0)).collect();
    let candidates = tracker.generate_bpm_candidates();
    let posterior =
        |bpm: f32| tracker.compute_likelihood(&onsets, bpm).unwrap() * tracker.compute_prior(bpm);
    let best = candidates.iter().copied().fold(candidates[0], |a, b| {
        if posterior(b) > posterior(a) {
            b
        } else {
            a
        }
    });
    let likelihood = tracker.compute_likelihood(&onsets, best).unwrap();
    assert_eq!(best, 122.0);
    let (bpm, confidence) = tracker.update_with_onsets(&onsets, 44100).unwrap();
    assert_eq!(bpm, best);
    assert_eq!(confidence, likelihood * 0.8);
}

#[test]
fn one_onset_leaves_the_tempo() {
    let mut tracker = BayesianBeatTracker::new(120.0, 0.8);
    let (bpm, confidence) = tracker.update_with_onsets(&[0.0], 44100).unwrap();
    assert_eq!(bpm, 120.0);
    assert_eq!(confidence, 1.0);
    assert_eq!(tracker.get_history(), vec![120.0, 120.0]);
}

#[test]
fn likelihoods_of_onsets_are_multiplied() {
    let tracker = BayesianBeatTracker::new(120.0, 0.8);
    let one = tracker.compute_likelihood(&[0.0, 0.55], 120.0).unwrap();
    let two = tracker.compute_likelihood(&[0.0, 0.55, 1.05], 120.0).unwrap();
    assert!((one - (-0.5f32).exp()).abs() < 1e-4);
    assert!((two - one * one).abs() < 1e-4);
}

#[test]
fn likelihood_needs_a_tempo() {
    let tracker = BayesianBeatTracker::new(120.0, 0.8);
    match tracker.compute_likelihood(&[0.0, 0.5], 0.0) {
        Err(AnalysisError::InvalidInput(m)) => assert_eq!(m, "Invalid BPM for likelihood: 0.00"),
        _ => panic!("expected an error"),
    }
}
