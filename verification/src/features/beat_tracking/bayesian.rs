//! Tempo tracking by evidence: near tempos are weighed by how well onsets fall on
//! their beats and by how near they are to the tempo so far.
use crate::error::AnalysisError;
use crate::error::Outcome;
use crate::error::gives_plain;
use crate::error::invalid_input;
use crate::features::period::comb_filter::tempos;
use crate::features::period::tempogram_autocorr::list_tempos;
use crate::float::clamp_unit;
use crate::float::one;
use crate::float::ratio;
use crate::float::zero;
use crate::float::F32;
use crate::number_text::fixed2;
use crate::number_text::fixed2_of;
use vstd::prelude::*;
use vstd::string::StringExecFns;

verus! {

/// A tempo that is revised as onsets come in.
#[derive(Debug, Clone)]
pub struct BayesianBeatTracker {
    /// Current BPM estimate
    pub current_bpm: F32,
    /// Current confidence, from zero to one
    pub current_confidence: F32,
    /// All estimates so far
    pub history: Vec<F32>,
}

/// How far an onset is from the nearest beat of a grid.
#[verifier::allow_in_spec]
pub fn beat_distance(onset: F32, start: F32, interval: F32) -> F32
    returns
        (onset - (start + F32::from_i32(((onset - start) / interval).round().to_i32())
            * interval)).abs(),
{
    (onset - (start + F32::from_i32(((onset - start) / interval).round().to_i32()) * interval)).abs()
}

/// The logarithm of how likely an onset is at a distance from its beat: a normal
/// distribution with a deviation of fifty milliseconds.
#[verifier::allow_in_spec]
pub fn log_probability(distance: F32) -> F32
    returns
        (distance * distance).neg() / (ratio(2, 1) * (ratio(5, 100) * ratio(5, 100))),
{
    (distance * distance).neg() / (ratio(2, 1) * (ratio(5, 100) * ratio(5, 100)))
}

/// The sum of the logarithms for the first `n` onsets; the first onset is a beat.
pub open spec fn log_sum(onsets: Seq<F32>, interval: F32, n: nat) -> F32
    decreases n,
{
    if n == 0 {
        zero()
    } else {
        log_sum(onsets, interval, (n - 1) as nat) + log_probability(
            beat_distance(onsets[n - 1], onsets[0], interval),
        )
    }
}

/// The logarithm of how likely onsets are under a tempo: their likelihoods are
/// multiplied, so that their logarithms are added up.
fn log_likelihood(onsets: &[F32], bpm: F32) -> (r: F32)
    ensures
        r == log_sum(onsets@, ratio(60, 1) / bpm, onsets@.len()),
{
    let interval = ratio(60, 1) / bpm;
    let mut acc = zero();
    let mut n: usize = 0;
    while n < onsets.len()
        invariant
            n <= onsets.len(),
            acc == log_sum(onsets@, interval, n as nat),
        decreases onsets.len() - n,
    {
        acc = acc + log_probability(beat_distance(onsets[n], onsets[0], interval));
        n = n + 1;
    }
    acc
}

/// A tempo as it was weighed.
#[derive(Debug, Clone, Copy)]
pub struct WeighedTempo {
    /// Tempo in BPM
    pub bpm: F32,
    /// How likely the onsets are under it
    pub likelihood: F32,
    /// The likelihood times how likely the tempo was before
    pub posterior: F32,
}

/// The most probable of the first `n` tempos: the one with the greatest product of
/// likelihood and prior. The first of those that tie; `current`, where none is
/// probable at all.
pub open spec fn most_probable(
    current: F32,
    bpms: Seq<F32>,
    likelihoods: Seq<F32>,
    priors: Seq<F32>,
    n: nat,
) -> WeighedTempo
    decreases n,
{
    if n == 0 {
        WeighedTempo { bpm: current, likelihood: zero(), posterior: zero() }
    } else {
        let before = most_probable(current, bpms, likelihoods, priors, (n - 1) as nat);
        let posterior = likelihoods[n - 1] * priors[n - 1];
        if posterior > before.posterior {
            WeighedTempo { bpm: bpms[n - 1], likelihood: likelihoods[n - 1], posterior }
        } else {
            before
        }
    }
}

/// What a change of tempo leaves of the confidence.
#[verifier::allow_in_spec]
pub fn change_penalty(change: F32) -> F32
    returns
        (if change < one() {
            one()
        } else if change < ratio(3, 1) {
            ratio(8, 10)
        } else {
            ratio(5, 10)
        }),
{
    if change < one() {
        one()
    } else if change < ratio(3, 1) {
        ratio(8, 10)
    } else {
        ratio(5, 10)
    }
}

/// A tempo that cannot be revised.
#[verifier::allow_in_spec]
pub fn is_untrackable(bpm: F32) -> bool
    returns
        bpm <= ratio(1, 10_000_000_000) || bpm > ratio(300, 1),
{
    bpm <= ratio(1, 10_000_000_000) || bpm > ratio(300, 1)
}

impl BayesianBeatTracker {
    /// A tracker with a first estimate.
    pub fn new(initial_bpm: F32, initial_confidence: F32) -> (r: BayesianBeatTracker)
        ensures
            r.current_bpm == initial_bpm,
            r.current_confidence == clamp_unit(initial_confidence),
            r.history@ == seq![initial_bpm],
    {
        let mut history: Vec<F32> = Vec::new();
        history.push(initial_bpm);
        BayesianBeatTracker {
            current_bpm: initial_bpm,
            current_confidence: clamp_unit(initial_confidence),
            history,
        }
    }

    /// The tempos that are weighed: within five BPM, from 60 to 180, in steps of a half.
    pub open spec fn bpm_candidates(self) -> Seq<F32> {
        tempos(
            (self.current_bpm - ratio(5, 1)).max(ratio(60, 1)),
            (self.current_bpm + ratio(5, 1)).min(ratio(180, 1)),
            ratio(5, 10),
        )
    }

    /// Lists the tempos that are weighed.
    pub fn generate_bpm_candidates(&self) -> (r: Vec<F32>)
        ensures
            r@ == self.bpm_candidates(),
    {
        list_tempos(
            (self.current_bpm - ratio(5, 1)).max(ratio(60, 1)),
            (self.current_bpm + ratio(5, 1)).min(ratio(180, 1)),
            ratio(5, 10),
        )
    }

    /// The exponent of how likely onsets are under a tempo; none where there are no
    /// onsets, which are not likely at all.
    pub fn compute_likelihood(&self, onsets: &[F32], bpm: F32) -> (r: Result<
        Option<F32>,
        AnalysisError,
    >)
        ensures
            gives_plain(
                r,
                if bpm <= ratio(1, 10_000_000_000) {
                    Outcome::Invalid("Invalid BPM for likelihood: "@ + fixed2_of(bpm))
                } else if onsets@.len() == 0 {
                    Outcome::Value(None)
                } else {
                    Outcome::Value(Some(log_sum(onsets@, ratio(60, 1) / bpm, onsets@.len())))
                },
            ),
    {
        if bpm <= ratio(1, 10_000_000_000) {
            return Err(
                AnalysisError::InvalidInput(
                    "Invalid BPM for likelihood: ".to_owned().concat(fixed2(bpm).as_str()),
                ),
            );
        }
        if onsets.len() == 0 {
            return Ok(None);
        }
        Ok(Some(log_likelihood(onsets, bpm)))
    }

    /// The exponent of how likely a tempo is before any evidence: a normal distribution
    /// around the current estimate with a deviation of two BPM.
    #[verifier::allow_in_spec]
    pub fn prior_exponent(&self, bpm: F32) -> F32
        returns
            ((bpm - self.current_bpm).abs() * (bpm - self.current_bpm).abs()).neg() / (ratio(2, 1)
                * (ratio(2, 1) * ratio(2, 1))),
    {
        let d = (bpm - self.current_bpm).abs();
        (d * d).neg() / (ratio(2, 1) * (ratio(2, 1) * ratio(2, 1)))
    }

    /// What is wrong with an update.
    pub open spec fn update_error(self, onsets: Seq<F32>) -> Option<Seq<char>> {
        if onsets.len() == 0 {
            Some("Cannot update: no onsets provided"@)
        } else if is_untrackable(self.current_bpm) {
            Some("Invalid current BPM: "@ + fixed2_of(self.current_bpm))
        } else {
            None
        }
    }

    /// Revises the tempo to the most probable one. `likelihoods` are those of the
    /// onsets under each of the tempos that are weighed, and `priors` are how likely
    /// these are before the onsets: the exponentials of what `compute_likelihood` and
    /// `prior_exponent` give.
    pub fn update_with_onsets(&mut self, onsets: &[F32], likelihoods: &[F32], priors: &[F32]) -> (r: Result<
        (F32, F32),
        AnalysisError,
    >)
        requires
            likelihoods@.len() == old(self).bpm_candidates().len(),
            priors@.len() == old(self).bpm_candidates().len(),
        ensures
            match old(self).update_error(onsets@) {
                Some(msg) => crate::error::is_invalid_input(r, msg) && *final(self) == *old(self),
                None => {
                    let best = most_probable(
                        old(self).current_bpm,
                        old(self).bpm_candidates(),
                        likelihoods@,
                        priors@,
                        likelihoods@.len(),
                    );
                    &&& final(self).current_bpm == best.bpm
                    &&& final(self).current_confidence == (best.likelihood * change_penalty(
                        (best.bpm - old(self).current_bpm).abs(),
                    )).min(one())
                    &&& final(self).history@ == old(self).history@.push(best.bpm)
                    &&& r == Ok::<(F32, F32), AnalysisError>(
                        (final(self).current_bpm, final(self).current_confidence),
                    )
                },
            },
    {
        if onsets.len() == 0 {
            return Err(invalid_input("Cannot update: no onsets provided"));
        }
        if is_untrackable(self.current_bpm) {
            return Err(
                AnalysisError::InvalidInput(
                    "Invalid current BPM: ".to_owned().concat(fixed2(self.current_bpm).as_str()),
                ),
            );
        }
        let old_bpm = self.current_bpm;
        let bpms: Vec<F32> = self.generate_bpm_candidates();
        let mut best = WeighedTempo { bpm: old_bpm, likelihood: zero(), posterior: zero() };
        let mut n: usize = 0;
        while n < likelihoods.len()
            invariant
                n <= likelihoods.len(),
                bpms@.len() == likelihoods@.len(),
                priors@.len() == likelihoods@.len(),
                best == most_probable(old_bpm, bpms@, likelihoods@, priors@, n as nat),
            decreases likelihoods.len() - n,
        {
            let posterior = likelihoods[n] * priors[n];
            if posterior > best.posterior {
                best = WeighedTempo { bpm: bpms[n], likelihood: likelihoods[n], posterior };
            }
            n = n + 1;
        }
        self.current_bpm = best.bpm;
        self.history.push(best.bpm);
        self.current_confidence = (best.likelihood * change_penalty(
            (best.bpm - old_bpm).abs(),
        )).min(one());
        Ok((self.current_bpm, self.current_confidence))
    }

    /// The current estimate.
    #[verifier::allow_in_spec]
    pub fn get_bpm(&self) -> F32
        returns
            self.current_bpm,
    {
        self.current_bpm
    }

    /// The current confidence.
    #[verifier::allow_in_spec]
    pub fn get_confidence(&self) -> F32
        returns
            self.current_confidence,
    {
        self.current_confidence
    }

    /// All estimates so far.
    pub fn get_history(&self) -> (r: &[F32])
        ensures
            r@ == self.history@,
    {
        self.history.as_slice()
    }
}

} // verus!
