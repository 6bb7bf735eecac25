//! Tempo from onsets: autocorrelation and comb filter together, with guardrails.
use super::autocorrelation::acf_search;
use super::autocorrelation::estimate_bpm_from_autocorrelation;
use super::candidate_filter::merge_bpm_candidates;
use super::candidate_filter::merged;
use super::comb_filter::comb_search;
use super::comb_filter::estimate_bpm_from_comb_filter;
use super::types::BpmCandidate;
use super::types::BpmEstimate;
use crate::error::gives_plain;
use crate::error::AnalysisError;
use crate::error::Outcome;
use crate::float::ratio;
use crate::float::zero;
use crate::float::F32;
use crate::sorting::arrange;
use crate::sorting::arranged;
use crate::sorting::sort_order;
use crate::sorting::sorted_order;
use vstd::prelude::*;

verus! {

/// Soft guardrails: a multiplier of the confidence for each band of tempos.
#[derive(Debug, Clone, Copy)]
pub struct LegacyBpmGuardrails {
    /// Lower bound of the preferred band
    pub preferred_min: F32,
    /// Upper bound of the preferred band
    pub preferred_max: F32,
    /// Lower bound of the soft band
    pub soft_min: F32,
    /// Upper bound of the soft band
    pub soft_max: F32,
    /// Multiplier within the preferred band
    pub mul_preferred: F32,
    /// Multiplier within the soft band, outside the preferred one
    pub mul_soft: F32,
    /// Multiplier outside the soft band
    pub mul_extreme: F32,
}

/// A multiplier that is finite and not below zero.
#[verifier::allow_in_spec]
pub fn sane_multiplier(x: F32) -> F32
    returns
        (if x.is_finite() {
            x.max(zero())
        } else {
            zero()
        }),
{
    if x.is_finite() {
        x.max(zero())
    } else {
        zero()
    }
}

impl LegacyBpmGuardrails {
    /// The multiplier for a tempo.
    #[verifier::allow_in_spec]
    pub fn mul_for(&self, bpm: F32) -> F32
        returns
            (if !bpm.is_finite() {
                zero()
            } else if bpm >= self.preferred_min && bpm <= self.preferred_max {
                self.mul_preferred
            } else if bpm >= self.soft_min && bpm <= self.soft_max {
                self.mul_soft
            } else {
                self.mul_extreme
            }),
    {
        if !bpm.is_finite() {
            zero()
        } else if bpm >= self.preferred_min && bpm <= self.preferred_max {
            self.mul_preferred
        } else if bpm >= self.soft_min && bpm <= self.soft_max {
            self.mul_soft
        } else {
            self.mul_extreme
        }
    }

    /// The guardrails with their bounds in order, the preferred band within the
    /// soft one, and sane multipliers.
    pub open spec fn sane(self) -> LegacyBpmGuardrails {
        let preferred_min = self.preferred_min.min(self.preferred_max);
        let preferred_max = self.preferred_min.max(self.preferred_max);
        LegacyBpmGuardrails {
            preferred_min,
            preferred_max,
            soft_min: self.soft_min.min(self.soft_max).min(preferred_min),
            soft_max: self.soft_min.max(self.soft_max).max(preferred_max),
            mul_preferred: sane_multiplier(self.mul_preferred),
            mul_soft: sane_multiplier(self.mul_soft),
            mul_extreme: sane_multiplier(self.mul_extreme),
        }
    }

    pub fn clamp_sane(&self) -> (r: LegacyBpmGuardrails)
        ensures
            r == self.sane(),
    {
        let preferred_min = self.preferred_min.min(self.preferred_max);
        let preferred_max = self.preferred_min.max(self.preferred_max);
        LegacyBpmGuardrails {
            preferred_min,
            preferred_max,
            soft_min: self.soft_min.min(self.soft_max).min(preferred_min),
            soft_max: self.soft_min.max(self.soft_max).max(preferred_max),
            mul_preferred: sane_multiplier(self.mul_preferred),
            mul_soft: sane_multiplier(self.mul_soft),
            mul_extreme: sane_multiplier(self.mul_extreme),
        }
    }
}

/// Sane guardrails are nested: the soft band holds the preferred one.
pub proof fn lemma_sane_guardrails_are_nested(g: LegacyBpmGuardrails)
    requires
        !g.preferred_min.is_nan(),
        !g.preferred_max.is_nan(),
        !g.soft_min.is_nan(),
        !g.soft_max.is_nan(),
    ensures
        g.sane().soft_min <= g.sane().preferred_min,
        g.sane().preferred_min <= g.sane().preferred_max,
        g.sane().preferred_max <= g.sane().soft_max,
{
}

/// Making guardrails sane twice is making them sane once.
pub proof fn lemma_sane_is_idempotent(g: LegacyBpmGuardrails)
    requires
        !g.preferred_min.is_nan(),
        !g.preferred_max.is_nan(),
        !g.soft_min.is_nan(),
        !g.soft_max.is_nan(),
    ensures
        g.sane().sane() == g.sane(),
{
}

/// The band of tempos that is preferred: 60 to 180 BPM without guardrails.
pub open spec fn preferred_band(guardrails: Option<LegacyBpmGuardrails>) -> (F32, F32) {
    match guardrails {
        Some(g) => (g.preferred_min, g.preferred_max),
        None => (ratio(60, 1), ratio(180, 1)),
    }
}

/// The first candidate from `i` on with a tempo in a band.
pub open spec fn first_in_band(c: Seq<BpmCandidate>, low: F32, high: F32, i: int) -> Option<F32>
    decreases c.len() - i,
{
    if i < 0 || i >= c.len() {
        None
    } else if c[i].bpm >= low && c[i].bpm <= high {
        Some(c[i].bpm)
    } else {
        first_in_band(c, low, high, i + 1)
    }
}

/// The confidences of estimates.
pub open spec fn estimate_confidences(e: Seq<BpmEstimate>) -> Seq<F32> {
    Seq::new(e.len(), |i: int| e[i].confidence)
}

/// The estimates with their confidences multiplied by guardrails, the most
/// confident first.
pub open spec fn guarded(e: Seq<BpmEstimate>, guardrails: Option<LegacyBpmGuardrails>) -> Seq<BpmEstimate> {
    match guardrails {
        None => e,
        Some(g) => {
            let m = Seq::new(
                e.len(),
                |i: int|
                    BpmEstimate {
                        bpm: e[i].bpm,
                        confidence: e[i].confidence * g.mul_for(e[i].bpm),
                        method_agreement: e[i].method_agreement,
                    },
            );
            arranged(m, sorted_order(estimate_confidences(m), true, m.len()))
        },
    }
}

/// The first estimate from `i` on less than 2 BPM from `bpm`.
pub open spec fn estimate_near(e: Seq<BpmEstimate>, bpm: F32, i: int) -> int
    decreases e.len() - i,
{
    if i < 0 || i >= e.len() || (e[i].bpm - bpm).abs() < ratio(2, 1) {
        i
    } else {
        estimate_near(e, bpm, i + 1)
    }
}

/// The estimate that is chosen: the one that agrees with the first preferred
/// candidate of the autocorrelation, else the first.
pub open spec fn chosen_estimate(e: Seq<BpmEstimate>, preferred: Option<F32>) -> Option<BpmEstimate> {
    let near = match preferred {
        Some(bpm) => estimate_near(e, bpm, 0),
        None => e.len() as int,
    };
    if e.len() == 0 {
        None
    } else if near < e.len() {
        Some(e[near])
    } else {
        Some(e[0])
    }
}

/// The estimate that the candidates of both methods lead to.
pub open spec fn combined_estimate(
    autocorr: Seq<BpmCandidate>,
    comb: Seq<BpmCandidate>,
    octave_tolerance_ratio: F32,
    guardrails: Option<LegacyBpmGuardrails>,
) -> Option<BpmEstimate> {
    let sane = match guardrails {
        Some(g) => Some(g.sane()),
        None => None,
    };
    let band = preferred_band(sane);
    chosen_estimate(
        guarded(merged(autocorr, comb, octave_tolerance_ratio), sane),
        first_in_band(autocorr, band.0, band.1, 0),
    )
}

fn find_in_band(c: &[BpmCandidate], low: F32, high: F32) -> (r: Option<F32>)
    ensures
        r == first_in_band(c@, low, high, 0),
{
    let mut i: usize = 0;
    while i < c.len()
        invariant
            i <= c.len(),
            first_in_band(c@, low, high, 0) == first_in_band(c@, low, high, i as int),
        decreases c.len() - i,
    {
        if c[i].bpm >= low && c[i].bpm <= high {
            return Some(c[i].bpm);
        }
        i = i + 1;
    }
    None
}

fn guard_estimates(e: &[BpmEstimate], g: LegacyBpmGuardrails) -> (r: Vec<BpmEstimate>)
    ensures
        r@ == guarded(e@, Some(g)),
        r@.len() == e@.len(),
{
    let mut m: Vec<BpmEstimate> = Vec::new();
    let mut keys: Vec<F32> = Vec::new();
    let mut i: usize = 0;
    while i < e.len()
        invariant
            i <= e.len(),
            m@.len() == i,
            keys@.len() == i,
            forall|k: int|
                0 <= k < i ==> m@[k] == (BpmEstimate {
                    bpm: e@[k].bpm,
                    confidence: e@[k].confidence * g.mul_for(e@[k].bpm),
                    method_agreement: e@[k].method_agreement,
                }) && keys@[k] == m@[k].confidence,
        decreases e.len() - i,
    {
        let confidence = e[i].confidence * g.mul_for(e[i].bpm);
        m.push(
            BpmEstimate { bpm: e[i].bpm, confidence, method_agreement: e[i].method_agreement },
        );
        keys.push(confidence);
        i = i + 1;
    }
    let ghost all: Seq<BpmEstimate> = Seq::new(
        e@.len(),
        |k: int|
            BpmEstimate {
                bpm: e@[k].bpm,
                confidence: e@[k].confidence * g.mul_for(e@[k].bpm),
                method_agreement: e@[k].method_agreement,
            },
    );
    assert(m@ =~= all);
    assert(keys@ =~= estimate_confidences(m@));
    let order: Vec<usize> = sort_order(keys.as_slice(), true);
    arrange(m.as_slice(), order.as_slice())
}

/// Combines the candidates of both methods into one estimate.
pub fn combine_candidates(
    autocorr: Vec<BpmCandidate>,
    comb: Vec<BpmCandidate>,
    octave_tolerance_ratio: F32,
    guardrails: Option<LegacyBpmGuardrails>,
) -> (r: Option<BpmEstimate>)
    ensures
        r == combined_estimate(autocorr@, comb@, octave_tolerance_ratio, guardrails),
{
    let sane: Option<LegacyBpmGuardrails> = match guardrails {
        Some(g) => Some(g.clamp_sane()),
        None => None,
    };
    let (low, high) = match sane {
        Some(g) => (g.preferred_min, g.preferred_max),
        None => (ratio(60, 1), ratio(180, 1)),
    };
    let preferred: Option<F32> = find_in_band(autocorr.as_slice(), low, high);
    let all: Vec<BpmEstimate> = match merge_bpm_candidates(autocorr, comb, octave_tolerance_ratio) {
        Ok(all) => all,
        Err(_) => Vec::new(),
    };
    let e: Vec<BpmEstimate> = match sane {
        Some(g) => guard_estimates(all.as_slice(), g),
        None => all,
    };
    if e.len() == 0 {
        return None;
    }
    match preferred {
        Some(bpm) => {
            let mut i: usize = 0;
            while i < e.len()
                invariant
                    i <= e.len(),
                    estimate_near(e@, bpm, 0) == estimate_near(e@, bpm, i as int),
                    preferred == Some(bpm),
                    e@.len() > 0,
                    chosen_estimate(e@, preferred) == combined_estimate(
                        autocorr@,
                        comb@,
                        octave_tolerance_ratio,
                        guardrails,
                    ),
                decreases e.len() - i,
            {
                if (e[i].bpm - bpm).abs() < ratio(2, 1) {
                    return Some(e[i]);
                }
                i = i + 1;
            }
        },
        None => {},
    }
    Some(e[0])
}

/// What onsets come to.
pub open spec fn bpm_search(
    onsets: Seq<usize>,
    sample_rate: u32,
    hop_size: usize,
    min_bpm: F32,
    max_bpm: F32,
    bpm_resolution: F32,
    acf: Seq<F32>,
    octave_tolerance_ratio: F32,
    guardrails: Option<LegacyBpmGuardrails>,
) -> Outcome<Option<BpmEstimate>> {
    match acf_search(onsets, sample_rate, hop_size, min_bpm, max_bpm, acf) {
        Outcome::Value(autocorr) => match comb_search(
            onsets,
            sample_rate,
            min_bpm,
            max_bpm,
            bpm_resolution,
        ) {
            Outcome::Value(comb) => Outcome::Value(
                combined_estimate(autocorr, comb, octave_tolerance_ratio, guardrails),
            ),
            Outcome::Invalid(msg) => Outcome::Invalid(msg),
            Outcome::Failed(msg) => Outcome::Failed(msg),
            Outcome::Numerical(msg) => Outcome::Numerical(msg),
        },
        Outcome::Invalid(msg) => Outcome::Invalid(msg),
        Outcome::Failed(msg) => Outcome::Failed(msg),
        Outcome::Numerical(msg) => Outcome::Numerical(msg),
    }
}

fn estimate_bpm_internal(
    onsets: &[usize],
    sample_rate: u32,
    hop_size: usize,
    min_bpm: F32,
    max_bpm: F32,
    bpm_resolution: F32,
    acf: &[F32],
    octave_tolerance_ratio: F32,
    guardrails: Option<LegacyBpmGuardrails>,
) -> (r: Result<Option<BpmEstimate>, AnalysisError>)
    ensures
        gives_plain(
            r,
            bpm_search(
                onsets@,
                sample_rate,
                hop_size,
                min_bpm,
                max_bpm,
                bpm_resolution,
                acf@,
                octave_tolerance_ratio,
                guardrails,
            ),
        ),
{
    let autocorr: Vec<BpmCandidate> = match estimate_bpm_from_autocorrelation(
        onsets,
        sample_rate,
        hop_size,
        min_bpm,
        max_bpm,
        acf,
    ) {
        Err(e) => {
            return Err(e);
        },
        Ok(c) => c,
    };
    let comb: Vec<BpmCandidate> = match estimate_bpm_from_comb_filter(
        onsets,
        sample_rate,
        hop_size,
        min_bpm,
        max_bpm,
        bpm_resolution,
    ) {
        Err(e) => {
            return Err(e);
        },
        Ok(c) => c,
    };
    Ok(combine_candidates(autocorr, comb, octave_tolerance_ratio, guardrails))
}

/// Estimates the tempo of onsets (in samples), given the autocorrelation of
/// their signal.
pub fn estimate_bpm(
    onsets: &[usize],
    sample_rate: u32,
    hop_size: usize,
    min_bpm: F32,
    max_bpm: F32,
    bpm_resolution: F32,
    acf: &[F32],
    octave_tolerance_ratio: F32,
) -> (r: Result<Option<BpmEstimate>, AnalysisError>)
    ensures
        gives_plain(
            r,
            bpm_search(
                onsets@,
                sample_rate,
                hop_size,
                min_bpm,
                max_bpm,
                bpm_resolution,
                acf@,
                octave_tolerance_ratio,
                None,
            ),
        ),
{
    estimate_bpm_internal(
        onsets,
        sample_rate,
        hop_size,
        min_bpm,
        max_bpm,
        bpm_resolution,
        acf,
        octave_tolerance_ratio,
        None,
    )
}

/// Estimates the tempo of onsets with guardrails.
pub fn estimate_bpm_with_guardrails(
    onsets: &[usize],
    sample_rate: u32,
    hop_size: usize,
    min_bpm: F32,
    max_bpm: F32,
    bpm_resolution: F32,
    guardrails: LegacyBpmGuardrails,
    acf: &[F32],
    octave_tolerance_ratio: F32,
) -> (r: Result<Option<BpmEstimate>, AnalysisError>)
    ensures
        gives_plain(
            r,
            bpm_search(
                onsets@,
                sample_rate,
                hop_size,
                min_bpm,
                max_bpm,
                bpm_resolution,
                acf@,
                octave_tolerance_ratio,
                Some(guardrails),
            ),
        ),
{
    estimate_bpm_internal(
        onsets,
        sample_rate,
        hop_size,
        min_bpm,
        max_bpm,
        bpm_resolution,
        acf,
        octave_tolerance_ratio,
        Some(guardrails),
    )
}

} // verus!
