//! Confidence of an analysis.
//!
//! The confidence of the tempo and of the key are taken from their detection
//! and lowered where the result carries warnings about them or where the key is
//! not clear; the stability of the beat grid is taken as it is. The overall
//! confidence weighs the three.
use super::result::AnalysisFlag;
use super::result::AnalysisResult;
use crate::float::clamp_unit;
use crate::float::one;
use crate::float::ratio;
use crate::float::zero;
use crate::float::F32;
use crate::float_laws::in_unit;
use crate::float_laws::lemma_clamp_unit;
use crate::float_laws::lemma_ratio_in_unit;
use crate::float_laws::lemma_ratio_order;
use crate::float_laws::lemma_scaled_down;
use crate::float_laws::lemma_sum_grows;
use crate::float_laws::lemma_unit_is_finite;
use crate::float_laws::lemma_unit_product;
use crate::float_laws::lemma_zero_and_one;
use crate::text::contains;
use crate::text::occurs_in;
use vstd::prelude::*;

verus! {

/// Analysis confidence scores.
#[derive(Debug, Clone)]
pub struct AnalysisConfidence {
    /// Confidence of the tempo
    pub bpm_confidence: F32,
    /// Confidence of the key
    pub key_confidence: F32,
    /// Stability of the beat grid
    pub grid_stability: F32,
    /// Overall confidence: 40% tempo, 30% key, 30% grid
    pub overall_confidence: F32,
    /// Issues found
    pub flags: Vec<AnalysisFlag>,
}

/// One of the warnings holds `word`.
pub open spec fn warned_of(warnings: Seq<String>, word: Seq<char>) -> bool {
    exists|i: int| 0 <= i < warnings.len() && occurs_in(word, #[trigger] warnings[i]@)
}

pub open spec fn bpm_confidence_of(result: AnalysisResult) -> F32 {
    if result.bpm <= zero() {
        zero()
    } else if warned_of(result.metadata.confidence_warnings@, "BPM"@) {
        clamp_unit(result.bpm_confidence) * ratio(7, 10)
    } else {
        clamp_unit(result.bpm_confidence)
    }
}

/// What the clarity of a key makes of its confidence.
pub open spec fn clarity_adjustment(clarity: F32) -> F32 {
    if clarity < ratio(2, 10) {
        ratio(6, 10)
    } else if clarity < ratio(5, 10) {
        ratio(85, 100)
    } else {
        one()
    }
}

pub open spec fn warned_of_key(warnings: Seq<String>) -> bool {
    warned_of(warnings, "key"@) || warned_of(warnings, "Key"@) || warned_of(warnings, "tonality"@)
}

pub open spec fn key_confidence_of(result: AnalysisResult) -> F32 {
    if result.key_confidence <= zero() {
        zero()
    } else {
        clamp_unit(result.key_confidence) * clarity_adjustment(result.key_clarity) * (
        if warned_of_key(result.metadata.confidence_warnings@) {
            ratio(7, 10)
        } else {
            one()
        })
    }
}

/// The overall confidence of the three parts; where the tempo or the key
/// failed, what is left of the other.
pub open spec fn overall_confidence_of(bpm: F32, key: F32, grid: F32) -> F32 {
    if bpm > zero() && key > zero() {
        clamp_unit(bpm * ratio(4, 10) + key * ratio(3, 10) + grid * ratio(3, 10))
    } else if bpm > zero() {
        bpm * ratio(6, 10)
    } else if key > zero() {
        key * ratio(6, 10)
    } else {
        zero()
    }
}

/// The issues that low confidences add to those already found.
pub open spec fn flags_of(found: Seq<AnalysisFlag>, bpm: F32, key: F32, grid: F32) -> Seq<AnalysisFlag> {
    let f1 = if bpm < ratio(3, 10) {
        found.push(AnalysisFlag::MultimodalBpm)
    } else {
        found
    };
    let f2 = if key < ratio(2, 10) {
        f1.push(AnalysisFlag::WeakTonality)
    } else {
        f1
    };
    if grid < ratio(3, 10) {
        f2.push(AnalysisFlag::TempoVariation)
    } else {
        f2
    }
}

fn any_warning_of(warnings: &Vec<String>, word: &str) -> (r: bool)
    ensures
        r == warned_of(warnings@, word@),
{
    let mut i: usize = 0;
    while i < warnings.len()
        invariant
            i <= warnings.len(),
            forall|k: int| 0 <= k < i ==> !occurs_in(word@, #[trigger] warnings@[k]@),
        decreases warnings.len() - i,
    {
        if contains(warnings[i].as_str(), word) {
            return true;
        }
        i = i + 1;
    }
    false
}

fn compute_bpm_confidence(result: &AnalysisResult) -> (r: F32)
    ensures
        r == bpm_confidence_of(*result),
{
    if result.bpm <= zero() {
        return zero();
    }
    let base = clamp_unit(result.bpm_confidence);
    if any_warning_of(&result.metadata.confidence_warnings, "BPM") {
        base * ratio(7, 10)
    } else {
        base
    }
}

fn compute_key_confidence(result: &AnalysisResult) -> (r: F32)
    ensures
        r == key_confidence_of(*result),
{
    if result.key_confidence <= zero() {
        return zero();
    }
    let base = clamp_unit(result.key_confidence);
    let clarity = if result.key_clarity < ratio(2, 10) {
        ratio(6, 10)
    } else if result.key_clarity < ratio(5, 10) {
        ratio(85, 100)
    } else {
        one()
    };
    let warnings = &result.metadata.confidence_warnings;
    let warned: bool = any_warning_of(warnings, "key") || any_warning_of(warnings, "Key")
        || any_warning_of(warnings, "tonality");
    base * clarity * (if warned {
        ratio(7, 10)
    } else {
        one()
    })
}

/// Computes the confidence scores of a result.
pub fn compute_confidence(result: &AnalysisResult) -> (c: AnalysisConfidence)
    ensures
        c.bpm_confidence == bpm_confidence_of(*result),
        c.key_confidence == key_confidence_of(*result),
        c.grid_stability == clamp_unit(result.grid_stability),
        c.overall_confidence == overall_confidence_of(
            c.bpm_confidence,
            c.key_confidence,
            c.grid_stability,
        ),
        c.flags@ == flags_of(
            result.metadata.flags@,
            c.bpm_confidence,
            c.key_confidence,
            c.grid_stability,
        ),
{
    let bpm = compute_bpm_confidence(result);
    let key = compute_key_confidence(result);
    let grid = clamp_unit(result.grid_stability);
    let overall = if bpm > zero() && key > zero() {
        clamp_unit(bpm * ratio(4, 10) + key * ratio(3, 10) + grid * ratio(3, 10))
    } else if bpm > zero() {
        bpm * ratio(6, 10)
    } else if key > zero() {
        key * ratio(6, 10)
    } else {
        zero()
    };
    let mut flags: Vec<AnalysisFlag> = result.metadata.flags.clone();
    assert(flags@ =~= result.metadata.flags@);
    if bpm < ratio(3, 10) {
        flags.push(AnalysisFlag::MultimodalBpm);
    }
    if key < ratio(2, 10) {
        flags.push(AnalysisFlag::WeakTonality);
    }
    if grid < ratio(3, 10) {
        flags.push(AnalysisFlag::TempoVariation);
    }
    AnalysisConfidence {
        bpm_confidence: bpm,
        key_confidence: key,
        grid_stability: grid,
        overall_confidence: overall,
        flags,
    }
}

/// All confidences of a result are from zero to one, and neither a warning nor a
/// lack of clarity ever raises one, as long as what was detected are numbers.
pub proof fn lemma_confidences_in_unit(result: AnalysisResult)
    requires
        !result.bpm_confidence.is_nan(),
        !result.key_confidence.is_nan(),
        !result.grid_stability.is_nan(),
    ensures
        in_unit(bpm_confidence_of(result)),
        in_unit(key_confidence_of(result)),
        in_unit(clamp_unit(result.grid_stability)),
        in_unit(
            overall_confidence_of(
                bpm_confidence_of(result),
                key_confidence_of(result),
                clamp_unit(result.grid_stability),
            ),
        ),
        bpm_confidence_of(result) <= clamp_unit(result.bpm_confidence),
        key_confidence_of(result) <= clamp_unit(result.key_confidence),
{
    lemma_zero_and_one();
    lemma_clamp_unit(result.bpm_confidence);
    lemma_clamp_unit(result.key_confidence);
    lemma_clamp_unit(result.grid_stability);
    lemma_ratio_in_unit(7, 10);
    lemma_ratio_in_unit(6, 10);
    lemma_ratio_in_unit(4, 10);
    lemma_ratio_in_unit(3, 10);
    lemma_ratio_in_unit(85, 100);
    let base = clamp_unit(result.bpm_confidence);
    lemma_unit_is_finite(base);
    lemma_scaled_down(base, ratio(7, 10));
    let key = clamp_unit(result.key_confidence);
    let factor = clarity_adjustment(result.key_clarity);
    lemma_unit_is_finite(key);
    lemma_scaled_down(key, factor);
    lemma_scaled_down(key * factor, ratio(7, 10));
    lemma_scaled_down(key * factor, one());
    let a = bpm_confidence_of(result);
    let b = key_confidence_of(result);
    let c = clamp_unit(result.grid_stability);
    lemma_unit_product(a, ratio(4, 10));
    lemma_unit_product(b, ratio(3, 10));
    lemma_unit_product(c, ratio(3, 10));
    lemma_unit_product(a, ratio(6, 10));
    lemma_unit_product(b, ratio(6, 10));
    lemma_sum_grows(a * ratio(4, 10), b * ratio(3, 10));
    lemma_sum_grows(a * ratio(4, 10) + b * ratio(3, 10), c * ratio(3, 10));
    lemma_clamp_unit(a * ratio(4, 10) + b * ratio(3, 10) + c * ratio(3, 10));
}

impl AnalysisConfidence {
    /// Whether the overall confidence is 0.7 or more.
    #[verifier::allow_in_spec]
    pub fn is_high_confidence(&self) -> bool
        returns
            self.overall_confidence >= ratio(7, 10),
    {
        self.overall_confidence >= ratio(7, 10)
    }

    /// Whether the overall confidence is below 0.5.
    #[verifier::allow_in_spec]
    pub fn is_low_confidence(&self) -> bool
        returns
            self.overall_confidence < ratio(5, 10),
    {
        self.overall_confidence < ratio(5, 10)
    }

    /// Whether the overall confidence is 0.5 or more and below 0.7.
    #[verifier::allow_in_spec]
    pub fn is_medium_confidence(&self) -> bool
        returns
            self.overall_confidence >= ratio(5, 10) && self.overall_confidence < ratio(7, 10),
    {
        self.overall_confidence >= ratio(5, 10) && self.overall_confidence < ratio(7, 10)
    }

    /// The confidence level in a word.
    pub fn confidence_level(&self) -> (r: &'static str)
        ensures
            r@ == if self.is_high_confidence() {
                "High"@
            } else if self.is_low_confidence() {
                "Low"@
            } else {
                "Medium"@
            },
    {
        if self.is_high_confidence() {
            "High"
        } else if self.is_low_confidence() {
            "Low"
        } else {
            "Medium"
        }
    }
}

/// A confidence is high, medium or low, and only one of these.
pub proof fn lemma_one_level(c: AnalysisConfidence)
    requires
        !c.overall_confidence.is_nan(),
    ensures
        c.is_high_confidence() || c.is_medium_confidence() || c.is_low_confidence(),
        !(c.is_high_confidence() && c.is_medium_confidence()),
        !(c.is_high_confidence() && c.is_low_confidence()),
        !(c.is_medium_confidence() && c.is_low_confidence()),
{
    lemma_ratio_order(5, 10, 7, 10);
}

} // verus!
