//! Thresholds that adapt to the values they are applied to.
use crate::error::gives_plain;
use crate::error::invalid_input;
use crate::error::AnalysisError;
use crate::error::Outcome;
use crate::float::one;
use crate::float::zero;
use crate::float::F32;
use crate::number_text::shortest;
use crate::number_text::shortest_of;
use crate::statistics::median;
use crate::statistics::median_of;
use crate::statistics::percentile_of;
use crate::statistics::value_at_percentile;
use vstd::prelude::*;
use vstd::string::StringExecFns;

verus! {

/// How far each value is from a center.
pub open spec fn deviations(values: Seq<F32>, center: F32) -> Seq<F32> {
    Seq::new(values.len(), |i: int| (values[i] - center).abs())
}

/// The median of values and `k` times the median of how far the values are from it.
pub open spec fn threshold_of(values: Seq<F32>, k: F32) -> F32 {
    median_of(values) + k * median_of(deviations(values, median_of(values)))
}

/// A threshold above the median: the median and `k` times the median of how far
/// the values are from it.
pub fn adaptive_threshold_median_mad(values: &[F32], k: F32) -> (r: Result<F32, AnalysisError>)
    ensures
        gives_plain(
            r,
            if values@.len() == 0 {
                Outcome::Invalid("Empty values for threshold calculation"@)
            } else if k < zero() {
                Outcome::Invalid("MAD multiplier k must be non-negative"@)
            } else {
                Outcome::Value(threshold_of(values@, k))
            },
        ),
{
    if values.len() == 0 {
        return Err(invalid_input("Empty values for threshold calculation"));
    }
    if k < zero() {
        return Err(invalid_input("MAD multiplier k must be non-negative"));
    }
    let center = median(values);
    let mut d: Vec<F32> = Vec::new();
    let mut i: usize = 0;
    while i < values.len()
        invariant
            i <= values.len(),
            d@.len() == i,
            forall|j: int| 0 <= j < i ==> d@[j] == (values@[j] - center).abs(),
        decreases values.len() - i,
    {
        d.push((values[i] - center).abs());
        i = i + 1;
    }
    assert(d@ =~= deviations(values@, center));
    Ok(center + k * median(d.as_slice()))
}

/// The value at a percentile.
pub fn percentile_threshold(values: &[F32], percentile: F32) -> (r: Result<F32, AnalysisError>)
    ensures
        gives_plain(
            r,
            if values@.len() == 0 {
                Outcome::Invalid("Empty values for threshold calculation"@)
            } else if !(zero() <= percentile && percentile <= one()) {
                Outcome::Invalid(
                    "Percentile must be in [0.0, 1.0], got "@ + shortest_of(percentile),
                )
            } else {
                Outcome::Value(percentile_of(values@, percentile))
            },
        ),
{
    if values.len() == 0 {
        return Err(invalid_input("Empty values for threshold calculation"));
    }
    if !(zero() <= percentile && percentile <= one()) {
        return Err(
            AnalysisError::InvalidInput(
                "Percentile must be in [0.0, 1.0], got ".to_owned().concat(
                    shortest(percentile).as_str(),
                ),
            ),
        );
    }
    Ok(value_at_percentile(values, percentile))
}

} // verus!
