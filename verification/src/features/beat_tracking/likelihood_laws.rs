//! What holds of every revision of a tempo: what makes it likely, and what sure.
use crate::float::F32;
use crate::float::one;
use crate::float::ratio;
use crate::float::zero;
use crate::float_laws::in_unit;
use crate::float_laws::lemma_ratio_in_unit;
use crate::float_laws::lemma_ratio_is_finite;
use crate::float_laws::lemma_ratio_order;
use crate::float_laws::lemma_zero_and_one;
use crate::float_order::lemma_negated_quotient_falls;
use crate::float_order::lemma_products_keep_order;
use crate::float_order::lemma_whole;
use crate::float_order::lemma_whole_product;
use super::bayesian::BayesianBeatTracker;
use super::bayesian::change_penalty;
use super::bayesian::log_probability;
use super::tempo_variation::segment_duration;
use vstd::prelude::*;

verus! {

/// The nearer an onset is to its beat, the likelier it is.
pub proof fn lemma_nearer_onset_is_likelier(near: F32, far: F32)
    requires
        zero() <= near,
        near <= far,
        (far * far).is_finite(),
        far.is_finite(),
    ensures
        log_probability(far) <= log_probability(near),
{
    let d = ratio(2, 1) * (ratio(5, 100) * ratio(5, 100));
    lemma_zero_and_one();
    lemma_products_keep_order(near, near, far, far);
    assert(zero() < d && d.is_finite()) by {
        lemma_spread();
    }
    lemma_negated_quotient_falls(near * near, far * far, d);
}

/// Twice the square of fifty milliseconds is above zero.
proof fn lemma_spread()
    ensures
        zero() < ratio(2, 1) * (ratio(5, 100) * ratio(5, 100)),
        (ratio(2, 1) * (ratio(5, 100) * ratio(5, 100))).is_finite(),
{
    let x = ratio(5, 100);
    lemma_zero_and_one();
    lemma_ratio_in_unit(5, 100);
    crate::float_laws::lemma_unit_is_finite(x);
    crate::float_laws::lemma_unit_product(x, x);
    crate::float_laws::lemma_unit_is_finite(x * x);
    lemma_ratio_is_finite(2, 1);
    lemma_whole(2);
    vstd::arithmetic::power2::lemma2_to64();
    crate::float_laws::lemma_ratio_at_least(5, 100, 5);
    crate::float_laws::lemma_product_at_least(x, x, 144, 144);
    assert(vstd::arithmetic::power2::pow2(149) <= ratio(2, 1).units()) by {
        vstd::arithmetic::power2::lemma_pow2_pos(149);
    }
    crate::float_laws::lemma_product_above_zero(ratio(2, 1), x * x, 149, 139);
    crate::float_order::lemma_unit_within(x * x);
    crate::float_sizes::lemma_ratio_within(2, 1, 1);
    crate::float_sizes::lemma_product_within(ratio(2, 1), x * x, 150, 149, 150);
}

/// The nearer a tempo is to the current one, the likelier it was before the onsets came.
pub proof fn lemma_nearer_tempo_was_likelier(tracker: BayesianBeatTracker, near: F32, far: F32)
    requires
        (near - tracker.current_bpm).abs() <= (far - tracker.current_bpm).abs(),
        (far - tracker.current_bpm).is_finite(),
        (near - tracker.current_bpm).is_finite(),
        ((far - tracker.current_bpm).abs() * (far - tracker.current_bpm).abs()).is_finite(),
    ensures
        tracker.prior_exponent(far) <= tracker.prior_exponent(near),
{
    let a = (near - tracker.current_bpm).abs();
    let b = (far - tracker.current_bpm).abs();
    let d = ratio(2, 1) * (ratio(2, 1) * ratio(2, 1));
    lemma_zero_and_one();
    lemma_whole(2);
    lemma_whole_product(ratio(2, 1), ratio(2, 1), 2, 2);
    lemma_whole_product(ratio(2, 1), ratio(2, 1) * ratio(2, 1), 2, 4);
    vstd::arithmetic::power2::lemma_pow2_pos(149);
    assert(zero() <= a) by {
        reveal(F32::units);
        crate::rounding::lemma_mag_units_nonnegative(a.mag());
    }
    lemma_products_keep_order(a, a, b, b);
    lemma_negated_quotient_falls(a * a, b * b, d);
}

/// The more a tempo changes, the less is left of its confidence; a change of less than a
/// beat per minute leaves all of it, and none leaves less than half.
pub proof fn lemma_greater_change_is_less_sure(small: F32, great: F32)
    requires
        small <= great,
    ensures
        change_penalty(great) <= change_penalty(small),
        in_unit(change_penalty(great)),
        ratio(5, 10) <= change_penalty(great),
        small < one() ==> change_penalty(small) == one(),
        one() <= small ==> change_penalty(small) < one(),
{
    lemma_zero_and_one();
    lemma_ratio_order(5, 10, 8, 10);
    lemma_ratio_in_unit(8, 10);
    lemma_ratio_in_unit(5, 10);
    crate::float_order::lemma_tenths(8);
    crate::float_order::lemma_tenths(5);
    vstd::arithmetic::power2::lemma_pow2_pos(149);
}

/// The stretches that a tempo is followed over are a quarter of the beats, of four to eight
/// seconds.
pub proof fn lemma_stretches_of_a_track(total: F32)
    requires
        !total.is_nan(),
    ensures
        ratio(4, 1) <= segment_duration(total),
        segment_duration(total) <= ratio(8, 1),
        ratio(4, 1) <= total / ratio(4, 1) && total / ratio(4, 1) <= ratio(8, 1)
            ==> segment_duration(total) == total / ratio(4, 1),
{
    lemma_whole(4);
    lemma_whole(8);
    lemma_zero_and_one();
    vstd::arithmetic::power2::lemma_pow2_pos(149);
    crate::float_order::lemma_quotient_is_number(total, ratio(4, 1));
}

} // verus!
