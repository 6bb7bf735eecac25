//! What holds of every beat grid and of the tempo along it.
use crate::error::Outcome;
use crate::features::period::laws::in_range;
use crate::features::period::laws::lemma_tempos_in_range;
use crate::float::F32;
use crate::float::clamp_unit;
use crate::float::one;
use crate::float::ratio;
use crate::float::zero;
use crate::float_laws::in_unit;
use crate::float_laws::lemma_clamp_never_outside;
use crate::float_laws::lemma_complement_in_unit;
use crate::float_laws::lemma_inverse_never_outside;
use crate::float_laws::lemma_negated;
use crate::float_laws::lemma_negated_not_positive;
use crate::float_laws::lemma_nothing_left;
use crate::float_laws::lemma_one_times;
use crate::float_laws::lemma_product_above_zero;
use crate::float_laws::lemma_product_at_least;
use crate::float_laws::lemma_product_never_negative;
use crate::float_laws::lemma_quotient_never_negative;
use crate::float_laws::lemma_quotient_not_positive;
use crate::float_laws::lemma_ratio_above_zero;
use crate::float_laws::lemma_ratio_at_least;
use crate::float_laws::lemma_ratio_in_unit;
use crate::float_laws::lemma_ratio_is_finite;
use crate::float_laws::lemma_ratio_order;
use crate::float_laws::lemma_root_never_negative;
use crate::float_laws::lemma_square_never_negative;
use crate::float_laws::lemma_sum_not_positive;
use crate::float_laws::lemma_unit_is_finite;
use crate::float_laws::lemma_unit_product;
use crate::float_laws::lemma_zero_and_one;
use crate::float_laws::never_outside;
use crate::sorting::lemma_arranged_in_order;
use crate::sorting::lemma_sorted_order_lists_indices;
use crate::sorting::sum_of;
use crate::statistics::ascending;
use crate::statistics::lemma_ascending_forgets_order;
use crate::sorting::same_numbers;
use super::bayesian::BayesianBeatTracker;
use super::bayesian::beat_distance;
use super::bayesian::change_penalty;
use super::bayesian::log_probability;
use super::bayesian::log_sum;
use super::bayesian::most_probable;
use super::grid::BeatPosition;
use super::grid::beat_grid_of;
use super::grid::grid_error;
use super::grid::grid_of;
use super::grid::onsets_to_retrace;
use super::grid::stability_of;
use super::grid::times_of;
use super::tempo_variation::TempoSegment;
use super::tempo_variation::relative_deviation;
use super::tempo_variation::segment_at;
use super::tempo_variation::segment_duration;
use super::tempo_variation::segment_from;
use super::tempo_variation::segment_starts;
use super::tempo_variation::segments_at;
use super::tempo_variation::tempo_segments;
use super::tempo_variation::times_within;
use super::time_signature::TimeSignature;
use super::time_signature::intervals_of;
use super::time_signature::meter_of;
use super::time_signature::squared_distances;
use vstd::prelude::*;

verus! {

/// The stability of a beat grid is not outside the range from zero to one.
pub proof fn lemma_stability_never_outside(positions: Seq<BeatPosition>, bpm: F32)
    ensures
        stability_of(positions, bpm) matches Outcome::Value(stability) ==> never_outside(stability),
{
    lemma_zero_and_one();
    let s = intervals_of(times_of(positions), positions.len());
    let n = F32::from_usize(s.len() as usize);
    let mean = sum_of(s) / n;
    let deviation = (squared_distances(s, mean, s.len()) / n).sqrt();
    lemma_root_never_negative(squared_distances(s, mean, s.len()) / n);
    if mean.is_nan() {
        lemma_nan_quotient(deviation, mean);
        lemma_inverse_never_outside(deviation / mean);
    } else if !(mean <= ratio(1, 10_000_000_000)) {
        lemma_ratio_order(0, 1, 1, 10_000_000_000);
        lemma_quotient_never_negative(deviation, mean);
        lemma_inverse_never_outside(deviation / mean);
    }
}

proof fn lemma_nan_quotient(a: F32, b: F32)
    requires
        b.is_nan(),
    ensures
        (a / b).is_nan(),
{
    reveal(F32::spec_euclidean_or_real_div);
}

/// The confidence of a meter is not outside the range from zero to one.
pub proof fn lemma_meter_confidence_never_outside(beats: Seq<F32>, bpm: F32)
    ensures
        meter_of(beats, bpm) matches Outcome::Value((_, confidence)) ==> never_outside(confidence),
{
    lemma_zero_and_one();
    lemma_ratio_in_unit(5, 10);
    assert forall|x: F32| never_outside(#[trigger] clamp_unit(x)) by {
        lemma_clamp_never_outside(x);
    }
}

/// The confidence that the tempo is steady is from zero to one.
proof fn lemma_segment_confidence(start: F32, end: F32, mean: F32, cv: F32, nominal_bpm: F32)
    requires
        !(cv < zero()),
    ensures
        never_outside(segment_from(start, end, mean, cv, nominal_bpm).confidence),
{
    lemma_zero_and_one();
    lemma_ratio_above_zero(3, 10);
    lemma_quotient_never_negative(cv, ratio(3, 10));
    let y = (cv / ratio(3, 10)).min(one());
    assert(in_unit(y));
    lemma_complement_in_unit(y);
}

proof fn lemma_deviation_never_negative(s: Seq<F32>, mean: F32)
    ensures
        !(relative_deviation(s, mean) < zero()),
{
    lemma_zero_and_one();
    let root = (squared_distances(s, mean, s.len()) / F32::from_usize(s.len() as usize)).sqrt();
    lemma_root_never_negative(
        squared_distances(s, mean, s.len()) / F32::from_usize(s.len() as usize),
    );
    lemma_ratio_order(0, 1, 1, 10_000_000_000);
    if mean > ratio(1, 10_000_000_000) {
        lemma_quotient_never_negative(root, mean);
    }
}

proof fn lemma_segment_at(beats: Seq<F32>, start: F32, duration: F32, nominal_bpm: F32)
    ensures
        segment_at(beats, start, duration, nominal_bpm) matches Some(s) ==> {
            &&& s.start_time == start
            &&& !(beats.last() < s.end_time)
            &&& never_outside(s.confidence)
        },
{
    let end = (start + duration).min(beats.last());
    let inside = times_within(beats, start, end, beats.len());
    let s = intervals_of(inside, inside.len());
    let mean = sum_of(s) / F32::from_usize(s.len() as usize);
    lemma_deviation_never_negative(s, mean);
    lemma_segment_confidence(start, end, mean, relative_deviation(s, mean), nominal_bpm);
}

/// Stretches start between the first time and the last, each later than the one before.
pub proof fn lemma_segment_starts(start: F32, last: F32, step: F32, i: int)
    requires
        0 <= i < segment_starts(start, last, step).len(),
    ensures
        start <= segment_starts(start, last, step)[i],
        segment_starts(start, last, step)[i] < last,
        i > 0 ==> segment_starts(start, last, step)[i - 1] < segment_starts(start, last, step)[i],
    decreases i,
{
    if i > 0 {
        lemma_segment_starts(start + step, last, step, i - 1);
    }
}

/// A stretch of tempo: it starts at a beat or later and before the last beat, does
/// not end behind the last beat, and its confidence is from zero to one.
pub open spec fn is_stretch(s: TempoSegment, beats: Seq<F32>) -> bool {
    &&& beats[0] <= s.start_time && s.start_time < beats.last()
    &&& !(beats.last() < s.end_time)
    &&& never_outside(s.confidence)
}

proof fn lemma_segments_at(
    beats: Seq<F32>,
    starts: Seq<F32>,
    duration: F32,
    nominal_bpm: F32,
    n: nat,
)
    requires
        n <= starts.len(),
        forall|i: int|
            0 <= i < starts.len() ==> beats[0] <= (#[trigger] starts[i]) && starts[i]
                < beats.last(),
    ensures
        forall|i: int|
            0 <= i < segments_at(beats, starts, duration, nominal_bpm, n).len() ==> is_stretch(
                #[trigger] segments_at(beats, starts, duration, nominal_bpm, n)[i],
                beats,
            ),
    decreases n,
{
    if n > 0 {
        let before = segments_at(beats, starts, duration, nominal_bpm, (n - 1) as nat);
        let after = segments_at(beats, starts, duration, nominal_bpm, n);
        lemma_segments_at(beats, starts, duration, nominal_bpm, (n - 1) as nat);
        lemma_segment_at(beats, starts[n - 1], duration, nominal_bpm);
        assert forall|i: int| 0 <= i < after.len() implies is_stretch(#[trigger] after[i], beats) by {
            if i < before.len() {
                assert(after[i] == before[i]);
            }
        }
    }
}

/// Where tempo is told for stretches of a track, each is one within the beats.
pub proof fn lemma_tempo_segments_are_stretches(beats: Seq<F32>, nominal_bpm: F32)
    requires
        beats.len() >= 4,
        ratio(2, 1) <= beats.last() - beats[0],
    ensures
        tempo_segments(beats, nominal_bpm) matches Outcome::Value(s) ==> s.len() == 1 || forall|
            i: int,
        |
            0 <= i < s.len() ==> is_stretch(#[trigger] s[i], beats),
{
    let total = beats.last() - beats[0];
    let duration = segment_duration(total);
    let step = duration - duration * ratio(5, 10);
    let starts = segment_starts(beats[0], beats.last(), step);
    assert forall|i: int| 0 <= i < starts.len() implies beats[0] <= (#[trigger] starts[i])
        && starts[i] < beats.last() by {
        lemma_segment_starts(beats[0], beats.last(), step, i);
    }
    lemma_segments_at(beats, starts, duration, nominal_bpm, starts.len());
}

proof fn lemma_most_probable_from(
    current: F32,
    bpms: Seq<F32>,
    likelihoods: Seq<F32>,
    priors: Seq<F32>,
    n: nat,
) -> (k: int)
    ensures
        ({
            let best = most_probable(current, bpms, likelihoods, priors, n);
            ||| best.bpm == current && best.likelihood == zero()
            ||| 0 <= k < n && best.bpm == bpms[k] && best.likelihood == likelihoods[k]
                && best.posterior == likelihoods[k] * priors[k]
        }),
    decreases n,
{
    if n == 0 {
        0
    } else {
        let k = lemma_most_probable_from(current, bpms, likelihoods, priors, (n - 1) as nat);
        let before = most_probable(current, bpms, likelihoods, priors, (n - 1) as nat);
        if likelihoods[n - 1] * priors[n - 1] > before.posterior {
            n - 1
        } else {
            k
        }
    }
}

/// A tempo is revised by five BPM at most, and only to one from 60 to 180.
pub proof fn lemma_revised_tempo_is_near(
    tracker: BayesianBeatTracker,
    likelihoods: Seq<F32>,
    priors: Seq<F32>,
)
    requires
        likelihoods.len() == tracker.bpm_candidates().len(),
    ensures
        ({
            let revised = most_probable(
                tracker.current_bpm,
                tracker.bpm_candidates(),
                likelihoods,
                priors,
                likelihoods.len(),
            ).bpm;
            revised == tracker.current_bpm || in_range(
                revised,
                (tracker.current_bpm - ratio(5, 1)).max(ratio(60, 1)),
                (tracker.current_bpm + ratio(5, 1)).min(ratio(180, 1)),
            )
        }),
{
    let low = (tracker.current_bpm - ratio(5, 1)).max(ratio(60, 1));
    let high = (tracker.current_bpm + ratio(5, 1)).min(ratio(180, 1));
    let k = lemma_most_probable_from(
        tracker.current_bpm,
        tracker.bpm_candidates(),
        likelihoods,
        priors,
        likelihoods.len(),
    );
    if 0 <= k < likelihoods.len() {
        lemma_tempos_in_range(low, high, ratio(5, 10), k);
    }
}

/// No tempo has a greater product of likelihood and prior than the revised one.
pub proof fn lemma_revised_tempo_is_most_probable(
    current: F32,
    bpms: Seq<F32>,
    likelihoods: Seq<F32>,
    priors: Seq<F32>,
    n: nat,
    i: int,
)
    requires
        0 <= i < n,
    ensures
        zero() <= most_probable(current, bpms, likelihoods, priors, n).posterior,
        !(most_probable(current, bpms, likelihoods, priors, n).posterior < likelihoods[i]
            * priors[i]),
    decreases n,
{
    lemma_zero_and_one();
    if n > 1 {
        lemma_revised_tempo_is_most_probable(
            current,
            bpms,
            likelihoods,
            priors,
            (n - 1) as nat,
            if i < n - 1 {
                i
            } else {
                0
            },
        );
    }
    assert(n == 1 ==> most_probable(current, bpms, likelihoods, priors, 0).posterior == zero());
}

/// Where the onsets are as likely under every tempo, the prior decides: the tempo
/// whose prior is above all others is the revised one.
pub proof fn lemma_even_evidence_leaves_the_prior(
    current: F32,
    bpms: Seq<F32>,
    likelihoods: Seq<F32>,
    priors: Seq<F32>,
    k: int,
)
    requires
        0 <= k < likelihoods.len(),
        forall|i: int| 0 <= i < likelihoods.len() ==> #[trigger] likelihoods[i] == one(),
        priors.len() == likelihoods.len(),
        forall|i: int| 0 <= i < priors.len() ==> in_unit(#[trigger] priors[i]),
        forall|i: int| 0 <= i < priors.len() && i != k ==> #[trigger] priors[i] < priors[k],
        zero() < priors[k],
    ensures
        most_probable(current, bpms, likelihoods, priors, likelihoods.len()).bpm == bpms[k],
{
    let n = likelihoods.len();
    let best = most_probable(current, bpms, likelihoods, priors, n);
    lemma_zero_and_one();
    lemma_revised_tempo_is_most_probable(current, bpms, likelihoods, priors, n, k);
    lemma_unit_is_finite(priors[k]);
    lemma_one_times(priors[k]);
    assert(likelihoods[k] == one());
    let m = lemma_most_probable_from(current, bpms, likelihoods, priors, n);
    lemma_nothing_chosen(current, bpms, likelihoods, priors, n);
    if best.likelihood != zero() && m != k {
        assert(likelihoods[m] == one());
        assert(priors[m] < priors[k]);
        lemma_unit_is_finite(priors[m]);
        lemma_one_times(priors[m]);
    }
}

/// Where no likelihood was taken, nothing was found probable.
proof fn lemma_nothing_chosen(
    current: F32,
    bpms: Seq<F32>,
    likelihoods: Seq<F32>,
    priors: Seq<F32>,
    n: nat,
)
    requires
        n <= likelihoods.len(),
        forall|i: int| 0 <= i < likelihoods.len() ==> #[trigger] likelihoods[i] == one(),
    ensures
        ({
            let best = most_probable(current, bpms, likelihoods, priors, n);
            best.likelihood != one() ==> best.posterior == zero()
        }),
    decreases n,
{
    if n > 0 {
        lemma_nothing_chosen(current, bpms, likelihoods, priors, (n - 1) as nat);
        assert(likelihoods[n - 1] == one());
    }
}

/// The confidence of a tracker is not outside the range from zero to one, neither
/// at first nor after a revision by likelihoods that are not below zero.
pub proof fn lemma_tracker_confidence_never_outside(
    initial: F32,
    current: F32,
    bpms: Seq<F32>,
    likelihoods: Seq<F32>,
    priors: Seq<F32>,
)
    requires
        forall|i: int| 0 <= i < likelihoods.len() ==> !(#[trigger] likelihoods[i] < zero()),
    ensures
        never_outside(clamp_unit(initial)),
        ({
            let best = most_probable(current, bpms, likelihoods, priors, likelihoods.len());
            never_outside((best.likelihood * change_penalty((best.bpm - current).abs())).min(one()))
        }),
{
    let best = most_probable(current, bpms, likelihoods, priors, likelihoods.len());
    lemma_zero_and_one();
    lemma_clamp_never_outside(initial);
    let k = lemma_most_probable_from(current, bpms, likelihoods, priors, likelihoods.len());
    lemma_ratio_order(0, 1, 8, 10);
    lemma_ratio_order(0, 1, 5, 10);
    lemma_product_never_negative(best.likelihood, change_penalty((best.bpm - current).abs()));
}

proof fn lemma_segment_confidences(
    beats: Seq<F32>,
    starts: Seq<F32>,
    duration: F32,
    nominal_bpm: F32,
    n: nat,
)
    ensures
        forall|i: int|
            0 <= i < segments_at(beats, starts, duration, nominal_bpm, n).len() ==> never_outside(
                (#[trigger] segments_at(beats, starts, duration, nominal_bpm, n)[i]).confidence,
            ),
    decreases n,
{
    if n > 0 {
        let before = segments_at(beats, starts, duration, nominal_bpm, (n - 1) as nat);
        let after = segments_at(beats, starts, duration, nominal_bpm, n);
        lemma_segment_confidences(beats, starts, duration, nominal_bpm, (n - 1) as nat);
        lemma_segment_at(beats, starts[n - 1], duration, nominal_bpm);
        assert forall|i: int| 0 <= i < after.len() implies never_outside(
            (#[trigger] after[i]).confidence,
        ) by {
            if i < before.len() {
                assert(after[i] == before[i]);
            }
        }
    }
}

/// The confidence of every stretch of tempo is not outside the range from zero to one.
pub proof fn lemma_tempo_confidences_never_outside(beats: Seq<F32>, nominal_bpm: F32)
    ensures
        tempo_segments(beats, nominal_bpm) matches Outcome::Value(s) ==> forall|i: int|
            0 <= i < s.len() ==> never_outside((#[trigger] s[i]).confidence),
{
    let duration = segment_duration(beats.last() - beats[0]);
    let starts = segment_starts(
        beats[0],
        beats.last(),
        duration - duration * ratio(5, 10),
    );
    lemma_zero_and_one();
    lemma_ratio_in_unit(5, 10);
    lemma_ratio_in_unit(8, 10);
    lemma_segment_confidences(beats, starts, duration, nominal_bpm, starts.len());
}

/// The beats of a grid are in order, and its bars start at its downbeats.
pub proof fn lemma_grid_is_in_order(positions: Seq<BeatPosition>, bpm: F32, meter: TimeSignature)
    requires
        positions.len() <= usize::MAX,
        forall|i: int| 0 <= i < positions.len() ==> !(#[trigger] positions[i]).time_seconds.is_nan(),
    ensures
        grid_of(positions, bpm, meter) matches Outcome::Value(grid) ==> {
            &&& grid.beats.len() == positions.len()
            &&& forall|i: int, j: int|
                0 <= i < j < grid.beats.len() ==> (#[trigger] grid.beats[i]) <= (
                #[trigger] grid.beats[j])
            &&& grid.bars == grid.downbeats
        },
{
    let times = times_of(positions);
    let beats = ascending(times);
    lemma_sorted_order_lists_indices(times, false, times.len());
    assert forall|i: int| 0 <= i < times.len() implies !(#[trigger] times[i]).is_nan() by {
        assert(times[i] == positions[i].time_seconds);
    }
    assert forall|i: int, j: int| 0 <= i < j < beats.len() implies (#[trigger] beats[i]) <= (
    #[trigger] beats[j]) by {
        let (a, b) = lemma_arranged_in_order(times, times, false, i, j);
    }
}

proof fn lemma_spread_above_zero()
    ensures
        zero() < ratio(2, 1) * (ratio(5, 100) * ratio(5, 100)),
{
    lemma_zero_and_one();
    vstd::arithmetic::power2::lemma2_to64();
    lemma_ratio_at_least(5, 100, 5);
    lemma_ratio_at_least(2, 1, 0);
    lemma_ratio_in_unit(5, 100);
    lemma_unit_is_finite(ratio(5, 100));
    lemma_unit_product(ratio(5, 100), ratio(5, 100));
    lemma_unit_is_finite(ratio(5, 100) * ratio(5, 100));
    lemma_product_at_least(ratio(5, 100), ratio(5, 100), 144, 144);
    lemma_ratio_is_finite(2, 1);
    lemma_product_at_least(ratio(2, 1), ratio(5, 100) * ratio(5, 100), 149, 139);
    vstd::arithmetic::power2::lemma_pow2_pos(139);
}

proof fn lemma_log_probability_not_positive(distance: F32)
    ensures
        !(zero() < log_probability(distance)),
{
    lemma_zero_and_one();
    lemma_square_never_negative(distance);
    lemma_negated_not_positive(distance * distance);
    let spread = ratio(2, 1) * (ratio(5, 100) * ratio(5, 100));
    lemma_spread_above_zero();
    lemma_quotient_not_positive((distance * distance).neg(), spread);
}

proof fn lemma_log_sum_not_positive(onsets: Seq<F32>, interval: F32, n: nat)
    ensures
        !(zero() < log_sum(onsets, interval, n)),
    decreases n,
{
    lemma_zero_and_one();
    if n > 0 {
        let d = beat_distance(onsets[n - 1], onsets[0], interval);
        lemma_log_sum_not_positive(onsets, interval, (n - 1) as nat);
        lemma_log_probability_not_positive(d);
        lemma_sum_not_positive(
            log_sum(onsets, interval, (n - 1) as nat),
            log_probability(d),
        );
    }
}

/// The exponent of a likelihood is not above zero, so that no likelihood is above one.
pub proof fn lemma_likelihood_exponent_not_positive(onsets: Seq<F32>, bpm: F32)
    ensures
        !(zero() < log_sum(onsets, ratio(60, 1) / bpm, onsets.len())),
{
    lemma_log_sum_not_positive(onsets, ratio(60, 1) / bpm, onsets.len());
}

proof fn lemma_prior_spread_above_zero()
    ensures
        zero() < ratio(2, 1) * (ratio(2, 1) * ratio(2, 1)),
{
    lemma_zero_and_one();
    vstd::arithmetic::power2::lemma2_to64();
    lemma_ratio_at_least(2, 1, 0);
    lemma_ratio_is_finite(2, 1);
    lemma_product_at_least(ratio(2, 1), ratio(2, 1), 149, 149);
    vstd::arithmetic::power2::lemma_pow2_pos(149);
    lemma_product_above_zero(ratio(2, 1), ratio(2, 1) * ratio(2, 1), 149, 149);
}

/// Before any evidence no tempo is likelier than the current one.
pub proof fn lemma_current_tempo_is_likeliest(tracker: BayesianBeatTracker, bpm: F32)
    requires
        tracker.current_bpm.is_finite(),
    ensures
        !(zero() < tracker.prior_exponent(bpm)),
        !(tracker.prior_exponent(tracker.current_bpm) < tracker.prior_exponent(bpm)),
{
    let d = (bpm - tracker.current_bpm).abs();
    let own = (tracker.current_bpm - tracker.current_bpm).abs();
    let spread = ratio(2, 1) * (ratio(2, 1) * ratio(2, 1));
    lemma_zero_and_one();
    lemma_prior_spread_above_zero();
    lemma_square_never_negative(d);
    lemma_negated_not_positive(d * d);
    lemma_quotient_not_positive((d * d).neg(), spread);
    lemma_nothing_left(tracker.current_bpm, spread);
    lemma_negated(zero());
}

/// Times that are the same numbers have the same numbers within a stretch.
proof fn lemma_times_within_forget_signs(a: Seq<F32>, b: Seq<F32>, start: F32, end: F32, n: nat)
    requires
        same_numbers(a, b),
        n <= a.len(),
    ensures
        same_numbers(times_within(a, start, end, n), times_within(b, start, end, n)),
    decreases n,
{
    if n > 0 {
        lemma_times_within_forget_signs(a, b, start, end, (n - 1) as nat);
        assert(a[n - 1].same_number(b[n - 1]));
    }
}

/// The order in which onsets are given does not matter: the tracker is handed the
/// same numbers in the same order, for the whole track and for every stretch, and its
/// beats come to the same grid.
pub proof fn lemma_grid_forgets_order_of_onsets(
    bpm: F32,
    onsets: Seq<F32>,
    others: Seq<F32>,
    segment: TempoSegment,
    positions: Seq<BeatPosition>,
    retraced: Seq<Option<Vec<BeatPosition>>>,
)
    requires
        onsets.len() <= usize::MAX,
        onsets.to_multiset() == others.to_multiset(),
        forall|i: int| 0 <= i < onsets.len() ==> !(#[trigger] onsets[i]).is_nan(),
    ensures
        grid_error(bpm, onsets.len()) == grid_error(bpm, others.len()),
        same_numbers(ascending(onsets), ascending(others)),
        match onsets_to_retrace(ascending(onsets), segment) {
            Some(within) => onsets_to_retrace(ascending(others), segment) matches Some(others_within)
                && same_numbers(within, others_within),
            None => onsets_to_retrace(ascending(others), segment) is None,
        },
        beat_grid_of(bpm, onsets.len(), positions, retraced) == beat_grid_of(
            bpm,
            others.len(),
            positions,
            retraced,
        ),
{
    lemma_ascending_forgets_order(onsets, others);
    lemma_times_within_forget_signs(
        ascending(onsets),
        ascending(others),
        segment.start_time,
        segment.end_time,
        ascending(onsets).len(),
    );
}

} // verus!
