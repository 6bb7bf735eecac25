//! What holds of the key of every track.
use crate::config::AnalysisConfig;
use crate::error::Outcome;
use crate::features::key::detector::key_at;
use crate::features::key::segment_laws::Ballot;
use crate::features::key::segment_laws::lemma_most_voted_key_is_detected;
use crate::features::key::segment_laws::lemma_votes_add_up;
use crate::features::key::segments::no_segments;
use crate::features::key::templates::profiles_of;
use crate::float::F32;
use crate::float::clamp_unit;
use crate::float::one;
use crate::float::ratio;
use crate::float::zero;
use crate::float_laws::lemma_negated;
use crate::float_laws::lemma_nonnegative;
use crate::float_laws::lemma_ratio_above_zero;
use crate::float_laws::lemma_unit_is_finite;
use crate::float_laws::lemma_whole_and_no_part;
use crate::float_laws::lemma_zero_and_one;
use crate::float_order::lemma_no_subtraction;
use crate::float_order::lemma_products_keep_order;
use crate::rounding::lemma_mag_units_scaled;
use crate::rounding::lemma_rounded_exact;
use crate::rounding::mag_units;
use crate::sums::added;
use super::key::KeyMethod;
use super::key::entropy_of;
use super::key::key_method_of;
use super::key::limited_tuning;
use super::key::mode_options_of;
use super::key::products_of;
use super::key::tonalness_of;
use super::key::track_key_of;
use super::key::voting_hop;
use vstd::arithmetic::power2::lemma_pow2_pos;
use vstd::arithmetic::power2::pow2;
use vstd::prelude::*;

verus! {

/// The vote that the settings ask for: one segment every so many frames.
pub open spec fn ballot_of(chroma: Seq<Vec<F32>>, weights: Option<Seq<F32>>, config: AnalysisConfig) -> Ballot {
    Ballot {
        chroma,
        templates: profiles_of(config.key_template_set),
        weights,
        options: mode_options_of(&config),
        min_clarity: clamp_unit(config.key_segment_min_clarity),
        scale_weight: None,
        len: config.key_segment_len_frames as int,
        hop: if config.key_segment_hop_frames <= config.key_segment_len_frames {
            config.key_segment_hop_frames as int
        } else {
            config.key_segment_len_frames as int
        },
    }
}

/// The key of a track is put to a vote of its segments.
pub open spec fn is_put_to_vote(chroma: Seq<Vec<F32>>, config: AnalysisConfig) -> bool {
    &&& config.enable_key_segment_voting && !config.enable_key_ensemble
    &&& !config.enable_key_multi_scale
    &&& 120 <= config.key_segment_len_frames <= chroma.len()
    &&& config.key_segment_hop_frames >= 1
}

/// Where the key of a track is put to a vote of its segments and one of them is clear
/// enough to count, no other key has more votes than the key of the track: the votes of
/// all segments that count, added up.
pub proof fn lemma_track_has_the_most_voted_key(
    chroma: Seq<Vec<F32>>,
    weights: Option<Seq<F32>>,
    config: AnalysisConfig,
    k: usize,
) -> (best: usize)
    requires
        weights is Some ==> weights->Some_0.len() == chroma.len(),
        is_put_to_vote(chroma, config),
        exists|j: int|
            0 <= j < ballot_of(chroma, weights, config).count() && #[trigger] ballot_of(
                chroma,
                weights,
                config,
            ).counts(j),
        forall|i: usize|
            i < 24 ==> !added(
                zero(),
                #[trigger] ballot_of(chroma, weights, config).votes(
                    key_at(i),
                    ballot_of(chroma, weights, config).count(),
                ),
            ).is_nan(),
        k < 24,
    ensures
        best < 24,
        track_key_of(chroma, weights, config) matches Outcome::Value(found) ==> {
            let b = ballot_of(chroma, weights, config);
            &&& found.key == key_at(best)
            &&& added(zero(), b.votes(key_at(k), b.count())) <= added(
                zero(),
                b.votes(key_at(best), b.count()),
            )
        },
{
    let b = ballot_of(chroma, weights, config);
    assert(key_method_of(config, chroma.len()) == KeyMethod::Segments);
    assert(b.hop == voting_hop(&config));
    if b.tally(no_segments()).error is None {
        lemma_votes_add_up(b, no_segments(), 0);
        lemma_most_voted_key_is_detected(b, k)
    } else {
        0
    }
}

/// Where no segment is clear enough to count, a track has the key that it has without a
/// vote.
pub proof fn lemma_vote_without_voters(
    chroma: Seq<Vec<F32>>,
    weights: Option<Seq<F32>>,
    config: AnalysisConfig,
)
    requires
        weights is Some ==> weights->Some_0.len() == chroma.len(),
        is_put_to_vote(chroma, config),
        forall|j: int|
            0 <= j < ballot_of(chroma, weights, config).count() ==> !#[trigger] ballot_of(
                chroma,
                weights,
                config,
            ).counts(j),
        track_key_of(chroma, weights, config) is Value,
    ensures
        track_key_of(chroma, weights, config) == track_key_of(
            chroma,
            weights,
            AnalysisConfig { enable_key_segment_voting: false, ..config },
        ),
{
    let b = ballot_of(chroma, weights, config);
    let without = AnalysisConfig { enable_key_segment_voting: false, ..config };
    assert(key_method_of(config, chroma.len()) == KeyMethod::Segments);
    assert(key_method_of(without, chroma.len()) == KeyMethod::AllFrames);
    assert(mode_options_of(&config) == mode_options_of(&without));
    if b.tally(no_segments()).error is None {
        lemma_votes_add_up(b, no_segments(), 0);
    }
}

proof fn lemma_no_entropy(shares: Seq<F32>, logs: Seq<F32>, n: nat)
    requires
        n <= shares.len(),
        forall|i: int|
            0 <= i < n ==> (#[trigger] shares[i]) <= ratio(1, 1_000_000_000_000) || (logs[i] == zero()
                && zero() <= shares[i] && shares[i].is_finite()),
    ensures
        entropy_of(shares, logs, n) == zero(),
    decreases n,
{
    if n > 0 {
        lemma_no_entropy(shares, logs, (n - 1) as nat);
        let i = n - 1;
        if shares[i] > ratio(1, 1_000_000_000_000) {
            lemma_nothing_of(shares[i]);
        }
    }
}

/// Nothing of a number above zero, taken from zero, is zero.
proof fn lemma_nothing_of(x: F32)
    requires
        x > ratio(1, 1_000_000_000_000),
        x.is_finite(),
    ensures
        zero() - x * zero() == zero(),
{
    lemma_zero_and_one();
    lemma_ratio_above_zero(1, 1_000_000_000_000);
    lemma_nonnegative(x);
    let p = pow2(149) as int;
    lemma_pow2_pos(149);
    lemma_mag_units_scaled(0, 0);
    lemma_rounded_exact(0, p);
    let u = mag_units(x.mag());
    assert(u * 0 == 0 && 0 * p == 0) by (nonlinear_arith);
    assert(x * zero() == zero()) by {
        reveal(F32::spec_mul);
    }
    lemma_negated(zero());
    reveal(F32::spec_add);
}

/// Chroma of a single pitch class is as tonal as can be: all shares but that of the class,
/// whose logarithm is zero, are nothing.
pub proof fn lemma_single_class_is_tonal(shares: Seq<F32>, logs: Seq<F32>, log_of_twelve: F32)
    requires
        0 < shares.len() <= logs.len(),
        forall|i: int|
            0 <= i < shares.len() ==> (#[trigger] shares[i]) <= ratio(1, 1_000_000_000_000) || (logs[i]
                == zero() && zero() <= shares[i] && shares[i].is_finite()),
        zero() < log_of_twelve,
        log_of_twelve.is_finite(),
    ensures
        tonalness_of(shares, logs, log_of_twelve).same_number(one()),
{
    lemma_zero_and_one();
    lemma_no_entropy(shares, logs, shares.len());
    lemma_whole_and_no_part(log_of_twelve);
    lemma_unit_is_finite(one());
    lemma_no_subtraction(one(), zero());
}

/// Chroma whose entropy is that of an even spread is not tonal at all.
pub proof fn lemma_even_spread_is_not_tonal(shares: Seq<F32>, logs: Seq<F32>, log_of_twelve: F32)
    requires
        entropy_of(shares, logs, shares.len()) == log_of_twelve,
        zero() < log_of_twelve,
        log_of_twelve.is_finite(),
    ensures
        tonalness_of(shares, logs, log_of_twelve) == zero(),
{
    lemma_zero_and_one();
    lemma_whole_and_no_part(log_of_twelve);
    reveal(F32::spec_add);
    lemma_negated(one());
}

/// The weight of a frame does not fall as its tonalness or its energy rises.
pub proof fn lemma_stronger_frames_weigh_more(
    tonal: Seq<F32>,
    energy: Seq<F32>,
    i: int,
    j: int,
)
    requires
        0 <= i < tonal.len(),
        0 <= j < tonal.len(),
        zero() <= tonal[i] && tonal[i] <= tonal[j] && tonal[j].is_finite(),
        zero() <= energy[i] && energy[i] <= energy[j] && energy[j].is_finite(),
    ensures
        products_of(tonal, energy).len() == tonal.len(),
        zero() <= products_of(tonal, energy)[i],
        products_of(tonal, energy)[i] <= products_of(tonal, energy)[j],
{
    lemma_zero_and_one();
    lemma_products_keep_order(tonal[i], energy[i], tonal[j], energy[j]);
}

/// A tuning offset that is allowed stands, and one that is greater is taken as the
/// greatest that is, to its own side.
pub proof fn lemma_tuning_is_limited(offset: F32, config: &AnalysisConfig)
    requires
        !offset.is_nan(),
        config.key_tuning_max_abs_semitones.is_finite(),
    ensures
        ({
            let most = config.key_tuning_max_abs_semitones.abs();
            let r = limited_tuning(offset, config);
            &&& offset.abs() <= most ==> r.same_number(offset)
            &&& most < offset ==> r == most
            &&& offset < most.neg() ==> r == most.neg()
        }),
{
    let most = config.key_tuning_max_abs_semitones.abs();
    crate::float_laws::lemma_negated(most);
    reveal(F32::units);
    crate::rounding::lemma_mag_units_nonnegative(most.mag());
    crate::rounding::lemma_mag_units_nonnegative(offset.mag());
}

/// The segments that vote on a key leave no frames out between them: each starts no later
/// than the one before it ends.
pub proof fn lemma_voting_segments_meet(config: &AnalysisConfig)
    ensures
        voting_hop(config) <= config.key_segment_len_frames,
        config.key_segment_hop_frames <= config.key_segment_len_frames ==> voting_hop(config)
            == config.key_segment_hop_frames,
{
}

} // verus!
