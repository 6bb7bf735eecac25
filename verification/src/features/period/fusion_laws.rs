//! What holds of every tempo that the candidates of several resolutions are fused to.
use crate::error::Outcome;
use crate::features::beat_tracking::meter_laws::mean_of;
use crate::features::key::score_laws::lemma_lead_by_distance;
use crate::float::F32;
use crate::float::one;
use crate::float::ratio;
use crate::float::zero;
use crate::float_laws::in_unit;
use crate::float_laws::lemma_complement_in_unit;
use crate::float_laws::lemma_from_pattern;
use crate::float_laws::lemma_half;
use crate::float_laws::lemma_negated;
use crate::float_laws::lemma_nonnegative;
use crate::float_laws::lemma_part_of_whole;
use crate::float_laws::lemma_product_error;
use crate::float_laws::lemma_ratio_above_zero;
use crate::float_laws::lemma_ratio_in_unit;
use crate::float_laws::lemma_ratio_is_finite;
use crate::float_laws::lemma_ratio_order;
use crate::float_laws::lemma_scaled_down;
use crate::float_laws::lemma_sum_grows;
use crate::float_laws::lemma_unit_is_finite;
use crate::float_laws::lemma_zero_and_one;
use crate::float_laws::lemma_zero_plus;
use crate::float_order::lemma_above_one;
use crate::float_order::lemma_difference;
use crate::float_order::lemma_finite_below;
use crate::float_order::lemma_no_distance;
use crate::float_order::lemma_plus_zero;
use crate::float_order::lemma_product_commutes;
use crate::float_order::lemma_products_keep_order;
use crate::float_order::lemma_sums_keep_order;
use crate::float_order::lemma_unit_within;
use crate::float_order::lemma_whole;
use crate::float_sizes::lemma_product_within;
use crate::float_sizes::lemma_ratio_within;
use crate::float_sizes::lemma_sum_within;
use crate::float_sizes::lemma_within_more;
use crate::float_sizes::within;
use crate::rounding::INF_BITS;
use crate::rounding::lemma_mag_units_increases;
use crate::sorting::lemma_arranged_from;
use crate::sorting::lemma_sorted_order_finds;
use crate::sorting::lemma_sorted_order_is_stable;
use crate::sorting::lemma_sorted_order_lists_indices;
use crate::sorting::sorted_order;
use super::laws::lemma_best_of_family;
use super::laws::lemma_distinct_from;
use super::multi_resolution::FusionOptions;
use super::multi_resolution::HopScores;
use super::multi_resolution::Tables;
use super::multi_resolution::best_of_family;
use super::multi_resolution::consensus_of;
use super::multi_resolution::crossed_score;
use super::multi_resolution::distinct;
use super::multi_resolution::distinct_hypotheses;
use super::multi_resolution::family;
use super::multi_resolution::folded_down;
use super::multi_resolution::folded_up;
use super::multi_resolution::fused_confidence;
use super::multi_resolution::fused_tempo;
use super::multi_resolution::fusion;
use super::multi_resolution::greatest_support;
use super::multi_resolution::guarded;
use super::multi_resolution::hop_agreement;
use super::multi_resolution::hypotheses;
use super::multi_resolution::hypothesis;
use super::multi_resolution::most_confident;
use super::multi_resolution::near_any;
use super::multi_resolution::readings;
use super::multi_resolution::scores_at;
use super::multi_resolution::straight_score;
use super::multi_resolution::structurally_discounted;
use super::multi_resolution::support_ratio;
use super::multi_resolution::table_of;
use super::multi_resolution::tempos_of;
use super::multi_resolution::with_reading;
use super::multi_resolution::with_tempo_prior;
use super::tempo_table::by_strength;
use super::tempo_table::strengths;
use super::tempogram::TempogramCandidateDebug;
use super::tempogram::nearest_entry;
use super::tempogram::strength_near;
use super::types::BpmEstimate;
use vstd::arithmetic::power2::lemma2_to64;
use vstd::arithmetic::power2::lemma_pow2_adds;
use vstd::arithmetic::power2::lemma_pow2_pos;
use vstd::arithmetic::power2::lemma_pow2_unfold;
use vstd::arithmetic::power2::pow2;
use vstd::prelude::*;

verus! {

/// A candidate is within a tolerance of a tempo.
pub open spec fn has_candidate_near(c: Seq<TempogramCandidateDebug>, bpm: F32, tolerance: F32) -> bool {
    exists|i: int| 0 <= i < c.len() && ((#[trigger] c[i]).bpm - bpm).abs() <= tolerance
}

/// A candidate with a score above zero is within a tolerance of a tempo.
pub open spec fn is_backed(c: Seq<TempogramCandidateDebug>, bpm: F32, tolerance: F32) -> bool {
    exists|i: int|
        0 <= i < c.len() && ((#[trigger] c[i]).bpm - bpm).abs() <= tolerance && c[i].score > zero()
}

/// The scores of candidates are from zero to a million.
pub open spec fn are_scored(c: Seq<TempogramCandidateDebug>) -> bool {
    forall|i: int|
        0 <= i < c.len() ==> zero() <= (#[trigger] c[i]).score && c[i].score <= ratio(1_000_000, 1)
}

/// The weights of a fusion and the part of a tempo that counts for its double are from
/// zero to one, and a candidate supports its own tempo.
pub open spec fn are_sound(o: FusionOptions) -> bool {
    &&& in_unit(o.w256)
    &&& in_unit(o.w512)
    &&& in_unit(o.w1024)
    &&& in_unit(o.double_time_512_factor)
    &&& zero() <= o.tolerance
}

/// Candidates are in the range of a fusion.
pub open spec fn are_in_range(c: Seq<TempogramCandidateDebug>, o: FusionOptions) -> bool {
    forall|i: int|
        0 <= i < c.len() ==> o.min_bpm <= (#[trigger] c[i]).bpm && c[i].bpm <= o.max_bpm
}

proof fn lemma_nearest(table: Seq<(F32, F32)>, bpm: F32, tolerance: F32, n: nat)
    requires
        n <= table.len(),
    ensures
        match nearest_entry(table, bpm, tolerance, n) {
            Some(p) => 0 <= p < n && (table[p].0 - bpm).abs() <= tolerance,
            None => forall|i: int|
                0 <= i < n ==> !(((#[trigger] table[i]).0 - bpm).abs() <= tolerance && (table[i].0
                    - bpm).abs().is_finite()),
        },
    decreases n,
{
    if n > 0 {
        lemma_nearest(table, bpm, tolerance, (n - 1) as nat);
    }
}

proof fn lemma_strength(c: Seq<TempogramCandidateDebug>, bpm: F32, tolerance: F32)
    ensures
        ({
            let s = strength_near(table_of(c), bpm, tolerance);
            &&& !has_candidate_near(c, bpm, tolerance) ==> s == zero()
            &&& s > zero() ==> is_backed(c, bpm, tolerance)
            &&& are_scored(c) ==> zero() <= s && s <= ratio(1_000_000, 1)
        }),
{
    let t = table_of(c);
    lemma_nearest(t, bpm, tolerance, t.len());
    lemma_zero_and_one();
    lemma_ratio_above_zero(1_000_000, 1);
    if let Some(p) = nearest_entry(t, bpm, tolerance, t.len()) {
        assert((c[p].bpm - bpm).abs() <= tolerance);
        assert(t[p].1 == c[p].score);
    }
}

/// Scores that can be computed with.
spec fn are_small(s: HopScores) -> bool {
    &&& zero() <= s.s256 && within(s.s256, 169)
    &&& zero() <= s.s512 && within(s.s512, 169)
    &&& zero() <= s.s1024 && within(s.s1024, 169)
}

proof fn lemma_small_scores(
    c256: Seq<TempogramCandidateDebug>,
    c512: Seq<TempogramCandidateDebug>,
    c1024: Seq<TempogramCandidateDebug>,
    bpm: F32,
    tolerance: F32,
)
    requires
        are_scored(c256),
        are_scored(c512),
        are_scored(c1024),
    ensures
        ({
            let t = Tables { t256: table_of(c256), t512: table_of(c512), t1024: table_of(c1024) };
            are_small(scores_at(t, bpm, tolerance))
        }),
{
    lemma_strength(c256, bpm, tolerance);
    lemma_strength(c512, bpm, tolerance);
    lemma_strength(c1024, bpm, tolerance);
    lemma_small(strength_near(table_of(c256), bpm, tolerance));
    lemma_small(strength_near(table_of(c512), bpm, tolerance));
    lemma_small(strength_near(table_of(c1024), bpm, tolerance));
}

proof fn lemma_small(x: F32)
    requires
        zero() <= x,
        x <= ratio(1_000_000, 1),
    ensures
        within(x, 169),
{
    lemma2_to64();
    lemma_ratio_within(1_000_000, 1, 20);
    lemma_ratio_above_zero(1_000_000, 1);
    lemma_zero_and_one();
    lemma_finite_below(x, ratio(1_000_000, 1));
    lemma_nonnegative(x);
    lemma_nonnegative(ratio(1_000_000, 1));
}

proof fn lemma_straight(o: FusionOptions, s: HopScores)
    requires
        are_sound(o),
        are_small(s),
    ensures
        zero() <= straight_score(o, s),
        straight_score(o, s).is_finite(),
{
    lemma_zero_and_one();
    lemma_part(o.w512, s.s512, 169);
    lemma_part(o.w256, s.s256, 169);
    lemma_part(o.w1024, s.s1024, 169);
    lemma_sum_within(o.w512 * s.s512, o.w256 * s.s256, 169);
    lemma_sum_grows(o.w512 * s.s512, o.w256 * s.s256);
    lemma_within_more(o.w1024 * s.s1024, 169, 170);
    lemma_sum_within(o.w512 * s.s512 + o.w256 * s.s256, o.w1024 * s.s1024, 170);
    lemma_sum_grows(o.w512 * s.s512 + o.w256 * s.s256, o.w1024 * s.s1024);
}

/// A part of a number is within the same bound.
proof fn lemma_part(w: F32, s: F32, k: nat)
    requires
        in_unit(w),
        zero() <= s,
        within(s, k),
        23 <= k <= 276,
    ensures
        zero() <= w * s,
        w * s <= s,
        within(w * s, k),
{
    lemma_unit_is_finite(w);
    lemma_unit_within(w);
    lemma_product_within(w, s, 149, k, k);
    lemma_scaled_down(s, w);
    lemma_product_commutes(w, s);
}

proof fn lemma_crossed(o: FusionOptions, own: HopScores, x: HopScores)
    requires
        are_sound(o),
        are_small(own),
        are_small(x),
    ensures
        zero() <= crossed_score(o, own, x),
        crossed_score(o, own, x).is_finite(),
{
    lemma_zero_and_one();
    let f = o.double_time_512_factor;
    lemma_complement_in_unit(f);
    lemma_part(f, own.s512, 169);
    lemma_part(one() - f, x.s512, 169);
    let inner = f * own.s512 + (one() - f) * x.s512;
    lemma_sum_within(f * own.s512, (one() - f) * x.s512, 169);
    lemma_sum_grows(f * own.s512, (one() - f) * x.s512);
    lemma_part(o.w512, inner, 170);
    lemma_part(o.w256, x.s256, 169);
    lemma_part(o.w1024, x.s1024, 169);
    lemma_within_more(o.w256 * x.s256, 169, 170);
    lemma_within_more(o.w1024 * x.s1024, 169, 171);
    lemma_sum_within(o.w512 * inner, o.w256 * x.s256, 170);
    lemma_sum_grows(o.w512 * inner, o.w256 * x.s256);
    lemma_sum_within(o.w512 * inner + o.w256 * x.s256, o.w1024 * x.s1024, 171);
    lemma_sum_grows(o.w512 * inner + o.w256 * x.s256, o.w1024 * x.s1024);
}

/// Without a score of its own, a double or a half scores no more than the tempo.
proof fn lemma_crossed_without_support(o: FusionOptions, own: HopScores)
    requires
        are_sound(o),
        are_small(own),
    ensures
        crossed_score(o, own, HopScores { s256: zero(), s512: zero(), s1024: zero() })
            <= straight_score(o, own),
{
    lemma_zero_and_one();
    let f = o.double_time_512_factor;
    lemma_complement_in_unit(f);
    lemma_unit_is_finite(f);
    lemma_part(f, own.s512, 169);
    lemma_scaled_down(zero(), one() - f);
    lemma_product_commutes(zero(), one() - f);
    let inner = f * own.s512 + (one() - f) * zero();
    lemma_sums_keep_order(f * own.s512, (one() - f) * zero(), own.s512, zero());
    lemma_plus_zero(own.s512);
    assert(inner <= own.s512);
    lemma_unit_is_finite(o.w512);
    lemma_unit_is_finite(o.w256);
    lemma_unit_is_finite(o.w1024);
    lemma_products_keep_order(o.w512, inner, o.w512, own.s512);
    lemma_products_keep_order(o.w256, zero(), o.w256, own.s256);
    lemma_products_keep_order(o.w1024, zero(), o.w1024, own.s1024);
    lemma_sums_keep_order(
        o.w512 * inner,
        o.w256 * zero(),
        o.w512 * own.s512,
        o.w256 * own.s256,
    );
    lemma_sums_keep_order(
        o.w512 * inner + o.w256 * zero(),
        o.w1024 * zero(),
        o.w512 * own.s512 + o.w256 * own.s256,
        o.w1024 * own.s1024,
    );
}

proof fn lemma_factors()
    ensures
        in_unit(ratio(90, 100)),
        in_unit(ratio(75, 100)),
        in_unit(ratio(80, 100)),
        in_unit(ratio(92, 100)),
        ratio(75, 100) <= ratio(80, 100),
        ratio(80, 100) <= ratio(90, 100),
        ratio(80, 100) <= ratio(92, 100),
        ratio(75, 100).is_finite(),
        ratio(80, 100).is_finite(),
        ratio(90, 100).is_finite(),
        ratio(92, 100).is_finite(),
{
    lemma_ratio_in_unit(90, 100);
    lemma_ratio_in_unit(75, 100);
    lemma_ratio_in_unit(80, 100);
    lemma_ratio_in_unit(92, 100);
    lemma_ratio_order(75, 100, 80, 100);
    lemma_ratio_order(80, 100, 90, 100);
    lemma_ratio_order(80, 100, 92, 100);
    lemma_ratio_is_finite(75, 100);
    lemma_ratio_is_finite(80, 100);
    lemma_ratio_is_finite(90, 100);
    lemma_ratio_is_finite(92, 100);
}

/// What discounts leave of a score is from zero to the score.
proof fn lemma_discounted(score: F32, a: F32, b: F32, c: F32, d: F32, bpm: F32)
    requires
        zero() <= score,
        score.is_finite(),
    ensures
        ({
            let x = with_tempo_prior(guarded(structurally_discounted(score, a, b), c, d), bpm);
            zero() <= x && x <= score && x.is_finite()
        }),
{
    lemma_zero_and_one();
    lemma_factors();
    lemma_scaled_down(score, ratio(90, 100));
    let s = structurally_discounted(score, a, b);
    lemma_scaled_down(s, ratio(75, 100));
    lemma_scaled_down(s * ratio(75, 100), ratio(75, 100));
    let g = guarded(s, c, d);
    lemma_scaled_down(g, ratio(80, 100));
    lemma_scaled_down(g, ratio(90, 100));
    lemma_scaled_down(g, ratio(92, 100));
}

/// Without support at the guarding hop size, a score loses a quarter at least.
proof fn lemma_guarded_without_support(score: F32, a: F32, b: F32, own: F32, bpm: F32)
    requires
        zero() <= score,
        score.is_finite(),
        zero() <= own,
        within(own, 169),
    ensures
        with_tempo_prior(guarded(structurally_discounted(score, a, b), own, zero()), bpm) <= score
            * ratio(75, 100),
{
    lemma_zero_and_one();
    lemma_factors();
    let e = ratio(1, 1_000_000);
    lemma_ratio_above_zero(1, 1_000_000);
    lemma_ratio_in_unit(1, 1_000_000);
    lemma_unit_is_finite(e);
    lemma_unit_within(e);
    lemma_within_more(e, 149, 169);
    lemma_sum_within(own, e, 169);
    lemma_sum_grows(own, e);
    lemma_zero_plus(e);
    lemma_part_of_whole(zero() + e, own + e);
    lemma_ratio_order(1, 1, 110, 100);
    let r = support_ratio(own, zero());
    assert(r <= one());
    assert(one() < ratio(110, 100)) by {
        lemma_above_one();
    }
    lemma_scaled_down(score, ratio(90, 100));
    let s = structurally_discounted(score, a, b);
    lemma_products_keep_order(s, ratio(75, 100), score, ratio(75, 100));
    lemma_scaled_down(s, ratio(75, 100));
    lemma_scaled_down(s * ratio(75, 100), ratio(75, 100));
    let g = guarded(s, own, zero());
    lemma_scaled_down(g, ratio(80, 100));
    lemma_scaled_down(g, ratio(90, 100));
    lemma_scaled_down(g, ratio(92, 100));
}

proof fn lemma_own_reading(score: F32, bpm: F32)
    requires
        zero() <= score,
        score.is_finite(),
    ensures
        score * ratio(80, 100) <= with_tempo_prior(score, bpm),
        with_tempo_prior(score, bpm).is_finite(),
{
    lemma_factors();
    lemma_scaled_down(score, ratio(80, 100));
    lemma_scaled_down(score, ratio(90, 100));
    lemma_scaled_down(score, ratio(92, 100));
    lemma_products_keep_order(score, ratio(80, 100), score, ratio(90, 100));
    lemma_products_keep_order(score, ratio(80, 100), score, ratio(92, 100));
    lemma_products_keep_order(score, ratio(80, 100), score, ratio(80, 100));
}

/// The strongest entry of a table is the first one or stronger than it.
proof fn lemma_strongest(table: Seq<(F32, F32)>) -> (k: int)
    requires
        0 < table.len() <= usize::MAX,
        forall|i: int| 0 <= i < table.len() ==> !(#[trigger] table[i]).1.is_nan(),
    ensures
        0 <= k < table.len(),
        by_strength(table)[0] == table[k],
        k == 0 || table[0].1 < table[k].1,
{
    let keys = strengths(table);
    let order = sorted_order(keys, true, table.len());
    lemma_sorted_order_lists_indices(keys, true, table.len());
    lemma_sorted_order_is_stable(keys, true, table.len());
    let j = lemma_sorted_order_finds(keys, true, table.len(), 0);
    let k = order[0] as int;
    if j > 0 {
        assert(order[j] == 0);
    }
    k
}

/// A tempo has a candidate near it at one of the hop sizes.
pub open spec fn is_near_candidate(
    c256: Seq<TempogramCandidateDebug>,
    c512: Seq<TempogramCandidateDebug>,
    c1024: Seq<TempogramCandidateDebug>,
    bpm: F32,
    tolerance: F32,
) -> bool {
    has_candidate_near(c256, bpm, tolerance) || has_candidate_near(c512, bpm, tolerance)
        || has_candidate_near(c1024, bpm, tolerance)
}

proof fn lemma_no_scores(
    c256: Seq<TempogramCandidateDebug>,
    c512: Seq<TempogramCandidateDebug>,
    c1024: Seq<TempogramCandidateDebug>,
    bpm: F32,
    tolerance: F32,
)
    ensures
        ({
            let t = Tables { t256: table_of(c256), t512: table_of(c512), t1024: table_of(c1024) };
            let s = scores_at(t, bpm, tolerance);
            &&& !is_near_candidate(c256, c512, c1024, bpm, tolerance) ==> s == (HopScores {
                s256: zero(),
                s512: zero(),
                s1024: zero(),
            })
            &&& hop_agreement(s) >= 1 ==> is_near_candidate(c256, c512, c1024, bpm, tolerance)
        }),
{
    lemma_zero_and_one();
    lemma_strength(c256, bpm, tolerance);
    lemma_strength(c512, bpm, tolerance);
    lemma_strength(c1024, bpm, tolerance);
}

/// What is taken for a candidate has a candidate near it.
proof fn lemma_reading_is_near(
    c256: Seq<TempogramCandidateDebug>,
    c512: Seq<TempogramCandidateDebug>,
    c1024: Seq<TempogramCandidateDebug>,
    o: FusionOptions,
    i: int,
)
    requires
        are_sound(o),
        are_scored(c256),
        are_scored(c512),
        are_scored(c1024),
        are_in_range(c512, o),
        0 <= i < c512.len(),
    ensures
        ({
            let t = Tables { t256: table_of(c256), t512: table_of(c512), t1024: table_of(c1024) };
            hypothesis(t, o, c512[i].bpm) matches Some(h) ==> is_near_candidate(
                c256,
                c512,
                c1024,
                h.0,
                o.tolerance,
            )
        }),
{
    let t = Tables { t256: table_of(c256), t512: table_of(c512), t1024: table_of(c1024) };
    let bpm = c512[i].bpm;
    if bpm.is_finite() && bpm > zero() {
        lemma_zero_and_one();
        lemma_no_distance(bpm);
        assert((c512[i].bpm - bpm).abs() <= o.tolerance);
        assert(has_candidate_near(c512, bpm, o.tolerance));
        let twice = bpm * ratio(2, 1);
        let once = bpm * ratio(5, 10);
        let own = scores_at(t, bpm, o.tolerance);
        let double = scores_at(t, twice, o.tolerance);
        let half = scores_at(t, once, o.tolerance);
        lemma_small_scores(c256, c512, c1024, bpm, o.tolerance);
        lemma_small_scores(c256, c512, c1024, twice, o.tolerance);
        lemma_small_scores(c256, c512, c1024, once, o.tolerance);
        lemma_straight(o, own);
        lemma_crossed(o, own, double);
        lemma_crossed(o, own, half);
        let straight = straight_score(o, own);
        let up = crossed_score(o, own, double);
        let down = crossed_score(o, own, half);
        lemma_own_reading(straight, bpm);
        lemma_discounted(up, own.s1024, double.s1024, own.s256, double.s256, twice);
        lemma_discounted(down, own.s1024, half.s1024, own.s1024, half.s1024, once);
        lemma_crossed_without_support(o, own);
        lemma_no_scores(c256, c512, c1024, twice, o.tolerance);
        lemma_no_scores(c256, c512, c1024, once, o.tolerance);
        lemma_guarded_without_support(up, own.s1024, double.s1024, own.s256, twice);
        lemma_guarded_without_support(down, own.s1024, half.s1024, own.s1024, once);
        lemma_factors();
        let r1 = with_reading(Seq::empty(), bpm, straight, o);
        let r2 = with_reading(
            r1,
            twice,
            guarded(
                structurally_discounted(up, own.s1024, double.s1024),
                own.s256,
                double.s256,
            ),
            o,
        );
        let r3 = with_reading(
            r2,
            once,
            guarded(structurally_discounted(down, own.s1024, half.s1024), own.s1024, half.s1024),
            o,
        );
        assert(r3[0] == (bpm, with_tempo_prior(straight, bpm)));
        let k = lemma_strongest(r3);
        assert(readings(t, o, bpm)[0] == r3[k]);
        if up <= straight {
            lemma_products_keep_order(up, ratio(75, 100), straight, ratio(80, 100));
        }
        if down <= straight {
            lemma_products_keep_order(down, ratio(75, 100), straight, ratio(80, 100));
        }
        assert(is_near_candidate(c256, c512, c1024, r3[k].0, o.tolerance));
    }
}

proof fn lemma_hypotheses_are_near(
    c256: Seq<TempogramCandidateDebug>,
    c512: Seq<TempogramCandidateDebug>,
    c1024: Seq<TempogramCandidateDebug>,
    o: FusionOptions,
    n: nat,
)
    requires
        are_sound(o),
        are_scored(c256),
        are_scored(c512),
        are_scored(c1024),
        are_in_range(c512, o),
        n <= c512.len(),
    ensures
        ({
            let t = Tables { t256: table_of(c256), t512: table_of(c512), t1024: table_of(c1024) };
            &&& hypotheses(t, o, n).len() <= n
            &&& forall|i: int|
                0 <= i < hypotheses(t, o, n).len() ==> is_near_candidate(
                    c256,
                    c512,
                    c1024,
                    (#[trigger] hypotheses(t, o, n)[i]).0,
                    o.tolerance,
                )
        }),
    decreases n,
{
    if n > 0 {
        lemma_hypotheses_are_near(c256, c512, c1024, o, (n - 1) as nat);
        lemma_reading_is_near(c256, c512, c1024, o, n - 1);
    }
}

proof fn lemma_family_is_backed(
    t: Tables,
    o: FusionOptions,
    novelty: Seq<F32>,
    sample_rate: u32,
    base: F32,
    n: nat,
)
    ensures
        forall|i: int|
            0 <= i < family(t, o, novelty, sample_rate, base, n).len() ==> hop_agreement(
                scores_at(
                    t,
                    (#[trigger] family(t, o, novelty, sample_rate, base, n)[i]).bpm,
                    o.tolerance,
                ),
            ) >= 2,
    decreases n,
{
    if n > 0 {
        lemma_family_is_backed(t, o, novelty, sample_rate, base, (n - 1) as nat);
        let before = family(t, o, novelty, sample_rate, base, (n - 1) as nat);
        let all = family(t, o, novelty, sample_rate, base, n);
        assert forall|i: int| 0 <= i < all.len() implies hop_agreement(
            scores_at(t, (#[trigger] all[i]).bpm, o.tolerance),
        ) >= 2 by {
            if i < before.len() {
                assert(all[i] == before[i]);
            }
        }
    }
}

/// What candidates of several resolutions are fused to is a tempo that at least one of
/// them is near: a tempo is never doubled, halved or moved within its family to one
/// that no candidate stands for.
pub proof fn lemma_fused_tempo_is_near_a_candidate(
    c256: Seq<TempogramCandidateDebug>,
    c512: Seq<TempogramCandidateDebug>,
    c1024: Seq<TempogramCandidateDebug>,
    novelty: Option<Seq<F32>>,
    sample_rate: u32,
    o: FusionOptions,
)
    requires
        c512.len() <= usize::MAX,
        are_sound(o),
        are_scored(c256),
        are_scored(c512),
        are_scored(c1024),
        are_in_range(c512, o),
    ensures
        fusion(c256, c512, c1024, novelty, sample_rate, o) matches Outcome::Value((estimate, _))
            ==> is_near_candidate(c256, c512, c1024, estimate.bpm, o.tolerance),
{
    let t = Tables { t256: table_of(c256), t512: table_of(c512), t1024: table_of(c1024) };
    let all = hypotheses(t, o, t.t512.len());
    let sorted = by_strength(all);
    lemma_hypotheses_are_near(c256, c512, c1024, o, t.t512.len());
    if distinct_hypotheses(t, o).len() > 0 {
        let k = lemma_distinct_from(sorted, sorted.len(), 0);
        let m = lemma_arranged_from(all, strengths(all), true, k);
        let first = distinct_hypotheses(t, o)[0];
        assert(first == all[m]);
        let low = folded_down(t, o.tolerance, first);
        lemma_no_scores(c256, c512, c1024, first.0 * ratio(5, 10), o.tolerance);
        lemma_no_scores(c256, c512, c1024, low.0 * ratio(2, 1), o.tolerance);
        let best = folded_up(t, o.tolerance, low);
        assert(is_near_candidate(c256, c512, c1024, best.0, o.tolerance));
        if let Some(n) = novelty {
            let f = family(t, o, n, sample_rate, best.0, 5);
            let unit = greatest_support(f, f.len()).max(ratio(1, 1_000_000));
            lemma_family_is_backed(t, o, n, sample_rate, best.0, 5);
            if f.len() > 0 {
                lemma_best_of_family(f, unit, f.len());
                let w = f[best_of_family(f, unit, f.len()).0];
                lemma_no_scores(c256, c512, c1024, w.bpm, o.tolerance);
            }
        }
    }
}

/// How many hop sizes have a candidate with a score above zero near a tempo.
pub open spec fn backing(
    c256: Seq<TempogramCandidateDebug>,
    c512: Seq<TempogramCandidateDebug>,
    c1024: Seq<TempogramCandidateDebug>,
    bpm: F32,
    tolerance: F32,
) -> int {
    (if is_backed(c256, bpm, tolerance) {
        1int
    } else {
        0
    }) + (if is_backed(c512, bpm, tolerance) {
        1int
    } else {
        0
    }) + (if is_backed(c1024, bpm, tolerance) {
        1int
    } else {
        0
    })
}

/// The scores of the candidates nearest to a tempo, added up.
pub open spec fn added_score(
    c256: Seq<TempogramCandidateDebug>,
    c512: Seq<TempogramCandidateDebug>,
    c1024: Seq<TempogramCandidateDebug>,
    bpm: F32,
    tolerance: F32,
) -> F32 {
    strength_near(table_of(c256), bpm, tolerance) + strength_near(table_of(c512), bpm, tolerance)
        + strength_near(table_of(c1024), bpm, tolerance)
}

proof fn lemma_agreement_is_backing(
    c256: Seq<TempogramCandidateDebug>,
    c512: Seq<TempogramCandidateDebug>,
    c1024: Seq<TempogramCandidateDebug>,
    bpm: F32,
    tolerance: F32,
)
    ensures
        ({
            let t = Tables { t256: table_of(c256), t512: table_of(c512), t1024: table_of(c1024) };
            hop_agreement(scores_at(t, bpm, tolerance)) <= backing(
                c256,
                c512,
                c1024,
                bpm,
                tolerance,
            )
        }),
{
    lemma_strength(c256, bpm, tolerance);
    lemma_strength(c512, bpm, tolerance);
    lemma_strength(c1024, bpm, tolerance);
}

/// A tempo of 170 or more is not slow, nor is its half.
proof fn lemma_fast_half(x: F32)
    requires
        ratio(170, 1) <= x,
    ensures
        !(x * ratio(5, 10) <= ratio(80, 1)),
{
    lemma_zero_and_one();
    if x.is_finite() {
        lemma_fast_finite_half(x);
    } else {
        lemma_whole(80);
        lemma_whole(170);
        lemma_pow2_pos(149);
        lemma_nonnegative(x);
        lemma_half();
        lemma_nonnegative(ratio(80, 1));
        reveal(F32::spec_mul);
        lemma_from_pattern(false, INF_BITS as int);
        lemma_mag_units_increases(ratio(80, 1).mag(), INF_BITS as int);
    }
}

proof fn lemma_fast_finite_half(x: F32)
    requires
        ratio(170, 1) <= x,
        x.is_finite(),
    ensures
        !(x * ratio(5, 10) <= ratio(80, 1)),
{
    lemma_zero_and_one();
    lemma_whole(170);
    lemma_whole(80);
    lemma_half();
    lemma_ratio_in_unit(5, 10);
    lemma_ratio_above_zero(170, 1);
    lemma_scaled_down(x, ratio(5, 10));
    lemma_product_error(x, ratio(5, 10));
    let u = x.units();
    let y = (x * ratio(5, 10)).units();
    let p = pow2(149) as int;
    lemma_pow2_pos(148);
    lemma_pow2_unfold(149);
    lemma_pow2_adds(24, 125);
    lemma_pow2_pos(125);
    lemma2_to64();
    if y <= 80 * p {
        assert(p * (0x100_0000 * (85 * p - y)) <= p * (y + 0x80_0000)) by (nonlinear_arith)
            requires
                0x100_0000 * (u * pow2(148) - p * y) <= p * (y + 0x80_0000),
                170 * p <= u,
                p == 2 * pow2(148),
                pow2(148) > 0,
        ;
        assert(0x100_0000 * (85 * p - y) <= y + 0x80_0000) by (nonlinear_arith)
            requires
                p * (0x100_0000 * (85 * p - y)) <= p * (y + 0x80_0000),
                p > 0,
        ;
        assert(false);
    }
}

/// Without a curve, the fused tempo is the one that the strongest reading of a
/// candidate stands for, its double or its half. It is the double exactly where the
/// tempo is at most 80, the double is from 70 to 180 and two hop sizes at least give it
/// a score, which together are 0.55 of those of the tempo or more; and the half exactly
/// where the tempo is at least 170, the half is from 70 to 120 and all three hop sizes
/// give it a score, together 0.45 of those of the tempo or more.
pub proof fn lemma_tempo_is_folded_with_backing(
    c256: Seq<TempogramCandidateDebug>,
    c512: Seq<TempogramCandidateDebug>,
    c1024: Seq<TempogramCandidateDebug>,
    sample_rate: u32,
    o: FusionOptions,
)
    requires
        c512.len() <= usize::MAX,
    ensures
        ({
            let t = Tables { t256: table_of(c256), t512: table_of(c512), t1024: table_of(c1024) };
            fusion(c256, c512, c1024, None, sample_rate, o) matches Outcome::Value((estimate, _)) ==> {
                let first = distinct_hypotheses(t, o)[0].0;
                let double = first * ratio(2, 1);
                let half = first * ratio(5, 10);
                let all = |bpm: F32| added_score(c256, c512, c1024, bpm, o.tolerance);
                let s = |c: Seq<TempogramCandidateDebug>, bpm: F32|
                    strength_near(table_of(c), bpm, o.tolerance) > zero();
                let up = {
                    &&& first <= ratio(80, 1)
                    &&& double >= ratio(70, 1) && double <= ratio(180, 1)
                    &&& (s(c256, double) && s(c512, double)) || (s(c256, double) && s(
                        c1024,
                        double,
                    )) || (s(c512, double) && s(c1024, double))
                    &&& all(double) > zero() && all(first) > zero()
                    &&& all(double) / all(first) >= ratio(55, 100)
                };
                let down = {
                    &&& first >= ratio(170, 1)
                    &&& half >= ratio(70, 1) && half <= ratio(120, 1)
                    &&& s(c256, half) && s(c512, half) && s(c1024, half)
                    &&& all(half) > zero() && all(first) > zero()
                    &&& all(half) / all(first) >= ratio(45, 100)
                };
                &&& !(up && down)
                &&& up ==> estimate.bpm == double && backing(
                    c256,
                    c512,
                    c1024,
                    double,
                    o.tolerance,
                ) >= 2
                &&& down ==> estimate.bpm == half && backing(
                    c256,
                    c512,
                    c1024,
                    half,
                    o.tolerance,
                ) == 3
                &&& !up && !down ==> estimate.bpm == first
            }
        }),
{
    let t = Tables { t256: table_of(c256), t512: table_of(c512), t1024: table_of(c1024) };
    if distinct_hypotheses(t, o).len() > 0 {
        let first = distinct_hypotheses(t, o)[0].0;
        let double = first * ratio(2, 1);
        let half = first * ratio(5, 10);
        lemma_zero_and_one();
        lemma_agreement_is_backing(c256, c512, c1024, double, o.tolerance);
        lemma_agreement_is_backing(c256, c512, c1024, half, o.tolerance);
        lemma_whole(170);
        lemma_whole(80);
        lemma_pow2_pos(149);
        if ratio(170, 1) <= first {
            lemma_fast_half(first);
        }
        assert(fused_tempo(t, o, None, sample_rate) == folded_up(
            t,
            o.tolerance,
            folded_down(t, o.tolerance, distinct_hypotheses(t, o)[0]),
        ));
    }
}

proof fn lemma_most_confident(e: Seq<BpmEstimate>, n: nat, i: int)
    requires
        1 <= n <= e.len(),
        forall|k: int| 0 <= k < e.len() ==> !(#[trigger] e[k]).confidence.is_nan(),
        0 <= i < n,
    ensures
        0 <= most_confident(e, n) < n,
        e[i].confidence <= e[most_confident(e, n)].confidence,
    decreases n,
{
    if n > 1 {
        if i < n - 1 {
            lemma_most_confident(e, (n - 1) as nat, i);
        } else {
            lemma_most_confident(e, (n - 1) as nat, 0);
        }
    }
}

/// A single estimate stands for itself. Where all estimates are within two BPM of the
/// first, their tempo is the mean of theirs, agreed on by all of them; otherwise it is
/// that of an estimate that no other is surer than, less sure by a tenth and agreed on by
/// that one only.
pub proof fn lemma_consensus_of_estimates(e: Seq<BpmEstimate>, i: int) -> (best: int)
    requires
        0 <= i < e.len() <= u32::MAX,
        forall|k: int| 0 <= k < e.len() ==> !(#[trigger] e[k]).confidence.is_nan(),
    ensures
        0 <= best < e.len(),
        consensus_of(e) matches Outcome::Value(r) && {
            let agree = forall|k: int|
                0 <= k < e.len() ==> ((#[trigger] e[k]).bpm - e[0].bpm).abs() < ratio(2, 1);
            if e.len() == 1 {
                r == e[0]
            } else if agree {
                &&& r.bpm == mean_of(Seq::new(e.len(), |k: int| e[k].bpm))
                &&& r.method_agreement == e.len()
                &&& !(one() < r.confidence)
            } else {
                &&& r.bpm == e[best].bpm
                &&& e[i].confidence <= e[best].confidence
                &&& r.confidence == e[best].confidence * ratio(9, 10)
                &&& r.method_agreement == 1
            }
        },
{
    lemma_zero_and_one();
    lemma_most_confident(e, e.len(), i);
    assert(tempos_of(e) =~= Seq::new(e.len(), |k: int| e[k].bpm));
    most_confident(e, e.len())
}

/// How sure a fused tempo is: completely where no other has a score, not at all where
/// another has as great a one, and less the greater that is.
pub proof fn lemma_fused_confidence_by_distance(best: F32, low: F32, high: F32)
    requires
        ratio(1, 1_000_000) < best,
        best.is_finite(),
        zero() <= low,
        low <= high,
        high <= best,
    ensures
        fused_confidence(best, high) <= fused_confidence(best, low),
        in_unit(fused_confidence(best, low)),
        fused_confidence(best, best) == zero(),
        fused_confidence(best, zero()) == one(),
{
    lemma_zero_and_one();
    lemma_ratio_above_zero(1, 1_000_000);
    lemma_lead_by_distance(best, low, high);
    lemma_finite_below(high, best);
    lemma_finite_below(low, high);
    lemma_difference(best, low);
    lemma_difference(best, high);
    lemma_difference(best, best);
    lemma_difference(best, zero());
    assert(best - best == zero()) by {
        reveal(F32::spec_add);
        lemma_negated(best);
        lemma_nonnegative(best);
    }
}

/// Where no candidate at any hop size is near the double or the half of one at the main
/// hop size, and all of these are from 60 to 180, the fused tempo is one of theirs, and
/// none of them has more support: the scores of the candidates nearest to it at the three
/// hop sizes, each by the weight of its hop size.
pub proof fn lemma_best_supported_tempo_wins(
    c256: Seq<TempogramCandidateDebug>,
    c512: Seq<TempogramCandidateDebug>,
    c1024: Seq<TempogramCandidateDebug>,
    sample_rate: u32,
    o: FusionOptions,
    j: int,
)
    requires
        0 <= j < c512.len() <= usize::MAX,
        are_sound(o),
        are_scored(c256),
        are_scored(c512),
        are_scored(c1024),
        are_in_range(c512, o),
        !o.use_human_prior,
        forall|i: int|
            0 <= i < c512.len() ==> ratio(60, 1) <= (#[trigger] c512[i]).bpm && c512[i].bpm <= ratio(
                180,
                1,
            ) && stands_alone(c256, c512, c1024, c512[i].bpm, o.tolerance),
    ensures
        fusion(c256, c512, c1024, None, sample_rate, o) matches Outcome::Value((estimate, _)) && {
            &&& exists|i: int| 0 <= i < c512.len() && estimate.bpm == (#[trigger] c512[i]).bpm
            &&& weighted_support(c256, c512, c1024, c512[j].bpm, o) <= weighted_support(
                c256,
                c512,
                c1024,
                estimate.bpm,
                o,
            )
        },
{
    let t = Tables { t256: table_of(c256), t512: table_of(c512), t1024: table_of(c1024) };
    let all = hypotheses(t, o, t.t512.len());
    let sorted = by_strength(all);
    lemma_lone_hypotheses(c256, c512, c1024, o, c512.len());
    assert(all.len() == c512.len());
    let keys = strengths(all);
    lemma_sorted_order_lists_indices(keys, true, all.len());
    lemma_sorted_order_is_stable(keys, true, all.len());
    let order = sorted_order(keys, true, all.len());
    let p = lemma_sorted_order_finds(keys, true, all.len(), j as usize);
    assert(sorted[0] == all[order[0] as int]);
    assert(sorted[p] == all[order[p] as int]);
    lemma_distinct_starts(sorted, sorted.len());
    let first = distinct_hypotheses(t, o)[0];
    assert(first == sorted[0]);
    let i = order[0] as int;
    assert(first == all[i]);
    assert(all[i].0 == c512[i].bpm);
    if p > 0 {
        assert(order[p] == j);
        assert(!(keys[order[0] as int] < keys[order[p] as int]));
    }
    let half = first.0 * ratio(5, 10);
    let double = first.0 * ratio(2, 1);
    lemma_no_scores(c256, c512, c1024, half, o.tolerance);
    lemma_no_scores(c256, c512, c1024, double, o.tolerance);
    lemma_zero_and_one();
    assert(stands_alone(c256, c512, c1024, c512[i].bpm, o.tolerance));
    assert(folded_down(t, o.tolerance, first) == first);
    assert(folded_up(t, o.tolerance, first) == first);
    assert(fused_tempo(t, o, None, sample_rate) == first);
}

/// The scores of the candidates nearest to a tempo, each by the weight of its hop size.
pub open spec fn weighted_support(
    c256: Seq<TempogramCandidateDebug>,
    c512: Seq<TempogramCandidateDebug>,
    c1024: Seq<TempogramCandidateDebug>,
    bpm: F32,
    o: FusionOptions,
) -> F32 {
    o.w512 * strength_near(table_of(c512), bpm, o.tolerance) + o.w256 * strength_near(
        table_of(c256),
        bpm,
        o.tolerance,
    ) + o.w1024 * strength_near(table_of(c1024), bpm, o.tolerance)
}

/// No candidate is near the double or the half of a tempo.
pub open spec fn stands_alone(
    c256: Seq<TempogramCandidateDebug>,
    c512: Seq<TempogramCandidateDebug>,
    c1024: Seq<TempogramCandidateDebug>,
    bpm: F32,
    tolerance: F32,
) -> bool {
    !is_near_candidate(c256, c512, c1024, bpm * ratio(2, 1), tolerance) && !is_near_candidate(
        c256,
        c512,
        c1024,
        bpm * ratio(5, 10),
        tolerance,
    )
}

proof fn lemma_distinct_starts(s: Seq<(F32, F32)>, n: nat)
    requires
        1 <= n <= s.len(),
    ensures
        distinct(s, n).len() > 0,
        distinct(s, n)[0] == s[0],
    decreases n,
{
    if n > 1 {
        lemma_distinct_starts(s, (n - 1) as nat);
    } else {
        assert(distinct(s, 0).len() == 0);
        assert(!near_any(distinct(s, 0), s[0].0));
    }
}

proof fn lemma_lone_hypotheses(
    c256: Seq<TempogramCandidateDebug>,
    c512: Seq<TempogramCandidateDebug>,
    c1024: Seq<TempogramCandidateDebug>,
    o: FusionOptions,
    n: nat,
)
    requires
        are_sound(o),
        are_scored(c256),
        are_scored(c512),
        are_scored(c1024),
        are_in_range(c512, o),
        !o.use_human_prior,
        n <= c512.len(),
        forall|i: int|
            0 <= i < c512.len() ==> ratio(60, 1) <= (#[trigger] c512[i]).bpm && c512[i].bpm <= ratio(
                180,
                1,
            ) && stands_alone(c256, c512, c1024, c512[i].bpm, o.tolerance),
    ensures
        ({
            let t = Tables { t256: table_of(c256), t512: table_of(c512), t1024: table_of(c1024) };
            &&& hypotheses(t, o, n).len() == n
            &&& forall|i: int|
                0 <= i < n ==> (#[trigger] hypotheses(t, o, n)[i]) == (
                    c512[i].bpm,
                    weighted_support(c256, c512, c1024, c512[i].bpm, o),
                ) && !hypotheses(t, o, n)[i].1.is_nan()
        }),
    decreases n,
{
    if n > 0 {
        lemma_lone_hypotheses(c256, c512, c1024, o, (n - 1) as nat);
        lemma_lone_hypothesis(c256, c512, c1024, o, n - 1);
    }
}

proof fn lemma_lone_hypothesis(
    c256: Seq<TempogramCandidateDebug>,
    c512: Seq<TempogramCandidateDebug>,
    c1024: Seq<TempogramCandidateDebug>,
    o: FusionOptions,
    i: int,
)
    requires
        are_sound(o),
        are_scored(c256),
        are_scored(c512),
        are_scored(c1024),
        are_in_range(c512, o),
        !o.use_human_prior,
        0 <= i < c512.len(),
        ratio(60, 1) <= c512[i].bpm,
        c512[i].bpm <= ratio(180, 1),
        stands_alone(c256, c512, c1024, c512[i].bpm, o.tolerance),
    ensures
        ({
            let t = Tables { t256: table_of(c256), t512: table_of(c512), t1024: table_of(c1024) };
            let support = weighted_support(c256, c512, c1024, c512[i].bpm, o);
            hypothesis(t, o, c512[i].bpm) == Some((c512[i].bpm, support)) && !support.is_nan()
        }),
{
    let t = Tables { t256: table_of(c256), t512: table_of(c512), t1024: table_of(c1024) };
    let bpm = c512[i].bpm;
    lemma_zero_and_one();
    lemma_whole(60);
    lemma_whole(180);
    lemma_pow2_pos(149);
    lemma_ratio_order(180, 1, 210, 1);
    lemma_finite_below(bpm, ratio(180, 1));
    lemma_no_distance(bpm);
    lemma_ratio_above_zero(1, 1000);
    let twice = bpm * ratio(2, 1);
    let once = bpm * ratio(5, 10);
    let own = scores_at(t, bpm, o.tolerance);
    let none = HopScores { s256: zero(), s512: zero(), s1024: zero() };
    lemma_small_scores(c256, c512, c1024, bpm, o.tolerance);
    lemma_small_scores(c256, c512, c1024, twice, o.tolerance);
    lemma_no_scores(c256, c512, c1024, twice, o.tolerance);
    lemma_no_scores(c256, c512, c1024, once, o.tolerance);
    assert(scores_at(t, twice, o.tolerance) == none);
    assert(scores_at(t, once, o.tolerance) == none);
    lemma_straight(o, own);
    lemma_crossed(o, own, none);
    let straight = straight_score(o, own);
    let other = crossed_score(o, own, none);
    lemma_own_reading(straight, bpm);
    lemma_discounted(other, own.s1024, zero(), own.s256, zero(), twice);
    lemma_discounted(other, own.s1024, zero(), own.s1024, zero(), once);
    lemma_crossed_without_support(o, own);
    lemma_guarded_without_support(other, own.s1024, zero(), own.s256, twice);
    lemma_guarded_without_support(other, own.s1024, zero(), own.s1024, once);
    lemma_factors();
    lemma_products_keep_order(other, ratio(75, 100), straight, ratio(80, 100));
    let up = guarded(structurally_discounted(other, own.s1024, zero()), own.s256, zero());
    let down = guarded(structurally_discounted(other, own.s1024, zero()), own.s1024, zero());
    let r1 = with_reading(Seq::empty(), bpm, straight, o);
    let r2 = with_reading(r1, twice, up, o);
    let r3 = with_reading(r2, once, down, o);
    assert(with_tempo_prior(straight, bpm) == straight);
    assert(r3[0] == (bpm, straight));
    let k = lemma_strongest(r3);
    assert(k == 0);
    assert(readings(t, o, bpm)[0] == (bpm, straight));
    assert(straight == weighted_support(c256, c512, c1024, bpm, o));
}

} // verus!
