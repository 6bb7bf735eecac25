//! What holds of every score of a tempo: what raises it, what lowers it, and what not.
use crate::float::F32;
use crate::float::one;
use crate::float::ratio;
use crate::float::zero;
use crate::float_laws::in_unit;
use crate::float_laws::lemma_count_order;
use crate::float_laws::lemma_quotient_keeps_order;
use crate::float_laws::lemma_ratio_above_zero;
use crate::float_laws::lemma_ratio_in_unit;
use crate::float_laws::lemma_ratio_is_finite;
use crate::float_laws::lemma_ratio_order;
use crate::float_laws::lemma_scaled_down;
use crate::float_laws::lemma_sum_grows;
use crate::float_laws::lemma_zero_and_one;
use crate::float_order::lemma_finite_below;
use crate::float_order::lemma_products_keep_order;
use crate::float_order::lemma_quotient_is_number;
use crate::float_order::lemma_sums_keep_order;
use crate::sorting::arranged;
use crate::sorting::lemma_sorted_order_finds;
use crate::sorting::sorted_order;
use super::beat_contrast::BeatSums;
use super::beat_contrast::contrast;
use super::legacy::LegacyBpmGuardrails;
use super::multi_resolution::FusionOptions;
use super::multi_resolution::HopScores;
use super::multi_resolution::guarded;
use super::multi_resolution::straight_score;
use super::multi_resolution::support_ratio;
use super::multi_resolution::with_tempo_prior;
use super::tempo_table::prominence;
use super::tempogram::ScoredCandidate;
use super::tempogram::VariantView;
use super::tempogram::agreement;
use super::tempogram::all_seeds;
use super::tempogram::candidate_tempos;
use super::tempogram::folded;
use super::tempogram::keeps_high;
use super::tempogram::nearest_entry;
use super::tempogram::separation;
use super::tempogram::spaced;
use super::tempogram::support;
use super::tempogram::with_bonus;
use super::tempogram::with_folds;
use super::tempogram::with_prior;
use vstd::arithmetic::power2::lemma2_to64;
use vstd::arithmetic::power2::lemma_pow2_adds;
use vstd::arithmetic::power2::lemma_pow2_pos;
use vstd::arithmetic::power2::pow2;
use vstd::prelude::*;

verus! {

// ----------------------------------------------------------------- priors

/// No tempo gains by being fast or slow, and common ones keep their score: from 60 to 180
/// by both kinds of prior.
pub proof fn lemma_common_tempos_keep_their_score(score: F32, bpm: F32)
    requires
        zero() <= score,
        score.is_finite(),
        !bpm.is_nan(),
    ensures
        with_prior(score, bpm) <= score,
        with_tempo_prior(score, bpm) <= score,
        ratio(60, 1) <= bpm && bpm <= ratio(180, 1) ==> with_prior(score, bpm) == score
            && with_tempo_prior(score, bpm) == score,
        one() <= score && bpm > ratio(180, 1) ==> with_prior(score, bpm) < score
            && with_tempo_prior(score, bpm) < score,
        one() <= score && bpm < ratio(60, 1) ==> with_prior(score, bpm) < score
            && with_tempo_prior(score, bpm) < score,
{
    lemma_zero_and_one();
    lemma_ratio_order(60, 1, 180, 1);
    lemma_ratio_order(80, 100, 95, 100);
    lemma_ratio_order(90, 100, 95, 100);
    lemma_ratio_order(92, 100, 95, 100);
    if one() <= score {
        lemma_discounted(score, ratio(80, 100));
        lemma_discounted(score, ratio(90, 100));
        lemma_discounted(score, ratio(92, 100));
    }
    lemma_ratio_order(180, 1, 210, 1);
    lemma_ratio_in_unit(80, 100);
    lemma_ratio_in_unit(90, 100);
    lemma_ratio_in_unit(92, 100);
    lemma_scaled_down(score, ratio(80, 100));
    lemma_scaled_down(score, ratio(90, 100));
    lemma_scaled_down(score, ratio(92, 100));
}

/// A part of a number that is clearly less than one is less than the number.
proof fn lemma_discounted(score: F32, c: F32)
    requires
        one() <= score,
        score.is_finite(),
        zero() <= c,
        c <= ratio(95, 100),
    ensures
        score * c < score,
{
    lemma_zero_and_one();
    lemma_ratio_in_unit(95, 100);
    lemma_scaled_down(score, c);
    lemma_finite_below(c, one());
    crate::float_laws::lemma_product_error(score, c);
    crate::float_laws::lemma_nonnegative(score);
    crate::float_laws::lemma_nonnegative(c);
    lemma_far_below_one();
    let p = pow2(149) as int;
    let u = score.units();
    let k = c.units();
    let v = (score * c).units();
    lemma_pow2_adds(24, 125);
    lemma_pow2_pos(125);
    lemma2_to64();
    if v >= u {
        assert(v == u);
        // the product is off by less than what the part leaves out
        assert(100 * (u * k) <= 96 * (u * p)) by (nonlinear_arith)
            requires
                100 * k <= 96 * p,
                u >= 0,
        ;
        assert(0x100_0000 * (p * u - u * k) <= p * (u + 0x80_0000));
        assert(p * (u + 0x80_0000) <= 2 * (u * p)) by (nonlinear_arith)
            requires
                u >= 0x80_0000,
                p > 0,
        ;
        assert(p * u == u * p) by (nonlinear_arith);
        assert(u * p > 0) by (nonlinear_arith)
            requires
                u >= 0x80_0000,
                p > 0,
        ;
    }
}

proof fn lemma_far_below_one()
    ensures
        100 * ratio(95, 100).units() <= 96 * pow2(149),
        pow2(149) >= 0x100_0000,
{
    let r = ratio(95, 100);
    lemma_zero_and_one();
    lemma_ratio_in_unit(95, 100);
    lemma_ratio_is_finite(95, 100);
    crate::float_laws::lemma_nonnegative(r);
    lemma_pow2_adds(24, 125);
    lemma_pow2_pos(125);
    lemma2_to64();
    lemma_pow2_pos(149);
    let m = 95 * pow2(149) as int;
    crate::rounding::lemma_rounding_exists(m, 100);
    crate::float_laws::lemma_from_pattern(false, crate::rounding::rounded(m, 100));
    crate::rounding::lemma_rounding_error(m, 100);
}

/// The more bands support a tempo, the higher is its score; fewer than two add nothing.
pub proof fn lemma_more_bands_score_more(score: F32, bonus: F32, few: usize, many: usize)
    requires
        zero() <= score,
        score.is_finite(),
        in_unit(bonus),
        few <= many <= 100,
    ensures
        with_bonus(score, bonus, few) <= with_bonus(score, bonus, many),
        few < 2 ==> with_bonus(score, bonus, few) == score,
        score <= with_bonus(score, bonus, many),
{
    lemma_zero_and_one();
    lemma_factor(bonus, many);
    lemma_factor(bonus, few);
    lemma_count_order(few, many);
    let b = F32::from_usize(many) - one();
    let a = F32::from_usize(few) - one();
    crate::float_order::lemma_times_one(score);
    if many >= 2 {
        lemma_products_keep_order(score, one(), score, one() + bonus * b);
        if few >= 2 {
            crate::float_order::lemma_count(few as int);
            crate::float_order::lemma_count(many as int);
            crate::float_laws::lemma_negated(one());
            crate::float_laws::lemma_unit_is_finite(one());
            crate::float_order::lemma_signed_sums_keep_order(
                F32::from_usize(few),
                one().neg(),
                F32::from_usize(many),
                one().neg(),
            );
            crate::float_laws::lemma_unit_is_finite(bonus);
            lemma_products_keep_order(bonus, a, bonus, b);
            lemma_sums_keep_order(one(), bonus * a, one(), bonus * b);
            lemma_products_keep_order(score, one() + bonus * a, score, one() + bonus * b);
        }
    }
}

/// The factor of a bonus is one or more, and small.
proof fn lemma_factor(bonus: F32, n: usize)
    requires
        in_unit(bonus),
        n <= 100,
    ensures
        n >= 1 ==> ({
            let b = F32::from_usize(n) - one();
            &&& zero() <= b
            &&& b.is_finite()
            &&& one() <= one() + bonus * b
            &&& (one() + bonus * b).is_finite()
        }),
{
    lemma_zero_and_one();
    if n >= 1 {
        let x = F32::from_usize(n);
        lemma_count_order(1, n);
        crate::float_order::lemma_count(n as int);
        crate::float_order::lemma_difference(x, one());
        crate::features::key::choice_laws::lemma_taken_is_finite(x, one());
        let b = x - one();
        crate::float_laws::lemma_unit_is_finite(bonus);
        lemma_products_keep_order(bonus, b, bonus, b);
        lemma_sum_grows(one(), bonus * b);
        crate::float_order::lemma_product_commutes(bonus, b);
        lemma_scaled_down(b, bonus);
        vstd::arithmetic::power2::lemma2_to64();
        crate::float_sizes::lemma_count_within(n as int, 7);
        crate::float_order::lemma_less_left(x, zero(), one());
        crate::float_order::lemma_no_subtraction(x, zero());
        crate::float_laws::lemma_nonnegative(bonus * b);
        crate::float_laws::lemma_nonnegative(x);
        crate::float_order::lemma_unit_within(one());
        crate::float_sizes::lemma_within_more(one(), 149, 156);
        crate::float_sizes::lemma_sum_within(one(), bonus * b, 156);
    }
}

// ---------------------------------------------------------------- margins

/// The further the second best is behind the best, the surer is a tempo: not at all where
/// they are level, and wholly where there is no second.
pub proof fn lemma_clear_tempo_is_sure(best: F32, low: F32, high: F32)
    requires
        ratio(1, 10_000_000_000) < best,
        best.is_finite(),
        zero() <= low,
        low <= high,
        high <= best,
    ensures
        prominence(best, high) <= prominence(best, low),
        separation(best, high) <= separation(best, low),
        prominence(best, best).zero_valued(),
        separation(best, best).zero_valued(),
        prominence(best, zero()) == one(),
        separation(best, zero()) == one(),
{
    lemma_zero_and_one();
    lemma_ratio_above_zero(1, 10_000_000_000);
    lemma_small();
    lemma_part(best, low, high);
    lemma_part(best, zero(), best);
    lemma_finite_below(high, best);
    let d = best - best;
    assert(d == zero()) by {
        reveal(F32::spec_add);
        crate::float_laws::lemma_negated(best);
        crate::float_laws::lemma_nonnegative(best);
    }
    crate::float_laws::lemma_whole_and_no_part(best);
    assert(best - zero() == best) by {
        crate::float_order::lemma_no_subtraction(best, zero());
        crate::float_order::lemma_same_above_zero(best, best - zero());
    }
}

proof fn lemma_small()
    ensures
        ratio(1, 1_000_000_000_000) <= ratio(1, 10_000_000_000),
{
    lemma_ratio_order(1, 1_000_000_000_000, 1, 10_000_000_000);
}

/// The part of the best by which a second is behind it.
proof fn lemma_part(best: F32, low: F32, high: F32)
    requires
        zero() < best,
        best.is_finite(),
        zero() <= low,
        low <= high,
        high <= best,
    ensures
        crate::float::clamp_unit((best - high).max(zero()) / best) <= crate::float::clamp_unit(
            (best - low).max(zero()) / best,
        ),
{
    lemma_zero_and_one();
    lemma_finite_below(high, best);
    lemma_finite_below(low, high);
    crate::float_order::lemma_difference(best, low);
    crate::float_order::lemma_difference(best, high);
    crate::float_order::lemma_less_left(best, low, high);
    let a = (best - high).max(zero());
    let b = (best - low).max(zero());
    lemma_quotient_is_number(a, best);
    lemma_quotient_is_number(b, best);
    lemma_quotient_keeps_order(a, b, best);
}

/// A score for another reading of a tempo stands where that reading has a tenth more
/// support than the tempo itself; the more support it has, the more of the score stands.
pub proof fn lemma_guarded_score(score: F32, own: F32, weak: F32, strong: F32)
    requires
        zero() <= score,
        score.is_finite(),
        zero() <= own,
        zero() <= weak,
        weak <= strong,
        (own + ratio(1, 1_000_000)).is_finite(),
        (strong + ratio(1, 1_000_000)).is_finite(),
    ensures
        guarded(score, own, weak) <= guarded(score, own, strong),
        guarded(score, own, strong) <= score,
        zero() <= guarded(score, own, weak),
        ratio(110, 100) <= support_ratio(own, strong) ==> guarded(score, own, strong) == score,
{
    let small = ratio(1, 1_000_000);
    lemma_zero_and_one();
    lemma_ratio_above_zero(1, 1_000_000);
    lemma_sum_grows(own, small);
    lemma_sums_keep_order(weak, small, strong, small);
    lemma_quotient_keeps_order(weak + small, strong + small, own + small);
    lemma_quotient_is_number(weak + small, own + small);
    lemma_quotient_is_number(strong + small, own + small);
    let p = ratio(75, 100);
    lemma_ratio_in_unit(75, 100);
    crate::float_order::lemma_above_one();
    lemma_scaled_down(score, p);
    lemma_scaled_down(score * p, p);
}

/// A hop size that has all the weight decides between the supports of tempos by itself.
pub proof fn lemma_hop_with_all_the_weight(o: FusionOptions, a: HopScores, b: HopScores)
    requires
        in_unit(a.s256) && in_unit(a.s512) && in_unit(a.s1024),
        in_unit(b.s256) && in_unit(b.s512) && in_unit(b.s1024),
        in_unit(o.w256) && in_unit(o.w512) && in_unit(o.w1024),
    ensures
        a.s256 <= b.s256 && o.w512 == zero() && o.w1024 == zero() ==> straight_score(o, a)
            <= straight_score(o, b),
        a.s512 <= b.s512 && o.w256 == zero() && o.w1024 == zero() ==> straight_score(o, a)
            <= straight_score(o, b),
        a.s1024 <= b.s1024 && o.w256 == zero() && o.w512 == zero() ==> straight_score(o, a)
            <= straight_score(o, b),
{
    lemma_zero_and_one();
    lemma_weigh(o.w256, a.s256, b.s256);
    lemma_weigh(o.w512, a.s512, b.s512);
    lemma_weigh(o.w1024, a.s1024, b.s1024);
    let x = o.w512 * a.s512;
    let y = o.w512 * b.s512;
    if x <= y && o.w256 * a.s256 <= o.w256 * b.s256 && o.w1024 * a.s1024 <= o.w1024 * b.s1024 {
        lemma_sums_keep_order(x, o.w256 * a.s256, y, o.w256 * b.s256);
        lemma_sums_keep_order(
            x + o.w256 * a.s256,
            o.w1024 * a.s1024,
            y + o.w256 * b.s256,
            o.w1024 * b.s1024,
        );
    }
}

proof fn lemma_weigh(w: F32, x: F32, y: F32)
    requires
        in_unit(w),
        in_unit(x),
        in_unit(y),
    ensures
        zero() <= w * x,
        zero() <= w * y,
        x <= y || w == zero() ==> w * x <= w * y,
{
    lemma_zero_and_one();
    crate::float_laws::lemma_unit_is_finite(w);
    crate::float_laws::lemma_unit_is_finite(x);
    crate::float_laws::lemma_unit_is_finite(y);
    crate::float_laws::lemma_unit_product(w, x);
    crate::float_laws::lemma_unit_product(w, y);
    if w == zero() {
        lemma_scaled_down(w, x);
        lemma_scaled_down(w, y);
    } else if x <= y {
        lemma_products_keep_order(w, x, w, y);
    }
}

// ------------------------------------------------------------- candidates

proof fn lemma_fold_is_listed(s: Seq<F32>, base: F32, low: F32, high: F32, k: nat, i: int) -> (p: int)
    requires
        0 <= i < k,
        (base * super::tempogram::fold_factor(i as usize)).is_finite(),
        low <= base * super::tempogram::fold_factor(i as usize),
        base * super::tempogram::fold_factor(i as usize) <= high,
        k <= 7,
    ensures
        0 <= p < with_folds(s, base, low, high, k).len(),
        with_folds(s, base, low, high, k)[p] == base * super::tempogram::fold_factor(i as usize),
    decreases k,
{
    let before = with_folds(s, base, low, high, (k - 1) as nat);
    if i < k - 1 {
        let p = lemma_fold_is_listed(s, base, low, high, (k - 1) as nat, i);
        assert(with_folds(s, base, low, high, k)[p] == before[p]);
        p
    } else {
        before.len() as int
    }
}

proof fn lemma_folds_keep(s: Seq<F32>, base: F32, low: F32, high: F32, k: nat, p: int)
    requires
        0 <= p < s.len(),
    ensures
        p < with_folds(s, base, low, high, k).len(),
        with_folds(s, base, low, high, k)[p] == s[p],
    decreases k,
{
    if k > 0 {
        lemma_folds_keep(s, base, low, high, (k - 1) as nat, p);
    }
}

proof fn lemma_seed_is_folded(bases: Seq<F32>, low: F32, high: F32, n: nat, m: int, i: int) -> (p: int)
    requires
        0 <= m < n <= bases.len(),
        0 <= i < 7,
        (bases[m] * super::tempogram::fold_factor(i as usize)).is_finite(),
        low <= bases[m] * super::tempogram::fold_factor(i as usize),
        bases[m] * super::tempogram::fold_factor(i as usize) <= high,
    ensures
        0 <= p < folded(bases, low, high, n).len(),
        folded(bases, low, high, n)[p] == bases[m] * super::tempogram::fold_factor(i as usize),
    decreases n,
{
    let before = folded(bases, low, high, (n - 1) as nat);
    if m < n - 1 {
        let p = lemma_seed_is_folded(bases, low, high, (n - 1) as nat, m, i);
        lemma_folds_keep(before, bases[n - 1], low, high, 7, p);
        p
    } else {
        lemma_fold_is_listed(before, bases[m], low, high, 7, i)
    }
}

proof fn lemma_near_a_kept(s: Seq<F32>, n: nat, p: int) -> (k: int)
    requires
        0 <= p < n <= s.len(),
    ensures
        0 <= k < spaced(s, n).len(),
        spaced(s, n)[k] == s[p] || (s[p] - spaced(s, n)[k]).abs() < ratio(75, 100),
    decreases n,
{
    let before = spaced(s, (n - 1) as nat);
    if p < n - 1 {
        let k = lemma_near_a_kept(s, (n - 1) as nat, p);
        assert(spaced(s, n)[k] == before[k]);
        k
    } else if before.len() > 0 && (s[n - 1] - before.last()).abs() < ratio(75, 100) {
        before.len() - 1
    } else {
        before.len() as int
    }
}

/// A tempo that leads a tempogram is scored, and so are its half and its double, a third
/// of it and three times it, two thirds of it and half again as much, as far as they are
/// in range: each is a candidate, or near one.
pub proof fn lemma_tempo_is_scored_in_all_readings(
    v: Seq<VariantView>,
    low: F32,
    high: F32,
    m: int,
    bpm: F32,
) -> (k: int)
    requires
        0 <= m < all_seeds(v).len(),
        7 * all_seeds(v).len() <= usize::MAX,
        bpm.is_finite(),
        low <= bpm,
        bpm <= high,
        ({
            let seed = all_seeds(v)[m];
            ||| bpm == seed * one()
            ||| bpm == seed * ratio(5, 10)
            ||| bpm == seed * ratio(2, 1)
            ||| bpm == seed * (one() / ratio(3, 1))
            ||| bpm == seed * ratio(3, 1)
            ||| bpm == seed * (ratio(2, 1) / ratio(3, 1))
            ||| bpm == seed * (ratio(3, 1) / ratio(2, 1))
        }),
    ensures
        0 <= k < candidate_tempos(v, low, high).len(),
        candidate_tempos(v, low, high)[k] == bpm || (bpm - candidate_tempos(v, low, high)[k]).abs()
            < ratio(75, 100),
{
    let seeds = all_seeds(v);
    let seed = seeds[m];
    let i: int = if bpm == seed * one() {
        0
    } else if bpm == seed * ratio(5, 10) {
        1
    } else if bpm == seed * ratio(2, 1) {
        2
    } else if bpm == seed * (one() / ratio(3, 1)) {
        3
    } else if bpm == seed * ratio(3, 1) {
        4
    } else if bpm == seed * (ratio(2, 1) / ratio(3, 1)) {
        5
    } else {
        6
    };
    let all = folded(seeds, low, high, seeds.len());
    super::laws::lemma_folded_in_range(seeds, low, high, seeds.len());
    let p = lemma_seed_is_folded(seeds, low, high, seeds.len(), m, i);
    let order = sorted_order(all, false, all.len());
    let q = lemma_sorted_order_finds(all, false, all.len(), p as usize);
    let sorted = arranged(all, order);
    super::laws::lemma_order_len(all, false, all.len());
    assert(sorted[q] == all[p]);
    lemma_near_a_kept(sorted, sorted.len(), q)
}

// --------------------------------------------------------------- contrast

/// The louder the beats are, the more they stand out; all else equal.
pub proof fn lemma_louder_beats_stand_out(a: BeatSums, b: BeatSums, level: F32)
    requires
        a.beat_n == b.beat_n > 0,
        a.half_n == b.half_n,
        a.half_sum == b.half_sum,
        a.third_n == b.third_n,
        a.third_sum == b.third_sum,
        zero() <= a.beat_sum,
        a.beat_sum <= b.beat_sum,
        b.beat_sum.is_finite(),
        zero() < level,
        level.is_finite(),
        in_unit(super::beat_contrast::mean_of(a.half_sum, a.half_n)),
        in_unit(super::beat_contrast::mean_of(a.third_sum, a.third_n)),
        in_unit(super::beat_contrast::mean_of(a.beat_sum, a.beat_n)),
        in_unit(super::beat_contrast::mean_of(b.beat_sum, b.beat_n)),
    ensures
        !(contrast(b, level) < contrast(a, level)),
{
    let x = super::beat_contrast::mean_of(a.beat_sum, a.beat_n);
    let y = super::beat_contrast::mean_of(b.beat_sum, b.beat_n);
    let h = ratio(60, 100) * super::beat_contrast::mean_of(a.half_sum, a.half_n);
    let t = ratio(40, 100) * super::beat_contrast::mean_of(a.third_sum, a.third_n);
    lemma_zero_and_one();
    lemma_count_order(1, a.beat_n);
    lemma_quotient_keeps_order(a.beat_sum, b.beat_sum, F32::from_usize(a.beat_n));
    lemma_ratio_in_unit(60, 100);
    lemma_ratio_in_unit(40, 100);
    crate::float_laws::lemma_unit_product(
        ratio(60, 100),
        super::beat_contrast::mean_of(a.half_sum, a.half_n),
    );
    crate::float_laws::lemma_unit_product(
        ratio(40, 100),
        super::beat_contrast::mean_of(a.third_sum, a.third_n),
    );
    lemma_ordered_differences(x, y, h, t);
    lemma_signed_quotient_keeps_order(x - h - t, y - h - t, level);
    crate::float_order::lemma_whole(10);
    crate::float_laws::lemma_negated(ratio(10, 1));
    lemma_pow2_pos(149);
}

proof fn lemma_ordered_differences(x: F32, y: F32, h: F32, t: F32)
    requires
        in_unit(x),
        in_unit(y),
        in_unit(h),
        in_unit(t),
        x <= y,
    ensures
        x - h - t <= y - h - t,
        (x - h - t).is_finite(),
        (y - h - t).is_finite(),
{
    crate::float_order::lemma_unit_within(x);
    crate::float_order::lemma_unit_within(y);
    crate::float_order::lemma_unit_within(h);
    crate::float_order::lemma_unit_within(t);
    crate::float_sizes::lemma_negated_within(h, 149);
    crate::float_sizes::lemma_negated_within(t, 149);
    crate::float_sizes::lemma_within_more(t.neg(), 149, 150);
    crate::float_sizes::lemma_sum_within(x, h.neg(), 149);
    crate::float_sizes::lemma_sum_within(y, h.neg(), 149);
    crate::float_sizes::lemma_sum_within(x - h, t.neg(), 150);
    crate::float_sizes::lemma_sum_within(y - h, t.neg(), 150);
    crate::float_laws::lemma_negated(h);
    crate::float_laws::lemma_negated(t);
    crate::float_order::lemma_signed_sums_keep_order(x, h.neg(), y, h.neg());
    crate::float_order::lemma_signed_sums_keep_order(x - h, t.neg(), y - h, t.neg());
}

/// Numbers of any sign keep their order when divided by one above zero.
proof fn lemma_signed_quotient_keeps_order(a: F32, b: F32, d: F32)
    requires
        a <= b,
        a.is_finite(),
        b.is_finite(),
        zero() < d,
        d.is_finite(),
    ensures
        a / d <= b / d,
{
    lemma_zero_and_one();
    lemma_quotient_is_number(a, d);
    lemma_quotient_is_number(b, d);
    crate::float_laws::lemma_negated(a);
    crate::float_laws::lemma_negated(b);
    if zero() <= a {
        lemma_quotient_keeps_order(a, b, d);
    } else if b < zero() {
        assert(a.neg().neg() == a && b.neg().neg() == b);
        crate::float_order::lemma_negated_quotient_falls(b.neg(), a.neg(), d);
    } else {
        crate::float_laws::lemma_quotient_not_positive(a, d);
        crate::float_laws::lemma_quotient_never_negative(b, d);
    }
}

// --------------------------------------------------------------- agreement

/// A kind of tempogram agrees on a tempo that is within two BPM of its own, and both are
/// counted.
pub proof fn lemma_agreement_is_counted(fft: F32, autocorr: F32, bpm: F32)
    requires
        zero() < fft,
        zero() < autocorr,
    ensures
        agreement(fft, autocorr, bpm) == (if (fft - bpm).abs() < ratio(2, 1) {
            1int
        } else {
            0
        }) + (if (autocorr - bpm).abs() < ratio(2, 1) {
            1int
        } else {
            0
        }),
{
}

/// A fast tempo that stands against its half stands with more support of its own too,
/// and with no more support than the half does not stand.
pub proof fn lemma_fast_tempo_needs_support(a: ScoredCandidate, b: ScoredCandidate, half: ScoredCandidate)
    requires
        in_unit(a.fft_norm) && in_unit(a.autocorr_norm),
        in_unit(b.fft_norm) && in_unit(b.autocorr_norm),
        in_unit(half.fft_norm) && in_unit(half.autocorr_norm),
        a.fft_norm <= b.fft_norm,
        a.autocorr_norm <= b.autocorr_norm,
    ensures
        keeps_high(a, half) ==> keeps_high(b, half),
        b.fft_norm <= half.fft_norm ==> !keeps_high(b, half),
        b.autocorr_norm <= half.autocorr_norm ==> !keeps_high(b, half),
{
    lemma_support_of_half(a.fft_norm, b.fft_norm, half.fft_norm);
    lemma_support_of_half(a.autocorr_norm, b.autocorr_norm, half.autocorr_norm);
}

proof fn lemma_support_of_half(a: F32, b: F32, half: F32)
    requires
        in_unit(a),
        in_unit(b),
        in_unit(half),
        a <= b,
    ensures
        ({
            let small = ratio(1, 1_000_000);
            let x = (a + small) / (half + small);
            let y = (b + small) / (half + small);
            &&& x > ratio(2, 1) ==> y > ratio(2, 1)
            &&& b <= half ==> !(y > ratio(2, 1))
        }),
{
    let small = ratio(1, 1_000_000);
    lemma_zero_and_one();
    lemma_ratio_above_zero(1, 1_000_000);
    lemma_ratio_in_unit(1, 1_000_000);
    lemma_sum_grows(half, small);
    lemma_sums_keep_order(a, small, b, small);
    crate::float_order::lemma_unit_within(half);
    crate::float_order::lemma_unit_within(b);
    crate::float_order::lemma_unit_within(small);
    crate::float_sizes::lemma_sum_within(half, small, 149);
    crate::float_sizes::lemma_sum_within(b, small, 149);
    crate::float_order::lemma_finite_below(a + small, b + small);
    lemma_quotient_is_number(a + small, half + small);
    lemma_quotient_is_number(b + small, half + small);
    lemma_quotient_keeps_order(a + small, b + small, half + small);
    crate::float_order::lemma_whole(2);
    lemma_pow2_pos(149);
    if b <= half {
        lemma_sums_keep_order(b, small, half, small);
        crate::float_laws::lemma_never_more_than_once(b + small, half + small);
    }
}

/// A tempo has the multiplier of the narrowest range that it is in.
pub proof fn lemma_multiplier_of_a_range(g: LegacyBpmGuardrails, bpm: F32)
    requires
        bpm.is_finite(),
        g.soft_min <= g.preferred_min,
        g.preferred_max <= g.soft_max,
    ensures
        g.preferred_min <= bpm && bpm <= g.preferred_max ==> g.mul_for(bpm) == g.mul_preferred,
        bpm < g.soft_min || g.soft_max < bpm ==> g.mul_for(bpm) == g.mul_extreme,
        g.soft_min <= bpm && bpm < g.preferred_min ==> g.mul_for(bpm) == g.mul_soft
            || g.soft_max < bpm,
        g.preferred_max < bpm && bpm <= g.soft_max ==> g.mul_for(bpm) == g.mul_soft
            || bpm < g.soft_min,
{
}

// ----------------------------------------------------------------- support

proof fn lemma_nearest_entry(table: Seq<(F32, F32)>, bpm: F32, tolerance: F32, n: nat, i: int)
    requires
        0 <= i < n <= table.len(),
        tolerance.is_finite(),
        forall|k: int| 0 <= k < table.len() ==> !((#[trigger] table[k]).0 - bpm).is_nan(),
    ensures
        match nearest_entry(table, bpm, tolerance, n) {
            Some(p) => {
                &&& 0 <= p < n
                &&& (table[p].0 - bpm).abs() <= tolerance
                &&& (table[i].0 - bpm).abs() <= tolerance ==> (table[p].0 - bpm).abs() <= (
                table[i].0 - bpm).abs()
            },
            None => !((table[i].0 - bpm).abs() <= tolerance),
        },
    decreases n,
{
    let d = (table[n - 1].0 - bpm).abs();
    assert(!(table[n - 1].0 - bpm).is_nan());
    assert(d <= tolerance ==> d.is_finite()) by {
        if d <= tolerance && !d.is_finite() {
            lemma_no_infinity(d, tolerance);
        }
    }
    if n > 1 {
        lemma_nearest_entry(table, bpm, tolerance, (n - 1) as nat, if i < n - 1 {
            i
        } else {
            0
        });
        lemma_place_is_below(table, bpm, tolerance, (n - 1) as nat);
    }
}

proof fn lemma_no_infinity(d: F32, tolerance: F32)
    requires
        !d.is_nan(),
        !d.negative(),
        d <= tolerance,
        tolerance.is_finite(),
    ensures
        d.is_finite(),
{
    reveal(F32::units);
    crate::rounding::lemma_mag_units_nonnegative(d.mag());
    crate::rounding::lemma_mag_units_nonnegative(tolerance.mag());
    if !d.is_finite() {
        crate::rounding::lemma_mag_units_increases(tolerance.mag(), d.mag());
    }
}

proof fn lemma_place_is_below(table: Seq<(F32, F32)>, bpm: F32, tolerance: F32, n: nat)
    requires
        n <= table.len(),
        forall|k: int| 0 <= k < table.len() ==> !((#[trigger] table[k]).0 - bpm).is_nan(),
    ensures
        nearest_entry(table, bpm, tolerance, n) matches Some(p) ==> 0 <= p < n && (table[p].0
            - bpm).abs() <= tolerance && !(table[p].0 - bpm).is_nan(),
    decreases n,
{
    if n > 0 {
        lemma_place_is_below(table, bpm, tolerance, (n - 1) as nat);
        assert(!(table[n - 1].0 - bpm).is_nan());
    }
}

/// The support of a table for a tempo is the strength of an entry within the tolerance
/// that none is nearer than, as a part of the strongest; nothing, without one in reach.
pub proof fn lemma_support_is_of_the_nearest(table: Seq<(F32, F32)>, bpm: F32, tolerance: F32, i: int)
    requires
        0 <= i < table.len(),
        tolerance.is_finite(),
        forall|k: int| 0 <= k < table.len() ==> !((#[trigger] table[k]).0 - bpm).is_nan(),
        forall|k: int|
            0 <= k < table.len() && k != i ==> (table[i].0 - bpm).abs() < ((#[trigger] table[k]).0
                - bpm).abs(),
        ratio(1, 1_000_000_000_000) < table[0].1,
        table[0].1.is_finite(),
        zero() <= table[i].1,
        table[i].1 <= table[0].1,
    ensures
        (table[i].0 - bpm).abs() <= tolerance ==> support(table, bpm, tolerance) == table[i].1
            / table[0].1,
        !((table[i].0 - bpm).abs() <= tolerance) ==> support(table, bpm, tolerance) == zero(),
{
    lemma_zero_and_one();
    lemma_ratio_above_zero(1, 1_000_000_000_000);
    lemma_nearest_entry(table, bpm, tolerance, table.len(), i);
    lemma_place_is_below(table, bpm, tolerance, table.len());
    crate::float_laws::lemma_part_of_whole(table[i].1, table[0].1);
    crate::float_laws::lemma_whole_and_no_part(table[0].1);
    match nearest_entry(table, bpm, tolerance, table.len()) {
        Some(p) => {
            if p != i {
                assert((table[i].0 - bpm).abs() < (table[p].0 - bpm).abs());
            }
        },
        None => {},
    }
}

} // verus!
