//! The scores of bounded chroma are finite.
use super::detector::fifths_bonus;
use super::detector::fifths_distance;
use super::detector::match_of;
use super::detector::mode_max;
use super::detector::raw_scores;
use super::detector::refined_score;
use super::detector::scaled_scores;
use super::detector::score_table;
use super::detector::top_place;
use super::templates::c_major_profile;
use super::templates::c_minor_profile;
use super::templates::profiles_of;
use super::templates::rotated;
use super::templates::template_of;
use super::templates::TemplateSet;
use crate::float::one;
use crate::float::ratio;
use crate::float::zero;
use crate::float::F32;
use crate::float_laws::lemma_product_at_least;
use crate::float_laws::lemma_ratio_above_zero;
use crate::float_laws::lemma_ratio_at_least;
use crate::float_laws::lemma_sum_grows;
use crate::float_laws::lemma_zero_and_one;
use crate::float_sizes::lemma_count_within;
use crate::float_sizes::lemma_dot_within;
use crate::float_sizes::lemma_negated_within;
use crate::float_sizes::lemma_product_within;
use crate::float_sizes::lemma_quotient_within;
use crate::float_sizes::lemma_ratio_within;
use crate::float_sizes::lemma_root_at_least_one;
use crate::float_sizes::lemma_running_sum_within;
use crate::float_sizes::lemma_small_within;
use crate::float_sizes::lemma_sum_within;
use crate::float_sizes::lemma_within_bound;
use crate::float_sizes::lemma_within_more;
use crate::float_sizes::within;
use crate::vector::dot;
use crate::vector::dot_of;
use crate::vector::energy;
use crate::vector::shorter_len;
use vstd::arithmetic::power2::pow2;
use vstd::prelude::*;

verus! {

/// Chroma of up to a million in size, with weights that are not above a million.
pub open spec fn is_bounded(chroma: Seq<Vec<F32>>, weights: Option<Seq<F32>>) -> bool {
    &&& forall|f: int, c: int|
        0 <= f < chroma.len() && 0 <= c < chroma[f]@.len() ==> (#[trigger] chroma[f]@[c]).abs()
            <= ratio(1_000_000, 1)
    &&& weights matches Some(w) ==> forall|f: int|
        0 <= f < chroma.len() && #[trigger] w[f] > zero() ==> w[f] <= ratio(1_000_000, 1)
}

/// An entry of a profile: from one to eight.
spec fn is_entry(x: F32) -> bool {
    &&& within(x, 152)
    &&& !x.is_nan()
    &&& pow2(149) <= x.units()
}

proof fn lemma_entry(n: u32, d: u64)
    requires
        0 < d <= n <= 8 * d,
    ensures
        is_entry(ratio(n, d)),
{
    vstd::arithmetic::power2::lemma2_to64();
    lemma_ratio_within(n, d, 3);
    lemma_ratio_at_least(n, d, 0);
}

spec fn are_entries(profile: Seq<F32>) -> bool {
    profile.len() == 12 && forall|i: int| 0 <= i < 12 ==> is_entry(#[trigger] profile[i])
}

proof fn lemma_profiles_are_entries(set: TemplateSet)
    ensures
        are_entries(c_major_profile(set)),
        are_entries(c_minor_profile(set)),
{
    match set {
        TemplateSet::KrumhanslKessler => {
            lemma_entry(635, 100);
            lemma_entry(223, 100);
            lemma_entry(348, 100);
            lemma_entry(233, 100);
            lemma_entry(438, 100);
            lemma_entry(409, 100);
            lemma_entry(252, 100);
            lemma_entry(519, 100);
            lemma_entry(239, 100);
            lemma_entry(366, 100);
            lemma_entry(229, 100);
            lemma_entry(288, 100);
            lemma_entry(633, 100);
            lemma_entry(268, 100);
            lemma_entry(352, 100);
            lemma_entry(538, 100);
            lemma_entry(260, 100);
            lemma_entry(353, 100);
            lemma_entry(254, 100);
            lemma_entry(475, 100);
            lemma_entry(398, 100);
            lemma_entry(269, 100);
            lemma_entry(334, 100);
            lemma_entry(317, 100);
        },
        TemplateSet::Temperley => {
            lemma_entry(50, 10);
            lemma_entry(20, 10);
            lemma_entry(35, 10);
            lemma_entry(45, 10);
            lemma_entry(40, 10);
            lemma_entry(15, 10);
        },
    }
}

/// The sum of the squares of entries is one or more.
proof fn lemma_entries_energy(a: Seq<F32>, n: nat)
    requires
        n <= a.len(),
        forall|i: int| 0 <= i < a.len() ==> is_entry(#[trigger] a[i]),
    ensures
        zero() <= dot_of(a, a, n),
        n > 0 ==> one() <= dot_of(a, a, n),
    decreases n,
{
    lemma_zero_and_one();
    if n > 0 {
        lemma_entries_energy(a, (n - 1) as nat);
        let x = a[n - 1];
        assert(is_entry(x));
        lemma_product_at_least(x, x, 149, 149);
        lemma_sum_grows(dot_of(a, a, (n - 1) as nat), x * x);
    } else {
        reveal(F32::units);
        crate::rounding::lemma_mag_units_scaled(0, 0);
    }
}

/// The values of a template are bounded by eight.
proof fn lemma_template_within(profile: Seq<F32>, tonic: int)
    requires
        are_entries(profile),
        0 <= tonic < 12,
    ensures
        template_of(profile, tonic).len() == 12,
        forall|i: int| 0 <= i < 12 ==> within(#[trigger] template_of(profile, tonic)[i], 152),
{
    let a = rotated(profile, tonic);
    assert forall|i: int| 0 <= i < 12 implies is_entry(#[trigger] a[i]) by {
        assert(a[i] == profile[(i + 12 - tonic) % 12]);
    }
    lemma_zero_and_one();
    lemma_entries_energy(a, 12);
    assert forall|i: int| 0 <= i < 12 implies within(#[trigger] a[i], 152) by {
        assert(is_entry(a[i]));
    }
    lemma_dot_within(a, a, 152, 152, 155, 12);
    assert(energy(a) == dot_of(a, a, 12));
    let norm = energy(a).sqrt();
    lemma_root_at_least_one(energy(a));
    assert forall|i: int| 0 <= i < 12 implies within(
        #[trigger] template_of(profile, tonic)[i],
        152,
    ) by {
        assert(within(a[i], 152));
        lemma_quotient_within(a[i], norm, 152, 149, 152);
    }
}

/// The match of bounded chroma with a template is bounded, for however many frames.
proof fn lemma_match_within(
    chroma: Seq<Vec<F32>>,
    weights: Option<Seq<F32>>,
    template: Seq<F32>,
    n: nat,
)
    requires
        is_bounded(chroma, weights),
        n <= chroma.len(),
        forall|i: int| 0 <= i < template.len() ==> within(#[trigger] template[i], 152),
    ensures
        within(match_of(chroma, weights, template, n), 242),
    decreases n,
{
    lemma_small_within();
    if n > 0 {
        lemma_match_within(chroma, weights, template, (n - 1) as nat);
        let acc = match_of(chroma, weights, template, (n - 1) as nat);
        let row = chroma[n - 1]@;
        let million = ratio(1_000_000, 1);
        lemma_zero_and_one();
        vstd::arithmetic::power2::lemma2_to64();
        lemma_ratio_within(1_000_000, 1, 20);
        lemma_ratio_above_zero(1_000_000, 1);
        assert forall|c: int| 0 <= c < row.len() implies within(#[trigger] row[c], 169) by {
            assert(chroma[n - 1]@[c].abs() <= million);
            lemma_within_bound(row[c], million, 169);
        }
        lemma_dot_within(row, template, 169, 152, 172, shorter_len(row, template));
        let d = dot(row, template);
        lemma_within_more(d, 197, 217);
        match weights {
            None => {
                lemma_running_sum_within(acc, d, 217);
            },
            Some(w) => {
                if w[n - 1] > zero() {
                    crate::float_laws::lemma_nonnegative(w[n - 1]);
                    lemma_within_bound(w[n - 1], million, 169);
                    lemma_product_within(w[n - 1], d, 169, 197, 217);
                    lemma_running_sum_within(acc, w[n - 1] * d, 217);
                }
            },
        }
    }
}

proof fn lemma_mode_max_within(scores: Seq<F32>, from: int, n: nat, k: nat)
    requires
        forall|i: int| from <= i < from + n ==> within(#[trigger] scores[i], k),
    ensures
        within(mode_max(scores, from, n), k),
    decreases n,
{
    lemma_small_within();
    if n > 0 {
        lemma_mode_max_within(scores, from, (n - 1) as nat, k);
    }
}

proof fn lemma_scaled_within(scores: Seq<F32>, i: int)
    requires
        scores.len() == 24,
        forall|j: int| 0 <= j < 24 ==> within(#[trigger] scores[j], 242),
        0 <= i < 24,
    ensures
        within(scaled_scores(scores)[i], 272),
{
    let major = mode_max(scores, 0, 12);
    let minor = mode_max(scores, 12, 12);
    let least = ratio(1, 1_000_000_000);
    lemma_mode_max_within(scores, 0, 12, 242);
    lemma_mode_max_within(scores, 12, 12, 242);
    lemma_within_more(scores[i], 242, 272);
    vstd::arithmetic::power2::lemma2_to64();
    lemma_ratio_at_least(1, 1_000_000_000, 30);
    if major > least && minor > least {
        if i < 12 {
            lemma_quotient_within(scores[i], major, 242, 119, 272);
        } else {
            lemma_quotient_within(scores[i], minor, 242, 119, 272);
        }
    }
}

proof fn lemma_top_place(scores: Seq<F32>, from: int, n: nat)
    requires
        n >= 1,
    ensures
        from <= top_place(scores, from, n) < from + n,
    decreases n,
{
    if n > 1 {
        lemma_top_place(scores, from, (n - 1) as nat);
    }
}

proof fn lemma_bonus_within(dist: int)
    requires
        0 <= dist <= 2,
    ensures
        within(fifths_bonus(dist), 151),
{
    vstd::arithmetic::power2::lemma2_to64();
    lemma_small_within();
    lemma_count_within(dist, 1);
    lemma_ratio_within(5, 10, 0);
    lemma_ratio_within(20, 100, 0);
    let part = F32::from_i32(dist as i32) * ratio(5, 10);
    lemma_product_within(F32::from_i32(dist as i32), ratio(5, 10), 150, 149, 150);
    lemma_negated_within(part, 150);
    lemma_within_more(one(), 149, 150);
    lemma_sum_within(one(), part.neg(), 150);
    lemma_product_within(ratio(20, 100), one() - part, 149, 151, 151);
}

proof fn lemma_refined_within(scores: Seq<F32>, i: int)
    requires
        scores.len() == 24,
        forall|j: int| 0 <= j < 24 ==> within(#[trigger] scores[j], 272),
        0 <= i < 24,
    ensures
        within(refined_score(scores, i), 275),
{
    let from: int = if i < 12 {
        0
    } else {
        12
    };
    let top = top_place(scores, from, 12);
    lemma_top_place(scores, from, 12);
    let dist = fifths_distance(i - from, top - from);
    assert(0 <= dist);
    lemma_within_more(scores[i], 272, 274);
    lemma_within_more(scores[i], 272, 275);
    if dist <= 2 {
        lemma_bonus_within(dist);
        assert(within(scores[top], 272));
        lemma_product_within(scores[top], fifths_bonus(dist), 272, 151, 274);
        lemma_sum_within(scores[i], scores[top] * fifths_bonus(dist), 274);
    }
}

/// Every score of bounded chroma is finite.
pub proof fn lemma_scores_are_finite(
    chroma: Seq<Vec<F32>>,
    weights: Option<Seq<F32>>,
    set: TemplateSet,
    i: int,
)
    requires
        is_bounded(chroma, weights),
        0 <= i < 24,
    ensures
        score_table(chroma, profiles_of(set), weights)[i].1.is_finite(),
{
    let raw = raw_scores(chroma, profiles_of(set), weights);
    lemma_profiles_are_entries(set);
    assert forall|j: int| 0 <= j < 24 implies within(#[trigger] raw[j], 242) by {
        if j < 12 {
            lemma_template_within(c_major_profile(set), j);
        } else {
            lemma_template_within(c_minor_profile(set), j - 12);
        }
        lemma_match_within(chroma, weights, profiles_of(set)[j], chroma.len());
    }
    let scores = scaled_scores(raw);
    assert forall|j: int| 0 <= j < 24 implies within(#[trigger] scores[j], 272) by {
        lemma_scaled_within(raw, j);
    }
    lemma_refined_within(scores, i);
}

} // verus!
