//! What holds of the scores of keys: every frame counts, and the key that the frames
//! match best is the best of its mode.
use crate::analysis::result::Key;
use crate::float::F32;
use crate::float::clamp_unit;
use crate::float::of_int;
use crate::float::one;
use crate::float::ratio;
use crate::float::zero;
use crate::float_laws::in_unit;
use crate::float_laws::lemma_complement_in_unit;
use crate::float_laws::lemma_half;
use crate::float_laws::lemma_nonnegative;
use crate::float_laws::lemma_quotient_keeps_order;
use crate::float_laws::lemma_ratio_above_zero;
use crate::float_laws::lemma_ratio_in_unit;
use crate::float_laws::lemma_scaled_down;
use crate::float_laws::lemma_sum_grows;
use crate::float_laws::lemma_unit_is_finite;
use crate::float_laws::lemma_unit_product;
use crate::float_laws::lemma_whole_and_no_part;
use crate::float_laws::lemma_zero_and_one;
use crate::float_order::lemma_count;
use crate::float_order::lemma_difference;
use crate::float_order::lemma_less_left;
use crate::float_order::lemma_less_than_once;
use crate::float_order::lemma_no_distance;
use crate::float_order::lemma_no_subtraction;
use crate::float_order::lemma_products_keep_order;
use crate::float_order::lemma_quotient_is_number;
use crate::float_order::lemma_sums_keep_order;
use crate::sorting::lemma_sorted_order_finds;
use crate::sorting::lemma_sorted_order_lists_indices;
use crate::sorting::sorted_order;
use crate::sums::added;
use crate::sums::lemma_added_push;
use crate::vector::dot;
use super::detector::class_distribution;
use super::detector::class_sum;
use super::detector::fifths_bonus;
use super::detector::fifths_distance;
use super::detector::heuristic_detection;
use super::detector::key_at;
use super::detector::lead;
use super::detector::match_of;
use super::detector::mode_max;
use super::detector::ranked;
use super::detector::raw_scores;
use super::detector::refined_score;
use super::detector::scaled_scores;
use super::detector::score_table;
use super::detector::top_place;
use super::detector::total_weight;
use super::detector::weighted_detection;
use super::laws::lists_every_key;
use super::laws::scores_key;
use super::result::scores_of;
use super::segment_laws::lemma_score_in;
use super::segment_laws::score_in;
use vstd::prelude::*;

verus! {

/// What each of the first `n` frames has in common with a template, times its weight
/// where there are weights; a frame whose weight is not above zero has no entry.
pub open spec fn matches_of(
    chroma: Seq<Vec<F32>>,
    weights: Option<Seq<F32>>,
    template: Seq<F32>,
    n: nat,
) -> Seq<F32>
    decreases n,
{
    if n == 0 {
        Seq::empty()
    } else {
        let before = matches_of(chroma, weights, template, (n - 1) as nat);
        match weights {
            None => before.push(dot(chroma[n - 1]@, template)),
            Some(w) if zero() < w[n - 1] => before.push(w[n - 1] * dot(chroma[n - 1]@, template)),
            _ => before,
        }
    }
}

/// How well frames match a template: what they have in common with it, added up.
pub open spec fn total_match(chroma: Seq<Vec<F32>>, weights: Option<Seq<F32>>, template: Seq<F32>) -> F32 {
    added(zero(), matches_of(chroma, weights, template, chroma.len()))
}

proof fn lemma_match_adds_up(
    chroma: Seq<Vec<F32>>,
    weights: Option<Seq<F32>>,
    template: Seq<F32>,
    n: nat,
)
    ensures
        match_of(chroma, weights, template, n) == added(
            zero(),
            matches_of(chroma, weights, template, n),
        ),
    decreases n,
{
    if n > 0 {
        lemma_match_adds_up(chroma, weights, template, (n - 1) as nat);
        let before = matches_of(chroma, weights, template, (n - 1) as nat);
        let d = dot(chroma[n - 1]@, template);
        match weights {
            None => {
                lemma_added_push(zero(), before, d);
            },
            Some(w) => {
                lemma_added_push(zero(), before, w[n - 1] * d);
            },
        }
    }
}

/// Without weights every frame counts.
pub proof fn lemma_every_frame_counts(chroma: Seq<Vec<F32>>, template: Seq<F32>)
    ensures
        total_match(chroma, None, template) == added(
            zero(),
            Seq::new(chroma.len(), |i: int| dot(chroma[i]@, template)),
        ),
{
    lemma_matches_of_all(chroma, template, chroma.len());
}

proof fn lemma_matches_of_all(chroma: Seq<Vec<F32>>, template: Seq<F32>, n: nat)
    ensures
        matches_of(chroma, None, template, n) == Seq::new(n, |i: int| dot(chroma[i]@, template)),
    decreases n,
{
    if n > 0 {
        lemma_matches_of_all(chroma, template, (n - 1) as nat);
    }
    assert(matches_of(chroma, None, template, n) =~= Seq::new(
        n,
        |i: int| dot(chroma[i]@, template),
    ));
}

/// The first place of the mode of the key at place `k`.
pub open spec fn first_of_mode(k: int) -> int {
    if k < 12 {
        0
    } else {
        12
    }
}

proof fn lemma_top_place(scores: Seq<F32>, from: int, n: nat, j: int)
    requires
        1 <= n <= 12,
        from <= j < from + n,
        forall|i: int|
            from <= i < from + n && i != j ==> (#[trigger] scores[i]) < scores[j],
    ensures
        top_place(scores, from, n) == j,
    decreases n,
{
    if n > 1 {
        if j < from + n - 1 {
            lemma_top_place(scores, from, (n - 1) as nat, j);
        } else {
            lemma_top_within(scores, from, (n - 1) as nat);
            let t = top_place(scores, from, (n - 1) as nat);
            assert(scores[t] < scores[j]);
        }
    }
}

proof fn lemma_top_within(scores: Seq<F32>, from: int, n: nat)
    requires
        1 <= n,
    ensures
        from <= top_place(scores, from, n) < from + n,
    decreases n,
{
    if n > 1 {
        lemma_top_within(scores, from, (n - 1) as nat);
    }
}

proof fn lemma_mode_max(scores: Seq<F32>, from: int, n: nat)
    requires
        forall|i: int|
            from <= i < from + n ==> zero() <= (#[trigger] scores[i]) && scores[i].is_finite(),
    ensures
        zero() <= mode_max(scores, from, n),
        mode_max(scores, from, n).is_finite(),
        forall|i: int| from <= i < from + n ==> (#[trigger] scores[i]) <= mode_max(scores, from, n),
        mode_max(scores, from, n) == zero() || exists|i: int|
            from <= i < from + n && (#[trigger] scores[i]) == mode_max(scores, from, n),
    decreases n,
{
    lemma_zero_and_one();
    lemma_unit_is_finite(zero());
    if n > 0 {
        lemma_mode_max(scores, from, (n - 1) as nat);
        let before = mode_max(scores, from, (n - 1) as nat);
        let last = scores[from + n - 1];
        if !(before < last) && before != zero() {
            let i = choose|i: int|
                from <= i < from + n - 1 && (#[trigger] scores[i]) == before;
            assert(scores[i] == before);
        }
    }
}

/// The mode of the best match: its greatest score is that of the match.
proof fn lemma_mode_max_is(scores: Seq<F32>, from: int, j: int)
    requires
        from <= j < from + 12,
        forall|i: int|
            from <= i < from + 12 ==> zero() <= (#[trigger] scores[i]) && scores[i].is_finite(),
        forall|i: int|
            from <= i < from + 12 && i != j ==> (#[trigger] scores[i]) < scores[j],
    ensures
        mode_max(scores, from, 12) == scores[j],
{
    lemma_zero_and_one();
    lemma_mode_max(scores, from, 12);
    let m = mode_max(scores, from, 12);
    assert(scores[j] <= m);
    let other = if j == from {
        from + 1
    } else {
        from
    };
    assert(zero() <= scores[other] && scores[other] < scores[j]);
    let i = choose|i: int| from <= i < from + 12 && (#[trigger] scores[i]) == m;
    if i != j {
        assert(scores[i] < scores[j]);
    }
}

/// The bonus by fifths is from zero to the bonus of the best key itself.
proof fn lemma_fifths_bonus(dist: int)
    requires
        0 <= dist <= 2,
    ensures
        zero() <= fifths_bonus(dist),
        fifths_bonus(dist) <= fifths_bonus(0),
        fifths_bonus(0).is_finite(),
{
    lemma_zero_and_one();
    lemma_half();
    lemma_ratio_in_unit(5, 10);
    lemma_ratio_in_unit(20, 100);
    lemma_unit_is_finite(ratio(5, 10));
    lemma_unit_is_finite(ratio(20, 100));
    lemma_unit_is_finite(one());
    lemma_count(dist);
    lemma_count(0);
    lemma_count(1);
    lemma_count(2);
    let h = ratio(5, 10);
    let p = vstd::arithmetic::power2::pow2(149) as int;
    vstd::arithmetic::power2::lemma_pow2_pos(149);
    vstd::arithmetic::power2::lemma_pow2_unfold(149);
    assert(0 * p == 0 && 1 * p == p && dist * p <= 2 * p) by (nonlinear_arith)
        requires
            0 <= dist <= 2,
            p > 0,
    ;
    // twice a half is one
    lemma_products_keep_order(of_int(dist), h, of_int(2), h);
    assert((of_int(2) * h).units() == p) by {
        lemma_double_of_half();
    }
    let x = of_int(dist) * h;
    assert(in_unit(x));
    lemma_complement_in_unit(x);
    assert(of_int(0) == zero()) by {
        crate::float_laws::lemma_from_none();
        assert(F32::from_usize(0) == of_int(0));
    }
    lemma_scaled_down(zero(), h);
    assert((zero() * h).units() == 0) by {
        lemma_nonnegative(zero() * h);
    }
    let y = one() - of_int(0) * h;
    lemma_no_subtraction(one(), zero() * h);
    lemma_unit_is_finite(y);
    lemma_products_keep_order(ratio(20, 100), one() - x, ratio(20, 100), y);
    lemma_unit_product(ratio(20, 100), y);
    lemma_unit_is_finite(fifths_bonus(0));
}

proof fn lemma_double_of_half()
    ensures
        (of_int(2) * ratio(5, 10)).units() == vstd::arithmetic::power2::pow2(149),
        (of_int(2) * ratio(5, 10)).is_finite(),
{
    lemma_zero_and_one();
    lemma_half();
    lemma_count(2);
    let p = vstd::arithmetic::power2::pow2(149) as int;
    vstd::arithmetic::power2::lemma_pow2_pos(149);
    vstd::arithmetic::power2::lemma_pow2_unfold(149);
    lemma_nonnegative(of_int(2));
    lemma_nonnegative(ratio(5, 10));
    reveal(F32::spec_mul);
    let h = vstd::arithmetic::power2::pow2(148) as int;
    assert((2 * p) * h == p * p) by (nonlinear_arith)
        requires
            p == 2 * h,
    ;
    crate::rounding::lemma_rounded_exact(one().mag(), p);
    crate::float_laws::lemma_from_pattern(false, one().mag());
}

/// The refined score of the best key of a mode is not below any of its mode.
proof fn lemma_refined(scores: Seq<F32>, i: int, j: int)
    requires
        0 <= i < 24,
        0 <= j < 24,
        first_of_mode(i) == first_of_mode(j),
        forall|k: int|
            first_of_mode(j) <= k < first_of_mode(j) + 12 ==> zero() <= (#[trigger] scores[k])
                && scores[k].is_finite(),
        forall|k: int|
            first_of_mode(j) <= k < first_of_mode(j) + 12 && k != j ==> (#[trigger] scores[k])
                < scores[j],
    ensures
        refined_score(scores, i) <= refined_score(scores, j),
{
    let from = first_of_mode(j);
    lemma_zero_and_one();
    lemma_top_place(scores, from, 12, j);
    let dist = fifths_distance(i - from, j - from);
    assert(fifths_distance(j - from, j - from) == 0);
    assert(scores[i] <= scores[j]);
    lemma_fifths_bonus(0);
    lemma_products_keep_order(scores[j], fifths_bonus(0), scores[j], fifths_bonus(0));
    lemma_sum_grows(scores[j], scores[j] * fifths_bonus(0));
    if 0 <= dist <= 2 {
        lemma_fifths_bonus(dist);
        lemma_products_keep_order(scores[j], fifths_bonus(dist), scores[j], fifths_bonus(0));
        lemma_sums_keep_order(
            scores[i],
            scores[j] * fifths_bonus(dist),
            scores[j],
            scores[j] * fifths_bonus(0),
        );
    }
}

/// Ranking keeps the score of each key.
pub proof fn lemma_score_in_ranked(table: Seq<(Key, F32)>, k: int)
    requires
        table.len() == 24,
        forall|i: int| 0 <= i < 24 ==> (#[trigger] table[i]).0 == key_at(i as usize),
        0 <= k < 24,
    ensures
        score_in(ranked(table), key_at(k as usize)) == table[k].1,
{
    let ranks = ranked(table);
    let keys = scores_of(table);
    let order = sorted_order(keys, true, 24);
    lemma_sorted_order_lists_indices(keys, true, 24);
    let key = key_at(k as usize);
    let m = lemma_sorted_order_finds(keys, true, 24, k as usize);
    assert(ranks[m] == table[order[m] as int]);
    assert(table[k].0 == key);
    let i = choose|i: int| 0 <= i < ranks.len() && (#[trigger] ranks[i]).0 == key;
    assert(ranks[i] == table[order[i] as int]);
    assert(table[order[i] as int].0 == key_at(order[i]));
    assert(order[i] == k);
}

/// Among the keys of one mode, the one that the frames match best is ranked above all
/// others.
pub proof fn lemma_best_match_leads_its_mode(
    chroma: Seq<Vec<F32>>,
    templates: Seq<Seq<F32>>,
    weights: Option<Seq<F32>>,
    i: int,
    j: int,
)
    requires
        0 <= i < 24,
        0 <= j < 24,
        first_of_mode(i) == first_of_mode(j),
        forall|k: int|
            0 <= k < 24 ==> zero() <= total_match(chroma, weights, #[trigger] templates[k])
                && total_match(chroma, weights, templates[k]).is_finite(),
        forall|k: int|
            first_of_mode(j) <= k < first_of_mode(j) + 12 && k != j ==> total_match(
                chroma,
                weights,
                #[trigger] templates[k],
            ) < total_match(chroma, weights, templates[j]),
    ensures
        ({
            let d = weighted_detection(chroma, templates, weights);
            score_in(d.all_scores, key_at(i as usize)) <= score_in(
                d.all_scores,
                key_at(j as usize),
            )
        }),
{
    let raw = raw_scores(chroma, templates, weights);
    let scores = scaled_scores(raw);
    let from = first_of_mode(j);
    lemma_zero_and_one();
    assert forall|k: int| 0 <= k < 24 implies (#[trigger] raw[k]) == total_match(
        chroma,
        weights,
        templates[k],
    ) by {
        lemma_match_adds_up(chroma, weights, templates[k], chroma.len());
    }
    assert forall|k: int| 0 <= k < 24 implies zero() <= (#[trigger] raw[k]) && raw[k].is_finite() by {
        assert(zero() <= total_match(chroma, weights, templates[k]));
    }
    assert forall|k: int| from <= k < from + 12 && k != j implies (#[trigger] raw[k]) < raw[j] by {
        assert(total_match(chroma, weights, templates[k]) < total_match(
            chroma,
            weights,
            templates[j],
        ));
    }
    lemma_mode_max_is(raw, from, j);
    lemma_ratio_above_zero(1, 1_000_000_000);
    let major = mode_max(raw, 0, 12);
    let minor = mode_max(raw, 12, 12);
    if major > ratio(1, 1_000_000_000) && minor > ratio(1, 1_000_000_000) {
        assert forall|k: int| from <= k < from + 12 implies zero() <= (#[trigger] scores[k])
            && scores[k].is_finite() && (k != j ==> scores[k] < scores[j]) by {
            lemma_whole_and_no_part(raw[j]);
            lemma_unit_is_finite(one());
            assert(scores[j] == one());
            if k != j {
                assert(raw[k] < raw[j]);
                lemma_less_than_once(raw[k], raw[j]);
                assert(in_unit(scores[k]));
                lemma_unit_is_finite(scores[k]);
            }
        }
    }
    lemma_refined(scores, i, j);
    reveal(weighted_detection);
    let table = score_table(chroma, templates, weights);
    lemma_score_in_ranked(table, i);
    lemma_score_in_ranked(table, j);
}

/// How sure a key is falls as the next best score rises: it is nothing where that is as
/// great, and complete where there is none.
pub proof fn lemma_lead_by_distance(score: F32, low: F32, high: F32)
    requires
        zero() < score,
        score.is_finite(),
        zero() <= low,
        low <= high,
        high <= score,
    ensures
        lead(score, high) <= lead(score, low),
        in_unit(lead(score, low)),
        lead(score, score) == zero(),
        lead(score, zero()) == one(),
{
    lemma_zero_and_one();
    crate::float_order::lemma_finite_below(high, score);
    crate::float_order::lemma_finite_below(low, high);
    lemma_no_distance(score);
    lemma_no_subtraction(score, zero());
    crate::float_laws::lemma_negated(low);
    crate::float_laws::lemma_negated(high);
    lemma_difference(score, low);
    lemma_difference(score, high);
    lemma_less_left(score, low, high);
    lemma_quotient_keeps_order(score - high, score - low, score);
    lemma_quotient_is_number(score - high, score);
    lemma_quotient_is_number(score - low, score);
    lemma_whole_and_no_part(score);
    crate::float_order::lemma_same_above_zero(score, score - zero());
    crate::float_laws::lemma_clamp_unit((score - low) / score);
    assert(score - score == zero()) by {
        reveal(F32::spec_add);
        crate::float_laws::lemma_negated(score);
        lemma_nonnegative(score);
    }
}

/// The energy of a pitch class in each of the first `n` frames, times its weight where
/// there are weights; a frame whose weight is not above zero has no entry.
pub open spec fn energies_of(chroma: Seq<Vec<F32>>, weights: Option<Seq<F32>>, class: int, n: nat) -> Seq<F32>
    decreases n,
{
    if n == 0 {
        Seq::empty()
    } else {
        let before = energies_of(chroma, weights, class, (n - 1) as nat);
        match weights {
            None => before.push(chroma[n - 1]@[class]),
            Some(w) if w[n - 1] <= zero() => before,
            Some(w) => before.push(w[n - 1] * chroma[n - 1]@[class]),
        }
    }
}

/// The energy of a pitch class is added up over all frames that count.
pub proof fn lemma_class_energies_add_up(
    chroma: Seq<Vec<F32>>,
    weights: Option<Seq<F32>>,
    class: int,
    n: nat,
)
    ensures
        class_sum(chroma, weights, class, n) == added(
            zero(),
            energies_of(chroma, weights, class, n),
        ),
    decreases n,
{
    if n > 0 {
        lemma_class_energies_add_up(chroma, weights, class, (n - 1) as nat);
        let before = energies_of(chroma, weights, class, (n - 1) as nat);
        match weights {
            None => {
                lemma_added_push(zero(), before, chroma[n - 1]@[class]);
            },
            Some(w) => {
                lemma_added_push(zero(), before, w[n - 1] * chroma[n - 1]@[class]);
            },
        }
    }
}

/// The mode of the best key gives way to the other mode on its tonic exactly where the
/// third of that mode is the stronger one by more than the margin and its key has enough
/// of the best score.
pub proof fn lemma_stronger_third_turns_the_mode(
    chroma: Seq<Vec<F32>>,
    templates: Seq<Seq<F32>>,
    weights: Option<Seq<F32>>,
    margin: F32,
    flip_ratio: F32,
    enable_bonus: bool,
    bonus: F32,
)
    requires
        zero() < clamp_unit(flip_ratio),
        ratio(1, 1_000_000_000) < total_weight(chroma, weights),
    ensures
        ({
            let d = heuristic_detection(
                chroma,
                templates,
                weights,
                margin,
                flip_ratio,
                enable_bonus,
                bonus,
            );
            let best = d.all_scores[0].0;
            let other = match best {
                Key::Major(t) => Key::Minor(t),
                Key::Minor(t) => Key::Major(t),
            };
            let energy = class_distribution(chroma, weights);
            let minor = energy[(best.tonic() + 3) % 12];
            let major = energy[(best.tonic() + 4) % 12];
            let more = one() + margin.max(zero());
            let turned = {
                &&& match best {
                    Key::Major(_) => minor > major * more,
                    Key::Minor(_) => major > minor * more,
                }
                &&& zero() < score_in(d.all_scores, best)
                &&& score_in(d.all_scores, best) * clamp_unit(flip_ratio) <= score_in(
                    d.all_scores,
                    other,
                )
            };
            d.key == if turned {
                other
            } else {
                best
            }
        }),
{
    reveal(heuristic_detection);
    lemma_zero_and_one();
    super::laws::lemma_heuristic_detection(
        chroma,
        templates,
        weights,
        margin,
        flip_ratio,
        enable_bonus,
        bonus,
    );
    let d = heuristic_detection(
        chroma,
        templates,
        weights,
        margin,
        flip_ratio,
        enable_bonus,
        bonus,
    );
    let ranks = d.all_scores;
    let best = ranks[0].0;
    lemma_ranks_are_keys(ranks, best);
    lemma_score_first(ranks, best);
    lemma_score_first(ranks, super::detector::parallel_key(best));
}

/// The keys of a ranking are keys of the table.
proof fn lemma_ranks_are_keys(ranks: Seq<(Key, F32)>, key: Key)
    requires
        lists_every_key(ranks),
        ranks[0].0 == key,
    ensures
        key.tonic() < 12,
{
    if key.tonic() >= 12 {
        lemma_no_other_key(ranks, 24);
    }
}

/// Each of the first `n` keys has a place of its own in a ranking, none at the first
/// place where that is of no key.
proof fn lemma_no_other_key(ranks: Seq<(Key, F32)>, n: nat)
    requires
        lists_every_key(ranks),
        n <= 24,
        ranks[0].0.tonic() >= 12,
    ensures
        n < 24,
{
    let places = Seq::new(
        n,
        |k: int|
            choose|i: int| 0 <= i < ranks.len() && (#[trigger] ranks[i]).0 == key_at(k as usize),
    );
    assert forall|k: int| 0 <= k < n implies 1 <= #[trigger] places[k] < 24 && ranks[places[k]].0
        == key_at(k as usize) by {
        assert(scores_key(ranks, k as usize));
    }
    assert forall|a: int, b: int| 0 <= a < b < n implies places[a] != places[b] by {
        assert(ranks[places[a]].0 == key_at(a as usize));
        assert(ranks[places[b]].0 == key_at(b as usize));
    }
    lemma_few_places(places, 23);
}

/// Different numbers from one to `m` are no more than `m`.
proof fn lemma_few_places(s: Seq<int>, m: nat)
    requires
        forall|k: int| 0 <= k < s.len() ==> 1 <= #[trigger] s[k] <= m,
        forall|a: int, b: int| 0 <= a < b < s.len() ==> s[a] != s[b],
    ensures
        s.len() <= m,
    decreases m,
{
    if s.len() > 0 {
        assert(1 <= s[0] <= m);
        if exists|k: int| 0 <= k < s.len() && #[trigger] s[k] == m {
            let k = choose|k: int| 0 <= k < s.len() && #[trigger] s[k] == m;
            lemma_few_places(s.remove(k), (m - 1) as nat);
        } else {
            lemma_few_places(s, (m - 1) as nat);
        }
    }
}

proof fn lemma_score_first(ranks: Seq<(Key, F32)>, key: Key)
    requires
        lists_every_key(ranks),
        key.tonic() < 12,
    ensures
        super::detector::first_score(ranks, key, false, 0, zero()) == score_in(ranks, key),
{
    let k: usize = match key {
        Key::Major(t) => t as usize,
        Key::Minor(t) => (t + 12) as usize,
    };
    assert(key_at(k) == key);
    lemma_score_in(ranks, k);
}

} // verus!
