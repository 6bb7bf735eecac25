//! What holds of every detected key.
use super::detector::chroma_error;
use super::detector::class_distribution;
use super::detector::detection_of_choice;
use super::detector::heuristic_detection;
use super::detector::key_at;
use super::detector::lead;
use super::detector::mean_detection;
use super::detector::mean_scores;
use super::detector::ranked;
use super::detector::score_table;
use super::detector::third_prefers_other;
use super::detector::vote;
use super::detector::vote_winner;
use super::detector::weighted_detection;
use super::detector::with_leading_tones;
use super::key_changes::changes_of;
use super::key_changes::primary_place;
use super::key_changes::segments_in;
use super::key_changes::with_segment_keys;
use super::key_clarity::clarity_of;
use super::median::common_detection;
use super::median::common_place;
use super::median::key_count;
use super::result::scores_of;
use super::result::Detection;
use super::segments::first_detection;
use super::segments::optional_detection;
use super::segments::table_of;
use super::segments::ModeOptions;
use crate::analysis::result::Key;
use crate::float::one;
use crate::float::zero;
use crate::float::F32;
use crate::float_laws::lemma_clamp_never_outside;
use crate::float_laws::lemma_count_order;
use crate::float_laws::lemma_itself_once;
use crate::float_laws::lemma_never_more_than_once;
use crate::float_laws::lemma_number_of_no_size;
use crate::float_laws::lemma_quotient_keeps_order;
use crate::float_laws::lemma_zero_and_one;
use crate::float_laws::lemma_zero_plus;
use crate::float_laws::never_outside;
use crate::sorting::lemma_sorted_order_finds;
use crate::sorting::lemma_sorted_order_is_stable;
use crate::sorting::lemma_sorted_order_lists_indices;
use crate::sorting::sorted_order;
use vstd::prelude::*;

verus! {

/// Each of the 24 keys has a score in `s`, and only one.
pub open spec fn lists_every_key(s: Seq<(Key, F32)>) -> bool {
    &&& s.len() == 24
    &&& forall|i: int, j: int| 0 <= i < j < 24 ==> (#[trigger] s[i]).0 != (#[trigger] s[j]).0
    &&& forall|k: usize| k < 24 ==> #[trigger] scores_key(s, k)
}

/// The key at place `k` has a score in `s`.
pub open spec fn scores_key(s: Seq<(Key, F32)>, k: usize) -> bool {
    exists|i: int| 0 <= i < s.len() && (#[trigger] s[i]).0 == key_at(k)
}

/// No score is above one that stands before it.
pub open spec fn highest_first(s: Seq<(Key, F32)>) -> bool {
    forall|i: int, j: int| 0 <= i < j < s.len() ==> !((#[trigger] s[i]).1 < (#[trigger] s[j]).1)
}

/// Ranking loses no key.
pub proof fn lemma_ranked_keeps_keys(table: Seq<(Key, F32)>)
    requires
        lists_every_key(table),
    ensures
        lists_every_key(ranked(table)),
{
    let keys = scores_of(table);
    let order = sorted_order(keys, true, 24);
    lemma_sorted_order_lists_indices(keys, true, 24);
    let r = ranked(table);
    assert forall|i: int, j: int| 0 <= i < j < 24 implies (#[trigger] r[i]).0 != (#[trigger] r[j]).0 by {
        assert(order[i] != order[j]);
        assert(r[i] == table[order[i] as int]);
        assert(r[j] == table[order[j] as int]);
    }
    assert forall|k: usize| k < 24 implies #[trigger] scores_key(r, k) by {
        assert(scores_key(table, k));
        let m = choose|m: int| 0 <= m < 24 && (#[trigger] table[m]).0 == key_at(k);
        let i = lemma_sorted_order_finds(keys, true, 24, m as usize);
        assert(r[i] == table[order[i] as int]);
        assert(r[i].0 == key_at(k));
    }
}

/// Ranking puts the highest score first.
pub proof fn lemma_ranked_is_highest_first(table: Seq<(Key, F32)>)
    requires
        table.len() <= usize::MAX,
        forall|i: int| 0 <= i < table.len() ==> !(#[trigger] table[i]).1.is_nan(),
    ensures
        highest_first(ranked(table)),
{
    let keys = scores_of(table);
    let order = sorted_order(keys, true, table.len());
    lemma_sorted_order_lists_indices(keys, true, table.len());
    lemma_sorted_order_is_stable(keys, true, table.len());
    let r = ranked(table);
    assert forall|i: int, j: int| 0 <= i < j < r.len() implies !((#[trigger] r[i]).1 < (
    #[trigger] r[j]).1) by {
        assert(order[i] < table.len() && order[j] < table.len());
        assert(keys[order[i] as int] == r[i].1);
        assert(keys[order[j] as int] == r[j].1);
    }
}

/// A score table holds every key.
pub proof fn lemma_table_lists_every_key(scores: Seq<F32>)
    ensures
        lists_every_key(table_of(scores)),
{
    let t = table_of(scores);
    assert forall|k: usize| k < 24 implies #[trigger] scores_key(t, k) by {
        assert(t[k as int].0 == key_at(k));
    }
}

/// A lead is not outside the range from zero to one.
pub proof fn lemma_lead_never_outside(score: F32, other: F32)
    ensures
        never_outside(lead(score, other)),
{
    lemma_zero_and_one();
    lemma_clamp_never_outside((score - other) / score);
}

/// The clarity of a key is not outside the range from zero to one.
pub proof fn lemma_clarity_never_outside(scores: Seq<(Key, F32)>)
    ensures
        never_outside(clarity_of(scores)),
{
    lemma_zero_and_one();
    let s = scores_of(scores);
    let range = super::key_clarity::greatest(s, s.len()) - super::key_clarity::least(s, s.len());
    lemma_clamp_never_outside(
        (s[0] - crate::sorting::sum_of(s) / F32::from_usize(s.len() as usize)) / range,
    );
}

/// A detection with templates scores every key, takes one of the best three, and
/// is confident from zero to one.
pub proof fn lemma_weighted_detection(
    chroma: Seq<Vec<F32>>,
    templates: Seq<Seq<F32>>,
    weights: Option<Seq<F32>>,
)
    ensures
        ({
            let d = weighted_detection(chroma, templates, weights);
            &&& lists_every_key(d.all_scores)
            &&& d.top_keys == d.all_scores.take(3)
            &&& d.top_keys[0].0 == d.key || d.top_keys[1].0 == d.key || d.top_keys[2].0 == d.key
            &&& never_outside(d.confidence)
        }),
{
    reveal(weighted_detection);
    let table = score_table(chroma, templates, weights);
    assert forall|k: usize| k < 24 implies #[trigger] scores_key(table, k) by {
        assert(table[k as int].0 == key_at(k));
    }
    lemma_ranked_keeps_keys(table);
    let d = weighted_detection(chroma, templates, weights);
    let ranks = d.all_scores;
    reveal_with_fuel(vote_winner, 4);
    assert(0 <= vote_winner(ranks, 3) < 3);
    assert(d.top_keys == ranks.take(3));
    lemma_lead_never_outside(
        super::detector::first_score(ranks, d.key, false, 0, ranks[0].1),
        super::detector::first_score(ranks, d.key, true, 0, zero()),
    );
}

/// A detection that may change the mode scores every key and is confident from
/// zero to one.
pub proof fn lemma_heuristic_detection(
    chroma: Seq<Vec<F32>>,
    templates: Seq<Seq<F32>>,
    weights: Option<Seq<F32>>,
    margin: F32,
    flip_ratio: F32,
    enable_bonus: bool,
    bonus: F32,
)
    ensures
        ({
            let d = heuristic_detection(
                chroma,
                templates,
                weights,
                margin,
                flip_ratio,
                enable_bonus,
                bonus,
            );
            lists_every_key(d.all_scores) && never_outside(d.confidence)
        }),
{
    reveal(heuristic_detection);
    lemma_weighted_detection(chroma, templates, weights);
    let base = weighted_detection(chroma, templates, weights);
    let wsum = super::detector::total_weight(chroma, weights);
    let avg = class_distribution(chroma, weights);
    let table = with_leading_tones(base.all_scores, avg, wsum, bonus);
    assert forall|i: int| 0 <= i < 24 implies (#[trigger] table[i]).0 == base.all_scores[i].0 by {}
    assert forall|k: usize| k < 24 implies #[trigger] scores_key(table, k) by {
        assert(scores_key(base.all_scores, k));
        let m = choose|m: int| 0 <= m < 24 && (#[trigger] base.all_scores[m]).0 == key_at(k);
        assert(table[m].0 == key_at(k));
    }
    assert forall|i: int, j: int| 0 <= i < j < 24 implies (#[trigger] table[i]).0 != (
    #[trigger] table[j]).0 by {
        assert(base.all_scores[i].0 != base.all_scores[j].0);
    }
    lemma_ranked_keeps_keys(table);
    lemma_ranked_keeps_keys(base.all_scores);
    assert forall|ranks: Seq<(Key, F32)>, key: Key|
        never_outside((#[trigger] detection_of_choice(ranks, key)).confidence) by {
        lemma_lead_never_outside(
            super::detector::first_score(ranks, key, false, 0, zero()),
            super::detector::best_other(ranks, key, ranks.len()),
        );
    }
}

/// The mode heuristic keeps the tonic of the key with the highest score, and
/// leaves its mode only where the third of the other mode is the stronger one by
/// more than the margin.
pub proof fn lemma_third_decides_the_mode(
    chroma: Seq<Vec<F32>>,
    templates: Seq<Seq<F32>>,
    weights: Option<Seq<F32>>,
    margin: F32,
    flip_ratio: F32,
    enable_bonus: bool,
    bonus: F32,
)
    ensures
        ({
            let d = heuristic_detection(
                chroma,
                templates,
                weights,
                margin,
                flip_ratio,
                enable_bonus,
                bonus,
            );
            let best = d.all_scores[0].0;
            ||| d == weighted_detection(chroma, templates, weights)
            ||| {
                &&& d.key.tonic() == best.tonic()
                &&& d.key != best ==> third_prefers_other(
                    class_distribution(chroma, weights),
                    best,
                    margin.max(zero()),
                )
            }
        }),
{
    reveal(heuristic_detection);
}

/// A detection as the mode options say scores every key and is confident from
/// zero to one.
pub proof fn lemma_optional_detection(
    chroma: Seq<Vec<F32>>,
    templates: Seq<Seq<F32>>,
    weights: Option<Seq<F32>>,
    options: ModeOptions,
)
    ensures
        ({
            let d = optional_detection(chroma, templates, weights, options);
            lists_every_key(d.all_scores) && never_outside(d.confidence)
        }),
{
    reveal(optional_detection);
    lemma_weighted_detection(chroma, templates, weights);
    lemma_heuristic_detection(
        chroma,
        templates,
        weights,
        options.third_ratio_margin,
        if options.enable_mode_heuristic {
            options.flip_min_score_ratio
        } else {
            zero()
        },
        options.enable_minor_harmonic_bonus,
        options.minor_leading_tone_bonus_weight,
    );
}

/// A detection from scores by place scores every key, takes the best, and is
/// confident from zero to one.
pub proof fn lemma_first_detection(scores: Seq<F32>)
    ensures
        ({
            let d = first_detection(ranked(table_of(scores)));
            &&& lists_every_key(d.all_scores)
            &&& d.key == d.all_scores[0].0
            &&& never_outside(d.confidence)
        }),
{
    lemma_table_lists_every_key(scores);
    lemma_ranked_keeps_keys(table_of(scores));
    let ranks = ranked(table_of(scores));
    lemma_lead_never_outside(ranks[0].1, ranks[1].1);
}

/// The key of most segments is in as many segments as any other.
pub proof fn lemma_common_key_is_most_common(found: Seq<Detection>, k: usize)
    requires
        k < 24,
    ensures
        key_count(found, common_detection(found).key, found.len()) >= key_count(
            found,
            key_at(k),
            found.len(),
        ),
{
    lemma_common_place(found, 24, k as int);
}

proof fn lemma_common_place(found: Seq<Detection>, n: nat, k: int)
    requires
        1 <= n <= 24,
        0 <= k < n,
    ensures
        0 <= common_place(found, n) < n,
        key_count(found, key_at(common_place(found, n) as usize), found.len()) >= key_count(
            found,
            key_at(k as usize),
            found.len(),
        ),
    decreases n,
{
    if n > 1 {
        lemma_common_place(found, (n - 1) as nat, if k < n - 1 {
            k
        } else {
            0
        });
    }
}

/// The primary key of a track with key changes is in as many segments as any other.
pub proof fn lemma_primary_key_is_most_common(segments: Seq<(F32, Key, F32)>, k: usize)
    requires
        k < 24,
    ensures
        segments_in(segments, key_at(primary_place(segments, 24) as usize), segments.len())
            >= segments_in(segments, key_at(k), segments.len()),
{
    lemma_primary_place(segments, 24, k as int);
}

proof fn lemma_primary_place(segments: Seq<(F32, Key, F32)>, n: nat, k: int)
    requires
        1 <= n <= 24,
        0 <= k < n,
    ensures
        0 <= primary_place(segments, n) < n,
        segments_in(segments, key_at(primary_place(segments, n) as usize), segments.len())
            >= segments_in(segments, key_at(k as usize), segments.len()),
    decreases n,
{
    if n > 1 {
        lemma_primary_place(segments, (n - 1) as nat, if k < n - 1 {
            k
        } else {
            0
        });
    }
}

/// Every key change leads to another key.
pub proof fn lemma_changes_change(segments: Seq<(F32, Key, F32)>, n: nat, i: int)
    requires
        0 <= i < changes_of(segments, n).len(),
    ensures
        changes_of(segments, n)[i].from_key != changes_of(segments, n)[i].to_key,
    decreases n,
{
    if n > 1 {
        let before = changes_of(segments, (n - 1) as nat);
        if i < before.len() {
            lemma_changes_change(segments, (n - 1) as nat, i);
        }
    }
}

/// No change is missed: where neighbouring segments are in different keys, there is
/// a change from the one key to the other, at the time of the later segment.
pub proof fn lemma_every_change_is_found(segments: Seq<(F32, Key, F32)>, n: nat, m: int) -> (i: int)
    requires
        n <= segments.len(),
        0 < m < n,
        segments[m - 1].1 != segments[m].1,
    ensures
        0 <= i < changes_of(segments, n).len(),
        changes_of(segments, n)[i].timestamp == segments[m].0,
        changes_of(segments, n)[i].from_key == segments[m - 1].1,
        changes_of(segments, n)[i].to_key == segments[m].1,
    decreases n,
{
    let before = changes_of(segments, (n - 1) as nat);
    if m < n - 1 {
        lemma_every_change_is_found(segments, (n - 1) as nat, m)
    } else {
        before.len() as int
    }
}

/// The key of the mean chroma is the one with the highest dot product, as long as
/// the dot products are numbers.
pub proof fn lemma_highest_dot_product_is_detected(chroma: Seq<Vec<F32>>, templates: Seq<Seq<F32>>, k: usize)
    requires
        k < 24,
        forall|i: int| 0 <= i < 24 ==> !(#[trigger] mean_scores(chroma, templates)[i]).is_nan(),
    ensures
        ({
            let d = mean_detection(chroma, templates);
            &&& lists_every_key(d.all_scores)
            &&& highest_first(d.all_scores)
            &&& d.key == d.all_scores[0].0
            &&& d.top_keys == d.all_scores.take(3)
            &&& never_outside(d.confidence)
            &&& !(d.all_scores[0].1 < mean_scores(chroma, templates)[k as int])
        }),
{
    reveal(mean_detection);
    let scores = mean_scores(chroma, templates);
    let table = table_of(scores);
    assert forall|i: int| 0 <= i < 24 implies !(#[trigger] table[i]).1.is_nan() by {
        assert(!scores[i].is_nan());
    }
    lemma_ranked_is_highest_first(table);
    lemma_first_detection(scores);
    let order = sorted_order(scores_of(table), true, 24);
    let i = lemma_sorted_order_finds(scores_of(table), true, 24, k);
    assert(ranked(table)[i] == table[order[i] as int]);
    if i == 0 {
        assert(ranked(table)[0].1 == scores[k as int]);
    }
}

proof fn lemma_segment_times(
    found: Seq<(F32, Key, F32)>,
    chroma: Seq<Vec<F32>>,
    templates: Seq<Seq<F32>>,
    rate: F32,
    len: int,
    hop: int,
    start: int,
)
    requires
        zero() < rate,
        0 <= start,
        chroma.len() <= usize::MAX,
        forall|i: int, j: int|
            0 <= i < j < found.len() ==> !((#[trigger] found[j]).0 < (#[trigger] found[i]).0),
        forall|i: int, s: usize|
            0 <= i < found.len() && start <= s ==> !(#[trigger] F32::from_usize(s) / rate < (
            #[trigger] found[i]).0),
    ensures
        ({
            let all = with_segment_keys(found, chroma, templates, rate, len, hop, start);
            forall|i: int, j: int|
                0 <= i < j < all.len() ==> !((#[trigger] all[j]).0 < (#[trigger] all[i]).0)
        }),
    decreases
        (if start < chroma.len() {
            chroma.len() - start
        } else {
            0
        }),
{
    if hop >= 1 && len >= 1 && start + len <= chroma.len() {
        let seg = chroma.subrange(start, start + len);
        let d = mean_detection(seg, templates);
        let next = if chroma_error(seg, None) is Some {
            found
        } else {
            found.push((F32::from_usize(start as usize) / rate, d.key, d.confidence))
        };
        assert forall|i: int, s: usize| 0 <= i < next.len() && start + hop <= s implies !(
        #[trigger] F32::from_usize(s) / rate < (#[trigger] next[i]).0) by {
            if i == found.len() {
                lemma_count_order(start as usize, s);
                lemma_quotient_keeps_order(
                    F32::from_usize(start as usize),
                    F32::from_usize(s),
                    rate,
                );
            }
        }
        assert forall|i: int, j: int| 0 <= i < j < next.len() implies !((#[trigger] next[j]).0 < (
        #[trigger] next[i]).0) by {
            if j == found.len() {
                assert(next[i] == found[i]);
            }
        }
        lemma_segment_times(next, chroma, templates, rate, len, hop, start + hop);
        assert(with_segment_keys(found, chroma, templates, rate, len, hop, start)
            == with_segment_keys(next, chroma, templates, rate, len, hop, start + hop));
    }
}

/// The segments of a track stand in the order of their times.
pub proof fn lemma_segments_are_in_order(
    chroma: Seq<Vec<F32>>,
    templates: Seq<Seq<F32>>,
    rate: F32,
    len: int,
    hop: int,
    i: int,
    j: int,
)
    requires
        zero() < rate,
        chroma.len() <= usize::MAX,
        0 <= i < j < with_segment_keys(Seq::empty(), chroma, templates, rate, len, hop, 0).len(),
    ensures
        !(with_segment_keys(Seq::empty(), chroma, templates, rate, len, hop, 0)[j].0
            < with_segment_keys(Seq::empty(), chroma, templates, rate, len, hop, 0)[i].0),
{
    lemma_segment_times(Seq::empty(), chroma, templates, rate, len, hop, 0);
}

proof fn lemma_change_from(segments: Seq<(F32, Key, F32)>, n: nat, i: int) -> (m: int)
    requires
        0 <= i < changes_of(segments, n).len(),
    ensures
        0 < m < n,
        changes_of(segments, n)[i].timestamp == segments[m].0,
    decreases n,
{
    let before = changes_of(segments, (n - 1) as nat);
    if i < before.len() {
        lemma_change_from(segments, (n - 1) as nat, i)
    } else {
        n - 1
    }
}

/// Key changes stand in the order of their times, as the segments do.
pub proof fn lemma_changes_are_in_order(segments: Seq<(F32, Key, F32)>, n: nat, i: int, j: int)
    requires
        n <= segments.len(),
        forall|a: int, b: int|
            0 <= a < b < segments.len() ==> !((#[trigger] segments[b]).0 < (
            #[trigger] segments[a]).0),
        0 <= i < j < changes_of(segments, n).len(),
    ensures
        !(changes_of(segments, n)[j].timestamp < changes_of(segments, n)[i].timestamp),
    decreases n,
{
    let before = changes_of(segments, (n - 1) as nat);
    if j < before.len() {
        lemma_changes_are_in_order(segments, (n - 1) as nat, i, j);
    } else {
        let m = lemma_change_from(segments, (n - 1) as nat, i);
    }
}

proof fn lemma_best_wins_the_vote(ranks: Seq<(Key, F32)>)
    requires
        ranks.len() >= 3,
        zero() <= ranks[0].1,
        ranks[0].1.is_finite(),
        ranks[1].1 <= ranks[0].1,
        ranks[2].1 <= ranks[0].1,
    ensures
        vote_winner(ranks, 3) == 0,
{
    lemma_zero_and_one();
    reveal_with_fuel(vote_winner, 4);
    let best = ranks[0].1;
    if zero() < best {
        lemma_itself_once(best);
        lemma_zero_plus(best / best);
        lemma_no_vote_above(ranks, 1);
        lemma_no_vote_above(ranks, 2);
    } else {
        lemma_nothing_of_nothing(best);
    }
}

proof fn lemma_no_vote_above(ranks: Seq<(Key, F32)>, i: int)
    requires
        zero() < ranks[0].1,
        ranks[0].1.is_finite(),
        ranks[i].1 <= ranks[0].1,
    ensures
        !(one() < vote(ranks, i)),
{
    lemma_never_more_than_once(ranks[i].1, ranks[0].1);
    let q = ranks[i].1 / ranks[0].1;
    if q.is_nan() {
        reveal(F32::spec_add);
    } else {
        lemma_zero_plus(q);
    }
}

/// Nothing divided by nothing is no number, and neither is a sum with it.
proof fn lemma_nothing_of_nothing(x: F32)
    requires
        zero() <= x,
        !(zero() < x),
    ensures
        (zero() + x / x).is_nan(),
{
    lemma_zero_and_one();
    lemma_number_of_no_size(x);
    reveal(F32::spec_euclidean_or_real_div);
    reveal(F32::spec_add);
}

/// The key with the highest score is the one detected, as long as the scores are
/// numbers and the highest is finite and not below zero.
pub proof fn lemma_highest_score_is_detected(
    chroma: Seq<Vec<F32>>,
    templates: Seq<Seq<F32>>,
    weights: Option<Seq<F32>>,
)
    requires
        forall|i: int|
            0 <= i < 24 ==> !(#[trigger] score_table(chroma, templates, weights)[i]).1.is_nan(),
        ranked(score_table(chroma, templates, weights))[0].1.is_finite(),
        zero() <= ranked(score_table(chroma, templates, weights))[0].1,
    ensures
        ({
            let d = weighted_detection(chroma, templates, weights);
            &&& d.key == d.all_scores[0].0
            &&& highest_first(d.all_scores)
        }),
{
    reveal(weighted_detection);
    let table = score_table(chroma, templates, weights);
    let ranks = ranked(table);
    assert(table.len() == 24);
    lemma_ranked_is_highest_first(table);
    lemma_sorted_order_lists_indices(scores_of(table), true, 24);
    let order = sorted_order(scores_of(table), true, 24);
    assert forall|i: int| 0 <= i < 24 implies !(#[trigger] ranks[i]).1.is_nan() by {
        assert(ranks[i] == table[order[i] as int]);
    }
    assert(!(ranks[0].1 < ranks[1].1) && !(ranks[0].1 < ranks[2].1));
    lemma_best_wins_the_vote(ranks);
}

} // verus!
