//! Key detection with two sets of templates.
use crate::analysis::result::Key;
use crate::error::AnalysisError;
use crate::float::F32;
use crate::float::one;
use crate::float::ratio;
use crate::float::zero;
use crate::float_laws::lemma_once_and_no_part;
use crate::float_laws::lemma_ratio_order;
use crate::float_laws::lemma_whole_and_no_part;
use crate::float_laws::lemma_zero_and_one;
use crate::sorting::lemma_sorted_order_finds;
use crate::sorting::lemma_sorted_order_forgets_signs;
use crate::sorting::lemma_sorted_order_lists_indices;
use crate::sorting::same_numbers;
use crate::sorting::sorted_order;
use super::detector::chroma_error;
use super::detector::detect_key_weighted;
use super::detector::detects;
use super::detector::find_first_score;
use super::detector::first_score;
use super::detector::key_at;
use super::detector::ranked;
use super::detector::score_table;
use super::detector::weighted_detection;
use super::detector::weights_of;
use super::laws::lemma_ranked_keeps_keys;
use super::laws::lemma_table_lists_every_key;
use super::result::Detection;
use super::result::KeyDetectionResult;
use super::result::scores_of;
use super::score_sizes::is_bounded;
use super::score_sizes::lemma_scores_are_finite;
use super::segments::detect_first;
use super::segments::first_detection;
use super::segments::table_of;
use super::templates::KeyTemplates;
use super::templates::TemplateSet;
use super::templates::profiles_of;
use vstd::prelude::*;

verus! {

/// The share of `weight` in a total; one half, where the total is nothing to speak of.
pub open spec fn share(weight: F32, total: F32) -> F32 {
    if total > ratio(1, 1_000_000_000) {
        weight / total
    } else {
        ratio(5, 10)
    }
}

/// The detection from two detections: their scores, each times its share, added up.
pub open spec fn combined_detection(a: Detection, b: Detection, share_a: F32, share_b: F32) -> Detection {
    first_detection(
        ranked(
            table_of(
                Seq::new(
                    24,
                    |i: int|
                        share_a * first_score(a.all_scores, key_at(i as usize), false, 0, zero())
                            + share_b * first_score(
                            b.all_scores,
                            key_at(i as usize),
                            false,
                            0,
                            zero(),
                        ),
                ),
            ),
        ),
    )
}

/// Combines two detections by the shares that their scores have.
pub fn combine_detections(a: &KeyDetectionResult, b: &KeyDetectionResult, share_a: F32, share_b: F32) -> (r:
    KeyDetectionResult)
    ensures
        r@ == combined_detection(a@, b@, share_a, share_b),
{
    let mut scores: Vec<F32> = Vec::new();
    let mut i: usize = 0;
    while i < 24
        invariant
            i <= 24,
            scores@.len() == i,
            forall|k: int|
                0 <= k < i ==> scores@[k] == share_a * first_score(
                    a.all_scores@,
                    key_at(k as usize),
                    false,
                    0,
                    zero(),
                ) + share_b * first_score(b.all_scores@, key_at(k as usize), false, 0, zero()),
        decreases 24 - i,
    {
        let x = find_first_score(a.all_scores.as_slice(), key_at(i), false, zero());
        let y = find_first_score(b.all_scores.as_slice(), key_at(i), false, zero());
        scores.push(share_a * x + share_b * y);
        i = i + 1;
    }
    assert(scores@ =~= Seq::new(
        24,
        |k: int|
            share_a * first_score(a.all_scores@, key_at(k as usize), false, 0, zero()) + share_b
                * first_score(b.all_scores@, key_at(k as usize), false, 0, zero()),
    ));
    detect_first(scores.as_slice())
}

/// Detects the key with the Krumhansl-Kessler and with the Temperley templates
/// and combines the two.
pub fn detect_key_ensemble(
    chroma_vectors: &[Vec<F32>],
    frame_weights: Option<&[F32]>,
    kk_weight: F32,
    temperley_weight: F32,
) -> (r: Result<KeyDetectionResult, AnalysisError>)
    ensures
        detects(
            r,
            chroma_error(chroma_vectors@, weights_of(frame_weights)),
            combined_detection(
                weighted_detection(
                    chroma_vectors@,
                    profiles_of(TemplateSet::KrumhanslKessler),
                    weights_of(frame_weights),
                ),
                weighted_detection(
                    chroma_vectors@,
                    profiles_of(TemplateSet::Temperley),
                    weights_of(frame_weights),
                ),
                share(kk_weight, kk_weight + temperley_weight),
                share(temperley_weight, kk_weight + temperley_weight),
            ),
        ),
{
    let total = kk_weight + temperley_weight;
    let (kk_norm, temp_norm) = if total > ratio(1, 1_000_000_000) {
        (kk_weight / total, temperley_weight / total)
    } else {
        (ratio(5, 10), ratio(5, 10))
    };
    let kk_templates = KeyTemplates::new_with_template_set(TemplateSet::KrumhanslKessler);
    let temp_templates = KeyTemplates::new_with_template_set(TemplateSet::Temperley);
    let kk_result = match detect_key_weighted(chroma_vectors, &kk_templates, frame_weights) {
        Err(e) => {
            return Err(e);
        },
        Ok(d) => d,
    };
    let temp_result = match detect_key_weighted(chroma_vectors, &temp_templates, frame_weights) {
        Err(e) => {
            return Err(e);
        },
        Ok(d) => d,
    };
    Ok(combine_detections(&kk_result, &temp_result, kk_norm, temp_norm))
}

/// The score that a table gives to the key at place `i` is found in its ranking.
proof fn lemma_score_is_found(scores: Seq<F32>, i: usize)
    requires
        i < 24,
    ensures
        first_score(ranked(table_of(scores)), key_at(i), false, 0, zero()) == scores[i as int],
{
    let table = table_of(scores);
    let ranks = ranked(table);
    let keys = super::result::scores_of(table);
    lemma_table_lists_every_key(scores);
    lemma_ranked_keeps_keys(table);
    let m = lemma_sorted_order_finds(keys, true, 24, i);
    assert(ranks[m] == table[i as int]);
    lemma_first_of_key(ranks, key_at(i), m, 0);
}

proof fn lemma_first_of_key(ranks: Seq<(Key, F32)>, key: Key, m: int, from: int)
    requires
        0 <= from <= m < ranks.len(),
        ranks[m].0 == key,
        forall|i: int, j: int| 0 <= i < j < ranks.len() ==> (#[trigger] ranks[i]).0 != (#[trigger] ranks[j]).0,
    ensures
        first_score(ranks, key, false, from, zero()) == ranks[m].1,
    decreases m - from,
{
    if from < m {
        assert(ranks[from].0 != ranks[m].0);
        lemma_first_of_key(ranks, key, m, from + 1);
    }
}

/// The scores by place that a detection with templates ranks.
pub open spec fn place_scores(
    chroma: Seq<Vec<F32>>,
    set: TemplateSet,
    weights: Option<Seq<F32>>,
) -> Seq<F32> {
    Seq::new(24, |i: int| score_table(chroma, profiles_of(set), weights)[i].1)
}

proof fn lemma_detection_ranks_scores(chroma: Seq<Vec<F32>>, set: TemplateSet, weights: Option<Seq<F32>>)
    ensures
        weighted_detection(chroma, profiles_of(set), weights).all_scores == ranked(
            table_of(place_scores(chroma, set, weights)),
        ),
{
    reveal(weighted_detection);
    assert(score_table(chroma, profiles_of(set), weights) =~= table_of(
        place_scores(chroma, set, weights),
    ));
}

/// Two rankings list the same keys with the same numbers. Zeros of both signs are the
/// same number.
pub open spec fn same_ranks(a: Seq<(Key, F32)>, b: Seq<(Key, F32)>) -> bool {
    a.len() == b.len() && forall|i: int|
        0 <= i < a.len() ==> (#[trigger] a[i]).0 == b[i].0 && a[i].1.same_number(b[i].1)
}

/// Scores that are the same numbers rank the same keys.
proof fn lemma_same_numbers_rank_alike(a: Seq<F32>, b: Seq<F32>)
    requires
        a.len() == 24,
        same_numbers(a, b),
    ensures
        same_ranks(ranked(table_of(a)), ranked(table_of(b))),
{
    let x = table_of(a);
    let y = table_of(b);
    assert(scores_of(x) =~= a);
    assert(scores_of(y) =~= b);
    lemma_sorted_order_forgets_signs(a, b, true, 24);
    lemma_sorted_order_lists_indices(a, true, 24);
    let order = sorted_order(a, true, 24);
    assert forall|i: int| 0 <= i < 24 implies (#[trigger] ranked(x)[i]).0 == ranked(y)[i].0 && ranked(
        x,
    )[i].1.same_number(ranked(y)[i].1) by {
        let k = order[i] as int;
        assert(k < 24);
        assert(a[k].same_number(b[k]));
    }
}

/// A set of templates of weight zero contributes nothing: the scores are those of the
/// other set, the key is the one that ranks first there, and so are the best three.
/// The chroma is bounded, so that all scores are finite.
pub proof fn lemma_set_of_no_weight_adds_nothing(
    chroma: Seq<Vec<F32>>,
    weights: Option<Seq<F32>>,
    set: TemplateSet,
    weight: F32,
)
    requires
        weight > ratio(1, 1_000_000_000),
        weight.is_finite(),
        is_bounded(chroma, weights),
    ensures
        ({
            let kk_weight = if set == TemplateSet::KrumhanslKessler {
                weight
            } else {
                zero()
            };
            let temperley_weight = if set == TemplateSet::KrumhanslKessler {
                zero()
            } else {
                weight
            };
            let single = weighted_detection(chroma, profiles_of(set), weights);
            let d = combined_detection(
                weighted_detection(chroma, profiles_of(TemplateSet::KrumhanslKessler), weights),
                weighted_detection(chroma, profiles_of(TemplateSet::Temperley), weights),
                share(kk_weight, kk_weight + temperley_weight),
                share(temperley_weight, kk_weight + temperley_weight),
            );
            &&& same_ranks(d.all_scores, single.all_scores)
            &&& d.key == d.all_scores[0].0
            &&& d.key == single.all_scores[0].0
            &&& d.top_keys == d.all_scores.take(3)
            &&& same_ranks(d.top_keys, single.all_scores.take(3))
        }),
{
    lemma_zero_and_one();
    lemma_ratio_order(0, 1, 1, 1_000_000_000);
    lemma_whole_and_no_part(weight);
    lemma_detection_ranks_scores(chroma, TemplateSet::KrumhanslKessler, weights);
    lemma_detection_ranks_scores(chroma, TemplateSet::Temperley, weights);
    let a = weighted_detection(chroma, profiles_of(TemplateSet::KrumhanslKessler), weights);
    let b = weighted_detection(chroma, profiles_of(TemplateSet::Temperley), weights);
    let share_a = if set == TemplateSet::KrumhanslKessler {
        one()
    } else {
        zero()
    };
    let share_b = if set == TemplateSet::KrumhanslKessler {
        zero()
    } else {
        one()
    };
    let scores = Seq::new(
        24,
        |i: int|
            share_a * first_score(a.all_scores, key_at(i as usize), false, 0, zero()) + share_b
                * first_score(b.all_scores, key_at(i as usize), false, 0, zero()),
    );
    let x = place_scores(chroma, set, weights);
    let y = place_scores(chroma, other_set(set), weights);
    assert forall|i: int| 0 <= i < 24 implies (#[trigger] scores[i]).same_number(x[i]) by {
        lemma_score_is_found(place_scores(chroma, TemplateSet::KrumhanslKessler, weights), i as usize);
        lemma_score_is_found(place_scores(chroma, TemplateSet::Temperley, weights), i as usize);
        lemma_scores_are_finite(chroma, weights, set, i);
        lemma_scores_are_finite(chroma, weights, other_set(set), i);
        lemma_once_and_no_part(x[i], y[i]);
    }
    lemma_same_numbers_rank_alike(scores, x);
    lemma_ranked_keeps_keys_of(x);
}

proof fn lemma_ranked_keeps_keys_of(scores: Seq<F32>)
    ensures
        ranked(table_of(scores)).len() == 24,
{
    lemma_table_lists_every_key(scores);
    lemma_ranked_keeps_keys(table_of(scores));
}

/// The set of templates that is not `set`.
pub open spec fn other_set(set: TemplateSet) -> TemplateSet {
    match set {
        TemplateSet::KrumhanslKessler => TemplateSet::Temperley,
        TemplateSet::Temperley => TemplateSet::KrumhanslKessler,
    }
}

} // verus!
