//! What holds of every choice among keys: by number, by nearness and by their tones.
use crate::analysis::result::Key;
use crate::features::chroma::laws::lemma_length_one_keeps_order;
use crate::float::F32;
use crate::float::ratio;
use crate::float::zero;
use crate::float_laws::lemma_mean_between;
use crate::float_laws::lemma_ratio_above_zero;
use crate::float_laws::lemma_ratio_order;
use crate::float_laws::lemma_zero_and_one;
use crate::float_order::lemma_products_keep_order;
use crate::float_order::lemma_sums_keep_order;
use crate::sorting::sum_of;
use crate::sums::added;
use super::detector::detection_of_choice;
use super::detector::fifths_distance;
use super::detector::fifths_position;
use super::detector::first_score;
use super::detector::key_at;
use super::detector::parallel_key;
use super::detector::ranked;
use super::detector::with_leading_tones;
use super::ensemble::combined_detection;
use super::key_changes::changes_of;
use super::key_changes::primary_place;
use super::key_changes::segments_in;
use super::key_changes::trust_in;
use super::key_clarity::clarity_of;
use super::key_clarity::greatest;
use super::key_clarity::least;
use super::laws::lemma_common_key_is_most_common;
use super::laws::lemma_ranked_keeps_keys;
use super::laws::lemma_table_lists_every_key;
use super::laws::lists_every_key;
use super::median::common_detection;
use super::median::key_count;
use super::median::median_segment_len;
use super::result::Detection;
use super::result::scores_of;
use super::score_laws::lemma_score_in_ranked;
use super::segment_laws::lemma_score_in;
use super::segment_laws::score_in;
use super::segments::table_of;
use super::templates::TemplateSet;
use super::templates::c_major_profile;
use super::templates::c_minor_profile;
use super::templates::profiles_of;
use super::templates::rotated;
use vstd::prelude::*;

verus! {

// -------------------------------------------------------------- by number

proof fn lemma_count_is_a_number(found: Seq<Detection>, key: Key, n: nat)
    requires
        n <= found.len(),
    ensures
        key_count(found, key, n) == found.take(n as int).filter(|d: Detection| d.key == key).len(),
    decreases n,
{
    reveal(Seq::filter);
    if n > 0 {
        lemma_count_is_a_number(found, key, (n - 1) as nat);
        assert(found.take(n as int).drop_last() =~= found.take(n - 1));
        assert(found.take(n as int).last() == found[n - 1]);
    }
}

/// The key that is detected from segments is that of no fewer segments than any other key.
pub proof fn lemma_key_of_most_segments_is_detected(found: Seq<Detection>, k: usize)
    requires
        k < 24,
    ensures
        found.filter(|d: Detection| d.key == key_at(k)).len() <= found.filter(
            |d: Detection| d.key == common_detection(found).key,
        ).len(),
{
    lemma_common_key_is_most_common(found, k);
    lemma_count_is_a_number(found, key_at(k), found.len());
    lemma_count_is_a_number(found, common_detection(found).key, found.len());
    assert(found.take(found.len() as int) =~= found);
}

proof fn lemma_segments_are_a_number(s: Seq<(F32, Key, F32)>, key: Key, n: nat)
    requires
        n <= s.len(),
    ensures
        segments_in(s, key, n) == s.take(n as int).filter(|x: (F32, Key, F32)| x.1 == key).len(),
    decreases n,
{
    reveal(Seq::filter);
    if n > 0 {
        lemma_segments_are_a_number(s, key, (n - 1) as nat);
        assert(s.take(n as int).drop_last() =~= s.take(n - 1));
        assert(s.take(n as int).last() == s[n - 1]);
    }
}

/// The primary key of a track that changes its key is that of no fewer segments than any
/// other key.
pub proof fn lemma_primary_key_is_of_most_segments(s: Seq<(F32, Key, F32)>, k: usize)
    requires
        k < 24,
    ensures
        s.filter(|x: (F32, Key, F32)| x.1 == key_at(k)).len() <= s.filter(
            |x: (F32, Key, F32)| x.1 == key_at(primary_place(s, 24) as usize),
        ).len(),
{
    super::laws::lemma_primary_key_is_most_common(s, k);
    lemma_segments_are_a_number(s, key_at(k), s.len());
    lemma_segments_are_a_number(s, key_at(primary_place(s, 24) as usize), s.len());
    assert(s.take(s.len() as int) =~= s);
}

/// The confidences of the segments in a key.
pub open spec fn confidences_in(s: Seq<(F32, Key, F32)>, key: Key) -> Seq<F32>
    decreases s.len(),
{
    if s.len() == 0 {
        Seq::empty()
    } else if s.last().1 == key {
        confidences_in(s.drop_last(), key).push(s.last().2)
    } else {
        confidences_in(s.drop_last(), key)
    }
}

/// What speaks for a key are the confidences of its own segments, added up.
pub proof fn lemma_trust_is_of_the_key(s: Seq<(F32, Key, F32)>, key: Key, n: nat)
    requires
        n <= s.len(),
    ensures
        trust_in(s, key, n) == added(zero(), confidences_in(s.take(n as int), key)),
    decreases n,
{
    if n > 0 {
        lemma_trust_is_of_the_key(s, key, (n - 1) as nat);
        let t = s.take(n as int);
        assert(t.drop_last() =~= s.take(n - 1));
        assert(t.last() == s[n - 1]);
        crate::sums::lemma_added_push(zero(), confidences_in(t.drop_last(), key), t.last().2);
    }
}

/// A key change is as sure as the two segments are that it lies between: no surer than
/// both, and no less sure than both.
pub proof fn lemma_change_is_as_sure_as_its_segments(
    s: Seq<(F32, Key, F32)>,
    n: nat,
    i: int,
    low: F32,
    high: F32,
)
    requires
        n <= s.len(),
        0 <= i < changes_of(s, n).len(),
        zero() <= low,
        (high + high).is_finite(),
        forall|k: int| 0 <= k < s.len() ==> low <= (#[trigger] s[k]).2 && s[k].2 <= high,
    ensures
        low <= changes_of(s, n)[i].confidence,
        changes_of(s, n)[i].confidence <= high,
        exists|m: int|
            0 < m < n && changes_of(s, n)[i].timestamp == (#[trigger] s[m]).0 && changes_of(
                s,
                n,
            )[i].to_key == s[m].1 && changes_of(s, n)[i].from_key == s[m - 1].1,
    decreases n,
{
    if n > 1 {
        let before = changes_of(s, (n - 1) as nat);
        if i < before.len() {
            lemma_change_is_as_sure_as_its_segments(s, (n - 1) as nat, i, low, high);
        } else {
            assert(low <= s[n - 2].2 && low <= s[n - 1].2);
            lemma_mean_between(low, high, s[n - 2].2, s[n - 1].2);
        }
    }
}

// ------------------------------------------------------------ by nearness

/// On the circle of fifths, a fifth up or down is one step, the way is as long in both
/// directions, and no two keys are more than six steps apart.
pub proof fn lemma_circle_of_fifths(a: int, b: int)
    requires
        0 <= a < 12,
        0 <= b < 12,
    ensures
        fifths_distance(a, b) == fifths_distance(b, a),
        0 <= fifths_distance(a, b) <= 6,
        fifths_distance(a, b) == 0 <==> a == b,
        fifths_distance(a, b) == 1 <==> (b == (a + 7) % 12 || a == (b + 7) % 12),
        fifths_distance(a, b) == 2 <==> (b == (a + 2) % 12 || a == (b + 2) % 12),
{
    lemma_position(a);
    lemma_position(b);
    lemma_same_position(a, b);
    lemma_same_position(b, (a + 7) % 12);
    lemma_same_position(a, (b + 7) % 12);
    lemma_same_position(b, (a + 2) % 12);
    lemma_same_position(a, (b + 2) % 12);
    lemma_steps(fifths_position(a), fifths_position(b));
    lemma_distance(a, b);
    lemma_distance(b, a);
}

proof fn lemma_distance(a: int, b: int)
    ensures
        fifths_distance(a, b) == steps(fifths_position(a), fifths_position(b)),
{
}

/// The shorter way between two places on a circle of twelve.
spec fn steps(p: int, q: int) -> int {
    let e = if p < q {
        q - p
    } else {
        p - q
    };
    if e <= 12 - e {
        e
    } else {
        12 - e
    }
}

proof fn lemma_steps(p: int, q: int)
    requires
        0 <= p < 12,
        0 <= q < 12,
    ensures
        steps(p, q) == steps(q, p),
        0 <= steps(p, q) <= 6,
        steps(p, q) == 0 <==> p == q,
        steps(p, q) == 1 <==> (q == (p + 1) % 12 || p == (q + 1) % 12),
        steps(p, q) == 2 <==> (q == (p + 2) % 12 || p == (q + 2) % 12),
{
}

proof fn lemma_same_position(a: int, b: int)
    requires
        0 <= a < 12,
        0 <= b < 12,
    ensures
        fifths_position(a) == fifths_position(b) <==> a == b,
{
    lemma_position(a);
    lemma_position(b);
}

/// Each pitch class has a place of its own on the circle of fifths.
proof fn lemma_position(t: int)
    requires
        0 <= t < 12,
    ensures
        0 <= fifths_position(t) < 12,
        t == (7 * fifths_position(t)) % 12,
        fifths_position((t + 7) % 12) == (fifths_position(t) + 1) % 12,
        fifths_position((t + 2) % 12) == (fifths_position(t) + 2) % 12,
{
    if t < 3 {
        assert(t == 0 || t == 1 || t == 2);
    } else if t < 6 {
        assert(t == 3 || t == 4 || t == 5);
    } else if t < 9 {
        assert(t == 6 || t == 7 || t == 8);
    } else {
        assert(t == 9 || t == 10 || t == 11);
    }
}

/// The parallel key has the same tonic and the other mode, and is parallel to it in turn.
pub proof fn lemma_parallel_key(key: Key)
    ensures
        parallel_key(key).tonic() == key.tonic(),
        parallel_key(key).is_major() != key.is_major(),
        parallel_key(parallel_key(key)) == key,
{
}

// --------------------------------------------------------------- by tones

/// The tone a semitone below the tonic speaks for a minor key and the tone below that
/// speaks against it: the key gains where the one is stronger, and loses where the other
/// is. Major keys keep their scores.
pub proof fn lemma_leading_tone_speaks_for_minor(
    ranks: Seq<(Key, F32)>,
    avg: Seq<F32>,
    wsum: F32,
    bonus: F32,
    i: int,
)
    requires
        0 <= i < ranks.len(),
        avg.len() == 12,
        forall|c: int| 0 <= c < 12 ==> zero() <= #[trigger] avg[c] && avg[c].is_finite(),
        ranks[i].0.tonic() < 12,
        zero() <= ranks[i].1,
        zero() <= wsum,
        zero() < bonus,
        (wsum * bonus).is_finite(),
    ensures
        ({
            let t = ranks[i].0.tonic();
            let r = with_leading_tones(ranks, avg, wsum, bonus);
            &&& r.len() == ranks.len()
            &&& r[i].0 == ranks[i].0
            &&& ranks[i].0.is_major() ==> r[i] == ranks[i]
            &&& !ranks[i].0.is_major() && avg[(t + 10) % 12] <= avg[(t + 11) % 12] ==> ranks[i].1
                <= r[i].1
        }),
{
    let t = ranks[i].0.tonic();
    let w = bonus.max(zero());
    lemma_zero_and_one();
    assert(w == bonus);
    let high = avg[(t + 11) % 12];
    let low = avg[(t + 10) % 12];
    if low <= high {
        crate::float_order::lemma_difference(high, low);
        lemma_taken_is_finite(high, low);
        let x = wsum * w;
        assert(zero() <= x) by {
            lemma_not_below(wsum, w);
        }
        lemma_products_keep_order(x, high - low, x, high - low);
        crate::float_laws::lemma_sum_grows(ranks[i].1, x * (high - low));
    }
}

/// What is left of a number when less is taken from it is finite.
pub proof fn lemma_taken_is_finite(a: F32, b: F32)
    requires
        zero() <= b,
        b <= a,
        a.is_finite(),
    ensures
        (a - b).is_finite(),
{
    lemma_zero_and_one();
    crate::float_order::lemma_difference(a, b);
    crate::float_order::lemma_finite_below(b, a);
    crate::float_order::lemma_less_left(a, zero(), b);
    crate::float_order::lemma_no_subtraction(a, zero());
    crate::float_laws::lemma_nonnegative(a - b);
    crate::float_laws::lemma_nonnegative(a);
    if !(a - b).is_finite() {
        crate::rounding::lemma_mag_units_increases(a.mag(), (a - b).mag());
    }
}

proof fn lemma_not_below(a: F32, b: F32)
    requires
        zero() <= a,
        zero() <= b,
        (a * b).is_finite(),
    ensures
        zero() <= a * b,
{
    lemma_zero_and_one();
    crate::float_laws::lemma_product_never_negative(a, b);
}

/// A chosen key is always among the top keys, and leads them by what it has above the
/// best of the others.
pub proof fn lemma_chosen_key_is_a_top_key(ranks: Seq<(Key, F32)>, key: Key)
    requires
        ranks.len() >= 3,
    ensures
        detection_of_choice(ranks, key).key == key,
        detection_of_choice(ranks, key).top_keys.len() == 3,
        detection_of_choice(ranks, key).top_keys[0] == ranks[0] || detection_of_choice(
            ranks,
            key,
        ).top_keys[2].0 == key,
        exists|i: int|
            0 <= i < 3 && (#[trigger] detection_of_choice(ranks, key).top_keys[i]).0 == key,
{
    let d = detection_of_choice(ranks, key);
    let top = super::detector::first_ranks(ranks, 3);
    if super::detector::ranks_hold(top, key) {
        let i = choose|i: int| 0 <= i < top.len() && (#[trigger] top[i]).0 == key;
        assert(d.top_keys[i].0 == key);
    } else {
        assert(d.top_keys[2].0 == key);
    }
}

// ----------------------------------------------------------- two detections

/// A key that is no lower than another in two detections is no lower where these are
/// combined, whatever their shares.
pub proof fn lemma_key_ahead_in_both_is_ahead(
    a: Detection,
    b: Detection,
    share_a: F32,
    share_b: F32,
    i: usize,
    j: usize,
)
    requires
        i < 24,
        j < 24,
        lists_every_key(a.all_scores),
        lists_every_key(b.all_scores),
        zero() <= share_a,
        share_a.is_finite(),
        zero() <= share_b,
        share_b.is_finite(),
        zero() <= score_in(a.all_scores, key_at(i)),
        score_in(a.all_scores, key_at(i)) <= score_in(a.all_scores, key_at(j)),
        score_in(a.all_scores, key_at(j)).is_finite(),
        zero() <= score_in(b.all_scores, key_at(i)),
        score_in(b.all_scores, key_at(i)) <= score_in(b.all_scores, key_at(j)),
        score_in(b.all_scores, key_at(j)).is_finite(),
    ensures
        ({
            let d = combined_detection(a, b, share_a, share_b);
            score_in(d.all_scores, key_at(i)) <= score_in(d.all_scores, key_at(j))
        }),
{
    let scores = Seq::new(
        24,
        |k: int|
            share_a * first_score(a.all_scores, key_at(k as usize), false, 0, zero()) + share_b
                * first_score(b.all_scores, key_at(k as usize), false, 0, zero()),
    );
    let d = combined_detection(a, b, share_a, share_b);
    assert(d.all_scores == ranked(table_of(scores)));
    lemma_table_lists_every_key(scores);
    lemma_ranked_keeps_keys(table_of(scores));
    lemma_score_in(a.all_scores, i);
    lemma_score_in(a.all_scores, j);
    lemma_score_in(b.all_scores, i);
    lemma_score_in(b.all_scores, j);
    lemma_score_in_ranked(table_of(scores), i as int);
    lemma_score_in_ranked(table_of(scores), j as int);
    lemma_products_keep_order(
        share_a,
        score_in(a.all_scores, key_at(i)),
        share_a,
        score_in(a.all_scores, key_at(j)),
    );
    lemma_products_keep_order(
        share_b,
        score_in(b.all_scores, key_at(i)),
        share_b,
        score_in(b.all_scores, key_at(j)),
    );
    lemma_sums_keep_order(
        share_a * score_in(a.all_scores, key_at(i)),
        share_b * score_in(b.all_scores, key_at(i)),
        share_a * score_in(a.all_scores, key_at(j)),
        share_b * score_in(b.all_scores, key_at(j)),
    );
}

// -------------------------------------------------------------- templates

/// No pitch class has more weight than C in the profiles of C, and none has less than none.
proof fn lemma_tonic_is_greatest(set: TemplateSet, d: int)
    requires
        0 <= d < 12,
    ensures
        zero() <= c_major_profile(set)[d],
        zero() <= c_minor_profile(set)[d],
        c_major_profile(set)[d] <= c_major_profile(set)[0],
        c_minor_profile(set)[d] <= c_minor_profile(set)[0],
{
    lemma_zero_and_one();
    match set {
        TemplateSet::KrumhanslKessler => {
            lemma_ratio_order(223, 100, 635, 100);
            lemma_ratio_order(348, 100, 635, 100);
            lemma_ratio_order(233, 100, 635, 100);
            lemma_ratio_order(438, 100, 635, 100);
            lemma_ratio_order(409, 100, 635, 100);
            lemma_ratio_order(252, 100, 635, 100);
            lemma_ratio_order(519, 100, 635, 100);
            lemma_ratio_order(239, 100, 635, 100);
            lemma_ratio_order(366, 100, 635, 100);
            lemma_ratio_order(229, 100, 635, 100);
            lemma_ratio_order(288, 100, 635, 100);
            lemma_ratio_order(268, 100, 633, 100);
            lemma_ratio_order(352, 100, 633, 100);
            lemma_ratio_order(538, 100, 633, 100);
            lemma_ratio_order(260, 100, 633, 100);
            lemma_ratio_order(353, 100, 633, 100);
            lemma_ratio_order(254, 100, 633, 100);
            lemma_ratio_order(475, 100, 633, 100);
            lemma_ratio_order(398, 100, 633, 100);
            lemma_ratio_order(269, 100, 633, 100);
            lemma_ratio_order(334, 100, 633, 100);
            lemma_ratio_order(317, 100, 633, 100);
        },
        TemplateSet::Temperley => {
            lemma_ratio_order(20, 10, 50, 10);
            lemma_ratio_order(35, 10, 50, 10);
            lemma_ratio_order(45, 10, 50, 10);
            lemma_ratio_order(40, 10, 50, 10);
            lemma_ratio_order(15, 10, 50, 10);
            lemma_ratio_order(20, 10, 50, 10);
            lemma_ratio_order(35, 10, 50, 10);
            lemma_ratio_order(50, 10, 50, 10);
            lemma_ratio_order(45, 10, 50, 10);
            lemma_ratio_order(40, 10, 50, 10);
        },
    }
}

/// Going up from a tonic and back again.
proof fn lemma_back_from(tonic: int, d: int)
    requires
        0 <= tonic < 12,
        0 <= d < 12,
    ensures
        0 <= (tonic + d) % 12 < 12,
        ((tonic + d) % 12 + 12 - tonic) % 12 == d,
        d == 0 ==> (tonic + d) % 12 == tonic,
{
    if tonic + d < 12 {
        assert((tonic + d) % 12 == tonic + d);
    } else {
        assert((tonic + d) % 12 == tonic + d - 12);
    }
}

/// The template at the place of a key has the tones of its mode, counted from its tonic: a
/// tone that has more weight in C has more weight in the key, the same way above the
/// tonic, and none has more than the tonic.
pub proof fn lemma_template_is_of_its_key(set: TemplateSet, i: usize, d: int, e: int)
    requires
        i < 24,
        0 <= d < 12,
        0 <= e < 12,
    ensures
        ({
            let tonic = key_at(i).tonic() as int;
            let template = profiles_of(set)[i as int];
            let profile = if key_at(i).is_major() {
                c_major_profile(set)
            } else {
                c_minor_profile(set)
            };
            &&& profile[d] <= profile[e] ==> !(template[(tonic + e) % 12] < template[(tonic + d)
                % 12])
            &&& !(template[tonic] < template[(tonic + d) % 12])
        }),
{
    let tonic = key_at(i).tonic() as int;
    let profile = if key_at(i).is_major() {
        c_major_profile(set)
    } else {
        c_minor_profile(set)
    };
    let v = rotated(profile, tonic);
    let eps = ratio(1, 1_000_000_000_000);
    lemma_zero_and_one();
    lemma_ratio_above_zero(1, 1_000_000_000_000);
    lemma_tonic_is_greatest(set, d);
    lemma_tonic_is_greatest(set, e);
    lemma_tonic_is_greatest(set, 0);
    lemma_back_from(tonic, d);
    lemma_back_from(tonic, e);
    lemma_back_from(tonic, 0);
    assert(v[(tonic + d) % 12] == profile[d]);
    assert(v[(tonic + e) % 12] == profile[e]);
    assert(v[tonic] == profile[0]);
    if profile[d] <= profile[e] {
        lemma_length_one_keeps_order(v, eps, (tonic + d) % 12, (tonic + e) % 12);
    }
    lemma_length_one_keeps_order(v, eps, (tonic + d) % 12, tonic);
}

// ---------------------------------------------------------------- clarity

/// A key that does not score above the mean of all keys is not clear at all, and neither
/// is one among keys that all score the same.
pub proof fn lemma_key_below_the_mean_is_not_clear(scores: Seq<(Key, F32)>)
    requires
        scores.len() >= 2,
        scores[0].1.is_finite(),
        sum_of(scores_of(scores)).is_finite(),
        ({
            let mean = sum_of(scores_of(scores)) / F32::from_usize(scores.len() as usize);
            mean.is_finite() && scores[0].1 <= mean
        }),
    ensures
        !(zero() < clarity_of(scores)),
{
    let s = scores_of(scores);
    let mean = sum_of(s) / F32::from_usize(s.len() as usize);
    let range = greatest(s, s.len()) - least(s, s.len());
    lemma_zero_and_one();
    lemma_ratio_above_zero(1, 10_000_000_000);
    assert(s[0] == scores[0].1);
    crate::float_laws::lemma_negated(mean);
    crate::float_order::lemma_signed_sums_keep_order(s[0], mean.neg(), mean, mean.neg());
    crate::float_order::lemma_no_distance(mean);
    let d = mean - mean;
    assert(d.units() == 0) by {
        reveal(F32::units);
        crate::rounding::lemma_mag_units_scaled(0, 0);
    }
    if range > ratio(1, 10_000_000_000) {
        crate::float_laws::lemma_quotient_not_positive(s[0] - mean, range);
    }
}

/// Segments that vote by number are 120 frames long or longer, and no longer than was
/// asked for unless that is too short.
pub proof fn lemma_segments_are_long_enough(len: int, frames: int)
    ensures
        120 <= median_segment_len(len, frames),
        120 <= len <= frames ==> median_segment_len(len, frames) == len,
        120 <= frames < len ==> median_segment_len(len, frames) == frames,
{
}

} // verus!
