//! Key detection: scores of all keys against chroma vectors, and the key that
//! they point to.
use super::result::score_values;
use super::result::scores_of;
use super::result::Detection;
use super::result::KeyDetectionResult;
use super::segments::detect_first;
use super::segments::first_detection;
use super::segments::table_of;
use super::templates::KeyTemplates;
use crate::analysis::result::Key;
use crate::error::invalid_input;
use crate::error::is_invalid_input;
use crate::error::AnalysisError;
use crate::float::clamp_unit;
use crate::float::one;
use crate::float::ratio;
use crate::float::zero;
use crate::float::F32;
use crate::sorting::arrange;
use crate::sorting::arranged;
use crate::sorting::sort_order;
use crate::sorting::sorted_order;
use crate::sorting::sum;
use crate::sorting::sum_of;
use crate::text::decimal;
use crate::text::decimal_of;
use crate::vector::dot;
use crate::vector::dot_product;
use vstd::prelude::*;
use vstd::string::StringExecFns;

pub use super::ensemble::detect_key_ensemble;
pub use super::median::detect_key_median;
pub use super::segments::detect_key_multi_scale;

verus! {

/// Per-frame weights as a sequence.
pub open spec fn weights_of(w: Option<&[F32]>) -> Option<Seq<F32>> {
    match w {
        None => None,
        Some(s) => Some(s@),
    }
}

/// The key at place `i` of a score table: major keys from C to B, then minor keys.
#[verifier::allow_in_spec]
pub fn key_at(i: usize) -> Key
    requires
        i < 24,
    returns
        (if i < 12 {
            Key::Major(i as u32)
        } else {
            Key::Minor((i - 12) as u32)
        }),
{
    if i < 12 {
        Key::Major(i as u32)
    } else {
        Key::Minor((i - 12) as u32)
    }
}

/// The dot products of the first `n` frames with a template, added up; with
/// weights, each times its weight, where that is above zero.
pub open spec fn match_of(
    chroma: Seq<Vec<F32>>,
    weights: Option<Seq<F32>>,
    template: Seq<F32>,
    n: nat,
) -> F32
    decreases n,
{
    if n == 0 {
        zero()
    } else {
        let acc = match_of(chroma, weights, template, (n - 1) as nat);
        let d = dot(chroma[n - 1]@, template);
        match weights {
            None => acc + d,
            Some(w) => if w[n - 1] > zero() {
                acc + w[n - 1] * d
            } else {
                acc
            },
        }
    }
}

/// The score of every key, by place.
pub open spec fn raw_scores(
    chroma: Seq<Vec<F32>>,
    templates: Seq<Seq<F32>>,
    weights: Option<Seq<F32>>,
) -> Seq<F32> {
    Seq::new(24, |i: int| match_of(chroma, weights, templates[i], chroma.len()))
}

/// The greatest of `n` scores from place `from` on, and of zero.
pub open spec fn mode_max(scores: Seq<F32>, from: int, n: nat) -> F32
    decreases n,
{
    if n == 0 {
        zero()
    } else {
        mode_max(scores, from, (n - 1) as nat).max(scores[from + n - 1])
    }
}

/// The scores, each as a part of the greatest score of its mode; unchanged
/// where a mode has no score to speak of.
pub open spec fn scaled_scores(scores: Seq<F32>) -> Seq<F32> {
    let major = mode_max(scores, 0, 12);
    let minor = mode_max(scores, 12, 12);
    if major > ratio(1, 1_000_000_000) && minor > ratio(1, 1_000_000_000) {
        Seq::new(
            24,
            |i: int|
                if i < 12 {
                    scores[i] / major
                } else {
                    scores[i] / minor
                },
        )
    } else {
        scores
    }
}

/// The place of the greatest of `n >= 1` scores from place `from` on; the last
/// of those that tie.
pub open spec fn top_place(scores: Seq<F32>, from: int, n: nat) -> int
    decreases n,
{
    if n <= 1 {
        from
    } else {
        let t = top_place(scores, from, (n - 1) as nat);
        if scores[t] > scores[from + n - 1] {
            t
        } else {
            from + n - 1
        }
    }
}

/// Where a pitch class stands on the circle of fifths, counted from C.
pub open spec fn fifths_position(tonic: int) -> int {
    (7 * tonic) % 12
}

/// How many fifths lie between two pitch classes, the shorter way round.
pub open spec fn fifths_distance(a: int, b: int) -> int {
    let d = fifths_position(a) - fifths_position(b);
    let e = if d < 0 {
        -d
    } else {
        d
    };
    if e <= 12 - e {
        e
    } else {
        12 - e
    }
}

/// What the best key of a mode adds to a key of that mode `dist` fifths away.
pub open spec fn fifths_bonus(dist: int) -> F32 {
    ratio(20, 100) * (one() - F32::from_i32(dist as i32) * ratio(5, 10))
}

/// The score at place `i` with the bonus for being near the best key of its mode.
pub open spec fn refined_score(scores: Seq<F32>, i: int) -> F32 {
    let from: int = if i < 12 {
        0
    } else {
        12
    };
    let top = top_place(scores, from, 12);
    let dist = fifths_distance(i - from, top - from);
    if scores[top] > ratio(1, 1_000_000_000) && dist <= 2 {
        scores[i] + scores[top] * fifths_bonus(dist)
    } else {
        scores[i]
    }
}

/// The final score of every key, by place.
pub open spec fn score_table(
    chroma: Seq<Vec<F32>>,
    templates: Seq<Seq<F32>>,
    weights: Option<Seq<F32>>,
) -> Seq<(Key, F32)> {
    let scores = scaled_scores(raw_scores(chroma, templates, weights));
    Seq::new(24, |i: int| (key_at(i as usize), refined_score(scores, i)))
}

/// A score table, highest score first; keys that tie keep their order.
pub open spec fn ranked(table: Seq<(Key, F32)>) -> Seq<(Key, F32)> {
    arranged(table, sorted_order(scores_of(table), true, table.len()))
}

/// The best three rank so close together that they are put to a vote.
pub open spec fn is_close_call(ranks: Seq<(Key, F32)>) -> bool {
    let threshold = ranks[0].1 * ratio(95, 100);
    ranks[1].1 >= threshold && ranks[2].1 >= threshold * ratio(90, 100)
}

/// The vote for the key of rank `i`: its score as a part of the best.
pub open spec fn vote(ranks: Seq<(Key, F32)>, i: int) -> F32 {
    zero() + ranks[i].1 / ranks[0].1
}

/// The rank among the first `n >= 1` that no vote exceeds; the first of those that tie.
pub open spec fn vote_winner(ranks: Seq<(Key, F32)>, n: nat) -> int
    decreases n,
{
    if n <= 1 {
        0
    } else {
        let w = vote_winner(ranks, (n - 1) as nat);
        if vote(ranks, n - 1) > vote(ranks, w) {
            n - 1
        } else {
            w
        }
    }
}

/// How far `score` is above `other`, as a part of `score`, from zero to one.
pub open spec fn lead(score: F32, other: F32) -> F32 {
    if score > zero() {
        clamp_unit((score - other) / score)
    } else {
        zero()
    }
}

/// The first score from rank `i` on whose key is `key` (or, with `other`, is not).
pub open spec fn first_score(ranks: Seq<(Key, F32)>, key: Key, other: bool, i: int, default: F32) -> F32
    decreases ranks.len() - i,
{
    if i < 0 || i >= ranks.len() {
        default
    } else if (ranks[i].0 == key) != other {
        ranks[i].1
    } else {
        first_score(ranks, key, other, i + 1, default)
    }
}

/// The first `n` ranks, or as many as there are.
pub open spec fn first_ranks(ranks: Seq<(Key, F32)>, n: int) -> Seq<(Key, F32)> {
    if n <= ranks.len() {
        ranks.take(n)
    } else {
        ranks
    }
}

/// What key detection makes of ranked scores.
pub open spec fn detection_from(ranks: Seq<(Key, F32)>) -> Detection {
    let key = if is_close_call(ranks) {
        ranks[vote_winner(ranks, 3)].0
    } else {
        ranks[0].0
    };
    let score = first_score(ranks, key, false, 0, ranks[0].1);
    let other = first_score(ranks, key, true, 0, zero());
    Detection {
        key,
        confidence: lead(score, other),
        all_scores: ranks,
        top_keys: first_ranks(ranks, 3),
    }
}

/// The first frame from `i` on that has not twelve elements.
pub open spec fn first_wrong_frame(chroma: Seq<Vec<F32>>, i: int) -> int
    decreases chroma.len() - i,
{
    if i < 0 || i >= chroma.len() || chroma[i]@.len() != 12 {
        i
    } else {
        first_wrong_frame(chroma, i + 1)
    }
}

/// Why chroma vectors and weights cannot be used, where they cannot.
#[verifier::opaque]
pub open spec fn chroma_error(chroma: Seq<Vec<F32>>, weights: Option<Seq<F32>>) -> Option<Seq<char>> {
    let i = first_wrong_frame(chroma, 0);
    if chroma.len() == 0 {
        Some("Empty chroma vectors"@)
    } else if chroma[0]@.len() != 12 {
        Some("Chroma vectors must have 12 elements, got "@ + decimal_of(chroma[0]@.len()))
    } else if i < chroma.len() {
        Some(
            "Chroma vector at index "@ + decimal_of(i as nat) + " has "@ + decimal_of(
                chroma[i]@.len(),
            ) + " elements, expected 12"@,
        )
    } else {
        match weights {
            Some(w) if w.len() != chroma.len() => Some(
                "frame_weights length mismatch: got "@ + decimal_of(w.len()) + ", expected "@
                    + decimal_of(chroma.len()),
            ),
            _ => None,
        }
    }
}

/// The detection that frames, templates and weights lead to.
#[verifier::opaque]
pub open spec fn weighted_detection(
    chroma: Seq<Vec<F32>>,
    templates: Seq<Seq<F32>>,
    weights: Option<Seq<F32>>,
) -> Detection {
    detection_from(ranked(score_table(chroma, templates, weights)))
}

/// `r` is the detection `d`, unless the chroma vectors and weights cannot be used.
pub open spec fn detects(
    r: Result<KeyDetectionResult, AnalysisError>,
    error: Option<Seq<char>>,
    d: Detection,
) -> bool {
    match error {
        Some(msg) => is_invalid_input(r, msg),
        None => r is Ok && r->Ok_0@ == d,
    }
}

/// Computes the score of one key over all frames.
pub fn weighted_sum_dot(chroma_vectors: &[Vec<F32>], weights: Option<&[F32]>, template: &[F32]) -> (r: F32)
    requires
        weights matches Some(w) ==> w@.len() == chroma_vectors@.len(),
    ensures
        r == match_of(
            chroma_vectors@,
            weights_of(weights),
            template@,
            chroma_vectors@.len(),
        ),
{
    let mut acc = zero();
    let mut i: usize = 0;
    while i < chroma_vectors.len()
        invariant
            i <= chroma_vectors.len(),
            weights matches Some(w) ==> w@.len() == chroma_vectors@.len(),
            acc == match_of(chroma_vectors@, weights_of(weights), template@, i as nat),
        decreases chroma_vectors.len() - i,
    {
        match weights {
            None => {
                acc = acc + dot_product(chroma_vectors[i].as_slice(), template);
            },
            Some(w) => {
                let wt = w[i];
                if wt > zero() {
                    acc = acc + wt * dot_product(chroma_vectors[i].as_slice(), template);
                }
            },
        }
        i = i + 1;
    }
    acc
}

fn find_mode_max(scores: &[F32], from: usize) -> (r: F32)
    requires
        scores@.len() == 24,
        from == 0 || from == 12,
    ensures
        r == mode_max(scores@, from as int, 12),
{
    let mut acc = zero();
    let mut n: usize = 0;
    while n < 12
        invariant
            n <= 12,
            scores@.len() == 24,
            from == 0 || from == 12,
            acc == mode_max(scores@, from as int, n as nat),
        decreases 12 - n,
    {
        acc = acc.max(scores[from + n]);
        n = n + 1;
    }
    acc
}

fn find_top_place(scores: &[F32], from: usize) -> (r: usize)
    requires
        scores@.len() == 24,
        from == 0 || from == 12,
    ensures
        r == top_place(scores@, from as int, 12),
        from <= r < from + 12,
{
    let mut t: usize = from;
    let mut n: usize = 1;
    while n < 12
        invariant
            1 <= n <= 12,
            scores@.len() == 24,
            from == 0 || from == 12,
            from <= t < from + n,
            t == top_place(scores@, from as int, n as nat),
        decreases 12 - n,
    {
        if !(scores[t] > scores[from + n]) {
            t = from + n;
        }
        n = n + 1;
    }
    t
}

fn count_fifths(a: usize, b: usize) -> (r: i32)
    requires
        a < 12,
        b < 12,
    ensures
        r == fifths_distance(a as int, b as int),
        0 <= r <= 6,
{
    let pa: i32 = ((7 * a) % 12) as i32;
    let pb: i32 = ((7 * b) % 12) as i32;
    let e: i32 = if pa < pb {
        pb - pa
    } else {
        pa - pb
    };
    if e <= 12 - e {
        e
    } else {
        12 - e
    }
}

/// Computes the score table of all 24 keys.
fn compute_score_table(
    chroma_vectors: &[Vec<F32>],
    templates: &KeyTemplates,
    weights: Option<&[F32]>,
) -> (r: Vec<(Key, F32)>)
    requires
        weights matches Some(w) ==> w@.len() == chroma_vectors@.len(),
    ensures
        r@ == score_table(chroma_vectors@, templates.profiles(), weights_of(weights)),
{
    let mut raw: Vec<F32> = Vec::new();
    let mut i: usize = 0;
    while i < 24
        invariant
            i <= 24,
            weights matches Some(w) ==> w@.len() == chroma_vectors@.len(),
            raw@.len() == i,
            forall|k: int|
                0 <= k < i ==> raw@[k] == match_of(
                    chroma_vectors@,
                    weights_of(weights),
                    templates.profiles()[k],
                    chroma_vectors@.len(),
                ),
        decreases 24 - i,
    {
        let score = weighted_sum_dot(chroma_vectors, weights, templates.get_template(i as u32));
        raw.push(score);
        i = i + 1;
    }
    assert(raw@ =~= raw_scores(chroma_vectors@, templates.profiles(), weights_of(weights)));
    let major = find_mode_max(raw.as_slice(), 0);
    let minor = find_mode_max(raw.as_slice(), 12);
    let mut scores: Vec<F32> = Vec::new();
    let scale: bool = major > ratio(1, 1_000_000_000) && minor > ratio(1, 1_000_000_000);
    let mut j: usize = 0;
    while j < 24
        invariant
            j <= 24,
            raw@.len() == 24,
            scores@.len() == j,
            forall|k: int|
                0 <= k < j ==> scores@[k] == if !scale {
                    raw@[k]
                } else if k < 12 {
                    raw@[k] / major
                } else {
                    raw@[k] / minor
                },
        decreases 24 - j,
    {
        let s = raw[j];
        if !scale {
            scores.push(s);
        } else if j < 12 {
            scores.push(s / major);
        } else {
            scores.push(s / minor);
        }
        j = j + 1;
    }
    assert(scores@ =~= scaled_scores(raw@));
    let top_major: usize = find_top_place(scores.as_slice(), 0);
    let top_minor: usize = find_top_place(scores.as_slice(), 12);
    let mut table: Vec<(Key, F32)> = Vec::new();
    let mut k: usize = 0;
    while k < 24
        invariant
            k <= 24,
            scores@.len() == 24,
            top_major == top_place(scores@, 0, 12),
            top_minor == top_place(scores@, 12, 12),
            top_major < 12,
            12 <= top_minor < 24,
            table@.len() == k,
            forall|l: int|
                0 <= l < k ==> table@[l] == (key_at(l as usize), refined_score(scores@, l)),
        decreases 24 - k,
    {
        let from: usize = if k < 12 {
            0
        } else {
            12
        };
        let top: usize = if k < 12 {
            top_major
        } else {
            top_minor
        };
        let dist: i32 = count_fifths(k - from, top - from);
        let s = if scores[top] > ratio(1, 1_000_000_000) && dist <= 2 {
            scores[k] + scores[top] * (ratio(20, 100) * (one() - F32::from_i32(dist) * ratio(5, 10)))
        } else {
            scores[k]
        };
        table.push((key_at(k), s));
        k = k + 1;
    }
    assert(table@ =~= score_table(chroma_vectors@, templates.profiles(), weights_of(weights)));
    table
}

/// Ranks a score table.
pub fn rank(table: &[(Key, F32)]) -> (r: Vec<(Key, F32)>)
    ensures
        r@ == ranked(table@),
        r@.len() == table@.len(),
{
    let values: Vec<F32> = score_values(table);
    let order: Vec<usize> = sort_order(values.as_slice(), true);
    arrange(table, order.as_slice())
}

pub(crate) fn find_first_score(ranks: &[(Key, F32)], key: Key, other: bool, default: F32) -> (r: F32)
    ensures
        r == first_score(ranks@, key, other, 0, default),
{
    let mut i: usize = 0;
    while i < ranks.len()
        invariant
            i <= ranks.len(),
            first_score(ranks@, key, other, 0, default) == first_score(
                ranks@,
                key,
                other,
                i as int,
                default,
            ),
        decreases ranks.len() - i,
    {
        if (ranks[i].0 == key) != other {
            return ranks[i].1;
        }
        i = i + 1;
    }
    default
}

pub(crate) fn compute_lead(score: F32, other: F32) -> (r: F32)
    ensures
        r == lead(score, other),
{
    if score > zero() {
        clamp_unit((score - other) / score)
    } else {
        zero()
    }
}

pub(crate) fn take_ranks(ranks: &[(Key, F32)], n: usize) -> (r: Vec<(Key, F32)>)
    ensures
        r@ == first_ranks(ranks@, n as int),
{
    let mut r: Vec<(Key, F32)> = Vec::new();
    let mut i: usize = 0;
    while i < n && i < ranks.len()
        invariant
            i <= n,
            i <= ranks.len(),
            r@ == ranks@.take(i as int),
        decreases ranks.len() - i,
    {
        r.push(ranks[i]);
        assert(ranks@.take(i + 1) =~= ranks@.take(i as int).push(ranks@[i as int]));
        i = i + 1;
    }
    assert(r@ =~= first_ranks(ranks@, n as int));
    r
}

/// Picks the key that ranked scores point to.
pub fn detect_from_ranks(ranks: Vec<(Key, F32)>) -> (r: KeyDetectionResult)
    requires
        ranks@.len() >= 3,
    ensures
        r@ == detection_from(ranks@),
{
    let best = ranks[0].1;
    let threshold = best * ratio(95, 100);
    let close: bool = ranks[1].1 >= threshold && ranks[2].1 >= threshold * ratio(90, 100);
    let mut winner: usize = 0;
    if close {
        let mut n: usize = 1;
        while n < 3
            invariant
                1 <= n <= 3,
                ranks@.len() >= 3,
                best == ranks@[0].1,
                winner < n,
                winner == vote_winner(ranks@, n as nat),
            decreases 3 - n,
        {
            if zero() + ranks[n].1 / best > zero() + ranks[winner].1 / best {
                winner = n;
            }
            n = n + 1;
        }
    }
    let key = ranks[winner].0;
    let score = find_first_score(ranks.as_slice(), key, false, best);
    let other = find_first_score(ranks.as_slice(), key, true, zero());
    let top_keys: Vec<(Key, F32)> = take_ranks(ranks.as_slice(), 3);
    KeyDetectionResult { key, confidence: compute_lead(score, other), all_scores: ranks, top_keys }
}

/// Checks that chroma vectors and weights can be used.
fn check_chroma(chroma_vectors: &[Vec<F32>], frame_weights: Option<&[F32]>) -> (r: Result<(), AnalysisError>)
    ensures
        match chroma_error(chroma_vectors@, weights_of(frame_weights)) {
            Some(msg) => is_invalid_input(r, msg),
            None => r is Ok,
        },
{
    proof {
        reveal(chroma_error);
    }
    if chroma_vectors.len() == 0 {
        return Err(invalid_input("Empty chroma vectors"));
    }
    let n: usize = chroma_vectors[0].len();
    if n != 12 {
        let msg: String = "Chroma vectors must have 12 elements, got ".to_owned().concat(
            decimal(n).as_str(),
        );
        return Err(AnalysisError::InvalidInput(msg));
    }
    let mut i: usize = 0;
    while i < chroma_vectors.len()
        invariant
            i <= chroma_vectors.len(),
            chroma_vectors@.len() > 0,
            chroma_vectors@[0]@.len() == 12,
            first_wrong_frame(chroma_vectors@, 0) == first_wrong_frame(chroma_vectors@, i as int),
        decreases chroma_vectors.len() - i,
    {
        let len: usize = chroma_vectors[i].len();
        if len != 12 {
            proof {
                reveal(chroma_error);
            }
            let msg: String = "Chroma vector at index ".to_owned().concat(decimal(i).as_str()).concat(
                " has ",
            ).concat(decimal(len).as_str()).concat(" elements, expected 12");
            return Err(AnalysisError::InvalidInput(msg));
        }
        i = i + 1;
    }
    match frame_weights {
        Some(w) => {
            if w.len() != chroma_vectors.len() {
                let msg: String = "frame_weights length mismatch: got ".to_owned().concat(
                    decimal(w.len()).as_str(),
                ).concat(", expected ").concat(decimal(chroma_vectors.len()).as_str());
                return Err(AnalysisError::InvalidInput(msg));
            }
        },
        None => {},
    }
    Ok(())
}

/// The mean of the chroma vectors.
pub open spec fn mean_chroma(chroma: Seq<Vec<F32>>) -> Seq<F32> {
    Seq::new(
        12,
        |i: int| class_sum(chroma, None, i, chroma.len()) / F32::from_usize(chroma.len() as usize),
    )
}

/// The score of every key, by place: the dot product of the mean with its template.
pub open spec fn mean_scores(chroma: Seq<Vec<F32>>, templates: Seq<Seq<F32>>) -> Seq<F32> {
    Seq::new(24, |i: int| dot(mean_chroma(chroma), templates[i]))
}

/// The detection that the mean of the frames leads to: the key with the highest score.
#[verifier::opaque]
pub open spec fn mean_detection(chroma: Seq<Vec<F32>>, templates: Seq<Seq<F32>>) -> Detection {
    first_detection(ranked(table_of(mean_scores(chroma, templates))))
}

/// Detects the key of chroma vectors: the one whose template has the highest dot
/// product with their mean.
pub fn detect_key(chroma_vectors: &[Vec<F32>], templates: &KeyTemplates) -> (r: Result<
    KeyDetectionResult,
    AnalysisError,
>)
    ensures
        detects(
            r,
            chroma_error(chroma_vectors@, None),
            mean_detection(chroma_vectors@, templates.profiles()),
        ),
{
    proof {
        reveal(mean_detection);
        reveal(chroma_error);
    }
    match check_chroma(chroma_vectors, None) {
        Err(e) => {
            return Err(e);
        },
        Ok(_) => {},
    }
    proof {
        lemma_all_frames_right(chroma_vectors@, 0);
    }
    let count = F32::from_usize(chroma_vectors.len());
    let mut mean: Vec<F32> = Vec::new();
    let mut i: usize = 0;
    while i < 12
        invariant
            i <= 12,
            forall|k: int| 0 <= k < chroma_vectors@.len() ==> (#[trigger] chroma_vectors@[k])@.len() == 12,
            count == F32::from_usize(chroma_vectors@.len() as usize),
            mean@.len() == i,
            forall|k: int| 0 <= k < i ==> mean@[k] == mean_chroma(chroma_vectors@)[k],
        decreases 12 - i,
    {
        let x = compute_class_sum(chroma_vectors, None, i);
        mean.push(x / count);
        i = i + 1;
    }
    assert(mean@ =~= mean_chroma(chroma_vectors@));
    let mut scores: Vec<F32> = Vec::new();
    let mut j: usize = 0;
    while j < 24
        invariant
            j <= 24,
            mean@ == mean_chroma(chroma_vectors@),
            scores@.len() == j,
            forall|k: int|
                0 <= k < j ==> scores@[k] == mean_scores(chroma_vectors@, templates.profiles())[k],
        decreases 24 - j,
    {
        scores.push(dot_product(mean.as_slice(), templates.get_template(j as u32)));
        j = j + 1;
    }
    assert(scores@ =~= mean_scores(chroma_vectors@, templates.profiles()));
    Ok(detect_first(scores.as_slice()))
}

/// Detects the key of chroma vectors, with an optional weight for every frame.
pub fn detect_key_weighted(
    chroma_vectors: &[Vec<F32>],
    templates: &KeyTemplates,
    frame_weights: Option<&[F32]>,
) -> (r: Result<KeyDetectionResult, AnalysisError>)
    ensures
        detects(
            r,
            chroma_error(chroma_vectors@, weights_of(frame_weights)),
            weighted_detection(chroma_vectors@, templates.profiles(), weights_of(frame_weights)),
        ),
{
    proof {
        reveal(weighted_detection);
        reveal(chroma_error);
    }
    match check_chroma(chroma_vectors, frame_weights) {
        Err(e) => {
            return Err(e);
        },
        Ok(_) => {},
    }
    let table: Vec<(Key, F32)> = compute_score_table(chroma_vectors, templates, frame_weights);
    let ranks: Vec<(Key, F32)> = rank(table.as_slice());
    Ok(detect_from_ranks(ranks))
}

/// The energy of pitch class `i` over the first `n` frames; with weights, each
/// frame times its weight, without the frames whose weight is not above zero.
pub open spec fn class_sum(chroma: Seq<Vec<F32>>, weights: Option<Seq<F32>>, i: int, n: nat) -> F32
    decreases n,
{
    if n == 0 {
        zero()
    } else {
        let acc = class_sum(chroma, weights, i, (n - 1) as nat);
        match weights {
            None => acc + chroma[n - 1]@[i],
            Some(w) => if w[n - 1] <= zero() {
                acc
            } else {
                acc + w[n - 1] * chroma[n - 1]@[i]
            },
        }
    }
}

/// The sum of the first `n` weights that are above zero.
pub open spec fn weight_sum(w: Seq<F32>, n: nat) -> F32
    decreases n,
{
    if n == 0 {
        zero()
    } else if w[n - 1] <= zero() {
        weight_sum(w, (n - 1) as nat)
    } else {
        weight_sum(w, (n - 1) as nat) + w[n - 1]
    }
}

/// The weight of all frames together: their number, where they have no weights.
pub open spec fn total_weight(chroma: Seq<Vec<F32>>, weights: Option<Seq<F32>>) -> F32 {
    match weights {
        None => F32::from_usize(chroma.len() as usize),
        Some(w) => weight_sum(w, chroma.len()),
    }
}

/// The distribution of energy over the pitch classes: each as a part of their
/// sum, unless that is nothing to speak of.
pub open spec fn class_distribution(chroma: Seq<Vec<F32>>, weights: Option<Seq<F32>>) -> Seq<F32> {
    let sums = Seq::new(12, |i: int| class_sum(chroma, weights, i, chroma.len()));
    let total = sum_of(sums);
    if total > ratio(1, 1_000_000_000) {
        Seq::new(12, |i: int| sums[i] / total)
    } else {
        sums
    }
}

/// A score table in which every minor key has gained by how much its leading
/// tone is stronger than its flat seventh.
pub open spec fn with_leading_tones(ranks: Seq<(Key, F32)>, avg: Seq<F32>, wsum: F32, bonus: F32) -> Seq<
    (Key, F32),
> {
    let w = bonus.max(zero());
    if w > zero() {
        Seq::new(
            ranks.len(),
            |i: int|
                match ranks[i].0 {
                    Key::Minor(t) => (
                        ranks[i].0,
                        ranks[i].1 + wsum * w * (avg[(t + 11) % 12] - avg[(t + 10) % 12]),
                    ),
                    Key::Major(_) => ranks[i],
                },
        )
    } else {
        ranks
    }
}

/// The third on a tonic speaks for the mode other than that of `key`: the
/// third of that mode is above the one of the key's own by more than `margin`.
pub open spec fn third_prefers_other(avg: Seq<F32>, key: Key, margin: F32) -> bool {
    let min3 = avg[(key.tonic() + 3) % 12];
    let maj3 = avg[(key.tonic() + 4) % 12];
    if key.is_major() {
        min3 > maj3 * (one() + margin)
    } else {
        maj3 > min3 * (one() + margin)
    }
}

/// The key of the other mode on the same tonic.
pub open spec fn parallel_key(key: Key) -> Key {
    match key {
        Key::Major(t) => Key::Minor(t),
        Key::Minor(t) => Key::Major(t),
    }
}

/// The best key, or its parallel key where the third clearly prefers that mode
/// and its score is at least `flip_ratio` of the best.
pub open spec fn mode_choice(ranks: Seq<(Key, F32)>, avg: Seq<F32>, margin: F32, flip_ratio: F32) -> Key {
    let best = ranks[0].0;
    let s_best = first_score(ranks, best, false, 0, zero());
    let s_alt = first_score(ranks, parallel_key(best), false, 0, zero());
    if flip_ratio > zero() && third_prefers_other(avg, best, margin) && s_best > zero() && s_alt
        >= s_best * flip_ratio {
        parallel_key(best)
    } else {
        best
    }
}

/// The greatest of zero and the scores of other keys among the first `n` ranks.
pub open spec fn best_other(ranks: Seq<(Key, F32)>, key: Key, n: nat) -> F32
    decreases n,
{
    if n == 0 {
        zero()
    } else if ranks[n - 1].0 == key {
        best_other(ranks, key, (n - 1) as nat)
    } else {
        best_other(ranks, key, (n - 1) as nat).max(ranks[n - 1].1)
    }
}

/// One of the ranks is that of `key`.
pub open spec fn ranks_hold(ranks: Seq<(Key, F32)>, key: Key) -> bool {
    exists|i: int| 0 <= i < ranks.len() && (#[trigger] ranks[i]).0 == key
}

/// The detection of a chosen key from ranked scores; the chosen key takes the
/// last of the top places where it has none of its own.
pub open spec fn detection_of_choice(ranks: Seq<(Key, F32)>, key: Key) -> Detection {
    let score = first_score(ranks, key, false, 0, zero());
    let top = first_ranks(ranks, 3);
    Detection {
        key,
        confidence: lead(score, best_other(ranks, key, ranks.len())),
        all_scores: ranks,
        top_keys: if ranks_hold(top, key) {
            top
        } else {
            top.drop_last().push((key, score))
        },
    }
}

/// The detection with the mode heuristic.
#[verifier::opaque]
pub open spec fn heuristic_detection(
    chroma: Seq<Vec<F32>>,
    templates: Seq<Seq<F32>>,
    weights: Option<Seq<F32>>,
    third_ratio_margin: F32,
    flip_min_score_ratio: F32,
    enable_bonus: bool,
    bonus: F32,
) -> Detection {
    let base = weighted_detection(chroma, templates, weights);
    let flip_ratio = clamp_unit(flip_min_score_ratio);
    let wsum = total_weight(chroma, weights);
    let avg = class_distribution(chroma, weights);
    let table = if enable_bonus {
        with_leading_tones(base.all_scores, avg, wsum, bonus)
    } else {
        base.all_scores
    };
    let ranks = ranked(table);
    if (!enable_bonus && !(flip_ratio > zero())) || wsum <= ratio(1, 1_000_000_000) {
        base
    } else {
        detection_of_choice(
            ranks,
            mode_choice(ranks, avg, third_ratio_margin.max(zero()), flip_ratio),
        )
    }
}

fn compute_total_weight(chroma_vectors: &[Vec<F32>], weights: Option<&[F32]>) -> (r: F32)
    requires
        weights matches Some(w) ==> w@.len() == chroma_vectors@.len(),
    ensures
        r == total_weight(chroma_vectors@, weights_of(weights)),
{
    match weights {
        None => F32::from_usize(chroma_vectors.len()),
        Some(w) => {
            let mut acc = zero();
            let mut n: usize = 0;
            while n < w.len()
                invariant
                    n <= w.len(),
                    acc == weight_sum(w@, n as nat),
                decreases w.len() - n,
            {
                let wt = w[n];
                if !(wt <= zero()) {
                    acc = acc + wt;
                }
                n = n + 1;
            }
            acc
        },
    }
}

fn compute_class_sum(chroma_vectors: &[Vec<F32>], weights: Option<&[F32]>, i: usize) -> (r: F32)
    requires
        weights matches Some(w) ==> w@.len() == chroma_vectors@.len(),
        forall|k: int| 0 <= k < chroma_vectors@.len() ==> (#[trigger] chroma_vectors@[k])@.len() == 12,
        i < 12,
    ensures
        r == class_sum(chroma_vectors@, weights_of(weights), i as int, chroma_vectors@.len()),
{
    let mut acc = zero();
    let mut n: usize = 0;
    while n < chroma_vectors.len()
        invariant
            n <= chroma_vectors.len(),
            i < 12,
            weights matches Some(w) ==> w@.len() == chroma_vectors@.len(),
            forall|k: int|
                0 <= k < chroma_vectors@.len() ==> (#[trigger] chroma_vectors@[k])@.len() == 12,
            acc == class_sum(chroma_vectors@, weights_of(weights), i as int, n as nat),
        decreases chroma_vectors.len() - n,
    {
        match weights {
            None => {
                acc = acc + chroma_vectors[n][i];
            },
            Some(w) => {
                let wt = w[n];
                if !(wt <= zero()) {
                    acc = acc + wt * chroma_vectors[n][i];
                }
            },
        }
        n = n + 1;
    }
    acc
}

fn compute_class_distribution(chroma_vectors: &[Vec<F32>], weights: Option<&[F32]>) -> (r: Vec<F32>)
    requires
        weights matches Some(w) ==> w@.len() == chroma_vectors@.len(),
        forall|k: int| 0 <= k < chroma_vectors@.len() ==> (#[trigger] chroma_vectors@[k])@.len() == 12,
    ensures
        r@ == class_distribution(chroma_vectors@, weights_of(weights)),
        r@.len() == 12,
{
    let mut sums: Vec<F32> = Vec::new();
    let mut i: usize = 0;
    while i < 12
        invariant
            i <= 12,
            weights matches Some(w) ==> w@.len() == chroma_vectors@.len(),
            forall|k: int|
                0 <= k < chroma_vectors@.len() ==> (#[trigger] chroma_vectors@[k])@.len() == 12,
            sums@.len() == i,
            forall|k: int|
                0 <= k < i ==> sums@[k] == class_sum(
                    chroma_vectors@,
                    weights_of(weights),
                    k,
                    chroma_vectors@.len(),
                ),
        decreases 12 - i,
    {
        let x = compute_class_sum(chroma_vectors, weights, i);
        sums.push(x);
        i = i + 1;
    }
    let ghost all: Seq<F32> = Seq::new(
        12,
        |k: int| class_sum(chroma_vectors@, weights_of(weights), k, chroma_vectors@.len()),
    );
    assert(sums@ =~= all);
    let total = sum(sums.as_slice());
    if total > ratio(1, 1_000_000_000) {
        let mut j: usize = 0;
        while j < 12
            invariant
                j <= 12,
                sums@.len() == 12,
                all.len() == 12,
                forall|k: int| 0 <= k < j ==> sums@[k] == all[k] / total,
                forall|k: int| j <= k < 12 ==> sums@[k] == all[k],
            decreases 12 - j,
        {
            let x = sums[j];
            sums.set(j, x / total);
            j = j + 1;
        }
        assert(sums@ =~= Seq::new(12, |k: int| all[k] / total));
    }
    sums
}

fn add_leading_tones(ranks: &[(Key, F32)], avg: &[F32], wsum: F32, bonus: F32) -> (r: Vec<(Key, F32)>)
    requires
        avg@.len() == 12,
    ensures
        r@ == with_leading_tones(ranks@, avg@, wsum, bonus),
        r@.len() == ranks@.len(),
{
    let w = bonus.max(zero());
    let add: bool = w > zero();
    let mut r: Vec<(Key, F32)> = Vec::new();
    let mut i: usize = 0;
    while i < ranks.len()
        invariant
            i <= ranks.len(),
            avg@.len() == 12,
            r@.len() == i,
            add == (w > zero()),
            forall|k: int|
                0 <= k < i ==> r@[k] == if add {
                    match ranks@[k].0 {
                        Key::Minor(t) => (
                            ranks@[k].0,
                            ranks@[k].1 + wsum * w * (avg@[(t + 11) % 12] - avg@[(t + 10) % 12]),
                        ),
                        Key::Major(_) => ranks@[k],
                    }
                } else {
                    ranks@[k]
                },
        decreases ranks.len() - i,
    {
        let (key, score) = ranks[i];
        match key {
            Key::Minor(t) => {
                if add {
                    let lt: usize = (t as usize % 12 + 11) % 12;
                    let b7: usize = (t as usize % 12 + 10) % 12;
                    r.push((key, score + wsum * w * (avg[lt] - avg[b7])));
                } else {
                    r.push(ranks[i]);
                }
            },
            Key::Major(_) => {
                r.push(ranks[i]);
            },
        }
        i = i + 1;
    }
    assert(r@ =~= with_leading_tones(ranks@, avg@, wsum, bonus));
    r
}

/// The place of the degree `step` semitones above a tonic.
fn degree_place(tonic: u32, step: usize) -> (r: usize)
    requires
        step < 12,
    ensures
        r == (tonic + step) % 12,
        r < 12,
{
    (tonic as usize % 12 + step) % 12
}

fn choose_mode(ranks: &[(Key, F32)], avg: &[F32], margin: F32, flip_ratio: F32) -> (r: Key)
    requires
        ranks@.len() > 0,
        avg@.len() == 12,
    ensures
        r == mode_choice(ranks@, avg@, margin, flip_ratio),
{
    let best = ranks[0].0;
    let min3 = avg[degree_place(best.tonic(), 3)];
    let maj3 = avg[degree_place(best.tonic(), 4)];
    let (wants_other, other) = match best {
        Key::Major(i) => (min3 > maj3 * (one() + margin), Key::Minor(i)),
        Key::Minor(i) => (maj3 > min3 * (one() + margin), Key::Major(i)),
    };
    if flip_ratio > zero() && wants_other {
        let s_best = find_first_score(ranks, best, false, zero());
        let s_alt = find_first_score(ranks, other, false, zero());
        if s_best > zero() && s_alt >= s_best * flip_ratio {
            return other;
        }
    }
    best
}

fn detect_choice(ranks: Vec<(Key, F32)>, key: Key) -> (r: KeyDetectionResult)
    requires
        ranks@.len() > 0,
    ensures
        r@ == detection_of_choice(ranks@, key),
{
    let score = find_first_score(ranks.as_slice(), key, false, zero());
    let mut other = zero();
    let mut n: usize = 0;
    while n < ranks.len()
        invariant
            n <= ranks.len(),
            other == best_other(ranks@, key, n as nat),
        decreases ranks.len() - n,
    {
        if ranks[n].0 != key {
            other = other.max(ranks[n].1);
        }
        n = n + 1;
    }
    let mut top: Vec<(Key, F32)> = take_ranks(ranks.as_slice(), 3);
    let mut held: bool = false;
    let mut i: usize = 0;
    while i < top.len()
        invariant
            i <= top.len(),
            held == exists|k: int| 0 <= k < i && (#[trigger] top@[k]).0 == key,
        decreases top.len() - i,
    {
        if top[i].0 == key {
            held = true;
            assert(top@[i as int].0 == key);
        }
        i = i + 1;
    }
    let ghost before: Seq<(Key, F32)> = top@;
    if !held {
        let _last: Option<(Key, F32)> = top.pop();
        top.push((key, score));
        assert(top@ =~= before.drop_last().push((key, score)));
    }
    KeyDetectionResult { key, confidence: compute_lead(score, other), all_scores: ranks, top_keys: top }
}

/// Detects the key of chroma vectors, with a heuristic for the mode.
///
/// The best key gives way to its parallel key where the third of that mode is
/// clearly the stronger one and the score of that key is not far off.
pub fn detect_key_weighted_mode_heuristic(
    chroma_vectors: &[Vec<F32>],
    templates: &KeyTemplates,
    frame_weights: Option<&[F32]>,
    third_ratio_margin: F32,
    flip_min_score_ratio: F32,
    enable_minor_harmonic_bonus: bool,
    minor_leading_tone_bonus_weight: F32,
) -> (r: Result<KeyDetectionResult, AnalysisError>)
    ensures
        detects(
            r,
            chroma_error(chroma_vectors@, weights_of(frame_weights)),
            heuristic_detection(
                chroma_vectors@,
                templates.profiles(),
                weights_of(frame_weights),
                third_ratio_margin,
                flip_min_score_ratio,
                enable_minor_harmonic_bonus,
                minor_leading_tone_bonus_weight,
            ),
        ),
{
    proof {
        reveal(weighted_detection);
        reveal(heuristic_detection);
        reveal(chroma_error);
    }
    let base = match detect_key_weighted(chroma_vectors, templates, frame_weights) {
        Err(e) => {
            return Err(e);
        },
        Ok(base) => base,
    };
    proof {
        lemma_all_frames_right(chroma_vectors@, 0);
    }
    let flip_ratio = clamp_unit(flip_min_score_ratio);
    if !enable_minor_harmonic_bonus && !(flip_ratio > zero()) {
        return Ok(base);
    }
    let wsum = compute_total_weight(chroma_vectors, frame_weights);
    if wsum <= ratio(1, 1_000_000_000) {
        return Ok(base);
    }
    let avg: Vec<F32> = compute_class_distribution(chroma_vectors, frame_weights);
    let ranks: Vec<(Key, F32)> = if enable_minor_harmonic_bonus {
        let table: Vec<(Key, F32)> = add_leading_tones(
            base.all_scores.as_slice(),
            avg.as_slice(),
            wsum,
            minor_leading_tone_bonus_weight,
        );
        rank(table.as_slice())
    } else {
        rank(base.all_scores.as_slice())
    };
    let key = choose_mode(ranks.as_slice(), avg.as_slice(), third_ratio_margin.max(zero()), flip_ratio);
    Ok(detect_choice(ranks, key))
}

proof fn lemma_all_frames_right(chroma: Seq<Vec<F32>>, i: int)
    requires
        0 <= i <= chroma.len(),
    ensures
        first_wrong_frame(chroma, i) >= chroma.len() ==> forall|k: int|
            i <= k < chroma.len() ==> (#[trigger] chroma[k])@.len() == 12,
    decreases chroma.len() - i,
{
    if i < chroma.len() && chroma[i]@.len() == 12 {
        lemma_all_frames_right(chroma, i + 1);
    }
}

} // verus!
