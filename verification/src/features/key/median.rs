//! Key detection by the key that most segments of a track are in.
use super::detector::chroma_error;
use super::detector::compute_lead;
use super::detector::detect_key_weighted;
use super::detector::detects;
use super::detector::find_first_score;
use super::detector::first_ranks;
use super::detector::first_score;
use super::detector::key_at;
use super::detector::lead;
use super::detector::rank;
use super::detector::ranked;
use super::detector::ranks_hold;
use super::detector::take_ranks;
use super::detector::weighted_detection;
use super::detector::weights_of;
use super::result::Detection;
use super::result::KeyDetectionResult;
use super::segments::holds;
use super::segments::make_table;
use super::segments::segment_weights;
use super::segments::table_of;
use super::segments::take_segment_weights;
use super::templates::KeyTemplates;
use crate::analysis::result::Key;
use crate::error::invalid_input;
use crate::error::is_invalid_input;
use crate::error::AnalysisError;
use crate::float::zero;
use crate::float::F32;
use vstd::prelude::*;
use vstd::slice::slice_subrange;

verus! {

/// `found`, and after it the detections of all segments of one length that
/// start at `start` or at a multiple of `hop` frames later, without those that
/// cannot be used.
pub open spec fn with_detections(
    found: Seq<Detection>,
    chroma: Seq<Vec<F32>>,
    templates: Seq<Seq<F32>>,
    weights: Option<Seq<F32>>,
    len: int,
    hop: int,
    start: int,
) -> Seq<Detection>
    decreases
        (if start < chroma.len() {
            chroma.len() - start
        } else {
            0
        }),
{
    let seg = chroma.subrange(start, start + len);
    let w = segment_weights(weights, start, len);
    if hop < 1 || len < 1 || start + len > chroma.len() {
        found
    } else {
        with_detections(
            if chroma_error(seg, w) is Some {
                found
            } else {
                found.push(weighted_detection(seg, templates, w))
            },
            chroma,
            templates,
            weights,
            len,
            hop,
            start + hop,
        )
    }
}

/// The vectors of results and the sequence of detections agree.
pub open spec fn detections_of(results: Seq<KeyDetectionResult>) -> Seq<Detection> {
    Seq::new(results.len(), |i: int| results[i]@)
}

/// How many of the first `n` detections have `key`.
pub open spec fn key_count(found: Seq<Detection>, key: Key, n: nat) -> nat
    decreases n,
{
    if n == 0 {
        0
    } else if found[n - 1].key == key {
        key_count(found, key, (n - 1) as nat) + 1
    } else {
        key_count(found, key, (n - 1) as nat)
    }
}

/// The confidences of those of the first `n` detections that have `key`, added up.
pub open spec fn key_trust(found: Seq<Detection>, key: Key, n: nat) -> F32
    decreases n,
{
    if n == 0 {
        zero()
    } else if found[n - 1].key == key {
        key_trust(found, key, (n - 1) as nat) + found[n - 1].confidence
    } else {
        key_trust(found, key, (n - 1) as nat)
    }
}

/// The key at place `a` occurs more often than the one at place `b`, or as
/// often and with more confidence.
pub open spec fn is_more_common(found: Seq<Detection>, a: int, b: int) -> bool {
    let ka = key_at(a as usize);
    let kb = key_at(b as usize);
    let ca = key_count(found, ka, found.len());
    let cb = key_count(found, kb, found.len());
    ca > cb || (ca == cb && key_trust(found, ka, found.len()) > key_trust(found, kb, found.len()))
}

/// The place, among the first `n >= 1`, of the key that occurs most often; of
/// those that tie in number and confidence, the first.
pub open spec fn common_place(found: Seq<Detection>, n: nat) -> int
    decreases n,
{
    if n <= 1 {
        0
    } else {
        let p = common_place(found, (n - 1) as nat);
        if is_more_common(found, n - 1, p) {
            n - 1
        } else {
            p
        }
    }
}

/// The scores of `key` in the first `n` detections, each times the confidence
/// of the detection, added up; and the confidences.
pub open spec fn trusted_score(found: Seq<Detection>, key: Key, n: nat) -> (F32, F32)
    decreases n,
{
    if n == 0 {
        (zero(), zero())
    } else {
        let acc = trusted_score(found, key, (n - 1) as nat);
        let d = found[n - 1];
        if ranks_hold(d.all_scores, key) {
            (
                acc.0 + first_score(d.all_scores, key, false, 0, zero()) * d.confidence,
                acc.1 + d.confidence,
            )
        } else {
            acc
        }
    }
}

/// The score of `key` over all detections, weighted by their confidence.
pub open spec fn mean_score(found: Seq<Detection>, key: Key) -> F32 {
    let t = trusted_score(found, key, found.len());
    if t.1 > zero() {
        t.0 / t.1
    } else {
        zero()
    }
}

/// The detection of the most common key.
pub open spec fn common_detection(found: Seq<Detection>) -> Detection {
    let key = key_at(common_place(found, 24) as usize);
    let ranks = ranked(
        table_of(Seq::new(24, |i: int| mean_score(found, key_at(i as usize)))),
    );
    Detection {
        key,
        confidence: lead(
            first_score(ranks, key, false, 0, zero()),
            first_score(ranks, key, true, 0, zero()),
        ),
        all_scores: ranks,
        top_keys: first_ranks(ranks, 3),
    }
}

/// The length of the segments: not above the number of frames, but at least 120.
pub open spec fn median_segment_len(len: int, frames: int) -> int {
    let l = if len <= frames {
        len
    } else {
        frames
    };
    if l >= 120 {
        l
    } else {
        120
    }
}

pub open spec fn at_least_one(n: usize) -> int {
    if n >= 1 {
        n as int
    } else {
        1
    }
}

fn find_detections(
    chroma_vectors: &[Vec<F32>],
    templates: &KeyTemplates,
    frame_weights: Option<&[F32]>,
    len: usize,
    hop: usize,
) -> (r: Vec<KeyDetectionResult>)
    requires
        len >= 1,
        hop >= 1,
    ensures
        detections_of(r@) == with_detections(
            Seq::empty(),
            chroma_vectors@,
            templates.profiles(),
            weights_of(frame_weights),
            len as int,
            hop as int,
            0,
        ),
        r@.len() <= chroma_vectors@.len(),
{
    let n: usize = chroma_vectors.len();
    let mut found: Vec<KeyDetectionResult> = Vec::new();
    let mut start: usize = 0;
    let ghost all: Seq<Detection> = with_detections(
        Seq::empty(),
        chroma_vectors@,
        templates.profiles(),
        weights_of(frame_weights),
        len as int,
        hop as int,
        0,
    );
    assert(detections_of(found@) =~= Seq::empty());
    while len <= n && start <= n - len
        invariant
            n == chroma_vectors@.len(),
            len >= 1,
            hop >= 1,
            start <= n,
            found@.len() <= start,
            all == with_detections(
                detections_of(found@),
                chroma_vectors@,
                templates.profiles(),
                weights_of(frame_weights),
                len as int,
                hop as int,
                start as int,
            ),
        decreases n - start,
    {
        let seg = slice_subrange(chroma_vectors, start, start + len);
        let wseg = take_segment_weights(frame_weights, start, len);
        let ghost before: Seq<KeyDetectionResult> = found@;
        match detect_key_weighted(seg, templates, wseg) {
            Ok(d) => {
                found.push(d);
                assert(detections_of(found@) =~= detections_of(before).push(d@));
            },
            Err(_) => {},
        }
        let ghost next: int = start + hop;
        assert(all == with_detections(
            detections_of(found@),
            chroma_vectors@,
            templates.profiles(),
            weights_of(frame_weights),
            len as int,
            hop as int,
            next,
        ));
        start = if hop > n - start {
            n
        } else {
            start + hop
        };
    }
    found
}

fn count_key(found: &Vec<KeyDetectionResult>, key: Key) -> (r: (usize, F32))
    ensures
        r.0 == key_count(detections_of(found@), key, found@.len()),
        r.1 == key_trust(detections_of(found@), key, found@.len()),
{
    let mut count: usize = 0;
    let mut trust = zero();
    let mut n: usize = 0;
    while n < found.len()
        invariant
            n <= found.len(),
            count <= n,
            count == key_count(detections_of(found@), key, n as nat),
            trust == key_trust(detections_of(found@), key, n as nat),
        decreases found.len() - n,
    {
        if found[n].key == key {
            count = count + 1;
            trust = trust + found[n].confidence;
        }
        n = n + 1;
    }
    (count, trust)
}

fn find_common_place(found: &Vec<KeyDetectionResult>) -> (r: usize)
    ensures
        r == common_place(detections_of(found@), 24),
        r < 24,
{
    let mut p: usize = 0;
    let mut best = count_key(found, key_at(0));
    let mut n: usize = 1;
    while n < 24
        invariant
            1 <= n <= 24,
            p < n,
            p == common_place(detections_of(found@), n as nat),
            best.0 == key_count(detections_of(found@), key_at(p), found@.len()),
            best.1 == key_trust(detections_of(found@), key_at(p), found@.len()),
        decreases 24 - n,
    {
        let c = count_key(found, key_at(n));
        if c.0 > best.0 || (c.0 == best.0 && c.1 > best.1) {
            p = n;
            best = c;
        }
        n = n + 1;
    }
    p
}

fn compute_mean_score(found: &Vec<KeyDetectionResult>, key: Key) -> (r: F32)
    ensures
        r == mean_score(detections_of(found@), key),
{
    let mut total = zero();
    let mut weight = zero();
    let mut n: usize = 0;
    while n < found.len()
        invariant
            n <= found.len(),
            (total, weight) == trusted_score(detections_of(found@), key, n as nat),
        decreases found.len() - n,
    {
        if holds(found[n].all_scores.as_slice(), key) {
            let c = found[n].confidence;
            total = total + find_first_score(found[n].all_scores.as_slice(), key, false, zero()) * c;
            weight = weight + c;
        }
        n = n + 1;
    }
    if weight > zero() {
        total / weight
    } else {
        zero()
    }
}

fn detect_common(found: &Vec<KeyDetectionResult>) -> (r: KeyDetectionResult)
    ensures
        r@ == common_detection(detections_of(found@)),
{
    let key = key_at(find_common_place(found));
    let mut scores: Vec<F32> = Vec::new();
    let mut i: usize = 0;
    while i < 24
        invariant
            i <= 24,
            scores@.len() == i,
            forall|k: int|
                0 <= k < i ==> scores@[k] == mean_score(detections_of(found@), key_at(k as usize)),
        decreases 24 - i,
    {
        let s = compute_mean_score(found, key_at(i));
        scores.push(s);
        i = i + 1;
    }
    assert(scores@ =~= Seq::new(
        24,
        |k: int| mean_score(detections_of(found@), key_at(k as usize)),
    ));
    let table: Vec<(Key, F32)> = make_table(scores.as_slice());
    let ranks: Vec<(Key, F32)> = rank(table.as_slice());
    let score = find_first_score(ranks.as_slice(), key, false, zero());
    let other = find_first_score(ranks.as_slice(), key, true, zero());
    let top_keys: Vec<(Key, F32)> = take_ranks(ranks.as_slice(), 3);
    KeyDetectionResult { key, confidence: compute_lead(score, other), all_scores: ranks, top_keys }
}

/// Detects the key that most segments are in; the key of all frames, where
/// there are too few segments.
pub fn detect_key_median(
    chroma_vectors: &[Vec<F32>],
    templates: &KeyTemplates,
    frame_weights: Option<&[F32]>,
    segment_length_frames: usize,
    segment_hop_frames: usize,
    min_segments: usize,
) -> (r: Result<KeyDetectionResult, AnalysisError>)
    ensures
        ({
            let found = with_detections(
                Seq::empty(),
                chroma_vectors@,
                templates.profiles(),
                weights_of(frame_weights),
                median_segment_len(segment_length_frames as int, chroma_vectors@.len() as int),
                at_least_one(segment_hop_frames),
                0,
            );
            if chroma_vectors@.len() == 0 {
                is_invalid_input(r, "Empty chroma vectors"@)
            } else if found.len() < at_least_one(min_segments) {
                detects(
                    r,
                    chroma_error(chroma_vectors@, weights_of(frame_weights)),
                    weighted_detection(chroma_vectors@, templates.profiles(), weights_of(frame_weights)),
                )
            } else {
                r is Ok && r->Ok_0@ == common_detection(found)
            }
        }),
{
    if chroma_vectors.len() == 0 {
        return Err(invalid_input("Empty chroma vectors"));
    }
    let short: usize = if segment_length_frames <= chroma_vectors.len() {
        segment_length_frames
    } else {
        chroma_vectors.len()
    };
    let len: usize = if short >= 120 {
        short
    } else {
        120
    };
    let hop: usize = if segment_hop_frames >= 1 {
        segment_hop_frames
    } else {
        1
    };
    let min_seg: usize = if min_segments >= 1 {
        min_segments
    } else {
        1
    };
    let found: Vec<KeyDetectionResult> = find_detections(
        chroma_vectors,
        templates,
        frame_weights,
        len,
        hop,
    );
    assert(detections_of(found@).len() == found@.len());
    if found.len() < min_seg {
        return detect_key_weighted(chroma_vectors, templates, frame_weights);
    }
    Ok(detect_common(&found))
}

} // verus!
