//! Key detection over segments of a track, each a detection of its own.
use super::detector::chroma_error;
use super::detector::compute_lead;
use super::detector::detect_key_weighted;
use super::detector::detect_key_weighted_mode_heuristic;
use super::detector::detects;
use super::detector::find_first_score;
use super::detector::first_ranks;
use super::detector::first_score;
use super::detector::heuristic_detection;
use super::detector::key_at;
use super::detector::lead;
use super::detector::rank;
use super::detector::ranked;
use super::detector::ranks_hold;
use super::detector::take_ranks;
use super::detector::weighted_detection;
use super::detector::weights_of;
use super::key_clarity::clarity_of;
use super::key_clarity::compute_key_clarity;
use super::result::Detection;
use super::result::KeyDetectionResult;
use super::templates::KeyTemplates;
use crate::analysis::result::Key;
use crate::error::invalid_input;
use crate::error::is_invalid_input;
use crate::error::AnalysisError;
use crate::float::one;
use crate::float::ratio;
use crate::float::zero;
use crate::float::F32;
use vstd::prelude::*;
use vstd::slice::slice_subrange;

verus! {

/// How the mode of a key is told.
#[derive(Debug, Clone, Copy)]
pub struct ModeOptions {
    /// Let the best key give way to its parallel key
    pub enable_mode_heuristic: bool,
    /// How clearly the third must speak for a mode
    pub third_ratio_margin: F32,
    /// How much of the best score the parallel key must have
    pub flip_min_score_ratio: F32,
    /// Let minor keys gain by their leading tone
    pub enable_minor_harmonic_bonus: bool,
    /// By how much
    pub minor_leading_tone_bonus_weight: F32,
}

/// The detection with the mode told as `options` say.
#[verifier::opaque]
pub open spec fn optional_detection(
    chroma: Seq<Vec<F32>>,
    templates: Seq<Seq<F32>>,
    weights: Option<Seq<F32>>,
    options: ModeOptions,
) -> Detection {
    if options.enable_mode_heuristic || options.enable_minor_harmonic_bonus {
        heuristic_detection(
            chroma,
            templates,
            weights,
            options.third_ratio_margin,
            if options.enable_mode_heuristic {
                options.flip_min_score_ratio
            } else {
                zero()
            },
            options.enable_minor_harmonic_bonus,
            options.minor_leading_tone_bonus_weight,
        )
    } else {
        weighted_detection(chroma, templates, weights)
    }
}

/// Detects the key of chroma vectors, with the mode told as `options` say.
pub fn detect_key_with_options(
    chroma_vectors: &[Vec<F32>],
    templates: &KeyTemplates,
    frame_weights: Option<&[F32]>,
    options: ModeOptions,
) -> (r: Result<KeyDetectionResult, AnalysisError>)
    ensures
        detects(
            r,
            chroma_error(chroma_vectors@, weights_of(frame_weights)),
            optional_detection(chroma_vectors@, templates.profiles(), weights_of(frame_weights), options),
        ),
{
    proof {
        reveal(optional_detection);
    }
    if options.enable_mode_heuristic || options.enable_minor_harmonic_bonus {
        detect_key_weighted_mode_heuristic(
            chroma_vectors,
            templates,
            frame_weights,
            options.third_ratio_margin,
            if options.enable_mode_heuristic {
                options.flip_min_score_ratio
            } else {
                zero()
            },
            options.enable_minor_harmonic_bonus,
            options.minor_leading_tone_bonus_weight,
        )
    } else {
        detect_key_weighted(chroma_vectors, templates, frame_weights)
    }
}

/// The detection of the first of ranked scores.
pub open spec fn first_detection(ranks: Seq<(Key, F32)>) -> Detection {
    Detection {
        key: ranks[0].0,
        confidence: lead(ranks[0].1, ranks[1].1),
        all_scores: ranks,
        top_keys: first_ranks(ranks, 3),
    }
}

/// The score table with these scores, by place.
pub open spec fn table_of(scores: Seq<F32>) -> Seq<(Key, F32)> {
    Seq::new(24, |i: int| (key_at(i as usize), scores[i]))
}

pub(crate) fn make_table(scores: &[F32]) -> (r: Vec<(Key, F32)>)
    requires
        scores@.len() == 24,
    ensures
        r@ == table_of(scores@),
{
    let mut r: Vec<(Key, F32)> = Vec::new();
    let mut i: usize = 0;
    while i < 24
        invariant
            i <= 24,
            scores@.len() == 24,
            r@.len() == i,
            forall|k: int| 0 <= k < i ==> r@[k] == (key_at(k as usize), scores@[k]),
        decreases 24 - i,
    {
        r.push((key_at(i), scores[i]));
        i = i + 1;
    }
    assert(r@ =~= table_of(scores@));
    r
}

pub(crate) fn detect_first(scores: &[F32]) -> (r: KeyDetectionResult)
    requires
        scores@.len() == 24,
    ensures
        r@ == first_detection(ranked(table_of(scores@))),
{
    let table: Vec<(Key, F32)> = make_table(scores);
    let ranks: Vec<(Key, F32)> = rank(table.as_slice());
    let top_keys: Vec<(Key, F32)> = take_ranks(ranks.as_slice(), 3);
    KeyDetectionResult {
        key: ranks[0].0,
        confidence: compute_lead(ranks[0].1, ranks[1].1),
        all_scores: ranks,
        top_keys,
    }
}

/// The weights of the frames from `start` on, where there are enough of them.
pub open spec fn segment_weights(weights: Option<Seq<F32>>, start: int, len: int) -> Option<Seq<F32>> {
    match weights {
        Some(w) if start + len <= w.len() => Some(w.subrange(start, start + len)),
        _ => None,
    }
}

pub(crate) fn take_segment_weights<'a>(weights: Option<&'a [F32]>, start: usize, len: usize) -> (r: Option<&'a [F32]>)
    requires
        start + len <= usize::MAX,
    ensures
        weights_of(r) == segment_weights(weights_of(weights), start as int, len as int),
{
    match weights {
        Some(w) => if start + len <= w.len() {
            Some(slice_subrange(w, start, start + len))
        } else {
            None
        },
        None => None,
    }
}

/// What segments have added up to: a score for every place, their weight,
/// whether there were any, and the error of one that could not be used.
#[verifier::ext_equal]
pub struct SegmentSums {
    pub scores: Seq<F32>,
    pub weight: F32,
    pub used: bool,
    pub error: Option<Seq<char>>,
}

/// The sums before the first segment.
pub open spec fn no_segments() -> SegmentSums {
    SegmentSums {
        scores: Seq::new(24, |i: int| zero()),
        weight: zero(),
        used: false,
        error: None,
    }
}

/// A score with that of `key` in a detection added, times a weight.
pub open spec fn score_with(acc: F32, ranks: Seq<(Key, F32)>, key: Key, w: F32) -> F32 {
    if ranks_hold(ranks, key) {
        acc + first_score(ranks, key, false, 0, zero()) * w
    } else {
        acc
    }
}

/// What a segment counts: its clarity, times the weight of its scale where it has one.
#[verifier::allow_in_spec]
pub fn segment_weight(clarity: F32, scale_weight: Option<F32>) -> F32
    returns
        (match scale_weight {
            Some(w) => clarity * w,
            None => clarity,
        }),
{
    match scale_weight {
        Some(w) => clarity * w,
        None => clarity,
    }
}

/// The sums with a segment added, where it is clear enough.
#[verifier::opaque]
pub open spec fn with_segment(
    sums: SegmentSums,
    d: Detection,
    min_clarity: F32,
    scale_weight: Option<F32>,
) -> SegmentSums {
    let clarity = clarity_of(d.all_scores);
    let w = segment_weight(clarity, scale_weight);
    if clarity >= min_clarity {
        SegmentSums {
            scores: Seq::new(
                24,
                |i: int| score_with(sums.scores[i], d.all_scores, key_at(i as usize), w),
            ),
            weight: sums.weight + w,
            used: true,
            error: None,
        }
    } else {
        sums
    }
}

/// The sums with all segments of one length added that start at `start` or at a
/// multiple of `hop` frames later.
pub open spec fn with_segments(
    sums: SegmentSums,
    chroma: Seq<Vec<F32>>,
    templates: Seq<Seq<F32>>,
    weights: Option<Seq<F32>>,
    options: ModeOptions,
    min_clarity: F32,
    scale_weight: Option<F32>,
    len: int,
    hop: int,
    start: int,
) -> SegmentSums
    decreases
        (if start < chroma.len() {
            chroma.len() - start
        } else {
            0
        }),
{
    let seg = chroma.subrange(start, start + len);
    let w = segment_weights(weights, start, len);
    if hop < 1 || len < 1 || start + len > chroma.len() || sums.error is Some {
        sums
    } else if chroma_error(seg, w) is Some {
        SegmentSums { error: chroma_error(seg, w), ..sums }
    } else {
        with_segments(
            with_segment(
                sums,
                optional_detection(seg, templates, w, options),
                min_clarity,
                scale_weight,
            ),
            chroma,
            templates,
            weights,
            options,
            min_clarity,
            scale_weight,
            len,
            hop,
            start + hop,
        )
    }
}

/// The weight of scale `k`: one, where none is given.
pub open spec fn scale_weight_of(scale_weights: Option<Seq<F32>>, k: int) -> F32 {
    match scale_weights {
        Some(w) if k < w.len() => w[k],
        _ => one(),
    }
}

/// The sums over the first `k` segment lengths. A length is left out where no
/// segment of it fits or its weight is not above zero.
pub open spec fn scale_sums(
    chroma: Seq<Vec<F32>>,
    templates: Seq<Seq<F32>>,
    weights: Option<Seq<F32>>,
    options: ModeOptions,
    min_clarity: F32,
    lengths: Seq<usize>,
    scale_weights: Option<Seq<F32>>,
    hop: int,
    k: nat,
) -> SegmentSums
    decreases k,
{
    if k == 0 {
        no_segments()
    } else {
        let sums = scale_sums(
            chroma,
            templates,
            weights,
            options,
            min_clarity,
            lengths,
            scale_weights,
            hop,
            (k - 1) as nat,
        );
        let len = lengths[k - 1];
        let w = scale_weight_of(scale_weights, k - 1);
        if len == 0 || len > chroma.len() || w <= zero() {
            sums
        } else {
            with_segments(
                sums,
                chroma,
                templates,
                weights,
                options,
                min_clarity,
                Some(w),
                len as int,
                hop,
                0,
            )
        }
    }
}

/// Segment sums while they are being added up.
struct Accumulator {
    scores: Vec<F32>,
    weight: F32,
    used: bool,
}

impl Accumulator {
    spec fn sums(self) -> SegmentSums {
        SegmentSums { scores: self.scores@, weight: self.weight, used: self.used, error: None }
    }

    fn new() -> (r: Accumulator)
        ensures
            r.sums() == no_segments(),
    {
        let mut scores: Vec<F32> = Vec::new();
        let mut i: usize = 0;
        while i < 24
            invariant
                i <= 24,
                scores@.len() == i,
                forall|k: int| 0 <= k < i ==> scores@[k] == zero(),
            decreases 24 - i,
        {
            scores.push(zero());
            i = i + 1;
        }
        assert(scores@ =~= no_segments().scores);
        Accumulator { scores, weight: zero(), used: false }
    }

    fn add_segment(&mut self, d: &KeyDetectionResult, min_clarity: F32, scale_weight: Option<F32>)
        requires
            old(self).scores@.len() == 24,
        ensures
            final(self).scores@.len() == 24,
            final(self).sums() == with_segment(old(self).sums(), d@, min_clarity, scale_weight),
    {
        proof {
            reveal(with_segment);
        }
        let clarity = compute_key_clarity(d.all_scores.as_slice());
        if clarity >= min_clarity {
            let w = segment_weight(clarity, scale_weight);
            let ghost start: Seq<F32> = self.scores@;
            let mut i: usize = 0;
            while i < 24
                invariant
                    i <= 24,
                    start.len() == 24,
                    self.scores@.len() == 24,
                    self.weight == old(self).weight,
                    forall|k: int|
                        0 <= k < i ==> self.scores@[k] == score_with(
                            start[k],
                            d.all_scores@,
                            key_at(k as usize),
                            w,
                        ),
                    forall|k: int| i <= k < 24 ==> self.scores@[k] == start[k],
                decreases 24 - i,
            {
                let acc = self.scores[i];
                let x = add_score(acc, d.all_scores.as_slice(), key_at(i), w);
                self.scores.set(i, x);
                i = i + 1;
            }
            self.weight = self.weight + w;
            self.used = true;
            assert(self.scores@ =~= with_segment(old(self).sums(), d@, min_clarity, scale_weight).scores);
        }
    }
}

pub(crate) fn holds(ranks: &[(Key, F32)], key: Key) -> (r: bool)
    ensures
        r == ranks_hold(ranks@, key),
{
    let mut i: usize = 0;
    while i < ranks.len()
        invariant
            i <= ranks.len(),
            forall|k: int| 0 <= k < i ==> (#[trigger] ranks@[k]).0 != key,
        decreases ranks.len() - i,
    {
        if ranks[i].0 == key {
            assert(ranks@[i as int].0 == key);
            return true;
        }
        i = i + 1;
    }
    false
}

fn add_score(acc: F32, ranks: &[(Key, F32)], key: Key, w: F32) -> (r: F32)
    ensures
        r == score_with(acc, ranks@, key, w),
{
    if holds(ranks, key) {
        acc + find_first_score(ranks, key, false, zero()) * w
    } else {
        acc
    }
}

/// Adds all segments of one length.
fn add_segments(
    sums: &mut Accumulator,
    chroma_vectors: &[Vec<F32>],
    templates: &KeyTemplates,
    frame_weights: Option<&[F32]>,
    options: ModeOptions,
    min_clarity: F32,
    scale_weight: Option<F32>,
    len: usize,
    hop: usize,
) -> (r: Result<(), AnalysisError>)
    requires
        old(sums).scores@.len() == 24,
        len >= 1,
        hop >= 1,
    ensures
        final(sums).scores@.len() == 24,
        ({
            let after = with_segments(
                old(sums).sums(),
                chroma_vectors@,
                templates.profiles(),
                weights_of(frame_weights),
                options,
                min_clarity,
                scale_weight,
                len as int,
                hop as int,
                0,
            );
            match after.error {
                Some(msg) => is_invalid_input(r, msg),
                None => r is Ok && final(sums).sums() == after,
            }
        }),
{
    let n: usize = chroma_vectors.len();
    let mut start: usize = 0;
    let ghost after: SegmentSums = with_segments(
        sums.sums(),
        chroma_vectors@,
        templates.profiles(),
        weights_of(frame_weights),
        options,
        min_clarity,
        scale_weight,
        len as int,
        hop as int,
        0,
    );
    while len <= n && start <= n - len
        invariant
            n == chroma_vectors@.len(),
            after == with_segments(
                old(sums).sums(),
                chroma_vectors@,
                templates.profiles(),
                weights_of(frame_weights),
                options,
                min_clarity,
                scale_weight,
                len as int,
                hop as int,
                0,
            ),
            len >= 1,
            hop >= 1,
            sums.scores@.len() == 24,
            after == with_segments(
                sums.sums(),
                chroma_vectors@,
                templates.profiles(),
                weights_of(frame_weights),
                options,
                min_clarity,
                scale_weight,
                len as int,
                hop as int,
                start as int,
            ),
        decreases n - start,
    {
        let seg = slice_subrange(chroma_vectors, start, start + len);
        let wseg = take_segment_weights(frame_weights, start, len);
        match detect_key_with_options(seg, templates, wseg, options) {
            Err(e) => {
                return Err(e);
            },
            Ok(d) => {
                sums.add_segment(&d, min_clarity, scale_weight);
            },
        }
        let ghost next: int = start + hop;
        assert(after == with_segments(
            sums.sums(),
            chroma_vectors@,
            templates.profiles(),
            weights_of(frame_weights),
            options,
            min_clarity,
            scale_weight,
            len as int,
            hop as int,
            next,
        ));
        start = if hop > n - start {
            n
        } else {
            start + hop
        };
    }
    Ok(())
}

/// Detects the key over segments of one length, each counted by its clarity; over
/// all frames, where no segment is clear enough. An error of a segment is told
/// apart from one of all frames: it is the outer one.
pub fn detect_key_by_segments(
    chroma_vectors: &[Vec<F32>],
    templates: &KeyTemplates,
    frame_weights: Option<&[F32]>,
    options: ModeOptions,
    min_clarity: F32,
    len: usize,
    hop: usize,
) -> (r: Result<Result<KeyDetectionResult, AnalysisError>, AnalysisError>)
    requires
        len >= 1,
        hop >= 1,
    ensures
        ({
            let sums = with_segments(
                no_segments(),
                chroma_vectors@,
                templates.profiles(),
                weights_of(frame_weights),
                options,
                min_clarity,
                None,
                len as int,
                hop as int,
                0,
            );
            match sums.error {
                Some(msg) => is_invalid_input(r, msg),
                None => r is Ok && if sums.used {
                    detects(r->Ok_0, None, first_detection(ranked(table_of(sums.scores))))
                } else {
                    detects(
                        r->Ok_0,
                        chroma_error(chroma_vectors@, weights_of(frame_weights)),
                        optional_detection(
                            chroma_vectors@,
                            templates.profiles(),
                            weights_of(frame_weights),
                            options,
                        ),
                    )
                },
            }
        }),
{
    let mut sums = Accumulator::new();
    match add_segments(
        &mut sums,
        chroma_vectors,
        templates,
        frame_weights,
        options,
        min_clarity,
        None,
        len,
        hop,
    ) {
        Err(e) => {
            return Err(e);
        },
        Ok(_) => {},
    }
    if sums.used {
        Ok(Ok(detect_first(sums.scores.as_slice())))
    } else {
        Ok(detect_key_with_options(chroma_vectors, templates, frame_weights, options))
    }
}

/// The detection over segments of several lengths; over all frames, where no
/// segment is clear enough.
pub open spec fn multi_scale_detection(
    chroma: Seq<Vec<F32>>,
    templates: Seq<Seq<F32>>,
    weights: Option<Seq<F32>>,
    options: ModeOptions,
    sums: SegmentSums,
) -> Detection {
    if !sums.used || sums.weight <= ratio(1, 1_000_000_000_000) {
        optional_detection(chroma, templates, weights, options)
    } else {
        first_detection(
            ranked(table_of(Seq::new(24, |i: int| sums.scores[i] / sums.weight))),
        )
    }
}

/// Why chroma vectors and segment lengths cannot be used, where they cannot.
pub open spec fn multi_scale_error(
    chroma: Seq<Vec<F32>>,
    weights: Option<Seq<F32>>,
    lengths: Seq<usize>,
    sums: SegmentSums,
) -> Option<Seq<char>> {
    if chroma.len() == 0 {
        Some("Empty chroma vectors"@)
    } else if lengths.len() == 0 {
        Some("No segment lengths provided for multi-scale detection"@)
    } else if sums.error is Some {
        sums.error
    } else if !sums.used || sums.weight <= ratio(1, 1_000_000_000_000) {
        chroma_error(chroma, weights)
    } else {
        None
    }
}

/// Detects the key over segments of several lengths, each counted by its clarity.
pub fn detect_key_multi_scale(
    chroma_vectors: &[Vec<F32>],
    templates: &KeyTemplates,
    frame_weights: Option<&[F32]>,
    segment_lengths_frames: &[usize],
    segment_hop_frames: usize,
    min_clarity: F32,
    scale_weights: Option<&[F32]>,
    enable_mode_heuristic: bool,
    mode_third_ratio_margin: F32,
    mode_flip_min_score_ratio: F32,
    enable_minor_harmonic_bonus: bool,
    minor_leading_tone_bonus_weight: F32,
) -> (r: Result<KeyDetectionResult, AnalysisError>)
    ensures
        ({
            let options = ModeOptions {
                enable_mode_heuristic,
                third_ratio_margin: mode_third_ratio_margin,
                flip_min_score_ratio: mode_flip_min_score_ratio,
                enable_minor_harmonic_bonus,
                minor_leading_tone_bonus_weight,
            };
            let sums = scale_sums(
                chroma_vectors@,
                templates.profiles(),
                weights_of(frame_weights),
                options,
                min_clarity,
                segment_lengths_frames@,
                weights_of(scale_weights),
                if segment_hop_frames >= 1 {
                    segment_hop_frames as int
                } else {
                    1
                },
                segment_lengths_frames@.len(),
            );
            detects(
                r,
                multi_scale_error(
                    chroma_vectors@,
                    weights_of(frame_weights),
                    segment_lengths_frames@,
                    sums,
                ),
                multi_scale_detection(
                    chroma_vectors@,
                    templates.profiles(),
                    weights_of(frame_weights),
                    options,
                    sums,
                ),
            )
        }),
{
    if chroma_vectors.len() == 0 {
        return Err(invalid_input("Empty chroma vectors"));
    }
    if segment_lengths_frames.len() == 0 {
        return Err(invalid_input("No segment lengths provided for multi-scale detection"));
    }
    let options = ModeOptions {
        enable_mode_heuristic,
        third_ratio_margin: mode_third_ratio_margin,
        flip_min_score_ratio: mode_flip_min_score_ratio,
        enable_minor_harmonic_bonus,
        minor_leading_tone_bonus_weight,
    };
    let hop: usize = if segment_hop_frames >= 1 {
        segment_hop_frames
    } else {
        1
    };
    let mut sums = Accumulator::new();
    let mut k: usize = 0;
    while k < segment_lengths_frames.len()
        invariant
            k <= segment_lengths_frames.len(),
            options == (ModeOptions {
                enable_mode_heuristic,
                third_ratio_margin: mode_third_ratio_margin,
                flip_min_score_ratio: mode_flip_min_score_ratio,
                enable_minor_harmonic_bonus,
                minor_leading_tone_bonus_weight,
            }),
            chroma_vectors@.len() > 0,
            segment_lengths_frames@.len() > 0,
            hop == if segment_hop_frames >= 1 {
                segment_hop_frames as int
            } else {
                1
            },
            sums.scores@.len() == 24,
            sums.sums() == scale_sums(
                chroma_vectors@,
                templates.profiles(),
                weights_of(frame_weights),
                options,
                min_clarity,
                segment_lengths_frames@,
                weights_of(scale_weights),
                hop as int,
                k as nat,
            ),
        decreases segment_lengths_frames.len() - k,
    {
        let len: usize = segment_lengths_frames[k];
        let w = match scale_weights {
            Some(s) => if k < s.len() {
                s[k]
            } else {
                one()
            },
            None => one(),
        };
        if !(len == 0 || len > chroma_vectors.len() || w <= zero()) {
            match add_segments(
                &mut sums,
                chroma_vectors,
                templates,
                frame_weights,
                options,
                min_clarity,
                Some(w),
                len,
                hop,
            ) {
                Err(e) => {
                    proof {
                        lemma_scale_error_stays(
                            chroma_vectors@,
                            templates.profiles(),
                            weights_of(frame_weights),
                            options,
                            min_clarity,
                            segment_lengths_frames@,
                            weights_of(scale_weights),
                            hop as int,
                            (k + 1) as nat,
                            segment_lengths_frames@.len(),
                        );
                    }
                    return Err(e);
                },
                Ok(_) => {},
            }
        }
        k = k + 1;
    }
    if !sums.used || sums.weight <= ratio(1, 1_000_000_000_000) {
        detect_key_with_options(chroma_vectors, templates, frame_weights, options)
    } else {
        let mut scores: Vec<F32> = Vec::new();
        let mut i: usize = 0;
        while i < 24
            invariant
                i <= 24,
                sums.scores@.len() == 24,
                scores@.len() == i,
                forall|l: int| 0 <= l < i ==> scores@[l] == sums.scores@[l] / sums.weight,
            decreases 24 - i,
        {
            scores.push(sums.scores[i] / sums.weight);
            i = i + 1;
        }
        assert(scores@ =~= Seq::new(24, |l: int| sums.scores@[l] / sums.weight));
        Ok(detect_first(scores.as_slice()))
    }
}

proof fn lemma_scale_error_stays(
    chroma: Seq<Vec<F32>>,
    templates: Seq<Seq<F32>>,
    weights: Option<Seq<F32>>,
    options: ModeOptions,
    min_clarity: F32,
    lengths: Seq<usize>,
    scale_weights: Option<Seq<F32>>,
    hop: int,
    k: nat,
    n: nat,
)
    requires
        k <= n,
        scale_sums(chroma, templates, weights, options, min_clarity, lengths, scale_weights, hop, k).error is Some,
    ensures
        scale_sums(chroma, templates, weights, options, min_clarity, lengths, scale_weights, hop, n).error
            == scale_sums(
            chroma,
            templates,
            weights,
            options,
            min_clarity,
            lengths,
            scale_weights,
            hop,
            k,
        ).error,
    decreases n - k,
{
    if k < n {
        lemma_scale_error_stays(
            chroma,
            templates,
            weights,
            options,
            min_clarity,
            lengths,
            scale_weights,
            hop,
            k,
            (n - 1) as nat,
        );
    }
}

} // verus!
