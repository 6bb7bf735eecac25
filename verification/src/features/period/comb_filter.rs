//! Tempo candidates by a comb filter: each tempo is scored by how many of its
//! beats have an onset near them.
use super::types::BpmCandidate;
use crate::error::gives;
use crate::error::invalid_input;
use crate::error::is_numerical_error;
use crate::error::AnalysisError;
use crate::error::Outcome;
use crate::float::one;
use crate::float::ratio;
use crate::float::zero;
use crate::float::F32;
use crate::number_text::fixed1;
use crate::number_text::fixed1_of;
use crate::number_text::fixed2;
use crate::number_text::fixed2_of;
use crate::sorting::arrange;
use crate::sorting::arranged;
use crate::sorting::sort_dedup;
use crate::sorting::sort_order;
use crate::sorting::sorted_order;
use crate::sorting::sorted_set;
use vstd::prelude::*;
use vstd::string::StringExecFns;

verus! {

/// The confidences of candidates.
pub open spec fn confidences(c: Seq<BpmCandidate>) -> Seq<F32> {
    Seq::new(c.len(), |i: int| c[i].confidence)
}

/// The candidates, the most confident first; candidates that tie keep their order.
pub open spec fn by_confidence(c: Seq<BpmCandidate>) -> Seq<BpmCandidate> {
    arranged(c, sorted_order(confidences(c), true, c.len()))
}

/// Sorts candidates, the most confident first.
pub fn sort_by_confidence(c: &[BpmCandidate]) -> (r: Vec<BpmCandidate>)
    ensures
        r@ == by_confidence(c@),
        r@.len() == c@.len(),
{
    let mut keys: Vec<F32> = Vec::new();
    let mut i: usize = 0;
    while i < c.len()
        invariant
            i <= c.len(),
            keys@.len() == i,
            forall|k: int| 0 <= k < i ==> keys@[k] == c@[k].confidence,
        decreases c.len() - i,
    {
        keys.push(c[i].confidence);
        i = i + 1;
    }
    assert(keys@ =~= confidences(c@));
    let order: Vec<usize> = sort_order(keys.as_slice(), true);
    arrange(c, order.as_slice())
}

/// The interval between beats, in samples.
#[verifier::allow_in_spec]
pub fn beat_period(sample_rate: u32, bpm: F32) -> F32
    returns
        ratio(60, 1) * F32::from_u32(sample_rate) / bpm,
{
    ratio(60, 1) * F32::from_u32(sample_rate) / bpm
}

/// How far an onset is from where a beat is expected.
#[verifier::allow_in_spec]
pub fn distance_to(onset: usize, expected: F32) -> F32
    returns
        (F32::from_usize(onset) - expected).abs(),
{
    (F32::from_usize(onset) - expected).abs()
}

/// The place, among the first `n >= 1` onsets, of the one nearest to a beat, by
/// whole samples; the first of those that tie.
pub open spec fn nearest_place(onsets: Seq<usize>, expected: F32, n: nat) -> int
    decreases n,
{
    if n <= 1 {
        0
    } else {
        let p = nearest_place(onsets, expected, (n - 1) as nat);
        if distance_to(onsets[n - 1], expected).to_usize() < distance_to(onsets[p], expected).to_usize() {
            n - 1
        } else {
            p
        }
    }
}

/// Beat `i` has an onset near it.
pub open spec fn is_aligned(onsets: Seq<usize>, period: F32, tolerance: F32, i: int) -> bool {
    let expected = F32::from_usize(i as usize) * period;
    distance_to(onsets[nearest_place(onsets, expected, onsets.len())], expected) <= tolerance
}

/// How many of the first `n` beats have an onset near them.
pub open spec fn aligned_beats(onsets: Seq<usize>, period: F32, tolerance: F32, n: nat) -> nat
    decreases n,
{
    if n == 0 {
        0
    } else if is_aligned(onsets, period, tolerance, n - 1) {
        aligned_beats(onsets, period, tolerance, (n - 1) as nat) + 1
    } else {
        aligned_beats(onsets, period, tolerance, (n - 1) as nat)
    }
}

/// How many beats there are up to the last onset.
pub open spec fn beats_until(last: usize, period: F32) -> int {
    let n = (F32::from_usize(last) / period).ceil().to_usize();
    if n < usize::MAX {
        n + 1
    } else {
        n as int
    }
}

/// The part of the beats of a tempo that have an onset near them; the onsets
/// are in order.
pub open spec fn comb_score(onsets: Seq<usize>, sample_rate: u32, bpm: F32, tolerance: F32) -> F32 {
    let period = beat_period(sample_rate, bpm);
    let beats = beats_until(onsets.last(), period);
    if onsets.len() == 0 {
        zero()
    } else {
        F32::from_usize(aligned_beats(onsets, period, period * tolerance, beats as nat) as usize)
            / F32::from_usize(beats as usize)
    }
}

/// How much of the interval an onset may be off: less for a faster tempo.
#[verifier::allow_in_spec]
pub fn comb_tolerance(bpm: F32) -> F32
    returns
        (ratio(1, 10) * (ratio(120, 1) / bpm)).clamp(ratio(5, 100), ratio(15, 100)),
{
    (ratio(1, 10) * (ratio(120, 1) / bpm)).clamp(ratio(5, 100), ratio(15, 100))
}

/// The tempos from `bpm` up to `limit`, in steps; none after one that a step
/// does not take further.
pub open spec fn tempos(bpm: F32, limit: F32, step: F32) -> Seq<F32>
    decreases
        (if bpm <= limit {
            limit.units() - bpm.units() + 1
        } else {
            0
        }),
{
    if !(bpm <= limit) {
        Seq::empty()
    } else if bpm + step > bpm {
        seq![bpm] + tempos(bpm + step, limit, step)
    } else {
        seq![bpm]
    }
}

/// The first tempo from `i` on whose beats are less than a sample apart.
pub open spec fn first_too_fast(bpms: Seq<F32>, sample_rate: u32, i: int) -> int
    decreases bpms.len() - i,
{
    if i < 0 || i >= bpms.len() || beat_period(sample_rate, bpms[i]) < one() {
        i
    } else {
        first_too_fast(bpms, sample_rate, i + 1)
    }
}

/// The scores of tempos.
pub open spec fn comb_scores(onsets: Seq<usize>, sample_rate: u32, bpms: Seq<F32>) -> Seq<F32> {
    Seq::new(
        bpms.len(),
        |i: int| comb_score(onsets, sample_rate, bpms[i], comb_tolerance(bpms[i])),
    )
}

/// The greatest of zero and the first `n` scores.
pub open spec fn best_score(scores: Seq<F32>, n: nat) -> F32
    decreases n,
{
    if n == 0 {
        zero()
    } else {
        let b = best_score(scores, (n - 1) as nat);
        if scores[n - 1] > b {
            scores[n - 1]
        } else {
            b
        }
    }
}

/// The tempos with their scores as parts of the greatest.
pub open spec fn comb_candidates(bpms: Seq<F32>, scores: Seq<F32>) -> Seq<BpmCandidate> {
    let best = best_score(scores, scores.len());
    Seq::new(
        bpms.len(),
        |i: int|
            BpmCandidate {
                bpm: bpms[i],
                confidence: if best > ratio(1, 10_000_000_000) {
                    scores[i] / best
                } else {
                    zero()
                },
            },
    )
}

/// Those of the first `n` candidates that have some confidence.
pub open spec fn confident(c: Seq<BpmCandidate>, n: nat) -> Seq<BpmCandidate>
    decreases n,
{
    if n == 0 {
        Seq::empty()
    } else if c[n - 1].confidence >= ratio(1, 10) {
        confident(c, (n - 1) as nat).push(c[n - 1])
    } else {
        confident(c, (n - 1) as nat)
    }
}

/// The candidates that onsets lead to, the most confident first.
pub open spec fn comb_result(onsets: Seq<usize>, sample_rate: u32, bpms: Seq<F32>) -> Seq<BpmCandidate> {
    let c = by_confidence(
        comb_candidates(bpms, comb_scores(sorted_set(onsets), sample_rate, bpms)),
    );
    confident(c, c.len())
}

/// A range of tempos that is no range.
#[verifier::allow_in_spec]
pub fn is_bad_range(min_bpm: F32, max_bpm: F32) -> bool
    returns
        min_bpm <= zero() || max_bpm <= zero() || min_bpm >= max_bpm,
{
    min_bpm <= zero() || max_bpm <= zero() || min_bpm >= max_bpm
}

pub open spec fn bad_range_text(min_bpm: F32, max_bpm: F32) -> Seq<char> {
    "Invalid BPM range: ["@ + fixed1_of(min_bpm) + ", "@ + fixed1_of(max_bpm) + "]"@
}

pub(crate) fn bad_range(min_bpm: F32, max_bpm: F32) -> (e: AnalysisError)
    ensures
        e matches AnalysisError::InvalidInput(m) && m@ == bad_range_text(min_bpm, max_bpm),
{
    AnalysisError::InvalidInput(
        "Invalid BPM range: [".to_owned().concat(fixed1(min_bpm).as_str()).concat(", ").concat(
            fixed1(max_bpm).as_str(),
        ).concat("]"),
    )
}

pub open spec fn bad_period_text(sample_rate: u32, bpm: F32) -> Seq<char> {
    "Invalid period: "@ + fixed2_of(beat_period(sample_rate, bpm)) + " samples for BPM "@ + fixed2_of(
        bpm,
    )
}

/// What a comb filter comes to.
pub open spec fn comb_search(
    onsets: Seq<usize>,
    sample_rate: u32,
    min_bpm: F32,
    max_bpm: F32,
    step: F32,
) -> Outcome<Seq<BpmCandidate>> {
    let bpms = tempos(min_bpm, max_bpm + ratio(1, 10_000_000_000), step);
    let fast = first_too_fast(bpms, sample_rate, 0);
    if onsets.len() == 0 {
        Outcome::Invalid("Empty onset list"@)
    } else if sample_rate == 0 {
        Outcome::Invalid("Invalid sample rate: 0"@)
    } else if is_bad_range(min_bpm, max_bpm) {
        Outcome::Invalid(bad_range_text(min_bpm, max_bpm))
    } else if step <= zero() {
        Outcome::Invalid("Invalid BPM resolution: "@ + fixed2_of(step))
    } else if onsets.len() < 2 {
        Outcome::Value(Seq::empty())
    } else if fast < bpms.len() {
        Outcome::Numerical(bad_period_text(sample_rate, bpms[fast]))
    } else {
        Outcome::Value(comb_result(onsets, sample_rate, bpms))
    }
}

/// What a coarse search, and a fine one around its best candidate, come to. The
/// fine search counts where it finds anything.
pub open spec fn refined_search(
    onsets: Seq<usize>,
    sample_rate: u32,
    min_bpm: F32,
    max_bpm: F32,
    range: F32,
) -> Outcome<Seq<BpmCandidate>> {
    match comb_search(onsets, sample_rate, min_bpm, max_bpm, ratio(2, 1)) {
        Outcome::Value(coarse) => {
            let fine = comb_search(
                onsets,
                sample_rate,
                (coarse[0].bpm - range).max(min_bpm),
                (coarse[0].bpm + range).min(max_bpm),
                ratio(5, 10),
            );
            if coarse.len() == 0 {
                Outcome::Value(Seq::empty())
            } else {
                match fine {
                    Outcome::Value(f) => Outcome::Value(
                        by_confidence(
                            if f.len() > 0 {
                                f
                            } else {
                                coarse
                            },
                        ),
                    ),
                    _ => fine,
                }
            }
        },
        error => error,
    }
}

fn find_nearest(onsets: &[usize], expected: F32) -> (r: usize)
    requires
        onsets@.len() > 0,
    ensures
        r == nearest_place(onsets@, expected, onsets@.len()),
        r < onsets@.len(),
{
    let mut p: usize = 0;
    let mut best: usize = distance_to(onsets[0], expected).to_usize();
    let mut n: usize = 1;
    while n < onsets.len()
        invariant
            1 <= n <= onsets.len(),
            p < n,
            p == nearest_place(onsets@, expected, n as nat),
            best == distance_to(onsets@[p as int], expected).to_usize(),
        decreases onsets.len() - n,
    {
        let d: usize = distance_to(onsets[n], expected).to_usize();
        if d < best {
            p = n;
            best = d;
        }
        n = n + 1;
    }
    p
}

/// Scores a tempo; the onsets are in order.
pub fn score_bpm_candidate(onsets: &[usize], sample_rate: u32, bpm: F32, tolerance: F32) -> (r: Result<
    F32,
    AnalysisError,
>)
    ensures
        if onsets@.len() > 0 && beat_period(sample_rate, bpm) < one() {
            is_numerical_error(r, bad_period_text(sample_rate, bpm))
        } else {
            r is Ok && r->Ok_0 == comb_score(onsets@, sample_rate, bpm, tolerance)
        },
{
    if onsets.len() == 0 {
        return Ok(zero());
    }
    let period = beat_period(sample_rate, bpm);
    if period < one() {
        let msg: String = "Invalid period: ".to_owned().concat(fixed2(period).as_str()).concat(
            " samples for BPM ",
        ).concat(fixed2(bpm).as_str());
        return Err(AnalysisError::NumericalError(msg));
    }
    let allowed = period * tolerance;
    let last: usize = onsets[onsets.len() - 1];
    let whole: usize = (F32::from_usize(last) / period).ceil().to_usize();
    let beats: usize = if whole < usize::MAX {
        whole + 1
    } else {
        whole
    };
    let mut count: usize = 0;
    let mut n: usize = 0;
    while n < beats
        invariant
            n <= beats,
            onsets@.len() > 0,
            count <= n,
            count == aligned_beats(onsets@, period, allowed, n as nat),
        decreases beats - n,
    {
        let expected = F32::from_usize(n) * period;
        let p: usize = find_nearest(onsets, expected);
        if distance_to(onsets[p], expected) <= allowed {
            count = count + 1;
        }
        n = n + 1;
    }
    Ok(F32::from_usize(count) / F32::from_usize(beats))
}

proof fn lemma_first_too_fast_prefix(a: Seq<F32>, b: Seq<F32>, sample_rate: u32, i: int)
    requires
        0 <= i <= a.len(),
        first_too_fast(a, sample_rate, i) == a.len(),
    ensures
        first_too_fast(a + b, sample_rate, i) == first_too_fast(a + b, sample_rate, a.len() as int),
    decreases a.len() - i,
{
    if i < a.len() {
        assert((a + b)[i] == a[i]);
        lemma_first_too_fast_prefix(a, b, sample_rate, i + 1);
    }
}

proof fn lemma_first_too_fast_range(a: Seq<F32>, sample_rate: u32, i: int)
    requires
        0 <= i <= a.len(),
    ensures
        i <= first_too_fast(a, sample_rate, i) <= a.len(),
    decreases a.len() - i,
{
    if i < a.len() && !(beat_period(sample_rate, a[i]) < one()) {
        lemma_first_too_fast_range(a, sample_rate, i + 1);
    }
}

/// Scores all tempos.
fn score_tempos(onsets: &[usize], sample_rate: u32, min_bpm: F32, limit: F32, step: F32) -> (r: Result<
    (Vec<F32>, Vec<F32>),
    AnalysisError,
>)
    requires
        onsets@.len() > 0,
    ensures
        ({
            let bpms = tempos(min_bpm, limit, step);
            let fast = first_too_fast(bpms, sample_rate, 0);
            if fast < bpms.len() {
                is_numerical_error(r, bad_period_text(sample_rate, bpms[fast]))
            } else {
                r is Ok && r->Ok_0.0@ == bpms && r->Ok_0.1@ == comb_scores(onsets@, sample_rate, bpms)
            }
        }),
{
    let mut bpms: Vec<F32> = Vec::new();
    let mut scores: Vec<F32> = Vec::new();
    let ghost all: Seq<F32> = tempos(min_bpm, limit, step);
    let mut bpm = min_bpm;
    let mut more: bool = bpm <= limit;
    assert(all =~= bpms@ + tempos(bpm, limit, step));
    while more
        invariant
            onsets@.len() > 0,
            all == tempos(min_bpm, limit, step),
            all == bpms@ + (if more {
                tempos(bpm, limit, step)
            } else {
                Seq::empty()
            }),
            more ==> bpm <= limit,
            first_too_fast(bpms@, sample_rate, 0) == bpms@.len(),
            scores@ == comb_scores(onsets@, sample_rate, bpms@),
        decreases
            (if more {
                limit.units() - bpm.units() + 1
            } else {
                0
            }),
    {
        let ghost before: Seq<F32> = bpms@;
        let ghost tail: Seq<F32> = tempos(bpm, limit, step);
        proof {
            lemma_first_too_fast_prefix(before, tail, sample_rate, 0);
            assert((before + tail)[before.len() as int] == tail[0]);
            assert(tail[0] == bpm);
        }
        match score_bpm_candidate(onsets, sample_rate, bpm, comb_tolerance(bpm)) {
            Err(e) => {
                return Err(e);
            },
            Ok(score) => {
                bpms.push(bpm);
                scores.push(score);
            },
        }
        proof {
            assert(scores@ =~= comb_scores(onsets@, sample_rate, bpms@));
            assert(bpms@ =~= before + seq![bpm]);
            lemma_first_too_fast_prefix(before, seq![bpm], sample_rate, 0);
            assert((before + seq![bpm])[before.len() as int] == bpm);
            assert(first_too_fast(bpms@, sample_rate, before.len() as int) == first_too_fast(
                bpms@,
                sample_rate,
                before.len() as int + 1,
            ));
        }
        let next = bpm + step;
        if next > bpm {
            proof {
                assert(before + tail =~= bpms@ + tempos(next, limit, step));
            }
            bpm = next;
            more = bpm <= limit;
            proof {
                assert(all =~= bpms@ + (if more {
                    tempos(bpm, limit, step)
                } else {
                    Seq::empty()
                }));
            }
        } else {
            more = false;
            assert(all =~= bpms@ + Seq::<F32>::empty());
        }
    }
    assert(all =~= bpms@);
    Ok((bpms, scores))
}

/// Estimates tempo candidates from onsets (in samples) by a comb filter, the
/// most confident first.
pub fn estimate_bpm_from_comb_filter(
    onsets: &[usize],
    sample_rate: u32,
    _hop_size: usize,
    min_bpm: F32,
    max_bpm: F32,
    bpm_resolution: F32,
) -> (r: Result<Vec<BpmCandidate>, AnalysisError>)
    ensures
        gives(r, comb_search(onsets@, sample_rate, min_bpm, max_bpm, bpm_resolution)),
{
    if onsets.len() == 0 {
        return Err(invalid_input("Empty onset list"));
    }
    if sample_rate == 0 {
        return Err(invalid_input("Invalid sample rate: 0"));
    }
    if is_bad_range(min_bpm, max_bpm) {
        return Err(bad_range(min_bpm, max_bpm));
    }
    if bpm_resolution <= zero() {
        return Err(
            AnalysisError::InvalidInput(
                "Invalid BPM resolution: ".to_owned().concat(fixed2(bpm_resolution).as_str()),
            ),
        );
    }
    if onsets.len() < 2 {
        return Ok(Vec::new());
    }
    let sorted: Vec<usize> = sort_dedup(onsets);
    proof {
        assert(onsets@.contains(onsets@[0]));
        assert(sorted@.contains(onsets@[0]));
    }
    let limit = max_bpm + ratio(1, 10_000_000_000);
    let (bpms, scores) = match score_tempos(
        sorted.as_slice(),
        sample_rate,
        min_bpm,
        limit,
        bpm_resolution,
    ) {
        Err(e) => {
            return Err(e);
        },
        Ok(found) => found,
    };
    proof {
        lemma_first_too_fast_range(bpms@, sample_rate, 0);
    }
    let mut best = zero();
    let mut n: usize = 0;
    while n < scores.len()
        invariant
            n <= scores.len(),
            best == best_score(scores@, n as nat),
        decreases scores.len() - n,
    {
        if scores[n] > best {
            best = scores[n];
        }
        n = n + 1;
    }
    let mut candidates: Vec<BpmCandidate> = Vec::new();
    let mut i: usize = 0;
    while i < bpms.len()
        invariant
            i <= bpms.len(),
            bpms@.len() == scores@.len(),
            best == best_score(scores@, scores@.len()),
            candidates@.len() == i,
            forall|k: int| 0 <= k < i ==> candidates@[k] == comb_candidates(bpms@, scores@)[k],
        decreases bpms.len() - i,
    {
        let confidence = if best > ratio(1, 10_000_000_000) {
            scores[i] / best
        } else {
            zero()
        };
        candidates.push(BpmCandidate { bpm: bpms[i], confidence });
        i = i + 1;
    }
    assert(candidates@ =~= comb_candidates(bpms@, scores@));
    let sorted_candidates: Vec<BpmCandidate> = sort_by_confidence(candidates.as_slice());
    let mut result: Vec<BpmCandidate> = Vec::new();
    let mut j: usize = 0;
    while j < sorted_candidates.len()
        invariant
            j <= sorted_candidates.len(),
            result@ == confident(sorted_candidates@, j as nat),
        decreases sorted_candidates.len() - j,
    {
        if sorted_candidates[j].confidence >= ratio(1, 10) {
            result.push(sorted_candidates[j]);
        }
        j = j + 1;
    }
    Ok(result)
}

/// Estimates tempo candidates by a coarse search and, around its best
/// candidate, a fine one.
pub fn coarse_to_fine_search(
    onsets: &[usize],
    sample_rate: u32,
    hop_size: usize,
    min_bpm: F32,
    max_bpm: F32,
    refinement_range: F32,
) -> (r: Result<Vec<BpmCandidate>, AnalysisError>)
    ensures
        gives(r, refined_search(onsets@, sample_rate, min_bpm, max_bpm, refinement_range)),
{
    let coarse = estimate_bpm_from_comb_filter(
        onsets,
        sample_rate,
        hop_size,
        min_bpm,
        max_bpm,
        ratio(2, 1),
    );
    let c: Vec<BpmCandidate> = match coarse {
        Err(e) => {
            return Err(e);
        },
        Ok(c) => c,
    };
    if c.len() == 0 {
        return Ok(Vec::new());
    }
    let best = c[0].bpm;
    let fine_min = (best - refinement_range).max(min_bpm);
    let fine_max = (best + refinement_range).min(max_bpm);
    let fine = estimate_bpm_from_comb_filter(
        onsets,
        sample_rate,
        hop_size,
        fine_min,
        fine_max,
        ratio(5, 10),
    );
    let f: Vec<BpmCandidate> = match fine {
        Err(e) => {
            return Err(e);
        },
        Ok(f) => f,
    };
    if f.len() > 0 {
        Ok(sort_by_confidence(f.as_slice()))
    } else {
        Ok(sort_by_confidence(c.as_slice()))
    }
}

} // verus!
