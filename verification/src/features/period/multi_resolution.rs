//! Tempo from several resolutions: the same search at hop sizes of 256, 512 and
//! 1024 samples, compared or fused.
use super::beat_contrast::beat_contrast;
use super::beat_contrast::beat_contrast_score;
use super::novelty::combined_novelty_with_params;
use super::novelty::energy_flux_novelty;
use super::novelty::hfc_novelty;
use super::novelty::superflux_novelty;
use super::tempo_table::by_strength;
use super::tempo_table::sort_by_strength;
use super::tempogram::curves_selection;
use super::tempogram::estimate_bpm_tempogram;
use super::tempogram::estimate_bpm_tempogram_with_candidates;
use super::tempogram::estimate_bpm_tempogram_with_candidates_band_fusion;
use super::tempogram::find_strength_near;
use super::tempogram::gives_selection;
use super::tempogram::strength_near;
use super::tempogram::without_list;
use super::tempogram::TempoSearch;
use super::tempogram::TempogramCandidateDebug;
use super::tempogram_curves::curve_views;
use super::tempogram_curves::full_curve;
use super::tempogram_curves::novelty_options;
use super::tempogram_curves::CurveView;
use super::tempogram_curves::TempoCurve;
use super::tempogram_curves::TempogramBandFusionConfig;
use super::types::BpmEstimate;
use crate::error::gives_plain;
use crate::error::invalid_input;
use crate::error::is_invalid_input;
use crate::error::AnalysisError;
use crate::error::Outcome;
use crate::float::clamp_unit;
use crate::float::one;
use crate::float::ratio;
use crate::float::zero;
use crate::float::F32;
use crate::sorting::sum;
use crate::sorting::sum_of;
use crate::spectrogram::rows;
use crate::spectrogram::same_shape;
use vstd::prelude::*;

verus! {

// -------------------------------------------------------------- consensus

/// The tempos of estimates.
pub open spec fn tempos_of(e: Seq<BpmEstimate>) -> Seq<F32> {
    Seq::new(e.len(), |i: int| e[i].bpm)
}

/// The confidences of estimates.
pub open spec fn confidences_of(e: Seq<BpmEstimate>) -> Seq<F32> {
    Seq::new(e.len(), |i: int| e[i].confidence)
}

/// All estimates are within two BPM of the first one.
pub open spec fn all_agree(e: Seq<BpmEstimate>) -> bool {
    forall|i: int| 0 <= i < e.len() ==> ((#[trigger] e[i]).bpm - e[0].bpm).abs() < ratio(2, 1)
}

/// The place of the most confident of the first `n >= 1` estimates; the last of
/// those that tie.
pub open spec fn most_confident(e: Seq<BpmEstimate>, n: nat) -> int
    decreases n,
{
    if n <= 1 {
        0
    } else {
        let p = most_confident(e, (n - 1) as nat);
        if e[p].confidence > e[n - 1].confidence {
            p
        } else {
            n - 1
        }
    }
}

/// What the estimates of several resolutions come to.
pub open spec fn consensus_of(e: Seq<BpmEstimate>) -> Outcome<BpmEstimate> {
    if e.len() == 0 {
        Outcome::Failed("All multi-resolution tempogram analyses failed"@)
    } else if e.len() == 1 {
        Outcome::Value(e[0])
    } else if all_agree(e) {
        Outcome::Value(
            BpmEstimate {
                bpm: sum_of(tempos_of(e)) / F32::from_usize(e.len() as usize),
                confidence: (sum_of(confidences_of(e)) / F32::from_usize(e.len() as usize) * ratio(
                    12,
                    10,
                )).min(one()),
                method_agreement: e.len() as u32,
            },
        )
    } else {
        let best = e[most_confident(e, e.len())];
        Outcome::Value(
            BpmEstimate {
                bpm: best.bpm,
                confidence: best.confidence * ratio(9, 10),
                method_agreement: 1,
            },
        )
    }
}

/// The estimate that those of several resolutions come to: their mean where all
/// agree, otherwise the most confident one.
pub fn consensus(estimates: &[BpmEstimate]) -> (r: Result<BpmEstimate, AnalysisError>)
    ensures
        gives_plain(r, consensus_of(estimates@)),
{
    let n: usize = estimates.len();
    if n == 0 {
        return Err(
            AnalysisError::ProcessingError(
                "All multi-resolution tempogram analyses failed".to_owned(),
            ),
        );
    }
    if n == 1 {
        return Ok(estimates[0]);
    }
    let mut agree: bool = true;
    let mut best: usize = 0;
    let mut bpms: Vec<F32> = Vec::new();
    let mut confidences: Vec<F32> = Vec::new();
    let mut i: usize = 0;
    while i < n
        invariant
            i <= n,
            2 <= n == estimates@.len(),
            agree == (forall|k: int|
                0 <= k < i ==> ((#[trigger] estimates@[k]).bpm - estimates@[0].bpm).abs() < ratio(
                    2,
                    1,
                )),
            best < n,
            best == most_confident(estimates@, i as nat),
            bpms@.len() == i,
            confidences@.len() == i,
            forall|k: int| 0 <= k < i ==> bpms@[k] == estimates@[k].bpm,
            forall|k: int| 0 <= k < i ==> confidences@[k] == estimates@[k].confidence,
        decreases n - i,
    {
        let e = estimates[i];
        if !((e.bpm - estimates[0].bpm).abs() < ratio(2, 1)) {
            agree = false;
        }
        if i > 0 && !(estimates[best].confidence > e.confidence) {
            best = i;
        }
        bpms.push(e.bpm);
        confidences.push(e.confidence);
        i = i + 1;
    }
    assert(bpms@ =~= tempos_of(estimates@));
    assert(confidences@ =~= confidences_of(estimates@));
    if agree {
        assert(all_agree(estimates@));
        Ok(
            BpmEstimate {
                bpm: sum(bpms.as_slice()) / F32::from_usize(n),
                confidence: (sum(confidences.as_slice()) / F32::from_usize(n) * ratio(12, 10)).min(
                    one(),
                ),
                method_agreement: n as u32,
            },
        )
    } else {
        Ok(
            BpmEstimate {
                bpm: estimates[best].bpm,
                confidence: estimates[best].confidence * ratio(9, 10),
                method_agreement: 1,
            },
        )
    }
}

/// The hop sizes that are compared.
#[verifier::allow_in_spec]
pub fn hop_of(k: usize) -> u32
    returns
        (if k == 0 {
            256u32
        } else if k == 1 {
            512
        } else {
            1024
        }),
{
    if k == 0 {
        256
    } else if k == 1 {
        512
    } else {
        1024
    }
}

/// The estimates of the first `n` hop sizes, those that there are.
pub open spec fn estimates_of(
    curves: Seq<CurveView>,
    sample_rate: u32,
    min_bpm: F32,
    max_bpm: F32,
    step: F32,
    n: nat,
) -> Seq<BpmEstimate>
    decreases n,
{
    if n == 0 {
        Seq::empty()
    } else {
        let before = estimates_of(curves, sample_rate, min_bpm, max_bpm, step, (n - 1) as nat);
        let p = TempoSearch {
            sample_rate,
            hop_size: hop_of((n - 1) as usize),
            min_bpm,
            max_bpm,
            step,
        };
        match without_list(curves_selection(curves, p, None)) {
            Outcome::Value(e) => before.push(e),
            _ => before,
        }
    }
}

/// Estimates the tempo at several hop sizes from the curves of one tempogram, and
/// compares the estimates. Without curves no estimate succeeds.
pub fn multi_resolution_analysis(
    curves: &[TempoCurve],
    sample_rate: u32,
    min_bpm: F32,
    max_bpm: F32,
    bpm_resolution: F32,
) -> (r: Result<BpmEstimate, AnalysisError>)
    ensures
        gives_plain(
            r,
            consensus_of(
                estimates_of(
                    curve_views(curves@),
                    sample_rate,
                    min_bpm,
                    max_bpm,
                    bpm_resolution,
                    3,
                ),
            ),
        ),
{
    let mut estimates: Vec<BpmEstimate> = Vec::new();
    let mut k: usize = 0;
    while k < 3
        invariant
            k <= 3,
            estimates@ == estimates_of(
                curve_views(curves@),
                sample_rate,
                min_bpm,
                max_bpm,
                bpm_resolution,
                k as nat,
            ),
        decreases 3 - k,
    {
        match estimate_bpm_tempogram(
            curves,
            sample_rate,
            hop_of(k),
            min_bpm,
            max_bpm,
            bpm_resolution,
        ) {
            Ok(e) => {
                estimates.push(e);
            },
            Err(_) => {},
        }
        k = k + 1;
    }
    consensus(estimates.as_slice())
}

// ----------------------------------------------------------------- fusion

/// How candidates of several resolutions are fused.
#[derive(Debug, Clone, Copy)]
pub struct FusionOptions {
    /// Minimum BPM
    pub min_bpm: F32,
    /// Maximum BPM
    pub max_bpm: F32,
    /// How far a candidate may be off a tempo that it supports
    pub tolerance: F32,
    /// Weight of the hop size of 512
    pub w512: F32,
    /// Weight of the hop size of 256
    pub w256: F32,
    /// Weight of the hop size of 1024
    pub w1024: F32,
    /// How much of the support of a tempo counts for its double and its half at 512
    pub double_time_512_factor: F32,
    /// From which margin on a tempo gives way to its double or its half
    pub margin_threshold: F32,
    /// Prefer common tempos where the margin is small
    pub use_human_prior: bool,
}

/// The candidates of the three hop sizes, as tempos and scores.
pub ghost struct Tables {
    pub t256: Seq<(F32, F32)>,
    pub t512: Seq<(F32, F32)>,
    pub t1024: Seq<(F32, F32)>,
}

/// The candidates of the three hop sizes, as tempos and scores.
pub struct HopTables {
    /// Hop size of 256
    pub t256: Vec<(F32, F32)>,
    /// Hop size of 512
    pub t512: Vec<(F32, F32)>,
    /// Hop size of 1024
    pub t1024: Vec<(F32, F32)>,
}

impl View for HopTables {
    type V = Tables;

    open spec fn view(&self) -> Tables {
        Tables { t256: self.t256@, t512: self.t512@, t1024: self.t1024@ }
    }
}

/// Candidates as tempos and scores.
pub open spec fn table_of(c: Seq<TempogramCandidateDebug>) -> Seq<(F32, F32)> {
    Seq::new(c.len(), |i: int| (c[i].bpm, c[i].score))
}

fn make_table(c: &[TempogramCandidateDebug]) -> (r: Vec<(F32, F32)>)
    ensures
        r@ == table_of(c@),
{
    let mut r: Vec<(F32, F32)> = Vec::new();
    let mut i: usize = 0;
    while i < c.len()
        invariant
            i <= c.len(),
            r@.len() == i,
            forall|k: int| 0 <= k < i ==> r@[k] == (c@[k].bpm, c@[k].score),
        decreases c.len() - i,
    {
        r.push((c[i].bpm, c[i].score));
        i = i + 1;
    }
    assert(r@ =~= table_of(c@));
    r
}

/// The scores of a tempo at the three hop sizes.
#[derive(Debug, Clone, Copy)]
pub struct HopScores {
    /// Hop size of 256
    pub s256: F32,
    /// Hop size of 512
    pub s512: F32,
    /// Hop size of 1024
    pub s1024: F32,
}

/// The scores of a tempo: those of the nearest candidates in reach.
pub open spec fn scores_at(t: Tables, bpm: F32, tolerance: F32) -> HopScores {
    HopScores {
        s256: strength_near(t.t256, bpm, tolerance),
        s512: strength_near(t.t512, bpm, tolerance),
        s1024: strength_near(t.t1024, bpm, tolerance),
    }
}

fn find_scores_at(t: &HopTables, bpm: F32, tolerance: F32) -> (r: HopScores)
    ensures
        r == scores_at(t@, bpm, tolerance),
{
    HopScores {
        s256: find_strength_near(t.t256.as_slice(), bpm, tolerance),
        s512: find_strength_near(t.t512.as_slice(), bpm, tolerance),
        s1024: find_strength_near(t.t1024.as_slice(), bpm, tolerance),
    }
}

/// The score of a tempo itself.
#[verifier::allow_in_spec]
pub fn straight_score(o: FusionOptions, t: HopScores) -> F32
    returns
        o.w512 * t.s512 + o.w256 * t.s256 + o.w1024 * t.s1024,
{
    o.w512 * t.s512 + o.w256 * t.s256 + o.w1024 * t.s1024
}

/// The score of the double or the half `x` of a tempo `t`: at 512 the support of
/// the tempo itself counts too.
#[verifier::allow_in_spec]
pub fn crossed_score(o: FusionOptions, t: HopScores, x: HopScores) -> F32
    returns
        o.w512 * (o.double_time_512_factor * t.s512 + (one() - o.double_time_512_factor) * x.s512)
            + o.w256 * x.s256 + o.w1024 * x.s1024,
{
    o.w512 * (o.double_time_512_factor * t.s512 + (one() - o.double_time_512_factor) * x.s512)
        + o.w256 * x.s256 + o.w1024 * x.s1024
}

/// The score less a tenth, where the tempo itself is supported better.
#[verifier::allow_in_spec]
pub fn structurally_discounted(score: F32, own: F32, other: F32) -> F32
    returns
        (if own > other * ratio(102, 100) {
            score * ratio(90, 100)
        } else {
            score
        }),
{
    if own > other * ratio(102, 100) {
        score * ratio(90, 100)
    } else {
        score
    }
}

/// How the support of another tempo compares with that of the tempo itself.
#[verifier::allow_in_spec]
pub fn support_ratio(own: F32, other: F32) -> F32
    returns
        (other + ratio(1, 1_000_000)) / (own + ratio(1, 1_000_000)),
{
    (other + ratio(1, 1_000_000)) / (own + ratio(1, 1_000_000))
}

/// The score less a quarter where the support is not clearly better, and less
/// another quarter where it is worse.
#[verifier::allow_in_spec]
pub fn guarded(score: F32, own: F32, other: F32) -> F32
    returns
        (if support_ratio(own, other) < ratio(110, 100) {
            if support_ratio(own, other) < one() {
                score * ratio(75, 100) * ratio(75, 100)
            } else {
                score * ratio(75, 100)
            }
        } else {
            if support_ratio(own, other) < one() {
                score * ratio(75, 100)
            } else {
                score
            }
        }),
{
    let r = support_ratio(own, other);
    let first = if r < ratio(110, 100) {
        score * ratio(75, 100)
    } else {
        score
    };
    if r < one() {
        first * ratio(75, 100)
    } else {
        first
    }
}

/// The score with a mild preference for tempos from 60 to 180.
#[verifier::allow_in_spec]
pub fn with_tempo_prior(score: F32, bpm: F32) -> F32
    returns
        (if bpm > ratio(210, 1) {
            score * ratio(80, 100)
        } else if bpm > ratio(180, 1) {
            score * ratio(90, 100)
        } else if bpm < ratio(60, 1) {
            score * ratio(92, 100)
        } else {
            score
        }),
{
    if bpm > ratio(210, 1) {
        score * ratio(80, 100)
    } else if bpm > ratio(180, 1) {
        score * ratio(90, 100)
    } else if bpm < ratio(60, 1) {
        score * ratio(92, 100)
    } else {
        score
    }
}

/// `s` and a tempo with its score behind it, if it is in range.
pub open spec fn with_reading(s: Seq<(F32, F32)>, bpm: F32, score: F32, o: FusionOptions) -> Seq<
    (F32, F32),
> {
    if bpm >= o.min_bpm && bpm <= o.max_bpm {
        s.push((bpm, with_tempo_prior(score, bpm)))
    } else {
        s
    }
}

/// A tempo, its double and its half, those in range, the best first.
pub open spec fn readings(t: Tables, o: FusionOptions, bpm: F32) -> Seq<(F32, F32)> {
    let own = scores_at(t, bpm, o.tolerance);
    let double = scores_at(t, bpm * ratio(2, 1), o.tolerance);
    let half = scores_at(t, bpm * ratio(5, 10), o.tolerance);
    let double_score = guarded(
        structurally_discounted(crossed_score(o, own, double), own.s1024, double.s1024),
        own.s256,
        double.s256,
    );
    let half_score = guarded(
        structurally_discounted(crossed_score(o, own, half), own.s1024, half.s1024),
        own.s1024,
        half.s1024,
    );
    let r1 = with_reading(Seq::empty(), bpm, straight_score(o, own), o);
    let r2 = with_reading(r1, bpm * ratio(2, 1), double_score, o);
    by_strength(with_reading(r2, bpm * ratio(5, 10), half_score, o))
}

fn find_readings(t: &HopTables, o: FusionOptions, bpm: F32) -> (r: Vec<(F32, F32)>)
    ensures
        r@ == readings(t@, o, bpm),
{
    let own = find_scores_at(t, bpm, o.tolerance);
    let double = find_scores_at(t, bpm * ratio(2, 1), o.tolerance);
    let half = find_scores_at(t, bpm * ratio(5, 10), o.tolerance);
    let double_score = guarded(
        structurally_discounted(crossed_score(o, own, double), own.s1024, double.s1024),
        own.s256,
        double.s256,
    );
    let half_score = guarded(
        structurally_discounted(crossed_score(o, own, half), own.s1024, half.s1024),
        own.s1024,
        half.s1024,
    );
    let mut s: Vec<(F32, F32)> = Vec::new();
    if bpm >= o.min_bpm && bpm <= o.max_bpm {
        s.push((bpm, with_tempo_prior(straight_score(o, own), bpm)));
    }
    let twice = bpm * ratio(2, 1);
    if twice >= o.min_bpm && twice <= o.max_bpm {
        s.push((twice, with_tempo_prior(double_score, twice)));
    }
    let once = bpm * ratio(5, 10);
    if once >= o.min_bpm && once <= o.max_bpm {
        s.push((once, with_tempo_prior(half_score, once)));
    }
    sort_by_strength(s.as_slice())
}

/// The reading of a tempo that is taken: the best one, but the tempo itself where
/// the best one is another and the margin is small.
#[verifier::allow_in_spec]
pub fn chosen_reading(o: FusionOptions, bpm: F32, own: F32, best: (F32, F32), margin: F32) -> (
    F32,
    F32,
)
    returns
        ({
            let chosen = if (best.0 - bpm).abs() > ratio(1, 1000) && margin < o.margin_threshold {
                (bpm, own)
            } else {
                best
            };
            if margin < o.margin_threshold && o.use_human_prior && chosen.0 >= ratio(70, 1)
                && chosen.0 <= ratio(180, 1) && margin < ratio(5, 100) {
                (chosen.0, chosen.1 + ratio(5, 100))
            } else {
                chosen
            }
        }),
{
    let chosen = if (best.0 - bpm).abs() > ratio(1, 1000) && margin < o.margin_threshold {
        (bpm, own)
    } else {
        best
    };
    if margin < o.margin_threshold && o.use_human_prior && chosen.0 >= ratio(70, 1) && chosen.0
        <= ratio(180, 1) && margin < ratio(5, 100) {
        (chosen.0, chosen.1 + ratio(5, 100))
    } else {
        chosen
    }
}

/// What a tempo is read as, with a score; nothing where no reading is in range.
pub open spec fn hypothesis(t: Tables, o: FusionOptions, bpm: F32) -> Option<(F32, F32)> {
    let r = readings(t, o, bpm);
    let second = if r.len() > 1 {
        r[1].1
    } else {
        zero()
    };
    if !(bpm.is_finite() && bpm > zero()) || r.len() == 0 {
        None
    } else {
        Some(
            chosen_reading(
                o,
                bpm,
                straight_score(o, scores_at(t, bpm, o.tolerance)),
                r[0],
                r[0].1 - second,
            ),
        )
    }
}

fn find_hypothesis(t: &HopTables, o: FusionOptions, bpm: F32) -> (r: Option<(F32, F32)>)
    ensures
        r == hypothesis(t@, o, bpm),
{
    if !(bpm.is_finite() && bpm > zero()) {
        return None;
    }
    let s: Vec<(F32, F32)> = find_readings(t, o, bpm);
    if s.len() == 0 {
        return None;
    }
    let second = if s.len() > 1 {
        s[1].1
    } else {
        zero()
    };
    let own = straight_score(o, find_scores_at(t, bpm, o.tolerance));
    Some(chosen_reading(o, bpm, own, s[0], s[0].1 - second))
}

/// What the first `n` candidates at a hop size of 512 are read as.
pub open spec fn hypotheses(t: Tables, o: FusionOptions, n: nat) -> Seq<(F32, F32)>
    decreases n,
{
    if n == 0 {
        Seq::empty()
    } else {
        let before = hypotheses(t, o, (n - 1) as nat);
        match hypothesis(t, o, t.t512[n - 1].0) {
            Some(h) => before.push(h),
            None => before,
        }
    }
}

/// A tempo is near one of a list.
pub open spec fn near_any(s: Seq<(F32, F32)>, bpm: F32) -> bool {
    exists|i: int| 0 <= i < s.len() && ((#[trigger] s[i]).0 - bpm).abs() < ratio(75, 100)
}

/// Those of the first `n` readings that are near none kept before them; eight at
/// most.
pub open spec fn distinct(s: Seq<(F32, F32)>, n: nat) -> Seq<(F32, F32)>
    decreases n,
{
    if n == 0 {
        Seq::empty()
    } else {
        let before = distinct(s, (n - 1) as nat);
        if before.len() >= 8 || near_any(before, s[n - 1].0) {
            before
        } else {
            before.push(s[n - 1])
        }
    }
}

/// The readings of the candidates, the best first, none near a better one.
pub open spec fn distinct_hypotheses(t: Tables, o: FusionOptions) -> Seq<(F32, F32)> {
    let sorted = by_strength(hypotheses(t, o, t.t512.len()));
    distinct(sorted, sorted.len())
}

fn is_near_any(s: &[(F32, F32)], bpm: F32) -> (r: bool)
    ensures
        r == near_any(s@, bpm),
{
    let mut i: usize = 0;
    while i < s.len()
        invariant
            i <= s.len(),
            forall|k: int| 0 <= k < i ==> !(((#[trigger] s@[k]).0 - bpm).abs() < ratio(75, 100)),
        decreases s.len() - i,
    {
        if (s[i].0 - bpm).abs() < ratio(75, 100) {
            return true;
        }
        i = i + 1;
    }
    false
}

fn find_hypotheses(t: &HopTables, o: FusionOptions) -> (r: Vec<(F32, F32)>)
    ensures
        r@ == distinct_hypotheses(t@, o),
{
    let mut all: Vec<(F32, F32)> = Vec::new();
    let mut n: usize = 0;
    while n < t.t512.len()
        invariant
            n <= t.t512.len(),
            all@ == hypotheses(t@, o, n as nat),
        decreases t.t512.len() - n,
    {
        match find_hypothesis(t, o, t.t512[n].0) {
            Some(h) => {
                all.push(h);
            },
            None => {},
        }
        n = n + 1;
    }
    let sorted: Vec<(F32, F32)> = sort_by_strength(all.as_slice());
    let mut r: Vec<(F32, F32)> = Vec::new();
    n = 0;
    while n < sorted.len()
        invariant
            n <= sorted.len(),
            r@ == distinct(sorted@, n as nat),
        decreases sorted.len() - n,
    {
        if r.len() < 8 && !is_near_any(r.as_slice(), sorted[n].0) {
            r.push(sorted[n]);
        }
        n = n + 1;
    }
    r
}

/// The support of a tempo by all hop sizes.
#[verifier::allow_in_spec]
pub fn total_support(s: HopScores) -> F32
    returns
        s.s256 + s.s512 + s.s1024,
{
    s.s256 + s.s512 + s.s1024
}

/// How many hop sizes support a tempo.
#[verifier::allow_in_spec]
pub fn hop_agreement(s: HopScores) -> u32
    returns
        ((if s.s256 > zero() {
            1int
        } else {
            0
        }) + (if s.s512 > zero() {
            1int
        } else {
            0
        }) + (if s.s1024 > zero() {
            1int
        } else {
            0
        })) as u32,
{
    let a: u32 = if s.s256 > zero() {
        1
    } else {
        0
    };
    let b: u32 = if s.s512 > zero() {
        1
    } else {
        0
    };
    let c: u32 = if s.s1024 > zero() {
        1
    } else {
        0
    };
    a + b + c
}

/// Another tempo is supported well enough to take the place of this one.
#[verifier::allow_in_spec]
pub fn takes_over(own: HopScores, other: HopScores, least_hops: u32, least_ratio: F32) -> bool
    returns
        hop_agreement(other) >= least_hops && total_support(other) > zero() && total_support(own)
            > zero() && total_support(other) / total_support(own) >= least_ratio,
{
    hop_agreement(other) >= least_hops && total_support(other) > zero() && total_support(own)
        > zero() && total_support(other) / total_support(own) >= least_ratio
}

/// A fast tempo becomes its half where that is supported by all hop sizes.
pub open spec fn folded_down(t: Tables, tolerance: F32, best: (F32, F32)) -> (F32, F32) {
    let half = best.0 * ratio(5, 10);
    let other = scores_at(t, half, tolerance);
    if best.0 >= ratio(170, 1) && half >= ratio(70, 1) && half <= ratio(120, 1) && takes_over(
        scores_at(t, best.0, tolerance),
        other,
        3,
        ratio(45, 100),
    ) {
        (half, total_support(other))
    } else {
        best
    }
}

/// A slow tempo becomes its double where that is supported by two hop sizes.
pub open spec fn folded_up(t: Tables, tolerance: F32, best: (F32, F32)) -> (F32, F32) {
    let double = best.0 * ratio(2, 1);
    let other = scores_at(t, double, tolerance);
    if best.0 <= ratio(80, 1) && double >= ratio(70, 1) && double <= ratio(180, 1) && takes_over(
        scores_at(t, best.0, tolerance),
        other,
        2,
        ratio(55, 100),
    ) {
        (double, total_support(other))
    } else {
        best
    }
}

fn fold_down(t: &HopTables, tolerance: F32, best: (F32, F32)) -> (r: (F32, F32))
    ensures
        r == folded_down(t@, tolerance, best),
{
    let half = best.0 * ratio(5, 10);
    if best.0 >= ratio(170, 1) && half >= ratio(70, 1) && half <= ratio(120, 1) {
        let own = find_scores_at(t, best.0, tolerance);
        let other = find_scores_at(t, half, tolerance);
        if takes_over(own, other, 3, ratio(45, 100)) {
            return (half, total_support(other));
        }
    }
    best
}

fn fold_up(t: &HopTables, tolerance: F32, best: (F32, F32)) -> (r: (F32, F32))
    ensures
        r == folded_up(t@, tolerance, best),
{
    let double = best.0 * ratio(2, 1);
    if best.0 <= ratio(80, 1) && double >= ratio(70, 1) && double <= ratio(180, 1) {
        let own = find_scores_at(t, best.0, tolerance);
        let other = find_scores_at(t, double, tolerance);
        if takes_over(own, other, 2, ratio(55, 100)) {
            return (double, total_support(other));
        }
    }
    best
}

// --------------------------------------------------------- triplet family

/// A tempo of the family of another, with its support and its beat contrast.
#[derive(Debug, Clone, Copy)]
pub struct FamilyTempo {
    /// Tempo in BPM
    pub bpm: F32,
    /// Support by all hop sizes
    pub support: F32,
    /// Beat contrast
    pub align: F32,
}

/// The factors between the tempos of a family.
#[verifier::allow_in_spec]
pub fn family_factor(k: usize) -> F32
    returns
        (if k == 0 {
            one()
        } else if k == 1 {
            ratio(3, 1) / ratio(2, 1)
        } else if k == 2 {
            ratio(2, 1) / ratio(3, 1)
        } else if k == 3 {
            ratio(4, 1) / ratio(3, 1)
        } else {
            ratio(3, 1) / ratio(4, 1)
        }),
{
    if k == 0 {
        one()
    } else if k == 1 {
        ratio(3, 1) / ratio(2, 1)
    } else if k == 2 {
        ratio(2, 1) / ratio(3, 1)
    } else if k == 3 {
        ratio(4, 1) / ratio(3, 1)
    } else {
        ratio(3, 1) / ratio(4, 1)
    }
}

/// A tempo is common: from 70 to 180.
#[verifier::allow_in_spec]
pub fn is_common(bpm: F32) -> bool
    returns
        bpm >= ratio(70, 1) && bpm <= ratio(180, 1),
{
    bpm >= ratio(70, 1) && bpm <= ratio(180, 1)
}

/// A tempo can be of the family: it is in range, common, and supported by two hop
/// sizes.
#[verifier::allow_in_spec]
pub fn is_viable(o: FusionOptions, bpm: F32, s: HopScores) -> bool
    returns
        bpm.is_finite() && bpm >= o.min_bpm && bpm <= o.max_bpm && is_common(bpm) && hop_agreement(
            s,
        ) >= 2 && !(total_support(s) <= zero()),
{
    bpm.is_finite() && bpm >= o.min_bpm && bpm <= o.max_bpm && is_common(bpm) && hop_agreement(s)
        >= 2 && !(total_support(s) <= zero())
}

/// The tempos of the family of `base` by the first `n` factors.
pub open spec fn family(
    t: Tables,
    o: FusionOptions,
    novelty: Seq<F32>,
    sample_rate: u32,
    base: F32,
    n: nat,
) -> Seq<FamilyTempo>
    decreases n,
{
    if n == 0 {
        Seq::empty()
    } else {
        let before = family(t, o, novelty, sample_rate, base, (n - 1) as nat);
        let bpm = base * family_factor((n - 1) as usize);
        let s = scores_at(t, bpm, o.tolerance);
        if is_viable(o, bpm, s) {
            before.push(
                FamilyTempo {
                    bpm,
                    support: total_support(s),
                    align: beat_contrast(novelty, sample_rate, 512, bpm),
                },
            )
        } else {
            before
        }
    }
}

fn find_family(t: &HopTables, o: FusionOptions, novelty: &[F32], sample_rate: u32, base: F32) -> (r: Vec<
    FamilyTempo,
>)
    ensures
        r@ == family(t@, o, novelty@, sample_rate, base, 5),
{
    let mut r: Vec<FamilyTempo> = Vec::new();
    let mut k: usize = 0;
    while k < 5
        invariant
            k <= 5,
            r@ == family(t@, o, novelty@, sample_rate, base, k as nat),
        decreases 5 - k,
    {
        let bpm = base * family_factor(k);
        let s = find_scores_at(t, bpm, o.tolerance);
        if is_viable(o, bpm, s) {
            let align = beat_contrast_score(novelty, sample_rate, 512, bpm);
            r.push(FamilyTempo { bpm, support: total_support(s), align });
        }
        k = k + 1;
    }
    r
}

/// The greatest support among the first `n` tempos of a family; zero at least.
pub open spec fn greatest_support(f: Seq<FamilyTempo>, n: nat) -> F32
    decreases n,
{
    if n == 0 {
        zero()
    } else {
        greatest_support(f, (n - 1) as nat).max(f[n - 1].support)
    }
}

/// The greatest support among those of the first `n` tempos that are not near
/// `base`, in units of `unit`; zero at least.
pub open spec fn rival_support(f: Seq<FamilyTempo>, base: F32, unit: F32, n: nat) -> F32
    decreases n,
{
    if n == 0 {
        zero()
    } else {
        let before = rival_support(f, base, unit, (n - 1) as nat);
        if (f[n - 1].bpm - base).abs() > ratio(75, 100) {
            before.max(f[n - 1].support / unit)
        } else {
            before
        }
    }
}

/// What ranks the tempos of a family: beat contrast, and a little support.
#[verifier::allow_in_spec]
pub fn family_score(f: FamilyTempo, unit: F32) -> F32
    returns
        f.align + ratio(35, 100) * clamp_unit(f.support / unit),
{
    f.align + ratio(35, 100) * clamp_unit(f.support / unit)
}

/// The place and the score of the best of the first `n` tempos of a family; the
/// first of those that tie.
pub open spec fn best_of_family(f: Seq<FamilyTempo>, unit: F32, n: nat) -> (int, F32)
    decreases n,
{
    if n == 0 {
        (0, ratio(1_000_000_000, 1).neg())
    } else {
        let (p, s) = best_of_family(f, unit, (n - 1) as nat);
        if family_score(f[n - 1], unit) > s {
            (n - 1, family_score(f[n - 1], unit))
        } else {
            (p, s)
        }
    }
}

/// A common tempo becomes another one of its family, where that one has real
/// support and clearly more beat contrast.
pub open spec fn family_choice(
    t: Tables,
    o: FusionOptions,
    novelty: Seq<F32>,
    sample_rate: u32,
    best: (F32, F32),
) -> (F32, F32) {
    let f = family(t, o, novelty, sample_rate, best.0, 5);
    let unit = greatest_support(f, f.len()).max(ratio(1, 1_000_000));
    let winner = f[best_of_family(f, unit, f.len()).0];
    if is_common(best.0) && novelty.len() > 0 && f.len() >= 2 && rival_support(
        f,
        best.0,
        unit,
        f.len(),
    ) >= ratio(45, 100) && (winner.bpm - best.0).abs() > ratio(75, 100) && winner.align
        >= beat_contrast(novelty, sample_rate, 512, best.0) + ratio(40, 100) {
        (winner.bpm, winner.support)
    } else {
        best
    }
}

fn choose_from_family(
    t: &HopTables,
    o: FusionOptions,
    novelty: &[F32],
    sample_rate: u32,
    best: (F32, F32),
) -> (r: (F32, F32))
    ensures
        r == family_choice(t@, o, novelty@, sample_rate, best),
{
    if !is_common(best.0) || novelty.len() == 0 {
        return best;
    }
    let f: Vec<FamilyTempo> = find_family(t, o, novelty, sample_rate, best.0);
    if f.len() < 2 {
        return best;
    }
    let mut greatest = zero();
    let mut n: usize = 0;
    while n < f.len()
        invariant
            n <= f.len(),
            greatest == greatest_support(f@, n as nat),
        decreases f.len() - n,
    {
        greatest = greatest.max(f[n].support);
        n = n + 1;
    }
    let unit = greatest.max(ratio(1, 1_000_000));
    let mut rival = zero();
    let mut place: usize = 0;
    let mut score = ratio(1_000_000_000, 1).neg();
    n = 0;
    while n < f.len()
        invariant
            n <= f.len(),
            f.len() >= 2,
            place < f.len(),
            rival == rival_support(f@, best.0, unit, n as nat),
            (place as int, score) == best_of_family(f@, unit, n as nat),
        decreases f.len() - n,
    {
        if (f[n].bpm - best.0).abs() > ratio(75, 100) {
            rival = rival.max(f[n].support / unit);
        }
        let s = family_score(f[n], unit);
        if s > score {
            place = n;
            score = s;
        }
        n = n + 1;
    }
    if !(rival >= ratio(45, 100)) {
        return best;
    }
    let winner = f[place];
    let align = beat_contrast_score(novelty, sample_rate, 512, best.0);
    if (winner.bpm - best.0).abs() > ratio(75, 100) && winner.align >= align + ratio(40, 100) {
        (winner.bpm, winner.support)
    } else {
        best
    }
}

// ----------------------------------------------------------------- result

/// The tempo that the fusion comes to, with its score.
pub open spec fn fused_tempo(
    t: Tables,
    o: FusionOptions,
    novelty: Option<Seq<F32>>,
    sample_rate: u32,
) -> (F32, F32) {
    let first = distinct_hypotheses(t, o)[0];
    let folded = folded_up(t, o.tolerance, folded_down(t, o.tolerance, first));
    match novelty {
        Some(n) => family_choice(t, o, n, sample_rate, folded),
        None => folded,
    }
}

/// How far a score is above the second one.
#[verifier::allow_in_spec]
pub fn fused_confidence(best: F32, second: F32) -> F32
    returns
        (if best > ratio(1, 1_000_000) {
            clamp_unit((best - second).max(zero()) / best)
        } else {
            zero()
        }),
{
    if best > ratio(1, 1_000_000) {
        clamp_unit((best - second).max(zero()) / best)
    } else {
        zero()
    }
}

/// The candidates, those near the selected tempo marked.
pub open spec fn marked(c: Seq<TempogramCandidateDebug>, bpm: F32) -> Seq<TempogramCandidateDebug> {
    Seq::new(
        c.len(),
        |i: int|
            TempogramCandidateDebug {
                selected: (c[i].bpm - bpm).abs() < ratio(75, 100),
                ..c[i]
            },
    )
}

/// What the candidates of three hop sizes come to.
pub open spec fn fusion(
    c256: Seq<TempogramCandidateDebug>,
    c512: Seq<TempogramCandidateDebug>,
    c1024: Seq<TempogramCandidateDebug>,
    novelty: Option<Seq<F32>>,
    sample_rate: u32,
    o: FusionOptions,
) -> Outcome<(BpmEstimate, Seq<TempogramCandidateDebug>)> {
    let t = Tables { t256: table_of(c256), t512: table_of(c512), t1024: table_of(c1024) };
    let h = distinct_hypotheses(t, o);
    let best = fused_tempo(t, o, novelty, sample_rate);
    let second = if h.len() > 1 {
        h[1].1
    } else {
        zero()
    };
    if h.len() == 0 {
        Outcome::Failed("Multi-resolution fusion produced no hypotheses"@)
    } else {
        Outcome::Value(
            (
                BpmEstimate {
                    bpm: best.0,
                    confidence: fused_confidence(best.1, second),
                    method_agreement: hop_agreement(scores_at(t, best.0, o.tolerance)),
                },
                marked(c512, best.0),
            ),
        )
    }
}

/// The view of a curve that may be missing.
pub open spec fn curve_view(novelty: Option<Vec<F32>>) -> Option<Seq<F32>> {
    match novelty {
        Some(n) => Some(n@),
        None => None,
    }
}

/// How far a candidate may be off a tempo that it supports.
#[verifier::allow_in_spec]
pub fn fusion_tolerance(bpm_resolution: F32) -> F32
    returns
        ratio(2, 1).max(bpm_resolution),
{
    ratio(2, 1).max(bpm_resolution)
}

/// How many candidates are taken at a hop size of 512.
#[verifier::allow_in_spec]
pub fn main_candidates(top_k: usize) -> usize
    returns
        (if top_k >= 1 {
            top_k
        } else {
            1
        }),
{
    if top_k >= 1 {
        top_k
    } else {
        1
    }
}

/// How many candidates are taken at the other hop sizes.
#[verifier::allow_in_spec]
pub fn aux_candidates(top_k: usize) -> usize
    returns
        (if main_candidates(top_k) >= 50 {
            200
        } else if main_candidates(top_k) <= 6 {
            25
        } else {
            (4 * main_candidates(top_k)) as usize
        }),
{
    let k: usize = main_candidates(top_k);
    if k >= 50 {
        200
    } else if k <= 6 {
        25
    } else {
        4 * k
    }
}

/// Checks that there is at least one frame of samples.
pub fn check_long_enough(samples: usize, frame_size: usize) -> (r: Result<(), AnalysisError>)
    ensures
        if samples < frame_size {
            is_invalid_input(r, "Audio too short for STFT"@)
        } else {
            r is Ok
        },
{
    if samples < frame_size {
        return Err(invalid_input("Audio too short for STFT"));
    }
    Ok(())
}

/// The configuration, where it asks for anything.
#[verifier::allow_in_spec]
pub fn active_config(cfg: Option<TempogramBandFusionConfig>) -> Option<TempogramBandFusionConfig>
    returns
        (match cfg {
            Some(c) => if c.enabled || c.enable_mel || c.consensus_bonus > zero() {
                Some(c)
            } else {
                None
            },
            None => None,
        }),
{
    match cfg {
        Some(c) => if c.enabled || c.enable_mel || c.consensus_bonus > zero() {
            Some(c)
        } else {
            None
        },
        None => None,
    }
}

/// Finds the candidates of one hop size from the curves of its tempogram.
pub fn resolution_candidates(
    curves: &[TempoCurve],
    sample_rate: u32,
    hop_size: u32,
    min_bpm: F32,
    max_bpm: F32,
    bpm_resolution: F32,
    top_n: usize,
    band_cfg: Option<TempogramBandFusionConfig>,
) -> (r: Result<(BpmEstimate, Vec<TempogramCandidateDebug>), AnalysisError>)
    ensures
        gives_selection(
            r,
            curves_selection(
                curve_views(curves@),
                (TempoSearch { sample_rate, hop_size, min_bpm, max_bpm, step: bpm_resolution }),
                active_config(band_cfg),
            ),
            top_n as nat,
        ),
{
    match active_config(band_cfg) {
        Some(cfg) => estimate_bpm_tempogram_with_candidates_band_fusion(
            curves,
            sample_rate,
            hop_size,
            min_bpm,
            max_bpm,
            bpm_resolution,
            top_n,
            cfg,
        ),
        None => estimate_bpm_tempogram_with_candidates(
            curves,
            sample_rate,
            hop_size,
            min_bpm,
            max_bpm,
            bpm_resolution,
            top_n,
        ),
    }
}

/// The curve that beat contrast is read from: empty where a part of it fails.
pub open spec fn contrast_curve(
    frames: Seq<Vec<F32>>,
    log_frames: Seq<Vec<F32>>,
    sample_rate: u32,
    cfg: TempogramBandFusionConfig,
) -> Seq<F32> {
    match full_curve(frames, log_frames, sample_rate, novelty_options(Some(cfg))) {
        Outcome::Value(c) => c,
        _ => Seq::empty(),
    }
}

/// Computes the curve that beat contrast is read from, for a hop size of 512.
pub fn fusion_novelty(
    frames: &[Vec<F32>],
    log_frames: &[Vec<F32>],
    sample_rate: u32,
    cfg: TempogramBandFusionConfig,
) -> (r: Vec<F32>)
    requires
        same_shape(rows(frames@), rows(log_frames@)),
    ensures
        r@ == contrast_curve(frames@, log_frames@, sample_rate, cfg),
{
    match superflux_novelty(log_frames, cfg.superflux_max_filter_bins) {
        Err(_) => Vec::new(),
        Ok(spectral) => match energy_flux_novelty(frames) {
            Err(_) => Vec::new(),
            Ok(energy) => match hfc_novelty(frames, sample_rate) {
                Err(_) => Vec::new(),
                Ok(hfc) => combined_novelty_with_params(
                    spectral.as_slice(),
                    energy.as_slice(),
                    hfc.as_slice(),
                    cfg.novelty_w_spectral,
                    cfg.novelty_w_energy,
                    cfg.novelty_w_hfc,
                    cfg.novelty_local_mean_window,
                    cfg.novelty_smooth_window,
                ),
            },
        },
    }
}

/// Fuses the candidates of three hop sizes into one estimate. `novelty_512` is the
/// curve that beat contrast is read from; without it tempos stay in their family.
pub fn multi_resolution_tempogram_from_samples(
    c256: &[TempogramCandidateDebug],
    c512: &[TempogramCandidateDebug],
    c1024: &[TempogramCandidateDebug],
    novelty_512: Option<Vec<F32>>,
    sample_rate: u32,
    o: FusionOptions,
) -> (r: Result<(BpmEstimate, Vec<TempogramCandidateDebug>), AnalysisError>)
    ensures
        gives_selection(
            r,
            fusion(c256@, c512@, c1024@, curve_view(novelty_512), sample_rate, o),
            c512@.len(),
        ),
{
    let t = HopTables { t256: make_table(c256), t512: make_table(c512), t1024: make_table(c1024) };
    let h: Vec<(F32, F32)> = find_hypotheses(&t, o);
    if h.len() == 0 {
        return Err(
            AnalysisError::ProcessingError(
                "Multi-resolution fusion produced no hypotheses".to_owned(),
            ),
        );
    }
    let down = fold_down(&t, o.tolerance, h[0]);
    let up = fold_up(&t, o.tolerance, down);
    let best = match &novelty_512 {
        Some(n) => choose_from_family(&t, o, n.as_slice(), sample_rate, up),
        None => up,
    };
    let second = if h.len() > 1 {
        h[1].1
    } else {
        zero()
    };
    let at_best = find_scores_at(&t, best.0, o.tolerance);
    let mut list: Vec<TempogramCandidateDebug> = Vec::new();
    let mut i: usize = 0;
    while i < c512.len()
        invariant
            i <= c512.len(),
            list@.len() == i,
            forall|k: int| 0 <= k < i ==> list@[k] == marked(c512@, best.0)[k],
        decreases c512.len() - i,
    {
        let c = c512[i];
        list.push(
            TempogramCandidateDebug {
                bpm: c.bpm,
                score: c.score,
                fft_norm: c.fft_norm,
                autocorr_norm: c.autocorr_norm,
                selected: (c.bpm - best.0).abs() < ratio(75, 100),
            },
        );
        i = i + 1;
    }
    assert(list@ =~= marked(c512@, best.0));
    Ok(
        (
            BpmEstimate {
                bpm: best.0,
                confidence: fused_confidence(best.1, second),
                method_agreement: hop_agreement(at_best),
            },
            list,
        ),
    )
}

} // verus!
