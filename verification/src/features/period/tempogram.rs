//! Tempo from tempograms: candidates from the Fourier and the autocorrelation
//! tempogram of each curve, folded to related tempos, scored and compared.
use super::tempo_table::table_confidence;
use super::tempogram_autocorr::autocorr_error;
use super::tempogram_autocorr::autocorr_tempogram_of;
use super::tempogram_autocorr::autocorrelation_tempogram;
use super::tempogram_autocorr::find_best_bpm_autocorr;
use super::tempogram_curves::curve_views;
use super::tempogram_curves::Band;
use super::tempogram_curves::CurveView;
use super::tempogram_curves::TempoCurve;
use super::tempogram_fft::fft_tempogram;
use super::tempogram_fft::fft_tempogram_of;
use super::tempogram_fft::find_best_bpm_fft;
use super::types::BpmEstimate;
use crate::error::gives_plain;
use crate::error::AnalysisError;
use crate::error::Outcome;
use crate::float::clamp_unit;
use crate::float::one;
use crate::float::ratio;
use crate::float::zero;
use crate::float::F32;
use crate::sorting::arrange;
use crate::sorting::arranged;
use crate::sorting::empty_sum;
use crate::sorting::sort_order;
use crate::sorting::sorted_order;
use vstd::prelude::*;

pub use super::tempogram_curves::TempogramBandFusionConfig;

verus! {

/// A scored tempo candidate.
#[derive(Debug, Clone, Copy)]
pub struct TempogramCandidateDebug {
    /// Candidate tempo in BPM
    pub bpm: F32,
    /// Score that ranks the candidates
    pub score: F32,
    /// Support of the Fourier tempograms, from zero to one
    pub fft_norm: F32,
    /// Support of the autocorrelation tempograms, from zero to one
    pub autocorr_norm: F32,
    /// This candidate was selected
    pub selected: bool,
}

/// A candidate with its score and what it is made from.
#[derive(Debug, Clone, Copy)]
pub struct ScoredCandidate {
    /// Candidate tempo in BPM
    pub bpm: F32,
    /// Score
    pub score: F32,
    /// Support of the Fourier tempograms
    pub fft_norm: F32,
    /// Support of the autocorrelation tempograms
    pub autocorr_norm: F32,
}

/// The two tempograms of a curve.
pub struct Variant {
    /// What the curve is made from
    pub band: Band,
    /// Weight of the curve
    pub weight: F32,
    /// The Fourier tempogram
    pub fft: Vec<(F32, F32)>,
    /// The autocorrelation tempogram
    pub autocorr: Vec<(F32, F32)>,
}

/// What a variant holds.
pub ghost struct VariantView {
    pub band: Band,
    pub weight: F32,
    pub fft: Seq<(F32, F32)>,
    pub autocorr: Seq<(F32, F32)>,
}

impl View for Variant {
    type V = VariantView;

    open spec fn view(&self) -> VariantView {
        VariantView {
            band: self.band,
            weight: self.weight,
            fft: self.fft@,
            autocorr: self.autocorr@,
        }
    }
}

pub open spec fn variant_views(v: Seq<Variant>) -> Seq<VariantView> {
    Seq::new(v.len(), |i: int| v[i]@)
}

/// The range and the step of a search for a tempo, and the rates of its curve.
#[derive(Debug, Clone, Copy)]
pub struct TempoSearch {
    /// Sample rate in Hz
    pub sample_rate: u32,
    /// Samples per frame
    pub hop_size: u32,
    /// Minimum BPM
    pub min_bpm: F32,
    /// Maximum BPM
    pub max_bpm: F32,
    /// Step in BPM
    pub step: F32,
}

/// How candidates are scored.
#[derive(Debug, Clone, Copy)]
pub struct ScoringOptions {
    /// Only the full curve counts for the score
    pub seed_only: bool,
    /// From which support on a band counts as supporting a candidate
    pub support_threshold: F32,
    /// Bonus for each further band that supports a candidate
    pub consensus_bonus: F32,
    /// Bands count for the bonus
    pub bands: bool,
}

/// How candidates are scored under a configuration, and without one.
#[verifier::allow_in_spec]
pub fn scoring_options(cfg: Option<TempogramBandFusionConfig>) -> ScoringOptions
    returns
        (match cfg {
            Some(c) => ScoringOptions {
                seed_only: c.seed_only,
                support_threshold: clamp_unit(c.support_threshold),
                consensus_bonus: c.consensus_bonus.max(zero()),
                bands: c.enabled || c.enable_mel,
            },
            None => ScoringOptions {
                seed_only: true,
                support_threshold: clamp_unit(ratio(25, 100)),
                consensus_bonus: zero().max(zero()),
                bands: false,
            },
        }),
{
    match cfg {
        Some(c) => ScoringOptions {
            seed_only: c.seed_only,
            support_threshold: clamp_unit(c.support_threshold),
            consensus_bonus: c.consensus_bonus.max(zero()),
            bands: c.enabled || c.enable_mel,
        },
        None => ScoringOptions {
            seed_only: true,
            support_threshold: clamp_unit(ratio(25, 100)),
            consensus_bonus: zero().max(zero()),
            bands: false,
        },
    }
}

// ---------------------------------------------------------------- support

/// The strength of the first tempo of a table, one without any, kept above zero.
pub open spec fn peak_strength(table: Seq<(F32, F32)>) -> F32 {
    (if table.len() > 0 {
        table[0].1
    } else {
        one()
    }).max(ratio(1, 1_000_000_000_000))
}

/// The place, among the first `n`, of the entry nearest to a tempo, within a
/// tolerance; the first of those that tie.
pub open spec fn nearest_entry(table: Seq<(F32, F32)>, bpm: F32, tolerance: F32, n: nat) -> Option<int>
    decreases n,
{
    if n == 0 {
        None
    } else {
        let before = nearest_entry(table, bpm, tolerance, (n - 1) as nat);
        let d = (table[n - 1].0 - bpm).abs();
        let nearer = match before {
            Some(p) => d < (table[p].0 - bpm).abs(),
            None => d.is_finite(),
        };
        if d <= tolerance && nearer {
            Some(n - 1)
        } else {
            before
        }
    }
}

/// The strength of the entry nearest to a tempo; zero without one in reach.
pub open spec fn strength_near(table: Seq<(F32, F32)>, bpm: F32, tolerance: F32) -> F32 {
    match nearest_entry(table, bpm, tolerance, table.len()) {
        Some(p) => table[p].1,
        None => zero(),
    }
}

/// How much a table supports a tempo, as a part of its peak.
pub open spec fn support(table: Seq<(F32, F32)>, bpm: F32, tolerance: F32) -> F32 {
    clamp_unit(strength_near(table, bpm, tolerance) / peak_strength(table))
}

/// Finds the strength of the entry nearest to a tempo.
pub fn find_strength_near(table: &[(F32, F32)], bpm: F32, tolerance: F32) -> (r: F32)
    ensures
        r == strength_near(table@, bpm, tolerance),
{
    let mut best: Option<usize> = None;
    let mut n: usize = 0;
    while n < table.len()
        invariant
            n <= table.len(),
            match best {
                Some(p) => p < n && nearest_entry(table@, bpm, tolerance, n as nat) == Some(p as int),
                None => nearest_entry(table@, bpm, tolerance, n as nat) is None,
            },
        decreases table.len() - n,
    {
        let d = (table[n].0 - bpm).abs();
        let nearer: bool = match best {
            Some(p) => d < (table[p].0 - bpm).abs(),
            None => d.is_finite(),
        };
        if d <= tolerance && nearer {
            best = Some(n);
        }
        n = n + 1;
    }
    match best {
        Some(p) => table[p].1,
        None => zero(),
    }
}

fn compute_support(table: &[(F32, F32)], bpm: F32, tolerance: F32) -> (r: F32)
    ensures
        r == support(table@, bpm, tolerance),
{
    let strength = find_strength_near(table, bpm, tolerance);
    let peak = (if table.len() > 0 {
        table[0].1
    } else {
        one()
    }).max(ratio(1, 1_000_000_000_000));
    clamp_unit(strength / peak)
}

/// How far the autocorrelation tempogram may be off a tempo.
#[verifier::allow_in_spec]
pub fn lag_tolerance(step: F32) -> F32
    returns
        step.max(ratio(5, 10)),
{
    step.max(ratio(5, 10))
}

// ------------------------------------------------------------- candidates

/// The tempos of the first eight entries of a table.
pub open spec fn leading(table: Seq<(F32, F32)>) -> Seq<F32> {
    Seq::new(
        if table.len() <= 8 {
            table.len()
        } else {
            8
        },
        |i: int| table[i].0,
    )
}

/// The leading tempos of the first `n` variants.
pub open spec fn seeds(v: Seq<VariantView>, n: nat) -> Seq<F32>
    decreases n,
{
    if n == 0 {
        Seq::empty()
    } else {
        seeds(v, (n - 1) as nat) + leading(v[n - 1].fft) + leading(v[n - 1].autocorr)
    }
}

/// The first tempo of a table, zero without any.
pub open spec fn primary(table: Seq<(F32, F32)>) -> F32 {
    if table.len() > 0 {
        table[0].0
    } else {
        zero()
    }
}

/// The first tempo of the Fourier tempogram of the first variant.
pub open spec fn primary_fft(v: Seq<VariantView>) -> F32 {
    if v.len() > 0 {
        primary(v[0].fft)
    } else {
        zero()
    }
}

/// The first tempo of the autocorrelation tempogram of the first variant.
pub open spec fn primary_autocorr(v: Seq<VariantView>) -> F32 {
    if v.len() > 0 {
        primary(v[0].autocorr)
    } else {
        zero()
    }
}

/// `s` and a tempo behind it, if it is above zero.
pub open spec fn with_primary(s: Seq<F32>, bpm: F32) -> Seq<F32> {
    if bpm > zero() {
        s.push(bpm)
    } else {
        s
    }
}

/// The tempos that candidates come from.
pub open spec fn all_seeds(v: Seq<VariantView>) -> Seq<F32> {
    with_primary(with_primary(seeds(v, v.len()), primary_fft(v)), primary_autocorr(v))
}

/// The factors between tempos that are easily taken for each other.
#[verifier::allow_in_spec]
pub fn fold_factor(k: usize) -> F32
    returns
        (if k == 0 {
            one()
        } else if k == 1 {
            ratio(5, 10)
        } else if k == 2 {
            ratio(2, 1)
        } else if k == 3 {
            one() / ratio(3, 1)
        } else if k == 4 {
            ratio(3, 1)
        } else if k == 5 {
            ratio(2, 1) / ratio(3, 1)
        } else {
            ratio(3, 1) / ratio(2, 1)
        }),
{
    if k == 0 {
        one()
    } else if k == 1 {
        ratio(5, 10)
    } else if k == 2 {
        ratio(2, 1)
    } else if k == 3 {
        one() / ratio(3, 1)
    } else if k == 4 {
        ratio(3, 1)
    } else if k == 5 {
        ratio(2, 1) / ratio(3, 1)
    } else {
        ratio(3, 1) / ratio(2, 1)
    }
}

/// `s` and a tempo behind it, if it is in range.
pub open spec fn with_candidate(s: Seq<F32>, bpm: F32, min_bpm: F32, max_bpm: F32) -> Seq<F32> {
    if bpm.is_finite() && bpm >= min_bpm && bpm <= max_bpm {
        s.push(bpm)
    } else {
        s
    }
}

/// `s` and a tempo times the first `k` factors behind it, those in range.
pub open spec fn with_folds(s: Seq<F32>, base: F32, min_bpm: F32, max_bpm: F32, k: nat) -> Seq<F32>
    decreases k,
{
    if k == 0 {
        s
    } else {
        with_candidate(
            with_folds(s, base, min_bpm, max_bpm, (k - 1) as nat),
            base * fold_factor((k - 1) as usize),
            min_bpm,
            max_bpm,
        )
    }
}

/// The first `n` tempos times all factors, those in range.
pub open spec fn folded(bases: Seq<F32>, min_bpm: F32, max_bpm: F32, n: nat) -> Seq<F32>
    decreases n,
{
    if n == 0 {
        Seq::empty()
    } else {
        with_folds(
            folded(bases, min_bpm, max_bpm, (n - 1) as nat),
            bases[n - 1],
            min_bpm,
            max_bpm,
            7,
        )
    }
}

/// Those of the first `n` tempos that are not too near the one kept before them.
pub open spec fn spaced(s: Seq<F32>, n: nat) -> Seq<F32>
    decreases n,
{
    if n == 0 {
        Seq::empty()
    } else {
        let before = spaced(s, (n - 1) as nat);
        if before.len() > 0 && (s[n - 1] - before.last()).abs() < ratio(75, 100) {
            before
        } else {
            before.push(s[n - 1])
        }
    }
}

/// The tempos that are scored, in ascending order.
pub open spec fn candidate_tempos(v: Seq<VariantView>, min_bpm: F32, max_bpm: F32) -> Seq<F32> {
    let all = folded(all_seeds(v), min_bpm, max_bpm, all_seeds(v).len());
    let sorted = arranged(all, sorted_order(all, false, all.len()));
    spaced(sorted, sorted.len())
}

fn push_leading(s: &mut Vec<F32>, table: &[(F32, F32)])
    ensures
        final(s)@ == old(s)@ + leading(table@),
{
    let ghost before: Seq<F32> = s@;
    let n: usize = if table.len() <= 8 {
        table.len()
    } else {
        8
    };
    let mut i: usize = 0;
    while i < n
        invariant
            i <= n,
            n == leading(table@).len(),
            n <= table@.len(),
            s@ == before + leading(table@).take(i as int),
        decreases n - i,
    {
        s.push(table[i].0);
        assert(s@ =~= before + leading(table@).take(i + 1));
        i = i + 1;
    }
    assert(s@ =~= before + leading(table@));
}

fn first_tempo(table: &[(F32, F32)]) -> (r: F32)
    ensures
        r == primary(table@),
{
    if table.len() > 0 {
        table[0].0
    } else {
        zero()
    }
}

fn find_primaries(v: &[Variant]) -> (r: (F32, F32))
    ensures
        r.0 == primary_fft(variant_views(v@)),
        r.1 == primary_autocorr(variant_views(v@)),
{
    if v.len() > 0 {
        (first_tempo(v[0].fft.as_slice()), first_tempo(v[0].autocorr.as_slice()))
    } else {
        (zero(), zero())
    }
}

fn find_seeds(v: &[Variant]) -> (r: Vec<F32>)
    ensures
        r@ == all_seeds(variant_views(v@)),
{
    let mut s: Vec<F32> = Vec::new();
    let ghost views: Seq<VariantView> = variant_views(v@);
    let mut n: usize = 0;
    while n < v.len()
        invariant
            n <= v.len(),
            views == variant_views(v@),
            s@ == seeds(views, n as nat),
        decreases v.len() - n,
    {
        push_leading(&mut s, v[n].fft.as_slice());
        push_leading(&mut s, v[n].autocorr.as_slice());
        assert(views[n as int] == v@[n as int]@);
        n = n + 1;
    }
    let (fft, autocorr) = find_primaries(v);
    if fft > zero() {
        s.push(fft);
    }
    if autocorr > zero() {
        s.push(autocorr);
    }
    s
}

fn fold_seeds(bases: &[F32], min_bpm: F32, max_bpm: F32) -> (r: Vec<F32>)
    ensures
        r@ == folded(bases@, min_bpm, max_bpm, bases@.len()),
{
    let mut s: Vec<F32> = Vec::new();
    let mut n: usize = 0;
    while n < bases.len()
        invariant
            n <= bases.len(),
            s@ == folded(bases@, min_bpm, max_bpm, n as nat),
        decreases bases.len() - n,
    {
        let base = bases[n];
        let mut k: usize = 0;
        while k < 7
            invariant
                k <= 7,
                n < bases.len(),
                base == bases@[n as int],
                s@ == with_folds(
                    folded(bases@, min_bpm, max_bpm, n as nat),
                    base,
                    min_bpm,
                    max_bpm,
                    k as nat,
                ),
            decreases 7 - k,
        {
            let bpm = base * fold_factor(k);
            if bpm.is_finite() && bpm >= min_bpm && bpm <= max_bpm {
                s.push(bpm);
            }
            k = k + 1;
        }
        n = n + 1;
    }
    s
}

fn find_candidates(v: &[Variant], min_bpm: F32, max_bpm: F32) -> (r: Vec<F32>)
    ensures
        r@ == candidate_tempos(variant_views(v@), min_bpm, max_bpm),
{
    let bases: Vec<F32> = find_seeds(v);
    let all: Vec<F32> = fold_seeds(bases.as_slice(), min_bpm, max_bpm);
    let order: Vec<usize> = sort_order(all.as_slice(), false);
    let sorted: Vec<F32> = arrange(all.as_slice(), order.as_slice());
    let mut r: Vec<F32> = Vec::new();
    let mut n: usize = 0;
    while n < sorted.len()
        invariant
            n <= sorted.len(),
            r@ == spaced(sorted@, n as nat),
        decreases sorted.len() - n,
    {
        let near: bool = r.len() > 0 && (sorted[n] - r[r.len() - 1]).abs() < ratio(75, 100);
        if !near {
            r.push(sorted[n]);
        }
        n = n + 1;
    }
    r
}

// ---------------------------------------------------------------- scoring

/// A variant counts for the score.
#[verifier::allow_in_spec]
pub fn counts_for_score(band: Band, seed_only: bool) -> bool
    returns
        !seed_only || band == Band::Full,
{
    !seed_only || band == Band::Full
}

/// The sum of the weights, none below zero, of those of the first `n` variants
/// that count.
pub open spec fn weight_sum(v: Seq<VariantView>, seed_only: bool, n: nat) -> F32
    decreases n,
{
    if n == 0 {
        empty_sum()
    } else {
        let before = weight_sum(v, seed_only, (n - 1) as nat);
        if counts_for_score(v[n - 1].band, seed_only) {
            before + v[n - 1].weight.max(zero())
        } else {
            before
        }
    }
}

/// The weighted support of the Fourier tempograms of the first `n` variants.
pub open spec fn fft_support(v: Seq<VariantView>, seed_only: bool, bpm: F32, n: nat) -> F32
    decreases n,
{
    if n == 0 {
        zero()
    } else {
        let before = fft_support(v, seed_only, bpm, (n - 1) as nat);
        if !counts_for_score(v[n - 1].band, seed_only) || v[n - 1].weight <= zero() {
            before
        } else {
            before + v[n - 1].weight * support(v[n - 1].fft, bpm, ratio(75, 100))
        }
    }
}

/// The weighted support of the autocorrelation tempograms of the first `n` variants.
pub open spec fn autocorr_support(
    v: Seq<VariantView>,
    seed_only: bool,
    bpm: F32,
    tolerance: F32,
    n: nat,
) -> F32
    decreases n,
{
    if n == 0 {
        zero()
    } else {
        let before = autocorr_support(v, seed_only, bpm, tolerance, (n - 1) as nat);
        if !counts_for_score(v[n - 1].band, seed_only) || v[n - 1].weight <= zero() {
            before
        } else {
            before + v[n - 1].weight * support(v[n - 1].autocorr, bpm, tolerance)
        }
    }
}

/// A variant other than the full one supports a tempo.
pub open spec fn supports(v: VariantView, bpm: F32, tolerance: F32, threshold: F32) -> bool {
    v.band != Band::Full && support(v.fft, bpm, ratio(75, 100)).max(
        support(v.autocorr, bpm, tolerance),
    ) >= threshold
}

/// How many of the first `n` variants support a tempo.
pub open spec fn supporting(
    v: Seq<VariantView>,
    bpm: F32,
    tolerance: F32,
    threshold: F32,
    n: nat,
) -> nat
    decreases n,
{
    if n == 0 {
        0
    } else {
        supporting(v, bpm, tolerance, threshold, (n - 1) as nat) + if supports(
            v[n - 1],
            bpm,
            tolerance,
            threshold,
        ) {
            1nat
        } else {
            0nat
        }
    }
}

/// The score with the bonus for bands that agree.
#[verifier::allow_in_spec]
pub fn with_bonus(score: F32, bonus: F32, bands: usize) -> F32
    returns
        (if bands >= 2 {
            score * (one() + bonus * (F32::from_usize(bands) - one()))
        } else {
            score
        }),
{
    if bands >= 2 {
        score * (one() + bonus * (F32::from_usize(bands) - one()))
    } else {
        score
    }
}

/// The score with a mild preference for tempos from 60 to 180.
#[verifier::allow_in_spec]
pub fn with_prior(score: F32, bpm: F32) -> F32
    returns
        (if bpm > ratio(180, 1) {
            score * ratio(80, 100)
        } else if bpm < ratio(60, 1) {
            score * ratio(90, 100)
        } else {
            score
        }),
{
    if bpm > ratio(180, 1) {
        score * ratio(80, 100)
    } else if bpm < ratio(60, 1) {
        score * ratio(90, 100)
    } else {
        score
    }
}

/// A candidate with its score.
pub open spec fn scored(v: Seq<VariantView>, o: ScoringOptions, step: F32, bpm: F32) -> ScoredCandidate {
    let total = weight_sum(v, o.seed_only, v.len()).max(ratio(1, 1_000_000));
    let tolerance = lag_tolerance(step);
    let fft_norm = clamp_unit(fft_support(v, o.seed_only, bpm, v.len()) / total);
    let autocorr_norm = clamp_unit(
        autocorr_support(v, o.seed_only, bpm, tolerance, v.len()) / total,
    );
    let blend = ratio(55, 100) * autocorr_norm + ratio(45, 100) * fft_norm;
    let agreed = if o.consensus_bonus > zero() && o.bands {
        with_bonus(
            blend,
            o.consensus_bonus,
            supporting(v, bpm, tolerance, o.support_threshold, v.len()) as usize,
        )
    } else {
        blend
    };
    ScoredCandidate { bpm, score: with_prior(agreed, bpm), fft_norm, autocorr_norm }
}

fn score_candidate(v: &[Variant], o: ScoringOptions, step: F32, bpm: F32) -> (r: ScoredCandidate)
    ensures
        r == scored(variant_views(v@), o, step, bpm),
{
    let tolerance = lag_tolerance(step);
    let ghost views: Seq<VariantView> = variant_views(v@);
    let mut total = empty_sum();
    let mut fft_acc = zero();
    let mut autocorr_acc = zero();
    let mut bands: usize = 0;
    let mut n: usize = 0;
    while n < v.len()
        invariant
            n <= v.len(),
            views == variant_views(v@),
            total == weight_sum(views, o.seed_only, n as nat),
            fft_acc == fft_support(views, o.seed_only, bpm, n as nat),
            autocorr_acc == autocorr_support(views, o.seed_only, bpm, tolerance, n as nat),
            bands == supporting(views, bpm, tolerance, o.support_threshold, n as nat),
            bands <= n,
        decreases v.len() - n,
    {
        assert(views[n as int] == v@[n as int]@);
        let fft = compute_support(v[n].fft.as_slice(), bpm, ratio(75, 100));
        let autocorr = compute_support(v[n].autocorr.as_slice(), bpm, tolerance);
        let weight = v[n].weight;
        if counts_for_score(v[n].band, o.seed_only) {
            total = total + weight.max(zero());
            if !(weight <= zero()) {
                fft_acc = fft_acc + weight * fft;
                autocorr_acc = autocorr_acc + weight * autocorr;
            }
        }
        if v[n].band != Band::Full && fft.max(autocorr) >= o.support_threshold {
            bands = bands + 1;
        }
        n = n + 1;
    }
    total = total.max(ratio(1, 1_000_000));
    let fft_norm = clamp_unit(fft_acc / total);
    let autocorr_norm = clamp_unit(autocorr_acc / total);
    let blend = ratio(55, 100) * autocorr_norm + ratio(45, 100) * fft_norm;
    let agreed = if o.consensus_bonus > zero() && o.bands {
        with_bonus(blend, o.consensus_bonus, bands)
    } else {
        blend
    };
    ScoredCandidate { bpm, score: with_prior(agreed, bpm), fft_norm, autocorr_norm }
}

/// The scores of candidates.
pub open spec fn scores(c: Seq<ScoredCandidate>) -> Seq<F32> {
    Seq::new(c.len(), |i: int| c[i].score)
}

/// All candidates with their scores, the best first.
pub open spec fn ranked(v: Seq<VariantView>, o: ScoringOptions, p: TempoSearch) -> Seq<ScoredCandidate> {
    let tempos = candidate_tempos(v, p.min_bpm, p.max_bpm);
    let c = Seq::new(tempos.len(), |i: int| scored(v, o, p.step, tempos[i]));
    arranged(c, sorted_order(scores(c), true, c.len()))
}

fn rank_candidates(v: &[Variant], o: ScoringOptions, p: TempoSearch) -> (r: Vec<ScoredCandidate>)
    ensures
        r@ == ranked(variant_views(v@), o, p),
{
    let ghost views: Seq<VariantView> = variant_views(v@);
    let tempos: Vec<F32> = find_candidates(v, p.min_bpm, p.max_bpm);
    let mut c: Vec<ScoredCandidate> = Vec::new();
    let mut keys: Vec<F32> = Vec::new();
    let mut i: usize = 0;
    while i < tempos.len()
        invariant
            i <= tempos.len(),
            views == variant_views(v@),
            c@.len() == i,
            keys@.len() == i,
            forall|k: int| 0 <= k < i ==> c@[k] == scored(views, o, p.step, tempos@[k]),
            forall|k: int| 0 <= k < i ==> keys@[k] == c@[k].score,
        decreases tempos.len() - i,
    {
        let s = score_candidate(v, o, p.step, tempos[i]);
        c.push(s);
        keys.push(s.score);
        i = i + 1;
    }
    assert(keys@ =~= scores(c@));
    assert(c@ =~= Seq::new(tempos@.len(), |i: int| scored(views, o, p.step, tempos@[i])));
    let order: Vec<usize> = sort_order(keys.as_slice(), true);
    arrange(c.as_slice(), order.as_slice())
}

// -------------------------------------------------------------- selection

/// The first candidate from `i` on that is near a tempo.
pub open spec fn first_near(c: Seq<ScoredCandidate>, bpm: F32, i: int) -> Option<int>
    decreases c.len() - i,
{
    if i < 0 || i >= c.len() {
        None
    } else if (c[i].bpm - bpm).abs() < ratio(75, 100) {
        Some(i)
    } else {
        first_near(c, bpm, i + 1)
    }
}

/// The high tempo is far better supported than its half, by both methods.
#[verifier::allow_in_spec]
pub fn keeps_high(high: ScoredCandidate, half: ScoredCandidate) -> bool
    returns
        (high.autocorr_norm + ratio(1, 1_000_000)) / (half.autocorr_norm + ratio(1, 1_000_000))
            > ratio(2, 1) && (high.fft_norm + ratio(1, 1_000_000)) / (half.fft_norm + ratio(
            1,
            1_000_000,
        )) > ratio(2, 1),
{
    (high.autocorr_norm + ratio(1, 1_000_000)) / (half.autocorr_norm + ratio(1, 1_000_000)) > ratio(
        2,
        1,
    ) && (high.fft_norm + ratio(1, 1_000_000)) / (half.fft_norm + ratio(1, 1_000_000)) > ratio(2, 1)
}

/// The place of the candidate that is selected: the first one, or one near half
/// its tempo where that is above 180 and not far better supported.
pub open spec fn selected_place(c: Seq<ScoredCandidate>, min_bpm: F32, max_bpm: F32) -> int {
    let half = c[0].bpm / ratio(2, 1);
    if c[0].bpm > ratio(180, 1) && half >= min_bpm && half <= max_bpm {
        match first_near(c, half, 0) {
            Some(p) => if keeps_high(c[0], c[p]) {
                0
            } else {
                p
            },
            None => 0,
        }
    } else {
        0
    }
}

/// How far the score of the best candidate is above that of the second in the list.
#[verifier::allow_in_spec]
pub fn separation(best: F32, second: F32) -> F32
    returns
        (if best > ratio(1, 1_000_000_000_000) {
            clamp_unit((best - second).max(zero()) / best)
        } else {
            zero()
        }),
{
    if best > ratio(1, 1_000_000_000_000) {
        clamp_unit((best - second).max(zero()) / best)
    } else {
        zero()
    }
}

/// A primary tempo agrees with the selected one.
#[verifier::allow_in_spec]
pub fn agrees(primary_bpm: F32, bpm: F32) -> bool
    returns
        primary_bpm > zero() && (primary_bpm - bpm).abs() < ratio(2, 1),
{
    primary_bpm > zero() && (primary_bpm - bpm).abs() < ratio(2, 1)
}

/// How many primary tempos agree with the selected one.
#[verifier::allow_in_spec]
pub fn agreement(fft: F32, autocorr: F32, bpm: F32) -> u32
    returns
        (if agrees(fft, bpm) && agrees(autocorr, bpm) {
            2u32
        } else if agrees(fft, bpm) || agrees(autocorr, bpm) {
            1
        } else {
            0
        }),
{
    if agrees(fft, bpm) && agrees(autocorr, bpm) {
        2
    } else if agrees(fft, bpm) || agrees(autocorr, bpm) {
        1
    } else {
        0
    }
}

/// The estimate that ranked candidates come to.
pub open spec fn estimate_of(c: Seq<ScoredCandidate>, v: Seq<VariantView>, p: TempoSearch) -> BpmEstimate {
    let best = c[selected_place(c, p.min_bpm, p.max_bpm)];
    BpmEstimate {
        bpm: best.bpm,
        confidence: separation(
            best.score,
            if c.len() > 1 {
                c[1].score
            } else {
                zero()
            },
        ),
        method_agreement: agreement(primary_fft(v), primary_autocorr(v), best.bpm),
    }
}

/// The candidates as they are shown; those near the selected tempo are marked.
pub open spec fn shown(c: Seq<ScoredCandidate>, bpm: F32) -> Seq<TempogramCandidateDebug> {
    Seq::new(
        c.len(),
        |i: int|
            TempogramCandidateDebug {
                bpm: c[i].bpm,
                score: c[i].score,
                fft_norm: c[i].fft_norm,
                autocorr_norm: c[i].autocorr_norm,
                selected: (c[i].bpm - bpm).abs() < ratio(75, 100),
            },
    )
}

/// None of the first `n` variants has an entry.
pub open spec fn all_empty(v: Seq<VariantView>, n: nat) -> bool {
    forall|i: int| 0 <= i < n ==> (#[trigger] v[i]).fft.len() == 0 && v[i].autocorr.len() == 0
}

/// What the tempograms of variants come to.
pub open spec fn selection(v: Seq<VariantView>, o: ScoringOptions, p: TempoSearch) -> Outcome<
    (BpmEstimate, Seq<TempogramCandidateDebug>),
> {
    let c = ranked(v, o, p);
    let estimate = estimate_of(c, v, p);
    if all_empty(v, v.len()) {
        Outcome::Failed("Both FFT and autocorrelation tempograms are empty"@)
    } else if c.len() == 0 {
        Outcome::Failed("No BPM candidates could be scored"@)
    } else {
        Outcome::Value((estimate, shown(c, estimate.bpm)))
    }
}

/// The confidence of a tempo that both methods agree on: a fifth above that of the
/// surer one, and one at most.
#[verifier::allow_in_spec]
pub fn agreed_confidence(fft: F32, autocorr: F32) -> F32
    returns
        (fft.max(autocorr) * ratio(12, 10)).min(one()),
{
    (fft.max(autocorr) * ratio(12, 10)).min(one())
}

/// The tempo that comparing the two methods comes to. Where their first tempos are
/// within two BPM, it is the mean of these; else it is the tempo of the surer method.
/// Where neither is surer, the candidates scored by both methods together decide.
pub open spec fn compared(fft: Seq<(F32, F32)>, autocorr: Seq<(F32, F32)>, together: BpmEstimate) -> BpmEstimate {
    let f = table_confidence(fft);
    let a = table_confidence(autocorr);
    let by_fft = BpmEstimate { bpm: fft[0].0, confidence: f, method_agreement: 1 };
    let by_autocorr = BpmEstimate { bpm: autocorr[0].0, confidence: a, method_agreement: 1 };
    if fft.len() == 0 && autocorr.len() == 0 {
        together
    } else if autocorr.len() == 0 {
        by_fft
    } else if fft.len() == 0 {
        by_autocorr
    } else if (fft[0].0 - autocorr[0].0).abs() <= ratio(2, 1) {
        BpmEstimate {
            bpm: (fft[0].0 + autocorr[0].0) / ratio(2, 1),
            confidence: agreed_confidence(f, a),
            method_agreement: 2,
        }
    } else if f > a {
        by_fft
    } else if a > f {
        by_autocorr
    } else {
        together
    }
}

/// What the tempograms of one variant come to, by comparing the two methods.
pub open spec fn compared_selection(v: Seq<VariantView>, o: ScoringOptions, p: TempoSearch) -> Outcome<
    (BpmEstimate, Seq<TempogramCandidateDebug>),
> {
    match selection(v, o, p) {
        Outcome::Value((together, _)) => {
            let estimate = compared(v[0].fft, v[0].autocorr, together);
            Outcome::Value((estimate, shown(ranked(v, o, p), estimate.bpm)))
        },
        Outcome::Invalid(m) => Outcome::Invalid(m),
        Outcome::Failed(m) => Outcome::Failed(m),
        Outcome::Numerical(m) => Outcome::Numerical(m),
    }
}

fn compare_methods(fft: &[(F32, F32)], autocorr: &[(F32, F32)], together: BpmEstimate) -> (r: BpmEstimate)
    ensures
        r == compared(fft@, autocorr@, together),
{
    let f = find_best_bpm_fft(fft);
    let a = find_best_bpm_autocorr(autocorr);
    match (f, a) {
        (None, None) => together,
        (Some(f), None) => BpmEstimate {
            bpm: f.bpm,
            confidence: f.confidence,
            method_agreement: 1,
        },
        (None, Some(a)) => BpmEstimate {
            bpm: a.bpm,
            confidence: a.confidence,
            method_agreement: 1,
        },
        (Some(f), Some(a)) => if (f.bpm - a.bpm).abs() <= ratio(2, 1) {
            BpmEstimate {
                bpm: (f.bpm + a.bpm) / ratio(2, 1),
                confidence: agreed_confidence(f.confidence, a.confidence),
                method_agreement: 2,
            }
        } else if f.confidence > a.confidence {
            BpmEstimate { bpm: f.bpm, confidence: f.confidence, method_agreement: 1 }
        } else if a.confidence > f.confidence {
            BpmEstimate { bpm: a.bpm, confidence: a.confidence, method_agreement: 1 }
        } else {
            together
        },
    }
}

/// `r` is what a selection comes to, with at most `top_n` candidates shown.
pub open spec fn gives_selection(
    r: Result<(BpmEstimate, Vec<TempogramCandidateDebug>), AnalysisError>,
    outcome: Outcome<(BpmEstimate, Seq<TempogramCandidateDebug>)>,
    top_n: nat,
) -> bool {
    match outcome {
        Outcome::Value((e, c)) => r is Ok && r->Ok_0.0 == e && r->Ok_0.1@ == if c.len() > top_n {
            c.take(top_n as int)
        } else {
            c
        },
        Outcome::Invalid(msg) => crate::error::is_invalid_input(r, msg),
        Outcome::Failed(msg) => crate::error::is_processing_error(r, msg),
        Outcome::Numerical(msg) => crate::error::is_numerical_error(r, msg),
    }
}

fn find_near(c: &[ScoredCandidate], bpm: F32) -> (r: Option<usize>)
    ensures
        match r {
            Some(p) => p < c@.len() && first_near(c@, bpm, 0) == Some(p as int),
            None => first_near(c@, bpm, 0) is None,
        },
{
    let mut i: usize = 0;
    while i < c.len()
        invariant
            i <= c.len(),
            first_near(c@, bpm, 0) == first_near(c@, bpm, i as int),
        decreases c.len() - i,
    {
        if (c[i].bpm - bpm).abs() < ratio(75, 100) {
            return Some(i);
        }
        i = i + 1;
    }
    None
}

fn find_selected(c: &[ScoredCandidate], min_bpm: F32, max_bpm: F32) -> (r: usize)
    requires
        c@.len() > 0,
    ensures
        r < c@.len(),
        r == selected_place(c@, min_bpm, max_bpm),
{
    let half = c[0].bpm / ratio(2, 1);
    if c[0].bpm > ratio(180, 1) && half >= min_bpm && half <= max_bpm {
        match find_near(c, half) {
            Some(p) => if keeps_high(c[0], c[p]) {
                0
            } else {
                p
            },
            None => 0,
        }
    } else {
        0
    }
}

fn is_all_empty(v: &[Variant]) -> (r: bool)
    ensures
        r == all_empty(variant_views(v@), v@.len()),
{
    let ghost views: Seq<VariantView> = variant_views(v@);
    let mut n: usize = 0;
    while n < v.len()
        invariant
            n <= v.len(),
            views == variant_views(v@),
            all_empty(views, n as nat),
        decreases v.len() - n,
    {
        assert(views[n as int] == v@[n as int]@);
        if v[n].fft.len() > 0 || v[n].autocorr.len() > 0 {
            return false;
        }
        n = n + 1;
    }
    true
}

/// Selects a tempo from the tempograms of variants, the full one first. The two
/// methods are compared by the full variant, or all variants decide together.
pub fn select_tempo(v: &[Variant], o: ScoringOptions, p: TempoSearch, compare: bool) -> (r: Result<
    (BpmEstimate, Vec<TempogramCandidateDebug>),
    AnalysisError,
>)
    ensures
        match if compare {
            compared_selection(variant_views(v@), o, p)
        } else {
            selection(variant_views(v@), o, p)
        } {
            Outcome::Value((e, c)) => r is Ok && r->Ok_0.0 == e && r->Ok_0.1@ == c,
            Outcome::Invalid(msg) => crate::error::is_invalid_input(r, msg),
            Outcome::Failed(msg) => crate::error::is_processing_error(r, msg),
            Outcome::Numerical(msg) => crate::error::is_numerical_error(r, msg),
        },
{
    if is_all_empty(v) {
        return Err(
            AnalysisError::ProcessingError(
                "Both FFT and autocorrelation tempograms are empty".to_owned(),
            ),
        );
    }
    let c: Vec<ScoredCandidate> = rank_candidates(v, o, p);
    if c.len() == 0 {
        return Err(
            AnalysisError::ProcessingError("No BPM candidates could be scored".to_owned()),
        );
    }
    let best = c[find_selected(c.as_slice(), p.min_bpm, p.max_bpm)];
    let second = if c.len() > 1 {
        c[1].score
    } else {
        zero()
    };
    let (fft, autocorr) = find_primaries(v);
    let together = BpmEstimate {
        bpm: best.bpm,
        confidence: separation(best.score, second),
        method_agreement: agreement(fft, autocorr, best.bpm),
    };
    assert(v@.len() > 0 ==> variant_views(v@)[0] == v@[0]@);
    let estimate = if compare && v.len() > 0 {
        compare_methods(v[0].fft.as_slice(), v[0].autocorr.as_slice(), together)
    } else {
        together
    };
    let mut list: Vec<TempogramCandidateDebug> = Vec::new();
    let mut i: usize = 0;
    while i < c.len()
        invariant
            i <= c.len(),
            list@.len() == i,
            forall|k: int| 0 <= k < i ==> list@[k] == shown(c@, estimate.bpm)[k],
        decreases c.len() - i,
    {
        list.push(
            TempogramCandidateDebug {
                bpm: c[i].bpm,
                score: c[i].score,
                fft_norm: c[i].fft_norm,
                autocorr_norm: c[i].autocorr_norm,
                selected: (c[i].bpm - estimate.bpm).abs() < ratio(75, 100),
            },
        );
        i = i + 1;
    }
    assert(list@ =~= shown(c@, estimate.bpm));
    Ok((estimate, list))
}

// ------------------------------------------------------------ from curves

/// What is wrong with the first of the curves from `i` on with which anything is.
pub open spec fn curve_error(curves: Seq<CurveView>, p: TempoSearch, i: int) -> Option<Seq<char>>
    decreases curves.len() - i,
{
    if i < 0 || i >= curves.len() {
        None
    } else {
        match autocorr_error(
            curves[i].novelty.len(),
            p.sample_rate,
            p.hop_size,
            p.min_bpm,
            p.max_bpm,
            p.step,
        ) {
            Some(msg) => Some(msg),
            None => curve_error(curves, p, i + 1),
        }
    }
}

/// The two tempograms of a curve.
pub open spec fn variant_of(c: CurveView, p: TempoSearch) -> VariantView {
    VariantView {
        band: c.band,
        weight: c.weight,
        fft: fft_tempogram_of(
            c.power_spectrum,
            p.sample_rate,
            p.hop_size,
            p.min_bpm,
            p.max_bpm,
        ),
        autocorr: autocorr_tempogram_of(
            c.novelty,
            p.sample_rate,
            p.hop_size,
            p.min_bpm,
            p.max_bpm,
            p.step,
        ),
    }
}

/// What curves come to: the two methods are compared, or, with band fusion, all
/// variants decide together.
pub open spec fn curves_selection(
    curves: Seq<CurveView>,
    p: TempoSearch,
    cfg: Option<TempogramBandFusionConfig>,
) -> Outcome<(BpmEstimate, Seq<TempogramCandidateDebug>)> {
    match curve_error(curves, p, 0) {
        Some(msg) => Outcome::Invalid(msg),
        None => {
            let v = Seq::new(curves.len(), |i: int| variant_of(curves[i], p));
            if cfg is None {
                compared_selection(v, scoring_options(cfg), p)
            } else {
                selection(v, scoring_options(cfg), p)
            }
        },
    }
}

/// Makes the two tempograms of each curve.
fn make_variants(curves: &[TempoCurve], p: TempoSearch) -> (r: Result<Vec<Variant>, AnalysisError>)
    ensures
        match curve_error(curve_views(curves@), p, 0) {
            Some(msg) => crate::error::is_invalid_input(r, msg),
            None => r is Ok && variant_views(r->Ok_0@) == Seq::new(
                curves@.len(),
                |i: int| variant_of(curve_views(curves@)[i], p),
            ),
        },
{
    let ghost views: Seq<CurveView> = curve_views(curves@);
    let mut v: Vec<Variant> = Vec::new();
    let mut i: usize = 0;
    while i < curves.len()
        invariant
            i <= curves.len(),
            views == curve_views(curves@),
            curve_error(views, p, 0) == curve_error(views, p, i as int),
            v@.len() == i,
            forall|k: int| 0 <= k < i ==> (#[trigger] v@[k])@ == variant_of(views[k], p),
        decreases curves.len() - i,
    {
        assert(views[i as int] == curves@[i as int]@);
        let c = &curves[i];
        let fft: Vec<(F32, F32)> = match fft_tempogram(
            c.novelty.as_slice(),
            p.sample_rate,
            p.hop_size,
            p.min_bpm,
            p.max_bpm,
            c.power_spectrum.as_slice(),
        ) {
            Err(e) => {
                return Err(e);
            },
            Ok(t) => t,
        };
        let autocorr: Vec<(F32, F32)> = match autocorrelation_tempogram(
            c.novelty.as_slice(),
            p.sample_rate,
            p.hop_size,
            p.min_bpm,
            p.max_bpm,
            p.step,
        ) {
            Err(e) => {
                return Err(e);
            },
            Ok(t) => t,
        };
        v.push(Variant { band: c.band, weight: c.weight, fft, autocorr });
        i = i + 1;
    }
    assert(variant_views(v@) =~= Seq::new(curves@.len(), |i: int| variant_of(views[i], p)));
    Ok(v)
}

fn estimate_bpm_tempogram_impl(
    curves: &[TempoCurve],
    p: TempoSearch,
    cfg: Option<TempogramBandFusionConfig>,
    top_n: usize,
) -> (r: Result<(BpmEstimate, Vec<TempogramCandidateDebug>), AnalysisError>)
    ensures
        gives_selection(r, curves_selection(curve_views(curves@), p, cfg), top_n as nat),
{
    let v: Vec<Variant> = match make_variants(curves, p) {
        Err(e) => {
            return Err(e);
        },
        Ok(v) => v,
    };
    match select_tempo(v.as_slice(), scoring_options(cfg), p, cfg.is_none()) {
        Err(e) => Err(e),
        Ok((estimate, mut list)) => {
            if list.len() > top_n {
                list.truncate(top_n);
            }
            Ok((estimate, list))
        },
    }
}

/// What a selection comes to, without its candidates.
pub open spec fn without_list(
    outcome: Outcome<(BpmEstimate, Seq<TempogramCandidateDebug>)>,
) -> Outcome<BpmEstimate> {
    match outcome {
        Outcome::Value((e, _)) => Outcome::Value(e),
        Outcome::Invalid(m) => Outcome::Invalid(m),
        Outcome::Failed(m) => Outcome::Failed(m),
        Outcome::Numerical(m) => Outcome::Numerical(m),
    }
}

/// Estimates the tempo from the curves of a tempogram: the mean of what its two
/// methods find, where they agree, else what the surer one finds.
pub fn estimate_bpm_tempogram(
    curves: &[TempoCurve],
    sample_rate: u32,
    hop_size: u32,
    min_bpm: F32,
    max_bpm: F32,
    bpm_resolution: F32,
) -> (r: Result<BpmEstimate, AnalysisError>)
    ensures
        gives_plain(
            r,
            without_list(
                curves_selection(
                    curve_views(curves@),
                    (TempoSearch { sample_rate, hop_size, min_bpm, max_bpm, step: bpm_resolution }),
                    None,
                ),
            ),
        ),
{
    let p = TempoSearch { sample_rate, hop_size, min_bpm, max_bpm, step: bpm_resolution };
    match estimate_bpm_tempogram_impl(curves, p, None, 0) {
        Err(e) => Err(e),
        Ok((estimate, _)) => Ok(estimate),
    }
}

/// Estimates the tempo from the curves of a tempogram, with band fusion.
pub fn estimate_bpm_tempogram_band_fusion(
    curves: &[TempoCurve],
    sample_rate: u32,
    hop_size: u32,
    min_bpm: F32,
    max_bpm: F32,
    bpm_resolution: F32,
    band_cfg: TempogramBandFusionConfig,
) -> (r: Result<BpmEstimate, AnalysisError>)
    ensures
        gives_plain(
            r,
            without_list(
                curves_selection(
                    curve_views(curves@),
                    (TempoSearch { sample_rate, hop_size, min_bpm, max_bpm, step: bpm_resolution }),
                    Some(band_cfg),
                ),
            ),
        ),
{
    let p = TempoSearch { sample_rate, hop_size, min_bpm, max_bpm, step: bpm_resolution };
    match estimate_bpm_tempogram_impl(curves, p, Some(band_cfg), 0) {
        Err(e) => Err(e),
        Ok((estimate, _)) => Ok(estimate),
    }
}

/// Estimates the tempo from the curves of a tempogram, and shows up to `top_n`
/// candidates.
pub fn estimate_bpm_tempogram_with_candidates(
    curves: &[TempoCurve],
    sample_rate: u32,
    hop_size: u32,
    min_bpm: F32,
    max_bpm: F32,
    bpm_resolution: F32,
    top_n: usize,
) -> (r: Result<(BpmEstimate, Vec<TempogramCandidateDebug>), AnalysisError>)
    ensures
        gives_selection(
            r,
            curves_selection(
                curve_views(curves@),
                (TempoSearch { sample_rate, hop_size, min_bpm, max_bpm, step: bpm_resolution }),
                None,
            ),
            top_n as nat,
        ),
{
    let p = TempoSearch { sample_rate, hop_size, min_bpm, max_bpm, step: bpm_resolution };
    estimate_bpm_tempogram_impl(curves, p, None, top_n)
}

/// Estimates the tempo from the curves of a tempogram with band fusion, and shows
/// up to `top_n` candidates.
pub fn estimate_bpm_tempogram_with_candidates_band_fusion(
    curves: &[TempoCurve],
    sample_rate: u32,
    hop_size: u32,
    min_bpm: F32,
    max_bpm: F32,
    bpm_resolution: F32,
    top_n: usize,
    band_cfg: TempogramBandFusionConfig,
) -> (r: Result<(BpmEstimate, Vec<TempogramCandidateDebug>), AnalysisError>)
    ensures
        gives_selection(
            r,
            curves_selection(
                curve_views(curves@),
                (TempoSearch { sample_rate, hop_size, min_bpm, max_bpm, step: bpm_resolution }),
                Some(band_cfg),
            ),
            top_n as nat,
        ),
{
    let p = TempoSearch { sample_rate, hop_size, min_bpm, max_bpm, step: bpm_resolution };
    estimate_bpm_tempogram_impl(curves, p, Some(band_cfg), top_n)
}

} // verus!
