//! What holds of every tempo that is found.
use crate::error::Outcome;
use crate::float::F32;
use crate::float::ratio;
use crate::float::zero;
use crate::float_laws::lemma_clamp_never_outside;
use crate::float_laws::lemma_count_order;
use crate::float_laws::lemma_mean_above_zero;
use crate::float_laws::lemma_mean_between;
use crate::float_laws::lemma_nonnegative;
use crate::float_laws::lemma_part_never_outside;
use crate::float_laws::lemma_product_never_negative;
use crate::float_laws::lemma_ratio_above_zero;
use crate::float_laws::lemma_ratio_in_unit;
use crate::float_laws::lemma_zero_and_one;
use crate::float_laws::never_outside;
use crate::rounding::INF_BITS;
use crate::rounding::lemma_mag_units_monotone;
use crate::sorting::arranged;
use crate::sorting::lemma_arranged_from;
use crate::sorting::lemma_arranged_in_order;
use crate::sorting::sorted_order;
use crate::sorting::sorted_set;
use super::autocorrelation::acf_candidates;
use super::autocorrelation::acf_peaks;
use super::autocorrelation::bpm_lag;
use super::autocorrelation::lag_candidates;
use super::comb_filter::aligned_beats;
use super::comb_filter::beat_period;
use super::comb_filter::beats_until;
use super::comb_filter::best_score;
use super::comb_filter::by_confidence;
use super::comb_filter::comb_candidates;
use super::comb_filter::comb_result;
use super::comb_filter::comb_score;
use super::comb_filter::comb_scores;
use super::comb_filter::comb_tolerance;
use super::comb_filter::confidences;
use super::comb_filter::confident;
use super::comb_filter::tempos;
use super::multi_resolution::FamilyTempo;
use super::multi_resolution::FusionOptions;
use super::multi_resolution::Tables;
use super::multi_resolution::best_of_family;
use super::multi_resolution::crossed_score;
use super::multi_resolution::distinct;
use super::multi_resolution::distinct_hypotheses;
use super::multi_resolution::family;
use super::multi_resolution::folded_down;
use super::multi_resolution::folded_up;
use super::multi_resolution::fusion;
use super::multi_resolution::greatest_support;
use super::multi_resolution::guarded;
use super::multi_resolution::hypotheses;
use super::multi_resolution::readings;
use super::multi_resolution::scores_at;
use super::multi_resolution::straight_score;
use super::multi_resolution::structurally_discounted;
use super::multi_resolution::table_of;
use super::multi_resolution::with_reading;
use super::peak_picking::peak_height;
use super::tempo_table::by_strength;
use super::tempo_table::frame_rate;
use super::tempo_table::strengths;
use super::tempo_table::table_confidence;
use super::tempogram::ScoredCandidate;
use super::tempogram::ScoringOptions;
use super::tempogram::TempoSearch;
use super::tempogram::TempogramCandidateDebug;
use super::tempogram::VariantView;
use super::tempogram::all_seeds;
use super::tempogram::candidate_tempos;
use super::tempogram::compared;
use super::tempogram::curve_error;
use super::tempogram::curves_selection;
use super::tempogram::first_near;
use super::tempogram::folded;
use super::tempogram::ranked;
use super::tempogram::scored;
use super::tempogram::scores;
use super::tempogram::scoring_options;
use super::tempogram::seeds;
use super::tempogram::selected_place;
use super::tempogram::selection;
use super::tempogram::separation;
use super::tempogram::spaced;
use super::tempogram::variant_of;
use super::tempogram::with_folds;
use super::tempogram_autocorr::autocorr_table;
use super::tempogram_curves::TempoCurve;
use super::tempogram_curves::TempogramBandFusionConfig;
use super::tempogram_curves::curve_views;
use super::tempogram_fft::fft_table;
use super::tempogram_fft::half_len;
use super::types::BpmCandidate;
use super::types::BpmEstimate;
use vstd::prelude::*;

verus! {

/// A tempo within a range.
pub open spec fn in_range(bpm: F32, min_bpm: F32, max_bpm: F32) -> bool {
    min_bpm <= bpm && bpm <= max_bpm
}

/// Tempos with steps between them lie between the first and the limit, and increase.
pub proof fn lemma_tempos_in_range(bpm: F32, limit: F32, step: F32, i: int)
    requires
        0 <= i < tempos(bpm, limit, step).len(),
    ensures
        in_range(tempos(bpm, limit, step)[i], bpm, limit),
        i > 0 ==> tempos(bpm, limit, step)[i - 1] < tempos(bpm, limit, step)[i],
    decreases i,
{
    if i > 0 {
        lemma_tempos_in_range(bpm + step, limit, step, i - 1);
    }
}

proof fn lemma_lag_candidates_in_range(
    peaks: Seq<(usize, F32)>,
    sample_rate: u32,
    hop_size: usize,
    min_bpm: F32,
    max_bpm: F32,
    max: F32,
    n: nat,
    i: int,
)
    requires
        0 <= i < lag_candidates(peaks, sample_rate, hop_size, min_bpm, max_bpm, max, n).len(),
    ensures
        in_range(
            lag_candidates(peaks, sample_rate, hop_size, min_bpm, max_bpm, max, n)[i].bpm,
            min_bpm,
            max_bpm,
        ),
        lag_candidates(peaks, sample_rate, hop_size, min_bpm, max_bpm, max, n).len() <= n,
    decreases n,
{
    if n > 0 {
        let rest = lag_candidates(
            peaks,
            sample_rate,
            hop_size,
            min_bpm,
            max_bpm,
            max,
            (n - 1) as nat,
        );
        if i < rest.len() {
            lemma_lag_candidates_in_range(
                peaks,
                sample_rate,
                hop_size,
                min_bpm,
                max_bpm,
                max,
                (n - 1) as nat,
                i,
            );
        } else if rest.len() > 0 {
            lemma_lag_candidates_in_range(
                peaks,
                sample_rate,
                hop_size,
                min_bpm,
                max_bpm,
                max,
                (n - 1) as nat,
                0,
            );
        }
    }
}

/// The tempos found by autocorrelation lie in the range that is searched.
pub proof fn lemma_acf_candidates_in_range(
    acf: Seq<F32>,
    sample_rate: u32,
    hop_size: usize,
    min_bpm: F32,
    max_bpm: F32,
    i: int,
)
    requires
        acf.len() <= usize::MAX,
        0 <= i < acf_candidates(acf, sample_rate, hop_size, min_bpm, max_bpm).len(),
    ensures
        in_range(
            acf_candidates(acf, sample_rate, hop_size, min_bpm, max_bpm)[i].bpm,
            min_bpm,
            max_bpm,
        ),
{
    let lag_min = bpm_lag(sample_rate, hop_size, max_bpm).ceil().to_usize();
    let lag_max = bpm_lag(sample_rate, hop_size, min_bpm).floor().to_usize();
    let peaks = acf_peaks(acf.subrange(lag_min as int, lag_max + 1), lag_min as int);
    let list = lag_candidates(
        peaks,
        sample_rate,
        hop_size,
        min_bpm,
        max_bpm,
        peak_height(acf, acf.len()),
        peaks.len(),
    );
    lemma_peaks_fit(acf.subrange(lag_min as int, lag_max + 1), lag_min as int);
    if list.len() > 0 {
        lemma_lag_candidates_in_range(
            peaks,
            sample_rate,
            hop_size,
            min_bpm,
            max_bpm,
            peak_height(acf, acf.len()),
            peaks.len(),
            0,
        );
    }
    let k = lemma_arranged_from(list, confidences(list), true, i);
    lemma_lag_candidates_in_range(
        peaks,
        sample_rate,
        hop_size,
        min_bpm,
        max_bpm,
        peak_height(acf, acf.len()),
        peaks.len(),
        k,
    );
}

proof fn lemma_lag_peaks_fit(acf: Seq<F32>, offset: int, prominence: F32, n: nat)
    ensures
        super::autocorrelation::lag_peaks(acf, offset, prominence, n).len() <= n,
    decreases n,
{
    if n > 1 {
        lemma_lag_peaks_fit(acf, offset, prominence, (n - 1) as nat);
    }
}

pub proof fn lemma_order_len(keys: Seq<F32>, descending: bool, n: nat)
    requires
        n <= keys.len(),
        n <= usize::MAX,
    ensures
        sorted_order(keys, descending, n).len() == n,
{
    crate::sorting::lemma_sorted_order_lists_indices(keys, descending, n);
}

proof fn lemma_peaks_fit(acf: Seq<F32>, offset: int)
    requires
        acf.len() <= usize::MAX,
    ensures
        acf_peaks(acf, offset).len() <= acf.len(),
{
    if acf.len() > 0 {
        let max = peak_height(acf, acf.len());
        lemma_lag_peaks_fit(acf, offset, max * ratio(1, 10), (acf.len() - 1) as nat);
        let peaks = super::autocorrelation::lag_peaks(
            acf,
            offset,
            max * ratio(1, 10),
            (acf.len() - 1) as nat,
        );
        lemma_order_len(super::peak_picking::heights(peaks), true, peaks.len());
    }
}

proof fn lemma_confident_from(c: Seq<BpmCandidate>, n: nat, i: int) -> (k: int)
    requires
        n <= c.len(),
        0 <= i < confident(c, n).len(),
    ensures
        0 <= k < n,
        confident(c, n)[i] == c[k],
        c[k].confidence >= ratio(1, 10),
    decreases n,
{
    if c[n - 1].confidence >= ratio(1, 10) && i == confident(c, (n - 1) as nat).len() {
        n - 1
    } else {
        lemma_confident_from(c, (n - 1) as nat, i)
    }
}

/// The tempos that a comb filter keeps are among those it tried, and have a
/// confidence of 0.1 or more.
pub proof fn lemma_comb_result_from_tempos(
    onsets: Seq<usize>,
    sample_rate: u32,
    bpms: Seq<F32>,
    i: int,
) -> (k: int)
    requires
        bpms.len() <= usize::MAX,
        0 <= i < comb_result(onsets, sample_rate, bpms).len(),
    ensures
        0 <= k < bpms.len(),
        comb_result(onsets, sample_rate, bpms)[i].bpm == bpms[k],
        comb_result(onsets, sample_rate, bpms)[i].confidence >= ratio(1, 10),
{
    let list = comb_candidates(bpms, comb_scores(sorted_set(onsets), sample_rate, bpms));
    let sorted = by_confidence(list);
    let j = lemma_confident_from(sorted, sorted.len(), i);
    lemma_arranged_from(list, confidences(list), true, j)
}

proof fn lemma_folds_in_range(s: Seq<F32>, base: F32, min_bpm: F32, max_bpm: F32, k: nat)
    requires
        forall|i: int| 0 <= i < s.len() ==> in_range(#[trigger] s[i], min_bpm, max_bpm),
    ensures
        with_folds(s, base, min_bpm, max_bpm, k).len() <= s.len() + k,
        forall|i: int|
            0 <= i < with_folds(s, base, min_bpm, max_bpm, k).len() ==> in_range(
                #[trigger] with_folds(s, base, min_bpm, max_bpm, k)[i],
                min_bpm,
                max_bpm,
            ),
    decreases k,
{
    if k > 0 {
        lemma_folds_in_range(s, base, min_bpm, max_bpm, (k - 1) as nat);
    }
}

pub proof fn lemma_folded_in_range(bases: Seq<F32>, min_bpm: F32, max_bpm: F32, n: nat)
    ensures
        folded(bases, min_bpm, max_bpm, n).len() <= 7 * n,
        forall|i: int|
            0 <= i < folded(bases, min_bpm, max_bpm, n).len() ==> in_range(
                #[trigger] folded(bases, min_bpm, max_bpm, n)[i],
                min_bpm,
                max_bpm,
            ),
    decreases n,
{
    if n > 0 {
        lemma_folded_in_range(bases, min_bpm, max_bpm, (n - 1) as nat);
        lemma_folds_in_range(
            folded(bases, min_bpm, max_bpm, (n - 1) as nat),
            bases[n - 1],
            min_bpm,
            max_bpm,
            7,
        );
    }
}

proof fn lemma_spaced_from(s: Seq<F32>, n: nat, i: int) -> (k: int)
    requires
        n <= s.len(),
        0 <= i < spaced(s, n).len(),
    ensures
        0 <= k < n,
        spaced(s, n)[i] == s[k],
    decreases n,
{
    let before = spaced(s, (n - 1) as nat);
    if i < before.len() {
        lemma_spaced_from(s, (n - 1) as nat, i)
    } else {
        n - 1
    }
}

proof fn lemma_spaced_fits(s: Seq<F32>, n: nat)
    ensures
        spaced(s, n).len() <= n,
    decreases n,
{
    if n > 0 {
        lemma_spaced_fits(s, (n - 1) as nat);
    }
}

/// Every tempo that tempograms propose lies in the range that is searched.
pub proof fn lemma_candidate_tempos_in_range(v: Seq<VariantView>, min_bpm: F32, max_bpm: F32, i: int)
    requires
        7 * all_seeds(v).len() <= usize::MAX,
        0 <= i < candidate_tempos(v, min_bpm, max_bpm).len(),
    ensures
        in_range(candidate_tempos(v, min_bpm, max_bpm)[i], min_bpm, max_bpm),
{
    let all = folded(all_seeds(v), min_bpm, max_bpm, all_seeds(v).len());
    lemma_folded_in_range(all_seeds(v), min_bpm, max_bpm, all_seeds(v).len());
    let sorted = arranged(all, sorted_order(all, false, all.len()));
    let k = lemma_spaced_from(sorted, sorted.len(), i);
    let m = lemma_arranged_from(all, all, false, k);
    assert(in_range(all[m], min_bpm, max_bpm));
}

proof fn lemma_first_near(c: Seq<ScoredCandidate>, bpm: F32, i: int)
    requires
        0 <= i,
    ensures
        first_near(c, bpm, i) matches Some(p) ==> i <= p < c.len(),
    decreases c.len() - i,
{
    if i < c.len() && !((c[i].bpm - bpm).abs() < ratio(75, 100)) {
        lemma_first_near(c, bpm, i + 1);
    }
}

proof fn lemma_ranked_in_range(v: Seq<VariantView>, o: ScoringOptions, p: TempoSearch, i: int)
    requires
        7 * all_seeds(v).len() <= usize::MAX,
        0 <= i < ranked(v, o, p).len(),
    ensures
        in_range(ranked(v, o, p)[i].bpm, p.min_bpm, p.max_bpm),
{
    let tempos = candidate_tempos(v, p.min_bpm, p.max_bpm);
    let list = Seq::new(tempos.len(), |k: int| scored(v, o, p.step, tempos[k]));
    lemma_candidate_tempos_fit(v, p.min_bpm, p.max_bpm);
    let k = lemma_arranged_from(list, scores(list), true, i);
    lemma_candidate_tempos_in_range(v, p.min_bpm, p.max_bpm, k);
    assert(list[k].bpm == tempos[k]);
}

pub proof fn lemma_candidate_tempos_fit(v: Seq<VariantView>, min_bpm: F32, max_bpm: F32)
    requires
        7 * all_seeds(v).len() <= usize::MAX,
    ensures
        candidate_tempos(v, min_bpm, max_bpm).len() <= usize::MAX,
{
    let all = folded(all_seeds(v), min_bpm, max_bpm, all_seeds(v).len());
    lemma_folded_in_range(all_seeds(v), min_bpm, max_bpm, all_seeds(v).len());
    lemma_order_len(all, false, all.len());
    let sorted = arranged(all, sorted_order(all, false, all.len()));
    lemma_spaced_fits(sorted, sorted.len());
}

pub proof fn lemma_selected_place(c: Seq<ScoredCandidate>, min_bpm: F32, max_bpm: F32)
    requires
        c.len() > 0,
    ensures
        0 <= selected_place(c, min_bpm, max_bpm) < c.len(),
{
    lemma_first_near(c, c[0].bpm / ratio(2, 1), 0);
}

proof fn lemma_separation_never_outside(best: F32, second: F32)
    ensures
        never_outside(separation(best, second)),
{
    lemma_zero_and_one();
    lemma_clamp_never_outside((best - second).max(zero()) / best);
}

/// The tempo that tempograms settle on lies in the range that is searched, as do
/// all candidates; it is one of them; its confidence is not outside the range from
/// zero to one; and two methods can agree on it at most.
pub proof fn lemma_selection_in_range(v: Seq<VariantView>, o: ScoringOptions, p: TempoSearch)
    requires
        7 * all_seeds(v).len() <= usize::MAX,
    ensures
        selection(v, o, p) matches Outcome::Value((estimate, candidates)) ==> {
            &&& in_range(estimate.bpm, p.min_bpm, p.max_bpm)
            &&& forall|i: int|
                0 <= i < candidates.len() ==> in_range(
                    (#[trigger] candidates[i]).bpm,
                    p.min_bpm,
                    p.max_bpm,
                )
            &&& exists|i: int|
                0 <= i < candidates.len() && (#[trigger] candidates[i]).bpm == estimate.bpm
            &&& never_outside(estimate.confidence)
            &&& estimate.method_agreement <= 2
        },
{
    let c = ranked(v, o, p);
    if let Outcome::Value((estimate, candidates)) = selection(v, o, p) {
        let place = selected_place(c, p.min_bpm, p.max_bpm);
        lemma_selected_place(c, p.min_bpm, p.max_bpm);
        assert forall|i: int| 0 <= i < candidates.len() implies in_range(
            (#[trigger] candidates[i]).bpm,
            p.min_bpm,
            p.max_bpm,
        ) by {
            lemma_ranked_in_range(v, o, p, i);
        }
        lemma_ranked_in_range(v, o, p, place);
        assert(candidates[place].bpm == estimate.bpm);
        lemma_separation_never_outside(
            c[place].score,
            if c.len() > 1 {
                c[1].score
            } else {
                zero()
            },
        );
    }
}

/// Candidates stand by confidence, the surest first.
pub proof fn lemma_surest_tempo_first(c: Seq<BpmCandidate>, i: int, j: int)
    requires
        c.len() <= usize::MAX,
        forall|k: int| 0 <= k < c.len() ==> !(#[trigger] c[k]).confidence.is_nan(),
        0 <= i < j < c.len(),
    ensures
        !(by_confidence(c)[i].confidence < by_confidence(c)[j].confidence),
{
    let keys = confidences(c);
    let _ = lemma_arranged_in_order(c, keys, true, i, j);
}

/// Tempogram entries stand by strength, the strongest first.
pub proof fn lemma_strongest_entry_first(table: Seq<(F32, F32)>, i: int, j: int)
    requires
        table.len() <= usize::MAX,
        forall|k: int| 0 <= k < table.len() ==> !(#[trigger] table[k]).1.is_nan(),
        0 <= i < j < table.len(),
    ensures
        !(by_strength(table)[i].1 < by_strength(table)[j].1),
{
    let keys = strengths(table);
    let _ = lemma_arranged_in_order(table, keys, true, i, j);
}

/// The confidence of an entry table is not outside the range from zero to one.
pub proof fn lemma_table_confidence_never_outside(table: Seq<(F32, F32)>)
    ensures
        never_outside(table_confidence(table)),
{
    lemma_zero_and_one();
    lemma_ratio_in_unit(5, 10);
    lemma_clamp_never_outside((table[0].1 - table[1].1).max(zero()) / table[0].1);
}

proof fn lemma_aligned_at_most(onsets: Seq<usize>, period: F32, tolerance: F32, n: nat)
    ensures
        aligned_beats(onsets, period, tolerance, n) <= n,
    decreases n,
{
    if n > 0 {
        lemma_aligned_at_most(onsets, period, tolerance, (n - 1) as nat);
    }
}

/// The score of a tempo in a comb filter is not outside the range from zero to one.
pub proof fn lemma_comb_score_never_outside(
    onsets: Seq<usize>,
    sample_rate: u32,
    bpm: F32,
    tolerance: F32,
)
    ensures
        never_outside(comb_score(onsets, sample_rate, bpm, tolerance)),
{
    lemma_zero_and_one();
    let period = beat_period(sample_rate, bpm);
    let beats = beats_until(onsets.last(), period);
    let aligned = aligned_beats(onsets, period, period * tolerance, beats as nat);
    lemma_aligned_at_most(onsets, period, period * tolerance, beats as nat);
    lemma_count_order(aligned as usize, beats as usize);
    lemma_part_never_outside(F32::from_usize(aligned as usize), F32::from_usize(beats as usize));
}

proof fn lemma_best_score(scores: Seq<F32>, n: nat)
    requires
        n <= scores.len(),
    ensures
        zero() <= best_score(scores, n),
        forall|i: int|
            0 <= i < n ==> scores[i].is_nan() || #[trigger] scores[i] <= best_score(scores, n),
    decreases n,
{
    lemma_zero_and_one();
    if n > 0 {
        lemma_best_score(scores, (n - 1) as nat);
    }
}

/// The confidence of every tempo that a comb filter keeps is not outside the range
/// from zero to one.
pub proof fn lemma_comb_confidence_never_outside(
    onsets: Seq<usize>,
    sample_rate: u32,
    bpms: Seq<F32>,
    i: int,
)
    requires
        bpms.len() <= usize::MAX,
        0 <= i < comb_result(onsets, sample_rate, bpms).len(),
    ensures
        never_outside(comb_result(onsets, sample_rate, bpms)[i].confidence),
{
    lemma_zero_and_one();
    lemma_ratio_above_zero(1, 10_000_000_000);
    let scores = comb_scores(sorted_set(onsets), sample_rate, bpms);
    let list = comb_candidates(bpms, scores);
    let sorted = by_confidence(list);
    let j = lemma_confident_from(sorted, sorted.len(), i);
    let k = lemma_arranged_from(list, confidences(list), true, j);
    lemma_comb_score_never_outside(
        sorted_set(onsets),
        sample_rate,
        bpms[k],
        comb_tolerance(bpms[k]),
    );
    lemma_best_score(scores, scores.len());
    let best = best_score(scores, scores.len());
    if best > ratio(1, 10_000_000_000) {
        lemma_part_never_outside(scores[k], best);
    }
}

/// What the two methods say for a candidate is not outside the range from zero to one.
pub proof fn lemma_supports_never_outside(v: Seq<VariantView>, o: ScoringOptions, step: F32, bpm: F32)
    ensures
        never_outside(scored(v, o, step, bpm).fft_norm),
        never_outside(scored(v, o, step, bpm).autocorr_norm),
{
    let total = super::tempogram::weight_sum(v, o.seed_only, v.len()).max(ratio(1, 1_000_000));
    lemma_clamp_never_outside(
        super::tempogram::fft_support(v, o.seed_only, bpm, v.len()) / total,
    );
    lemma_clamp_never_outside(
        super::tempogram::autocorr_support(
            v,
            o.seed_only,
            bpm,
            super::tempogram::lag_tolerance(step),
            v.len(),
        ) / total,
    );
}

/// The tempo that comparing the two methods comes to lies in the range that their
/// tempos lie in; its confidence is not outside the range from zero to one; and two
/// methods can agree on it at most.
pub proof fn lemma_comparison_in_range(
    fft: Seq<(F32, F32)>,
    autocorr: Seq<(F32, F32)>,
    together: BpmEstimate,
    min_bpm: F32,
    max_bpm: F32,
)
    requires
        fft.len() > 0 ==> in_range(fft[0].0, min_bpm, max_bpm),
        autocorr.len() > 0 ==> in_range(autocorr[0].0, min_bpm, max_bpm),
        in_range(together.bpm, min_bpm, max_bpm),
        never_outside(together.confidence),
        together.method_agreement <= 2,
        zero() <= min_bpm,
        (max_bpm + max_bpm).is_finite(),
    ensures
        in_range(compared(fft, autocorr, together).bpm, min_bpm, max_bpm),
        never_outside(compared(fft, autocorr, together).confidence),
        compared(fft, autocorr, together).method_agreement <= 2,
{
    lemma_zero_and_one();
    lemma_table_confidence_never_outside(fft);
    lemma_table_confidence_never_outside(autocorr);
    if fft.len() > 0 && autocorr.len() > 0 {
        lemma_mean_between(min_bpm, max_bpm, fft[0].0, autocorr[0].0);
    }
    let surer = table_confidence(fft).max(table_confidence(autocorr));
    lemma_ratio_above_zero(12, 10);
    lemma_product_never_negative(surer, ratio(12, 10));
}

/// Tempos with steps between them are no more than there are numbers above zero.
proof fn lemma_tempos_fit(bpm: F32, limit: F32, step: F32)
    requires
        zero() < bpm,
    ensures
        tempos(bpm, limit, step).len() <= INF_BITS + 1 - bpm.mag(),
        tempos(bpm, limit, step).len() <= usize::MAX,
    decreases
        (if bpm <= limit {
            limit.units() - bpm.units() + 1
        } else {
            0
        }),
{
    lemma_zero_and_one();
    lemma_nonnegative(bpm);
    let next = bpm + step;
    if bpm <= limit && next > bpm {
        lemma_nonnegative(next);
        if next.mag() <= bpm.mag() {
            lemma_mag_units_monotone(next.mag(), bpm.mag());
        }
        lemma_tempos_fit(next, limit, step);
    }
}

proof fn lemma_fft_table_in_range(
    power: Seq<F32>,
    resolution: F32,
    min_bpm: F32,
    max_bpm: F32,
    n: nat,
)
    ensures
        fft_table(power, resolution, min_bpm, max_bpm, n).len() <= n,
        forall|i: int|
            0 <= i < fft_table(power, resolution, min_bpm, max_bpm, n).len() ==> in_range(
                (#[trigger] fft_table(power, resolution, min_bpm, max_bpm, n)[i]).0,
                min_bpm,
                max_bpm,
            ),
    decreases n,
{
    if n > 0 {
        lemma_fft_table_in_range(power, resolution, min_bpm, max_bpm, (n - 1) as nat);
    }
}

/// Every tempo of the two tempograms of a curve lies in the range that is searched.
proof fn lemma_variant_in_range(c: TempoCurve, p: TempoSearch)
    requires
        zero() < p.min_bpm,
    ensures
        forall|i: int|
            0 <= i < variant_of(c@, p).fft.len() ==> in_range(
                (#[trigger] variant_of(c@, p).fft[i]).0,
                p.min_bpm,
                p.max_bpm,
            ),
        forall|i: int|
            0 <= i < variant_of(c@, p).autocorr.len() ==> in_range(
                (#[trigger] variant_of(c@, p).autocorr[i]).0,
                p.min_bpm,
                p.max_bpm,
            ),
{
    let power = c.power_spectrum@;
    let bins = c.power_spectrum.len();
    let resolution = frame_rate(p.sample_rate, p.hop_size) / F32::from_usize(power.len() as usize);
    let n = if half_len(power) <= power.len() {
        half_len(power)
    } else {
        power.len()
    };
    let fft = fft_table(power, resolution, p.min_bpm, p.max_bpm, n);
    lemma_fft_table_in_range(power, resolution, p.min_bpm, p.max_bpm, n);
    assert forall|i: int| 0 <= i < variant_of(c@, p).fft.len() implies in_range(
        (#[trigger] variant_of(c@, p).fft[i]).0,
        p.min_bpm,
        p.max_bpm,
    ) by {
        let k = lemma_arranged_from(fft, strengths(fft), true, i);
        assert(in_range(fft[k].0, p.min_bpm, p.max_bpm));
    }
    let bpms = tempos(p.min_bpm, p.max_bpm, p.step);
    let autocorr = autocorr_table(c.novelty@, frame_rate(p.sample_rate, p.hop_size), bpms);
    lemma_tempos_fit(p.min_bpm, p.max_bpm, p.step);
    assert forall|i: int| 0 <= i < variant_of(c@, p).autocorr.len() implies in_range(
        (#[trigger] variant_of(c@, p).autocorr[i]).0,
        p.min_bpm,
        p.max_bpm,
    ) by {
        let k = lemma_arranged_from(autocorr, strengths(autocorr), true, i);
        lemma_tempos_in_range(p.min_bpm, p.max_bpm, p.step, k);
    }
}

proof fn lemma_seeds_fit(v: Seq<VariantView>, n: nat)
    ensures
        seeds(v, n).len() <= 16 * n,
    decreases n,
{
    if n > 0 {
        lemma_seeds_fit(v, (n - 1) as nat);
    }
}

/// What a tempogram finds is a tempo above zero.
pub proof fn lemma_tempogram_tempo_above_zero(
    curves: Seq<TempoCurve>,
    p: TempoSearch,
    cfg: Option<TempogramBandFusionConfig>,
)
    requires
        7 * (16 * curves.len() + 2) <= usize::MAX,
    ensures
        curves_selection(curve_views(curves), p, cfg) matches Outcome::Value((estimate, _)) ==> {
            &&& zero() < p.min_bpm
            &&& zero() < estimate.bpm
        },
{
    let views = curve_views(curves);
    let v = Seq::new(views.len(), |i: int| variant_of(views[i], p));
    let o = scoring_options(cfg);
    lemma_zero_and_one();
    lemma_seeds_fit(v, v.len());
    lemma_selection_in_range(v, o, p);
    if let Outcome::Value((together, _)) = selection(v, o, p) {
        if curve_error(views, p, 0) is None {
            assert(v.len() > 0);
            assert(zero() < p.min_bpm);
            assert(zero() < together.bpm);
            assert(v[0] == variant_of(curves[0]@, p));
            lemma_variant_in_range(curves[0], p);
            let fft = v[0].fft;
            let autocorr = v[0].autocorr;
            if fft.len() > 0 {
                assert(in_range(fft[0].0, p.min_bpm, p.max_bpm));
            }
            if autocorr.len() > 0 {
                assert(in_range(autocorr[0].0, p.min_bpm, p.max_bpm));
            }
            if fft.len() > 0 && autocorr.len() > 0 {
                lemma_mean_above_zero(fft[0].0, autocorr[0].0);
            }
        }
    }
}

proof fn lemma_readings_above_zero(t: Tables, o: FusionOptions, bpm: F32, i: int)
    requires
        zero() < o.min_bpm,
        0 <= i < readings(t, o, bpm).len(),
    ensures
        zero() < readings(t, o, bpm)[i].0,
{
    let own = scores_at(t, bpm, o.tolerance);
    let double = scores_at(t, bpm * ratio(2, 1), o.tolerance);
    let half = scores_at(t, bpm * ratio(5, 10), o.tolerance);
    let double_score = guarded(
        structurally_discounted(crossed_score(o, own, double), own.s1024, double.s1024),
        own.s256,
        double.s256,
    );
    let half_score = guarded(
        structurally_discounted(crossed_score(o, own, half), own.s1024, half.s1024),
        own.s1024,
        half.s1024,
    );
    let r1 = with_reading(Seq::empty(), bpm, straight_score(o, own), o);
    let r2 = with_reading(r1, bpm * ratio(2, 1), double_score, o);
    let r3 = with_reading(r2, bpm * ratio(5, 10), half_score, o);
    let k = lemma_arranged_from(r3, strengths(r3), true, i);
    assert(o.min_bpm <= r3[k].0);
}

proof fn lemma_hypotheses_above_zero(t: Tables, o: FusionOptions, n: nat)
    requires
        zero() < o.min_bpm,
    ensures
        hypotheses(t, o, n).len() <= n,
        forall|i: int|
            0 <= i < hypotheses(t, o, n).len() ==> zero() < (#[trigger] hypotheses(t, o, n)[i]).0,
    decreases n,
{
    if n > 0 {
        lemma_hypotheses_above_zero(t, o, (n - 1) as nat);
        let bpm = t.t512[n - 1].0;
        if readings(t, o, bpm).len() > 0 {
            lemma_readings_above_zero(t, o, bpm, 0);
        }
    }
}

pub proof fn lemma_distinct_from(s: Seq<(F32, F32)>, n: nat, i: int) -> (k: int)
    requires
        n <= s.len(),
        0 <= i < distinct(s, n).len(),
    ensures
        0 <= k < n,
        distinct(s, n)[i] == s[k],
    decreases n,
{
    let before = distinct(s, (n - 1) as nat);
    if i < before.len() {
        lemma_distinct_from(s, (n - 1) as nat, i)
    } else {
        n - 1
    }
}

proof fn lemma_family_above_zero(
    t: Tables,
    o: FusionOptions,
    novelty: Seq<F32>,
    sample_rate: u32,
    base: F32,
    n: nat,
)
    requires
        zero() < o.min_bpm,
    ensures
        forall|i: int|
            0 <= i < family(t, o, novelty, sample_rate, base, n).len() ==> zero() < (
            #[trigger] family(t, o, novelty, sample_rate, base, n)[i]).bpm,
    decreases n,
{
    if n > 0 {
        lemma_family_above_zero(t, o, novelty, sample_rate, base, (n - 1) as nat);
        let before = family(t, o, novelty, sample_rate, base, (n - 1) as nat);
        let all = family(t, o, novelty, sample_rate, base, n);
        assert forall|i: int| 0 <= i < all.len() implies zero() < (#[trigger] all[i]).bpm by {
            if i < before.len() {
                assert(all[i] == before[i]);
            } else {
                assert(o.min_bpm <= all[i].bpm);
            }
        }
    }
}

pub proof fn lemma_best_of_family(f: Seq<FamilyTempo>, unit: F32, n: nat)
    requires
        n <= f.len(),
        f.len() > 0,
    ensures
        0 <= best_of_family(f, unit, n).0 < f.len(),
    decreases n,
{
    if n > 0 {
        lemma_best_of_family(f, unit, (n - 1) as nat);
    }
}

/// What the tempograms of several resolutions come to is a tempo above zero.
pub proof fn lemma_fused_tempo_above_zero(
    c256: Seq<TempogramCandidateDebug>,
    c512: Seq<TempogramCandidateDebug>,
    c1024: Seq<TempogramCandidateDebug>,
    novelty: Option<Seq<F32>>,
    sample_rate: u32,
    o: FusionOptions,
)
    requires
        c512.len() <= usize::MAX,
        zero() < o.min_bpm,
    ensures
        fusion(c256, c512, c1024, novelty, sample_rate, o) matches Outcome::Value((estimate, _))
            ==> zero() < estimate.bpm,
{
    let t = Tables { t256: table_of(c256), t512: table_of(c512), t1024: table_of(c1024) };
    let all = hypotheses(t, o, t.t512.len());
    let sorted = by_strength(all);
    lemma_zero_and_one();
    lemma_ratio_above_zero(70, 1);
    lemma_hypotheses_above_zero(t, o, t.t512.len());
    if distinct_hypotheses(t, o).len() > 0 {
        let k = lemma_distinct_from(sorted, sorted.len(), 0);
        let m = lemma_arranged_from(all, strengths(all), true, k);
        let first = distinct_hypotheses(t, o)[0];
        assert(zero() < first.0);
        let best = folded_up(t, o.tolerance, folded_down(t, o.tolerance, first));
        assert(zero() < best.0);
        if let Some(n) = novelty {
            let f = family(t, o, n, sample_rate, best.0, 5);
            let unit = greatest_support(f, f.len()).max(ratio(1, 1_000_000));
            lemma_family_above_zero(t, o, n, sample_rate, best.0, 5);
            if f.len() > 0 {
                lemma_best_of_family(f, unit, f.len());
                assert(zero() < f[best_of_family(f, unit, f.len()).0].bpm);
            }
        }
    }
}

} // verus!
