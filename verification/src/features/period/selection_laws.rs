//! What holds of every tempo that tempograms and onsets lead to.
use crate::error::Outcome;
use crate::float::F32;
use crate::float::one;
use crate::float::ratio;
use crate::float::zero;
use crate::float_laws::in_unit;
use crate::float_laws::lemma_mean_between;
use crate::float_laws::lemma_ratio_in_unit;
use crate::float_laws::lemma_ratio_is_finite;
use crate::float_laws::lemma_ratio_order;
use crate::float_laws::lemma_sum_grows;
use crate::float_laws::lemma_unit_is_finite;
use crate::float_laws::lemma_unit_product;
use crate::float_laws::lemma_zero_and_one;
use crate::float_order::lemma_products_keep_order;
use crate::float_order::lemma_sums_keep_order;
use crate::float_order::lemma_times_one;
use crate::float_sizes::within;
use crate::sorting::lemma_arranged_in_order;
use crate::sorting::lemma_sorted_order_lists_indices;
use super::autocorrelation::acf_peaks;
use super::autocorrelation::lag_peaks;
use super::autocorrelation::stands_out;
use super::beat_contrast::best_contrast;
use super::beat_contrast::contrast;
use super::beat_contrast::no_sums;
use super::beat_contrast::with_beats;
use super::candidate_filter::Group;
use super::candidate_filter::Mention;
use super::candidate_filter::alone;
use super::candidate_filter::estimate_of as group_estimate;
use super::candidate_filter::group_for;
use super::candidate_filter::grouped_with;
use super::candidate_filter::joined;
use super::comb_filter::aligned_beats;
use super::comb_filter::distance_to;
use super::comb_filter::is_aligned;
use super::comb_filter::nearest_place;
use super::laws::lemma_candidate_tempos_fit;
use super::laws::lemma_selected_place;
use super::legacy::chosen_estimate;
use super::legacy::estimate_near;
use super::peak_picking::all_peaks;
use super::peak_picking::heights;
use super::peak_picking::highest_first;
use super::peak_picking::inner_peaks;
use super::peak_picking::needed_height;
use super::peak_picking::peak_height;
use super::peak_picking::peaks_of;
use super::peak_picking::spaced;
use super::peak_picking::too_close;
use super::tempo_table::table_confidence;
use super::tempogram::ScoredCandidate;
use super::tempogram::ScoringOptions;
use super::tempogram::TempoSearch;
use super::tempogram::VariantView;
use super::tempogram::all_seeds;
use super::tempogram::candidate_tempos;
use super::tempogram::compared;
use super::tempogram::first_near;
use super::tempogram::ranked;
use super::tempogram::scored;
use super::tempogram::scores;
use super::tempogram::selection;
use super::types::BpmEstimate;
use vstd::prelude::*;

verus! {

// -------------------------------------------------------------- tempogram

/// All else equal, a candidate that has more support by both kinds of tempogram has no
/// smaller score; the autocorrelation counts 0.55 of it and the Fourier transform 0.45.
pub proof fn lemma_more_support_scores_more(
    v: Seq<VariantView>,
    o: ScoringOptions,
    step: F32,
    a: F32,
    b: F32,
)
    requires
        !(o.consensus_bonus > zero()) || !o.bands,
        ratio(60, 1) <= b && b <= ratio(180, 1),
        scored(v, o, step, a).fft_norm <= scored(v, o, step, b).fft_norm,
        scored(v, o, step, a).autocorr_norm <= scored(v, o, step, b).autocorr_norm,
    ensures
        scored(v, o, step, a).score <= scored(v, o, step, b).score,
        scored(v, o, step, b).score == ratio(55, 100) * scored(v, o, step, b).autocorr_norm + ratio(
            45,
            100,
        ) * scored(v, o, step, b).fft_norm,
{
    let x = scored(v, o, step, a);
    let y = scored(v, o, step, b);
    lemma_zero_and_one();
    assert(in_unit(x.fft_norm) && in_unit(y.fft_norm) && in_unit(x.autocorr_norm) && in_unit(
        y.autocorr_norm,
    ));
    lemma_unit_is_finite(y.fft_norm);
    lemma_unit_is_finite(y.autocorr_norm);
    lemma_unit_is_finite(x.fft_norm);
    lemma_unit_is_finite(x.autocorr_norm);
    lemma_ratio_in_unit(55, 100);
    lemma_ratio_in_unit(45, 100);
    lemma_unit_is_finite(ratio(55, 100));
    lemma_unit_is_finite(ratio(45, 100));
    lemma_products_keep_order(ratio(55, 100), x.autocorr_norm, ratio(55, 100), y.autocorr_norm);
    lemma_products_keep_order(ratio(45, 100), x.fft_norm, ratio(45, 100), y.fft_norm);
    let low = ratio(55, 100) * x.autocorr_norm + ratio(45, 100) * x.fft_norm;
    let high = ratio(55, 100) * y.autocorr_norm + ratio(45, 100) * y.fft_norm;
    lemma_sums_keep_order(
        ratio(55, 100) * x.autocorr_norm,
        ratio(45, 100) * x.fft_norm,
        ratio(55, 100) * y.autocorr_norm,
        ratio(45, 100) * y.fft_norm,
    );
    lemma_ratio_in_unit(80, 100);
    lemma_ratio_in_unit(90, 100);
    lemma_unit_product(ratio(55, 100), x.autocorr_norm);
    lemma_unit_product(ratio(45, 100), x.fft_norm);
    crate::float_order::lemma_unit_within(ratio(55, 100) * x.autocorr_norm);
    crate::float_order::lemma_unit_within(ratio(45, 100) * x.fft_norm);
    crate::float_sizes::lemma_sum_within(
        ratio(55, 100) * x.autocorr_norm,
        ratio(45, 100) * x.fft_norm,
        149,
    );
    crate::float_laws::lemma_scaled_down(low, ratio(80, 100));
    crate::float_laws::lemma_scaled_down(low, ratio(90, 100));
}

/// The candidates that are shown stand by their scores, and the tempo is the one of the
/// first, the best; but where that is faster than 180 it may be one near its half.
pub proof fn lemma_best_candidate_is_selected(
    v: Seq<VariantView>,
    o: ScoringOptions,
    p: TempoSearch,
    i: int,
)
    requires
        7 * all_seeds(v).len() <= usize::MAX,
        forall|k: int| 0 <= k < ranked(v, o, p).len() ==> !(#[trigger] ranked(v, o, p)[k]).score.is_nan(),
        0 <= i < ranked(v, o, p).len(),
    ensures
        selection(v, o, p) matches Outcome::Value((estimate, list)) ==> {
            &&& list.len() == ranked(v, o, p).len()
            &&& list[i].score <= list[0].score
            &&& list[i].selected <==> (list[i].bpm - estimate.bpm).abs() < ratio(75, 100)
            &&& !(list[0].bpm > ratio(180, 1)) ==> estimate.bpm == list[0].bpm
            &&& estimate.bpm == list[0].bpm || (estimate.bpm - list[0].bpm / ratio(2, 1)).abs()
                < ratio(75, 100)
        },
{
    let c = ranked(v, o, p);
    let tempos = candidate_tempos(v, p.min_bpm, p.max_bpm);
    let all = Seq::new(tempos.len(), |k: int| scored(v, o, p.step, tempos[k]));
    let keys = scores(all);
    lemma_candidate_tempos_fit(v, p.min_bpm, p.max_bpm);
    lemma_sorted_order_lists_indices(keys, true, all.len());
    assert forall|k: int| 0 <= k < keys.len() implies !(#[trigger] keys[k]).is_nan() by {
        let m = crate::sorting::lemma_sorted_order_finds(keys, true, all.len(), k as usize);
        assert(c[m] == all[k]);
    }
    if i > 0 {
        let (x, y) = lemma_arranged_in_order(all, keys, true, 0, i);
        assert(c[0].score == keys[x] && c[i].score == keys[y]);
    }
    lemma_selected_place(c, p.min_bpm, p.max_bpm);
    lemma_near_half(c, c[0].bpm / ratio(2, 1), 0);
}

proof fn lemma_near_half(c: Seq<ScoredCandidate>, bpm: F32, i: int)
    requires
        0 <= i,
    ensures
        first_near(c, bpm, i) matches Some(p) ==> i <= p < c.len() && (c[p].bpm - bpm).abs() < ratio(
            75,
            100,
        ),
    decreases c.len() - i,
{
    if i < c.len() && !((c[i].bpm - bpm).abs() < ratio(75, 100)) {
        lemma_near_half(c, bpm, i + 1);
    }
}

/// Where the two kinds of tempogram have first tempos within two BPM of one another, the
/// tempo lies between these and both agree on it, as sure as either is; otherwise it is
/// the first tempo of the surer kind, with its confidence.
pub proof fn lemma_surer_method_decides(
    fft: Seq<(F32, F32)>,
    autocorr: Seq<(F32, F32)>,
    together: BpmEstimate,
    low: F32,
    high: F32,
)
    requires
        fft.len() > 0,
        autocorr.len() > 0,
        zero() <= low,
        low <= fft[0].0 && fft[0].0 <= high,
        low <= autocorr[0].0 && autocorr[0].0 <= high,
        (high + high).is_finite(),
        in_unit(table_confidence(fft)),
        in_unit(table_confidence(autocorr)),
    ensures
        ({
            let r = compared(fft, autocorr, together);
            let f = table_confidence(fft);
            let a = table_confidence(autocorr);
            if (fft[0].0 - autocorr[0].0).abs() <= ratio(2, 1) {
                &&& low <= r.bpm && r.bpm <= high
                &&& f <= r.confidence && a <= r.confidence && r.confidence <= one()
                &&& r.method_agreement == 2
            } else if a < f {
                r.bpm == fft[0].0 && r.confidence == f && r.method_agreement == 1
            } else if f < a {
                r.bpm == autocorr[0].0 && r.confidence == a && r.method_agreement == 1
            } else {
                r == together
            }
        }),
{
    let f = table_confidence(fft);
    let a = table_confidence(autocorr);
    lemma_zero_and_one();
    lemma_mean_between(low, high, fft[0].0, autocorr[0].0);
    let x = f.max(a);
    lemma_unit_is_finite(x);
    lemma_ratio_is_finite(12, 10);
    lemma_ratio_order(1, 1, 12, 10);
    lemma_unit_is_finite(one());
    crate::float_order::lemma_whole(1);
    assert(ratio(1, 1).units() == one().units());
    lemma_times_one(x);
    lemma_products_keep_order(x, one(), x, ratio(12, 10));
}

// ------------------------------------------------------------------ peaks

/// A lag is a peak of an autocorrelation: above both neighbours, by enough.
pub open spec fn is_lag_peak(acf: Seq<F32>, prominence: F32, i: int) -> bool {
    &&& acf[i - 1] < acf[i]
    &&& acf[i + 1] < acf[i]
    &&& prominence <= acf[i] - (if acf[i - 1] < acf[i + 1] {
        acf[i + 1]
    } else {
        acf[i - 1]
    })
}

proof fn lemma_lag_peaks_last(acf: Seq<F32>, offset: int, prominence: F32, n: nat)
    requires
        n <= acf.len(),
        0 <= offset,
        offset + acf.len() <= usize::MAX,
    ensures
        ({
            let r = lag_peaks(acf, offset, prominence, n);
            forall|k: int|
                0 <= k < r.len() ==> offset < (#[trigger] r[k]).0 < offset + n && stands_out(
                    acf,
                    prominence,
                    r[k].0 - offset,
                ) && r[k].1 == acf[r[k].0 - offset]
        }),
    decreases n,
{
    if n > 1 {
        lemma_lag_peaks_last(acf, offset, prominence, (n - 1) as nat);
        let rest = lag_peaks(acf, offset, prominence, (n - 1) as nat);
        let r = lag_peaks(acf, offset, prominence, n);
        let lag = (n - 1 + offset) as usize;
        assert(lag - offset == n - 1);
        assert forall|k: int| 0 <= k < r.len() implies offset < (#[trigger] r[k]).0 < offset + n
            && stands_out(acf, prominence, r[k].0 - offset) && r[k].1 == acf[r[k].0 - offset] by {
            assert(r[k] == (lag, acf[n - 1]) || (k < rest.len() && r[k] == rest[k]));
        }
    }
}

/// The peaks of an autocorrelation are exactly the lags above both their neighbours by
/// enough, each with its value.
pub proof fn lemma_lag_peaks_are_the_peaks(
    acf: Seq<F32>,
    offset: int,
    prominence: F32,
    n: nat,
    i: int,
)
    requires
        n <= acf.len() - 1,
        0 <= offset,
        offset + acf.len() <= usize::MAX,
        1 <= i < n,
        forall|k: int| 0 <= k < acf.len() ==> !(#[trigger] acf[k]).is_nan(),
    ensures
        (exists|k: int|
            0 <= k < lag_peaks(acf, offset, prominence, n).len() && (#[trigger] lag_peaks(
                acf,
                offset,
                prominence,
                n,
            )[k]) == ((i + offset) as usize, acf[i])) <==> is_lag_peak(acf, prominence, i),
    decreases n,
{
    let all = lag_peaks(acf, offset, prominence, n);
    let before = lag_peaks(acf, offset, prominence, (n - 1) as nat);
    lemma_lag_peaks_last(acf, offset, prominence, n);
    lemma_lag_peaks_last(acf, offset, prominence, (n - 1) as nat);
    assert(stands_out(acf, prominence, i) == is_lag_peak(acf, prominence, i));
    // neighbours are never both peaks, so none takes the place of another
    if stands_out(acf, prominence, n - 1) && before.len() > 0 {
        let m = before.last().0 - offset;
        assert(stands_out(acf, prominence, m));
        assert(m != n - 2);
        assert(all == before.push(((n - 1 + offset) as usize, acf[n - 1])));
    }
    if i < n - 1 {
        lemma_lag_peaks_are_the_peaks(acf, offset, prominence, (n - 1) as nat, i);
        if is_lag_peak(acf, prominence, i) {
            let k = choose|k: int|
                0 <= k < before.len() && (#[trigger] before[k]) == (
                    (i + offset) as usize,
                    acf[i],
                );
            assert(all[k] == before[k]);
        }
    } else if is_lag_peak(acf, prominence, i) {
        assert(all[before.len() as int] == ((i + offset) as usize, acf[i]));
    }
    if exists|k: int|
        0 <= k < all.len() && (#[trigger] all[k]) == ((i + offset) as usize, acf[i]) {
        let k = choose|k: int|
            0 <= k < all.len() && (#[trigger] all[k]) == ((i + offset) as usize, acf[i]);
        assert(stands_out(acf, prominence, all[k].0 - offset));
    }
}

proof fn lemma_inner_peaks(signal: Seq<F32>, height: F32, n: nat, k: int)
    requires
        n <= signal.len() <= usize::MAX,
        0 <= k < inner_peaks(signal, height, n).len(),
    ensures
        ({
            let (i, x) = inner_peaks(signal, height, n)[k];
            1 <= i < n && x == signal[i as int] && super::peak_picking::is_peak(
                signal,
                height,
                i as int,
            )
        }),
    decreases n,
{
    if n > 1 {
        if k < inner_peaks(signal, height, (n - 1) as nat).len() {
            lemma_inner_peaks(signal, height, (n - 1) as nat, k);
        }
    }
}

/// Every peak of a signal is one of its values, above its neighbours and high enough.
pub proof fn lemma_peaks_are_above_their_neighbours(signal: Seq<F32>, height: F32, k: int)
    requires
        3 <= signal.len() <= usize::MAX,
        0 <= k < all_peaks(signal, height).len(),
    ensures
        ({
            let (i, x) = all_peaks(signal, height)[k];
            &&& i < signal.len()
            &&& x == signal[i as int]
            &&& i > 0 ==> signal[i - 1] < x
            &&& i + 1 < signal.len() ==> signal[i + 1] < x
            &&& height <= x
        }),
{
    let inner = inner_peaks(signal, height, (signal.len() - 1) as nat);
    if k < inner.len() {
        lemma_inner_peaks(signal, height, (signal.len() - 1) as nat, k);
    }
}

/// A peak among the first `n`, or one before it that is too close to it, is kept.
proof fn lemma_kept_or_close(peaks: Seq<(usize, F32)>, distance: int, n: nat, i: int) -> (r: (
    int,
    int,
))
    requires
        0 <= i < n <= peaks.len(),
        0 < distance,
    ensures
        0 <= r.0 < spaced(peaks, distance, n).len(),
        0 <= r.1 <= i,
        spaced(peaks, distance, n)[r.0] == peaks[r.1],
        -distance < peaks[i].0 - peaks[r.1].0 < distance,
    decreases n,
{
    let kept = spaced(peaks, distance, (n - 1) as nat);
    if i < n - 1 {
        let r = lemma_kept_or_close(peaks, distance, (n - 1) as nat, i);
        assert(spaced(peaks, distance, n)[r.0] == kept[r.0]);
        r
    } else if exists|k: int|
        0 <= k < kept.len() && too_close(peaks[n - 1].0, (#[trigger] kept[k]).0, distance) {
        let k = choose|k: int|
            0 <= k < kept.len() && too_close(peaks[n - 1].0, (#[trigger] kept[k]).0, distance);
        let m = lemma_kept_from(peaks, distance, (n - 1) as nat, k);
        (k, m)
    } else {
        (kept.len() as int, n - 1)
    }
}

proof fn lemma_kept_from(peaks: Seq<(usize, F32)>, distance: int, n: nat, k: int) -> (m: int)
    requires
        n <= peaks.len(),
        0 <= k < spaced(peaks, distance, n).len(),
    ensures
        0 <= m < n,
        spaced(peaks, distance, n)[k] == peaks[m],
    decreases n,
{
    let kept = spaced(peaks, distance, (n - 1) as nat);
    if k < kept.len() {
        lemma_kept_from(peaks, distance, (n - 1) as nat, k)
    } else {
        n - 1
    }
}

proof fn lemma_every_inner_peak(signal: Seq<F32>, height: F32, n: nat, i: int) -> (k: int)
    requires
        1 <= i < n <= signal.len() <= usize::MAX,
        super::peak_picking::is_peak(signal, height, i),
    ensures
        0 <= k < inner_peaks(signal, height, n).len(),
        inner_peaks(signal, height, n)[k] == (i as usize, signal[i]),
    decreases n,
{
    if i < n - 1 {
        lemma_every_inner_peak(signal, height, (n - 1) as nat, i)
    } else {
        inner_peaks(signal, height, (n - 1) as nat).len() as int
    }
}

/// A value above its neighbours that is as high as the threshold asks, as a part of the
/// highest value, is found as a peak, unless one that is no lower is too close to it.
pub proof fn lemma_every_peak_is_found(
    signal: Seq<F32>,
    threshold: F32,
    min_distance: int,
    i: int,
) -> (k: int)
    requires
        3 <= signal.len() <= usize::MAX,
        0 <= i < signal.len(),
        !(peak_height(signal, signal.len()) < ratio(1, 10_000_000_000)),
        i > 0 ==> signal[i - 1] < signal[i],
        i + 1 < signal.len() ==> signal[i + 1] < signal[i],
        needed_height(signal, threshold) <= signal[i],
    ensures
        0 <= k < peaks_of(signal, threshold, min_distance).len(),
        ({
            let (j, x) = peaks_of(signal, threshold, min_distance)[k];
            (j == i && x == signal[i]) || (-min_distance < i - j < min_distance && signal[i] <= x)
        }),
{
    let height = needed_height(signal, threshold);
    let all = all_peaks(signal, height);
    let last = signal.len() - 1;
    assert(super::peak_picking::is_peak(signal, height, i));
    let inner = inner_peaks(signal, height, last as nat);
    let a: int = if i == 0 {
        inner.len() as int
    } else if i == last {
        all.len() - 1
    } else {
        lemma_every_inner_peak(signal, height, last as nat, i)
    };
    assert(all[a] == (i as usize, signal[i]));
    lemma_few_peaks(signal, height);
    let keys = heights(all);
    assert forall|m: int| 0 <= m < keys.len() implies !(#[trigger] keys[m]).is_nan() by {
        lemma_peaks_are_above_their_neighbours(signal, height, m);
    }
    let sorted = highest_first(all);
    lemma_sorted_order_lists_indices(keys, true, all.len());
    let place = crate::sorting::lemma_sorted_order_finds(keys, true, all.len(), a as usize);
    assert(sorted[place] == all[a]);
    if min_distance > 0 && all.len() > 1 {
        let kept = spaced(sorted, min_distance, sorted.len());
        let (p, m) = lemma_kept_or_close(sorted, min_distance, sorted.len(), place);
        if m < place {
            let (x, y) = lemma_arranged_in_order(all, keys, true, m, place);
            assert(sorted[m].1 == keys[x] && sorted[place].1 == keys[y]);
        }
        lemma_fewer_kept(sorted, min_distance, sorted.len());
        lemma_sorted_order_lists_indices(heights(kept), true, kept.len());
        let k = crate::sorting::lemma_sorted_order_finds(heights(kept), true, kept.len(), p as usize);
        assert(highest_first(kept)[k] == kept[p]);
        k
    } else {
        place
    }
}

proof fn lemma_fewer_kept(peaks: Seq<(usize, F32)>, distance: int, n: nat)
    ensures
        spaced(peaks, distance, n).len() <= n,
    decreases n,
{
    if n > 0 {
        lemma_fewer_kept(peaks, distance, (n - 1) as nat);
    }
}

proof fn lemma_fewer_inner(signal: Seq<F32>, height: F32, n: nat)
    requires
        n >= 1,
    ensures
        inner_peaks(signal, height, n).len() <= n - 1,
    decreases n,
{
    if n > 1 {
        lemma_fewer_inner(signal, height, (n - 1) as nat);
    }
}

proof fn lemma_few_peaks(signal: Seq<F32>, height: F32)
    requires
        3 <= signal.len() <= usize::MAX,
    ensures
        all_peaks(signal, height).len() <= signal.len(),
{
    lemma_fewer_inner(signal, height, (signal.len() - 1) as nat);
}

/// A threshold below one is a part of the highest value, which is then high enough
/// whatever its scale; one from one on asks for that height itself.
pub proof fn lemma_threshold_is_relative(signal: Seq<F32>, threshold: F32, i: int)
    requires
        0 <= i < signal.len(),
        forall|k: int| 0 <= k < signal.len() ==> zero() <= #[trigger] signal[k],
        forall|k: int| 0 <= k < signal.len() ==> (#[trigger] signal[k]).is_finite(),
        forall|k: int| 0 <= k < signal.len() ==> (#[trigger] signal[k]) <= signal[i],
        zero() < signal[i],
        zero() < threshold,
    ensures
        threshold < one() ==> zero() <= needed_height(signal, threshold) && needed_height(
            signal,
            threshold,
        ) <= signal[i],
        one() <= threshold ==> needed_height(signal, threshold) == threshold,
{
    let max = peak_height(signal, signal.len());
    lemma_zero_and_one();
    lemma_highest_value(signal, signal.len(), i);
    lemma_height_is_number(signal, signal.len());
    if max != zero() {
        let k = choose|k: int| 0 <= k < signal.len() && #[trigger] signal[k] == max;
        assert(signal[k] <= signal[i]);
    }
    if threshold < one() {
        crate::float_laws::lemma_scaled_down(max, threshold);
    }
}

/// The greatest value is one that no value is above.
pub proof fn lemma_highest_value(signal: Seq<F32>, n: nat, i: int)
    requires
        0 <= i < n <= signal.len(),
        forall|k: int| 0 <= k < signal.len() ==> zero() <= #[trigger] signal[k],
    ensures
        signal[i] <= peak_height(signal, n),
        peak_height(signal, n) == zero() || exists|k: int|
            0 <= k < n && #[trigger] signal[k] == peak_height(signal, n),
    decreases n,
{
    lemma_zero_and_one();
    lemma_height_is_number(signal, (n - 1) as nat);
    assert(zero() <= signal[n - 1]);
    if i < n - 1 {
        lemma_highest_value(signal, (n - 1) as nat, i);
    } else if n > 1 {
        lemma_highest_value(signal, (n - 1) as nat, n - 2);
    }
}

proof fn lemma_height_is_number(signal: Seq<F32>, n: nat)
    requires
        n <= signal.len(),
        forall|k: int| 0 <= k < signal.len() ==> zero() <= #[trigger] signal[k],
    ensures
        zero() <= peak_height(signal, n),
    decreases n,
{
    lemma_zero_and_one();
    if n > 0 {
        lemma_height_is_number(signal, (n - 1) as nat);
        assert(zero() <= signal[n - 1]);
    }
}

// ------------------------------------------------------------ comb filter

/// A beat that counts has an onset within the tolerance; where all beats have one right
/// on them they all count, and no more beats count than there are.
pub proof fn lemma_counted_beats_have_onsets(
    onsets: Seq<usize>,
    period: F32,
    tolerance: F32,
    n: nat,
)
    requires
        onsets.len() > 0,
    ensures
        aligned_beats(onsets, period, tolerance, n) <= n,
        aligned_beats(onsets, period, tolerance, n) == n <==> forall|i: int|
            0 <= i < n ==> #[trigger] is_aligned(onsets, period, tolerance, i),
        aligned_beats(onsets, period, tolerance, n) == 0 <==> forall|i: int|
            0 <= i < n ==> !#[trigger] is_aligned(onsets, period, tolerance, i),
        forall|i: int|
            0 <= i < n && #[trigger] is_aligned(onsets, period, tolerance, i) ==> exists|k: int|
                0 <= k < onsets.len() && (F32::from_usize(#[trigger] onsets[k]) - F32::from_usize(
                    i as usize,
                ) * period).abs() <= tolerance,
    decreases n,
{
    assert forall|i: int|
        0 <= i < n && #[trigger] is_aligned(onsets, period, tolerance, i) implies exists|k: int|
        0 <= k < onsets.len() && (F32::from_usize(#[trigger] onsets[k]) - F32::from_usize(
            i as usize,
        ) * period).abs() <= tolerance by {
        let expected = F32::from_usize(i as usize) * period;
        lemma_nearest_place(onsets, expected, onsets.len());
        let k = nearest_place(onsets, expected, onsets.len());
        assert((F32::from_usize(onsets[k]) - expected).abs() <= tolerance);
    }
    if n > 0 {
        lemma_counted_beats_have_onsets(onsets, period, tolerance, (n - 1) as nat);
        if is_aligned(onsets, period, tolerance, n - 1) {
            assert(is_aligned(onsets, period, tolerance, (n - 1) as int));
        }
    }
}

proof fn lemma_nearest_place(onsets: Seq<usize>, expected: F32, n: nat)
    requires
        1 <= n <= onsets.len(),
    ensures
        0 <= nearest_place(onsets, expected, n) < n,
        forall|i: int|
            0 <= i < n ==> distance_to(
                onsets[nearest_place(onsets, expected, n)],
                expected,
            ).to_usize() <= distance_to(#[trigger] onsets[i], expected).to_usize(),
    decreases n,
{
    if n > 1 {
        lemma_nearest_place(onsets, expected, (n - 1) as nat);
    }
}

// ---------------------------------------------------------- combined tempo

/// The tempo that is chosen is one of those that were found: the first that is within two
/// BPM of the preferred one, and the first of all where none is.
pub proof fn lemma_chosen_estimate(e: Seq<BpmEstimate>, preferred: F32) -> (k: int)
    requires
        e.len() > 0,
    ensures
        0 <= k < e.len(),
        chosen_estimate(e, Some(preferred)) == Some(e[k]),
        (e[k].bpm - preferred).abs() < ratio(2, 1) || (k == 0 && forall|i: int|
            0 <= i < e.len() ==> !(((#[trigger] e[i]).bpm - preferred).abs() < ratio(2, 1))),
        forall|i: int|
            0 <= i < k ==> !(((#[trigger] e[i]).bpm - preferred).abs() < ratio(2, 1)),
        chosen_estimate(e, None) == Some(e[0]),
{
    lemma_estimate_near(e, preferred, 0);
    let near = estimate_near(e, preferred, 0);
    if near < e.len() {
        near
    } else {
        0
    }
}

proof fn lemma_estimate_near(e: Seq<BpmEstimate>, bpm: F32, i: int)
    requires
        0 <= i <= e.len(),
    ensures
        i <= estimate_near(e, bpm, i) <= e.len(),
        estimate_near(e, bpm, i) < e.len() ==> (e[estimate_near(e, bpm, i)].bpm - bpm).abs()
            < ratio(2, 1),
        forall|k: int|
            i <= k < estimate_near(e, bpm, i) ==> !(((#[trigger] e[k]).bpm - bpm).abs() < ratio(2, 1)),
    decreases e.len() - i,
{
    if i < e.len() && !((e[i].bpm - bpm).abs() < ratio(2, 1)) {
        lemma_estimate_near(e, bpm, i + 1);
    }
}

/// A further candidate makes a group surer, not less sure, and is counted; the most so
/// where it is the first of its method.
pub proof fn lemma_further_candidate_makes_surer(g: Group, c: Mention, of_comb: bool)
    requires
        zero() <= g.total,
        zero() <= c.confidence,
        within(g.total, 169),
        within(c.confidence, 169),
        g.size < u32::MAX,
        g.autocorr < 0x1000_0000,
        g.comb < 0x1000_0000,
    ensures
        group_estimate(g).confidence <= group_estimate(joined(g, c, of_comb)).confidence,
        group_estimate(joined(g, c, of_comb)).confidence <= one(),
        group_estimate(g).method_agreement <= group_estimate(joined(g, c, of_comb)).method_agreement,
        of_comb && !c.moved ==> group_estimate(joined(g, c, of_comb)).method_agreement
            == group_estimate(g).method_agreement + 1,
        joined(g, c, of_comb).size == g.size + 1,
        group_estimate(alone(c, of_comb)).bpm == c.bpm,
{
    let h = joined(g, c, of_comb);
    lemma_zero_and_one();
    lemma_sum_grows(g.total, c.confidence);
    crate::float_sizes::lemma_sum_within(g.total, c.confidence, 169);
    lemma_ratio_is_finite(12, 10);
    lemma_ratio_order(1, 1, 12, 10);
    crate::float_order::lemma_whole(1);
    assert(ratio(1, 1).units() == one().units());
    lemma_times_one(g.total);
    lemma_times_one(h.total);
    lemma_products_keep_order(g.total, one(), g.total, ratio(12, 10));
    lemma_products_keep_order(g.total, ratio(12, 10), h.total, ratio(12, 10));
}

// ---------------------------------------------------------- beat contrast

/// The contrast of a tempo is the best that any first beat gives: none gives a better one,
/// and one gives it.
pub proof fn lemma_best_first_beat(novelty: Seq<F32>, period: int, level: F32, n: nat, i: int)
    requires
        0 <= i < n,
        forall|k: int|
            0 <= k < n ==> !contrast(
                #[trigger] with_beats(no_sums(), novelty, period, k),
                level,
            ).is_nan(),
    ensures
        contrast(with_beats(no_sums(), novelty, period, i), level) <= best_contrast(
            novelty,
            period,
            level,
            n,
        ),
    decreases n,
{
    lemma_zero_and_one();
    crate::float_order::lemma_whole(1);
    lemma_ratio_is_finite(1_000_000_000, 1);
    crate::float_laws::lemma_negated(ratio(1_000_000_000, 1));
    lemma_best_is_number(novelty, period, level, (n - 1) as nat);
    if i < n - 1 {
        lemma_best_first_beat(novelty, period, level, (n - 1) as nat, i);
    }
    let last = with_beats(no_sums(), novelty, period, n - 1);
    assert(!contrast(last, level).is_nan());
}

proof fn lemma_best_is_number(novelty: Seq<F32>, period: int, level: F32, n: nat)
    requires
        forall|k: int|
            0 <= k < n ==> !contrast(
                #[trigger] with_beats(no_sums(), novelty, period, k),
                level,
            ).is_nan(),
    ensures
        !best_contrast(novelty, period, level, n).is_nan(),
    decreases n,
{
    if n > 0 {
        lemma_best_is_number(novelty, period, level, (n - 1) as nat);
        assert(!contrast(with_beats(no_sums(), novelty, period, n - 1), level).is_nan());
    } else {
        lemma_ratio_is_finite(1_000_000_000, 1);
        crate::float_laws::lemma_negated(ratio(1_000_000_000, 1));
    }
}

/// The lags that an autocorrelation is read at are those that stand above both their
/// neighbours by a tenth of the greatest value, each with its value.
pub proof fn lemma_acf_peaks_are_the_peaks(acf: Seq<F32>, offset: int, i: int)
    requires
        3 <= acf.len(),
        0 <= offset,
        offset + acf.len() <= usize::MAX,
        1 <= i < acf.len() - 1,
        forall|k: int| 0 <= k < acf.len() ==> !(#[trigger] acf[k]).is_nan(),
        !(peak_height(acf, acf.len()) < ratio(1, 10_000_000_000)),
    ensures
        acf_peaks(acf, offset).contains(((i + offset) as usize, acf[i])) <==> is_lag_peak(
            acf,
            peak_height(acf, acf.len()) * ratio(1, 10),
            i,
        ),
{
    let least = peak_height(acf, acf.len()) * ratio(1, 10);
    let n = (acf.len() - 1) as nat;
    let peaks = lag_peaks(acf, offset, least, n);
    let keys = heights(peaks);
    let found = acf_peaks(acf, offset);
    let x = ((i + offset) as usize, acf[i]);
    lemma_lag_peaks_are_the_peaks(acf, offset, least, n, i);
    lemma_few_lag_peaks(acf, offset, least, n);
    lemma_sorted_order_lists_indices(keys, true, peaks.len());
    let order = crate::sorting::sorted_order(keys, true, peaks.len());
    assert(found == crate::sorting::arranged(peaks, order));
    if found.contains(x) {
        let k = choose|k: int| 0 <= k < found.len() && found[k] == x;
        assert(peaks[order[k] as int] == x);
    }
    if is_lag_peak(acf, least, i) {
        let k = choose|k: int| 0 <= k < peaks.len() && (#[trigger] peaks[k]) == x;
        let m = crate::sorting::lemma_sorted_order_finds(keys, true, peaks.len(), k as usize);
        assert(found[m] == x);
    }
}

proof fn lemma_few_lag_peaks(acf: Seq<F32>, offset: int, prominence: F32, n: nat)
    ensures
        lag_peaks(acf, offset, prominence, n).len() <= n,
    decreases n,
{
    if n > 1 {
        lemma_few_lag_peaks(acf, offset, prominence, (n - 1) as nat);
    }
}

proof fn lemma_group_for(groups: Seq<Group>, bpm: F32, i: int)
    requires
        0 <= i <= groups.len(),
    ensures
        i <= group_for(groups, bpm, i) <= groups.len(),
        group_for(groups, bpm, i) < groups.len() ==> (bpm - groups[group_for(
            groups,
            bpm,
            i,
        )].bpm).abs() <= ratio(2, 1),
        forall|k: int|
            i <= k < group_for(groups, bpm, i) ==> !((bpm - (#[trigger] groups[k]).bpm).abs()
                <= ratio(2, 1)),
    decreases groups.len() - i,
{
    if i < groups.len() && !((bpm - groups[i].bpm).abs() <= ratio(2, 1)) {
        lemma_group_for(groups, bpm, i + 1);
    }
}

/// A candidate joins the first group whose tempo is within two BPM of its own, and stands
/// alone behind all groups where there is none; no other group changes.
pub proof fn lemma_candidate_joins_a_close_group(groups: Seq<Group>, c: Mention, of_comb: bool) -> (k: int)
    ensures
        0 <= k <= groups.len(),
        forall|i: int|
            0 <= i < k ==> !((c.bpm - (#[trigger] groups[i]).bpm).abs() <= ratio(2, 1)),
        k < groups.len() ==> (c.bpm - groups[k].bpm).abs() <= ratio(2, 1) && grouped_with(
            groups,
            c,
            of_comb,
        ) == groups.update(k, joined(groups[k], c, of_comb)),
        k == groups.len() ==> grouped_with(groups, c, of_comb) == groups.push(alone(c, of_comb)),
{
    lemma_group_for(groups, c.bpm, 0);
    group_for(groups, c.bpm, 0)
}

} // verus!
