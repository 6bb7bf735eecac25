//! What holds of every onset: it is where something rises or changes, and all methods
//! that heard it are counted.
use super::consensus::all_votes;
use super::consensus::candidate_of;
use super::consensus::candidates_of;
use super::consensus::cluster_start;
use super::consensus::consensus_of;
use super::consensus::ends_cluster;
use super::consensus::has_voted;
use super::consensus::in_order;
use super::consensus::is_first_vote;
use super::consensus::is_ordered;
use super::consensus::lemma_votes_are_ordered;
use super::consensus::sample_sum;
use super::consensus::tolerance_samples;
use super::consensus::vote_confidences;
use super::consensus::weight_sum;
use super::consensus::OnsetConsensus;
use super::consensus::Vote;
use super::energy_flux::energy_onsets;
use super::energy_flux::frame_count;
use super::energy_flux::frame_rms;
use super::energy_flux::rms_curve;
use super::flux_peaks::lemma_onset_frames_are_the_peaks;
use super::flux_peaks::onset_frames;
use super::spectral_flux::frame_distances;
use super::spectral_flux::percentile_onsets;
use super::spectral_flux::squared_distance;
use crate::features::period::novelty::rises;
use crate::features::period::novelty::unit_frame;
use crate::features::period::peak_picking::peak_height;
use crate::float::ratio;
use crate::float::zero;
use crate::float::F32;
use crate::float_laws::in_unit;
use crate::float_laws::lemma_part_of_whole;
use crate::float_laws::lemma_quotient_keeps_order;
use crate::float_laws::lemma_ratio_above_zero;
use crate::float_laws::lemma_sum_grows;
use crate::float_laws::lemma_unit_is_finite;
use crate::float_laws::lemma_zero_and_one;
use crate::float_order::lemma_products_keep_order;
use crate::float_order::lemma_quotient_is_number;
use crate::sorting::empty_sum;
use crate::sorting::lemma_sorted_order_finds;
use crate::sorting::lemma_sorted_order_lists_indices;
use crate::sorting::sum_of;
use crate::statistics::lemma_percentile_is_a_value;
use crate::statistics::percentile_of;
use crate::sums::added;
use crate::sums::lemma_added_push;
use crate::vector::dot_of;
use vstd::prelude::*;

verus! {

// ----------------------------------------------------------------- energy

/// How loud frame `k` of samples is: the root of the mean of its squares.
pub open spec fn loudness(samples: Seq<F32>, frame_size: int, hop_size: int, k: int) -> F32 {
    (added(
        empty_sum(),
        Seq::new(
            frame_size as nat,
            |i: int| samples[k * hop_size + i] * samples[k * hop_size + i],
        ),
    ) / F32::from_usize(frame_size as usize)).sqrt()
}

/// By how much frame `k` is louder than the one before; nothing where it is not.
pub open spec fn rise_of(samples: Seq<F32>, frame_size: int, hop_size: int, k: int) -> F32 {
    (loudness(samples, frame_size, hop_size, k) - loudness(
        samples,
        frame_size,
        hop_size,
        k - 1,
    )).max(zero())
}

proof fn lemma_dot_adds_up(a: Seq<F32>, b: Seq<F32>, n: nat)
    ensures
        dot_of(a, b, n) == added(empty_sum(), Seq::new(n, |i: int| a[i] * b[i])),
    decreases n,
{
    if n > 0 {
        lemma_dot_adds_up(a, b, (n - 1) as nat);
        let before = Seq::new((n - 1) as nat, |i: int| a[i] * b[i]);
        assert(Seq::new(n, |i: int| a[i] * b[i]) =~= before.push(a[n - 1] * b[n - 1]));
        lemma_added_push(empty_sum(), before, a[n - 1] * b[n - 1]);
    } else {
        assert(Seq::new(0, |i: int| a[i] * b[i]) =~= Seq::<F32>::empty());
    }
}

proof fn lemma_loudness(samples: Seq<F32>, frame_size: int, hop_size: int, k: int)
    requires
        0 <= k * hop_size,
        0 < frame_size,
        k * hop_size + frame_size <= samples.len(),
    ensures
        frame_rms(samples, frame_size, hop_size, k) == loudness(samples, frame_size, hop_size, k),
{
    let frame = samples.subrange(k * hop_size, k * hop_size + frame_size);
    lemma_dot_adds_up(frame, frame, frame.len());
    assert(Seq::new(frame.len(), |i: int| frame[i] * frame[i]) =~= Seq::new(
        frame_size as nat,
        |i: int| samples[k * hop_size + i] * samples[k * hop_size + i],
    ));
}

proof fn lemma_frame_fits(len: int, frame_size: int, hop_size: int, k: int)
    requires
        0 < frame_size <= len,
        hop_size > 0,
        0 <= k < frame_count(len, frame_size, hop_size),
    ensures
        0 <= k * hop_size,
        k * hop_size + frame_size <= len,
        k <= len,
{
    let q = (len - frame_size) / hop_size;
    assert(0 <= k * hop_size <= q * hop_size) by (nonlinear_arith)
        requires
            0 <= k <= q,
            hop_size > 0,
    ;
    assert(q * hop_size <= len - frame_size) by (nonlinear_arith)
        requires
            q == (len - frame_size) / hop_size,
            hop_size > 0,
    ;
    assert(k <= k * hop_size) by (nonlinear_arith)
        requires
            0 <= k,
            hop_size >= 1,
    ;
}

proof fn lemma_peak_height(s: Seq<F32>, n: nat, i: int)
    requires
        n <= s.len(),
        forall|k: int| 0 <= k < s.len() ==> !(#[trigger] s[k]).is_nan(),
    ensures
        zero() <= peak_height(s, n),
        0 <= i < n ==> s[i] <= peak_height(s, n),
        peak_height(s, n) == zero() || exists|k: int| 0 <= k < n && #[trigger] s[k] == peak_height(s, n),
    decreases n,
{
    lemma_zero_and_one();
    if n > 0 {
        lemma_peak_height(s, (n - 1) as nat, i);
        let before = peak_height(s, (n - 1) as nat);
        if !(before < s[n - 1]) && before != zero() {
            let k = choose|k: int| 0 <= k < n - 1 && #[trigger] s[k] == before;
            assert(s[k] == before);
        }
    }
}

/// Frame `k` starts an onset of the energy: it is louder than the one before by more than
/// the given part of any rise, by more than that was, and by no less than the next is.
pub open spec fn starts_onset(
    samples: Seq<F32>,
    frame_size: int,
    hop_size: int,
    part: F32,
    k: int,
) -> bool {
    let count = frame_count(samples.len() as int, frame_size, hop_size);
    let rise = |j: int| rise_of(samples, frame_size, hop_size, j);
    &&& count > 2
    &&& forall|j: int| 1 <= j < count ==> #[trigger] rise(j) * part < rise(k)
    &&& exists|j: int| 1 <= j < count && ratio(1, 10_000_000_000) < #[trigger] rise(j)
    &&& k > 1 ==> rise(k - 1) < rise(k)
    &&& k + 1 < count ==> rise(k + 1) <= rise(k)
}

/// The onsets of the energy are the starts of the frames that are louder than the one
/// before, by enough and by more than their neighbours.
pub proof fn lemma_energy_onsets_are_the_rises(
    samples: Seq<F32>,
    frame_size: int,
    hop_size: int,
    part: F32,
    k: int,
)
    requires
        0 < frame_size <= samples.len() <= usize::MAX,
        0 < hop_size,
        1 <= k < frame_count(samples.len() as int, frame_size, hop_size),
        zero() <= part,
        part.is_finite(),
        forall|j: int|
            1 <= j < frame_count(samples.len() as int, frame_size, hop_size) ==> (
            #[trigger] rise_of(samples, frame_size, hop_size, j)).is_finite(),
    ensures
        k * hop_size <= usize::MAX,
        energy_onsets(samples, frame_size, hop_size, part).contains((k * hop_size) as usize)
            <==> starts_onset(samples, frame_size, hop_size, part, k),
{
    let count = frame_count(samples.len() as int, frame_size, hop_size);
    let flux = rises(rms_curve(samples, frame_size, hop_size));
    let max = peak_height(flux, flux.len());
    let rise = |j: int| rise_of(samples, frame_size, hop_size, j);
    lemma_zero_and_one();
    lemma_ratio_above_zero(1, 10_000_000_000);
    lemma_frame_fits(samples.len() as int, frame_size, hop_size, count - 1);
    lemma_frame_fits(samples.len() as int, frame_size, hop_size, k);
    assert forall|j: int| 0 <= j < flux.len() implies (#[trigger] flux[j]) == rise(j + 1)
        && flux[j].is_finite() && zero() <= flux[j] by {
        lemma_frame_fits(samples.len() as int, frame_size, hop_size, j);
        lemma_frame_fits(samples.len() as int, frame_size, hop_size, j + 1);
        lemma_loudness(samples, frame_size, hop_size, j);
        lemma_loudness(samples, frame_size, hop_size, j + 1);
        assert(rise_of(samples, frame_size, hop_size, j + 1).is_finite());
    }
    assert forall|j: int| 1 <= j < count implies #[trigger] rise(j) == flux[j - 1] by {
        assert(flux[j - 1] == rise(j - 1 + 1));
    }
    lemma_peak_height(flux, flux.len(), k - 1);
    let threshold = max * part;
    assert(max.is_finite()) by {
        lemma_unit_is_finite(zero());
    }
    let frames = onset_frames(flux, threshold, flux.len());
    lemma_onset_frames_are_the_peaks(flux, threshold, flux.len(), k as usize);
    // the threshold is a part of the greatest rise
    if flux[k - 1] > threshold {
        assert forall|j: int| 1 <= j < count implies #[trigger] rise(j) * part < rise(k) by {
            lemma_peak_height(flux, flux.len(), j - 1);
            lemma_products_keep_order(flux[j - 1], part, max, part);
        }
    }
    if forall|j: int| 1 <= j < count ==> #[trigger] rise(j) * part < rise(k) {
        if max == zero() {
            lemma_products_keep_order(zero(), part, flux[k - 1], part);
            assert(rise(k) * part < rise(k));
        } else {
            let j = choose|j: int| 0 <= j < flux.len() && #[trigger] flux[j] == max;
            assert(rise(j + 1) * part < rise(k));
        }
        assert(threshold < flux[k - 1]);
    }
    if !(max <= ratio(1, 10_000_000_000)) {
        let j = choose|j: int| 0 <= j < flux.len() && #[trigger] flux[j] == max;
        assert(ratio(1, 10_000_000_000) < rise(j + 1));
    }
    if exists|j: int| 1 <= j < count && ratio(1, 10_000_000_000) < #[trigger] rise(j) {
        let j = choose|j: int| 1 <= j < count && ratio(1, 10_000_000_000) < #[trigger] rise(j);
        lemma_peak_height(flux, flux.len(), j - 1);
    }
    let onsets = energy_onsets(samples, frame_size, hop_size, part);
    if !(max <= ratio(1, 10_000_000_000)) && count >= 2 {
        super::flux_peaks::lemma_onset_frames_increase(flux, threshold, flux.len());
        if frames.contains(k as usize) {
            let m = choose|m: int| 0 <= m < frames.len() && frames[m] == k as usize;
            assert(onsets[m] == (k * hop_size) as usize);
        }
        if onsets.contains((k * hop_size) as usize) {
            let m = choose|m: int| 0 <= m < onsets.len() && onsets[m] == (k * hop_size) as usize;
            let f = frames[m] as int;
            lemma_frame_fits(samples.len() as int, frame_size, hop_size, f);
            assert(f == k) by (nonlinear_arith)
                requires
                    f * hop_size == k * hop_size,
                    hop_size > 0,
            ;
            assert(frames.contains(k as usize));
        }
        if k > 1 {
            assert(rise(k - 1) == flux[k - 2]);
        }
        if k + 1 < count {
            assert(rise(k + 1) == flux[k]);
        }
    }
}

// --------------------------------------------------------------- spectrum

proof fn lemma_unit_frame_in_unit(frame: Seq<F32>, i: int)
    requires
        forall|k: int|
            0 <= k < frame.len() ==> zero() <= (#[trigger] frame[k]) && frame[k].is_finite(),
        0 <= i < frame.len(),
    ensures
        in_unit(unit_frame(frame)[i]),
{
    lemma_zero_and_one();
    lemma_ratio_above_zero(1, 10_000_000_000);
    lemma_unit_is_finite(zero());
    lemma_peak_height(frame, frame.len(), i);
    let max = peak_height(frame, frame.len());
    if max > ratio(1, 10_000_000_000) {
        lemma_part_of_whole(frame[i], max);
    }
}

proof fn lemma_no_distance_to_itself(frame: Seq<F32>, n: nat)
    requires
        n <= frame.len(),
        forall|k: int| 0 <= k < frame.len() ==> (#[trigger] frame[k]).is_finite(),
    ensures
        squared_distance(frame, frame, n).zero_valued(),
    decreases n,
{
    if n > 0 {
        lemma_no_distance_to_itself(frame, (n - 1) as nat);
        let x = frame[n - 1];
        lemma_zero_and_one();
        assert((x - x).zero_valued()) by {
            crate::float_laws::lemma_negated(x);
            reveal(F32::spec_add);
        }
        let d = x - x;
        let p = vstd::arithmetic::power2::pow2(149) as int;
        vstd::arithmetic::power2::lemma_pow2_pos(149);
        crate::rounding::lemma_mag_units_scaled(0, 0);
        crate::rounding::lemma_rounded_exact(0, p);
        assert(0 * p == 0 && 0 * 0 == 0) by (nonlinear_arith);
        assert((d * d).zero_valued()) by {
            reveal(F32::spec_mul);
        }
        reveal(F32::spec_add);
        reveal(F32::units);
    }
}

/// A spectrum that stays the same has no onsets, whatever part of its changes is asked
/// for.
pub proof fn lemma_steady_spectrum_has_no_onsets(frames: Seq<Vec<F32>>, percentile: F32)
    requires
        2 <= frames.len() <= usize::MAX,
        forall|i: int| 0 <= i < frames.len() ==> (#[trigger] frames[i])@ == frames[0]@,
        forall|k: int|
            0 <= k < frames[0]@.len() ==> zero() <= (#[trigger] frames[0]@[k])
                && frames[0]@[k].is_finite(),
    ensures
        percentile_onsets(frame_distances(frames), percentile).len() == 0,
{
    let flux = frame_distances(frames);
    let unit = unit_frame(frames[0]@);
    lemma_zero_and_one();
    assert forall|k: int| 0 <= k < unit.len() implies (#[trigger] unit[k]).is_finite() by {
        lemma_unit_frame_in_unit(frames[0]@, k);
        lemma_unit_is_finite(unit[k]);
    }
    assert forall|i: int| 0 <= i < flux.len() implies (#[trigger] flux[i]).zero_valued() by {
        assert(frames[i]@ == frames[0]@ && frames[i + 1]@ == frames[0]@);
        lemma_no_distance_to_itself(unit, unit.len());
        reveal(crate::float::sqrt_of);
    }
    let t = percentile_of(flux, percentile);
    let k = lemma_percentile_is_a_value(flux, percentile);
    let r = percentile_onsets(flux, percentile);
    if r.len() > 0 {
        assert(r.contains(r[0]));
        lemma_onset_frames_are_the_peaks(flux, t, flux.len(), r[0]);
        let x = flux[r[0] - 1];
        assert(x.zero_valued() && t.zero_valued());
        reveal(F32::units);
        crate::rounding::lemma_mag_units_scaled(0, 0);
    }
}

// -------------------------------------------------------------- consensus

/// Neighbours among the votes from `start` to `end` are within the tolerance.
pub open spec fn is_chain(s: Seq<Vote>, tolerance: int, start: int, end: int) -> bool {
    forall|i: int| start < i <= end ==> (#[trigger] s[i]).sample - s[i - 1].sample <= tolerance
}

proof fn lemma_cluster(s: Seq<Vote>, tolerance: int, i: int)
    requires
        0 <= i < s.len(),
    ensures
        0 <= cluster_start(s, tolerance, i) <= i,
        is_chain(s, tolerance, cluster_start(s, tolerance, i), i),
    decreases i,
{
    if !(i <= 0 || s[i].sample - s[i - 1].sample > tolerance) {
        lemma_cluster(s, tolerance, i - 1);
    }
}

/// The place of the last vote of the cluster of vote `i`.
proof fn lemma_cluster_end(s: Seq<Vote>, tolerance: int, i: int) -> (end: int)
    requires
        0 <= i < s.len(),
    ensures
        i <= end < s.len(),
        ends_cluster(s, tolerance, end),
        cluster_start(s, tolerance, end) == cluster_start(s, tolerance, i),
    decreases s.len() - i,
{
    if ends_cluster(s, tolerance, i) {
        i
    } else {
        lemma_cluster_end(s, tolerance, i + 1)
    }
}

proof fn lemma_candidate_listed(
    s: Seq<Vote>,
    tolerance: int,
    weights: Seq<F32>,
    sample_rate: u32,
    n: nat,
    end: int,
) -> (k: int)
    requires
        0 <= end < n <= s.len(),
        ends_cluster(s, tolerance, end),
    ensures
        0 <= k < candidates_of(s, tolerance, weights, sample_rate, n).len(),
        candidates_of(s, tolerance, weights, sample_rate, n)[k] == candidate_of(
            s.subrange(cluster_start(s, tolerance, end), end + 1),
            weights,
            sample_rate,
        ),
    decreases n,
{
    let before = candidates_of(s, tolerance, weights, sample_rate, (n - 1) as nat);
    if end == n - 1 {
        before.len() as int
    } else {
        lemma_candidate_listed(s, tolerance, weights, sample_rate, (n - 1) as nat, end)
    }
}

proof fn lemma_candidates_at_most(
    s: Seq<Vote>,
    tolerance: int,
    weights: Seq<F32>,
    sample_rate: u32,
    n: nat,
)
    ensures
        candidates_of(s, tolerance, weights, sample_rate, n).len() <= n,
    decreases n,
{
    if n > 0 {
        lemma_candidates_at_most(s, tolerance, weights, sample_rate, (n - 1) as nat);
    }
}

/// Every onset that a method detected is part of a candidate: of that of a group of
/// onsets of which none is further from the next than the tolerance.
pub proof fn lemma_every_onset_has_a_candidate(
    c: OnsetConsensus,
    weights: Seq<F32>,
    tolerance_ms: u32,
    sample_rate: u32,
    i: int,
) -> (r: (int, int, int))
    requires
        all_votes(c).len() <= usize::MAX,
        0 <= i < all_votes(c).len(),
    ensures
        ({
            let found = consensus_of(c, weights, tolerance_ms, sample_rate);
            let votes = in_order(all_votes(c), all_votes(c).len());
            let (k, start, end) = r;
            &&& votes.len() == all_votes(c).len()
            &&& 0 <= start <= i <= end < votes.len()
            &&& is_chain(
                votes,
                tolerance_samples(tolerance_ms, sample_rate) as int,
                start,
                end,
            )
            &&& 0 <= k < found.len()
            &&& found[k] == candidate_of(votes.subrange(start, end + 1), weights, sample_rate)
        }),
{
    let tolerance = tolerance_samples(tolerance_ms, sample_rate) as int;
    let votes = in_order(all_votes(c), all_votes(c).len());
    lemma_votes_are_ordered(all_votes(c), all_votes(c).len());
    let list = candidates_of(votes, tolerance, weights, sample_rate, votes.len());
    let end = lemma_cluster_end(votes, tolerance, i);
    let start = cluster_start(votes, tolerance, end);
    lemma_cluster(votes, tolerance, end);
    lemma_cluster(votes, tolerance, i);
    let m = lemma_candidate_listed(votes, tolerance, weights, sample_rate, votes.len(), end);
    lemma_candidates_at_most(votes, tolerance, weights, sample_rate, votes.len());
    let keys = vote_confidences(list);
    lemma_sorted_order_lists_indices(keys, true, list.len());
    let k = lemma_sorted_order_finds(keys, true, list.len(), m as usize);
    (k, start, end)
}

proof fn lemma_sample_sum_is_fold(s: Seq<Vote>, n: nat)
    requires
        n <= s.len(),
    ensures
        sample_sum(s, n) == s.take(n as int).fold_left(0int, |sum: int, v: Vote| sum + v.sample),
    decreases n,
{
    if n > 0 {
        lemma_sample_sum_is_fold(s, (n - 1) as nat);
        assert(s.take(n as int).drop_last() =~= s.take(n - 1));
    }
}

/// The time of a candidate is the mean of the times of its onsets, rounded down.
pub proof fn lemma_candidate_is_the_mean(s: Seq<Vote>, weights: Seq<F32>, sample_rate: u32)
    requires
        0 < s.len(),
        is_ordered(s),
    ensures
        ({
            let total = s.fold_left(0int, |sum: int, v: Vote| sum + v.sample);
            let time = candidate_of(s, weights, sample_rate).time_samples;
            time * s.len() <= total < (time + 1) * s.len()
        }),
{
    lemma_sample_sum_is_fold(s, s.len());
    assert(s.take(s.len() as int) =~= s);
    let total = sample_sum(s, s.len());
    let n = s.len() as int;
    let high = s.last().sample as int;
    lemma_sum_at_most(s, high, s.len());
    vstd::arithmetic::div_mod::lemma_fundamental_div_mod(total, n);
    let q = total / n;
    assert(0 <= q <= high) by (nonlinear_arith)
        requires
            q == total / n,
            0 <= total <= n * high,
            n > 0,
    ;
    assert(n * q == q * n && (q + 1) * n == q * n + n) by (nonlinear_arith);
}

proof fn lemma_sum_at_most(s: Seq<Vote>, high: int, n: nat)
    requires
        n <= s.len(),
        forall|i: int| 0 <= i < s.len() ==> (#[trigger] s[i]).sample <= high,
    ensures
        0 <= sample_sum(s, n) <= n * high,
    decreases n,
{
    if n > 0 {
        lemma_sum_at_most(s, high, (n - 1) as nat);
        assert((n - 1) * high + high == n * high) by (nonlinear_arith);
    } else {
        assert(0 * high == 0) by (nonlinear_arith);
    }
}

/// A further method that hears an onset makes it surer, not less sure, and is counted.
pub proof fn lemma_another_method_makes_surer(
    s: Seq<Vote>,
    vote: Vote,
    weights: Seq<F32>,
    sample_rate: u32,
)
    requires
        vote.method < 4,
        weights.len() == 4,
        !has_voted(s, vote.method),
        forall|i: int| 0 <= i < 4 ==> zero() <= #[trigger] weights[i],
        zero() <= weight_sum(s, weights, s.len()),
        zero() < sum_of(weights),
        sum_of(weights).is_finite(),
    ensures
        candidate_of(s, weights, sample_rate).confidence <= candidate_of(
            s.push(vote),
            weights,
            sample_rate,
        ).confidence,
        candidate_of(s.push(vote), weights, sample_rate).voted_by == candidate_of(
            s,
            weights,
            sample_rate,
        ).voted_by + 1,
{
    let all = s.push(vote);
    lemma_zero_and_one();
    super::consensus::lemma_weight_of_prefix(s, vote, weights, s.len());
    assert(is_first_vote(all, s.len() as int)) by {
        assert forall|i: int| 0 <= i < s.len() implies (#[trigger] all[i]).method
            != vote.method by {
            assert(s[i].method != vote.method);
        }
    }
    let low = weight_sum(s, weights, s.len());
    let high = weight_sum(all, weights, all.len());
    assert(high == low + weights[vote.method as int]);
    lemma_sum_grows(low, weights[vote.method as int]);
    let total = sum_of(weights);
    lemma_quotient_keeps_order(low, high, total);
    lemma_quotient_is_number(low, total);
    lemma_quotient_is_number(high, total);
    assert forall|m: usize| #[trigger] has_voted(all, m) == (has_voted(s, m) || m == vote.method) by {
        if has_voted(s, m) {
            let k = choose|k: int| 0 <= k < s.len() && (#[trigger] s[k]).method == m;
            assert(all[k].method == m);
        }
        assert(all[s.len() as int].method == vote.method);
        if has_voted(all, m) {
            let k = choose|k: int| 0 <= k < all.len() && (#[trigger] all[k]).method == m;
            if k < s.len() {
                assert(s[k].method == m);
            }
        }
    }
    assert(has_voted(all, 0) == (has_voted(s, 0) || 0 == vote.method));
    assert(has_voted(all, 1) == (has_voted(s, 1) || 1 == vote.method));
    assert(has_voted(all, 2) == (has_voted(s, 2) || 2 == vote.method));
    assert(has_voted(all, 3) == (has_voted(s, 3) || 3 == vote.method));
}

/// Neighbouring votes belong together exactly where they are no further apart than the
/// tolerance.
pub proof fn lemma_votes_within_tolerance_belong_together(s: Seq<Vote>, tolerance: int, i: int)
    requires
        0 < i < s.len(),
    ensures
        ends_cluster(s, tolerance, i - 1) <==> s[i].sample - s[i - 1].sample > tolerance,
        s[i].sample - s[i - 1].sample <= tolerance ==> cluster_start(s, tolerance, i)
            == cluster_start(s, tolerance, i - 1),
        s[i].sample - s[i - 1].sample > tolerance ==> cluster_start(s, tolerance, i) == i,
{
}

} // verus!
