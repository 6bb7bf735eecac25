//! Peaks of a signal.
use crate::float::one;
use crate::float::ratio;
use crate::float::zero;
use crate::float::F32;
use crate::sorting::arrange;
use crate::sorting::arranged;
use crate::sorting::lists_indices;
use crate::sorting::sort_order;
use crate::sorting::sorted_order;
use vstd::prelude::*;

verus! {

/// The greatest of zero and the first `n` values.
pub open spec fn peak_height(signal: Seq<F32>, n: nat) -> F32
    decreases n,
{
    if n == 0 {
        zero()
    } else {
        peak_height(signal, (n - 1) as nat).max(signal[n - 1])
    }
}

/// The greatest of zero and the values.
pub fn find_height(signal: &[F32]) -> (r: F32)
    ensures
        r == peak_height(signal@, signal@.len()),
{
    let mut acc = zero();
    let mut n: usize = 0;
    while n < signal.len()
        invariant
            n <= signal.len(),
            acc == peak_height(signal@, n as nat),
        decreases signal.len() - n,
    {
        acc = acc.max(signal[n]);
        n = n + 1;
    }
    acc
}

/// The height that a peak must have: a threshold between zero and one is a part
/// of the greatest value, another one is a height itself.
pub open spec fn needed_height(signal: Seq<F32>, threshold: F32) -> F32 {
    let max = peak_height(signal, signal.len());
    if threshold > zero() && threshold < one() && max > zero() {
        max * threshold
    } else {
        threshold
    }
}

/// The value at `i` is above its neighbours (at an end of the signal, above the
/// one that it has) and high enough.
pub open spec fn is_peak(signal: Seq<F32>, height: F32, i: int) -> bool {
    &&& i > 0 ==> signal[i] > signal[i - 1]
    &&& i < signal.len() - 1 ==> signal[i] > signal[i + 1]
    &&& signal[i] >= height
}

/// The peaks from place 1 up to place `n - 1`, in order.
pub open spec fn inner_peaks(signal: Seq<F32>, height: F32, n: nat) -> Seq<(usize, F32)>
    decreases n,
{
    if n <= 1 {
        Seq::empty()
    } else {
        let rest = inner_peaks(signal, height, (n - 1) as nat);
        if is_peak(signal, height, n - 1) {
            rest.push(((n - 1) as usize, signal[n - 1]))
        } else {
            rest
        }
    }
}

/// All peaks: the inner ones in order, then the first place, then the last.
pub open spec fn all_peaks(signal: Seq<F32>, height: F32) -> Seq<(usize, F32)> {
    let last = signal.len() - 1;
    let inner = inner_peaks(signal, height, (signal.len() - 1) as nat);
    let with_first = if is_peak(signal, height, 0) {
        inner.push((0usize, signal[0]))
    } else {
        inner
    };
    if is_peak(signal, height, last) {
        with_first.push((last as usize, signal[last]))
    } else {
        with_first
    }
}

/// The heights of peaks.
pub open spec fn heights(peaks: Seq<(usize, F32)>) -> Seq<F32> {
    Seq::new(peaks.len(), |i: int| peaks[i].1)
}

/// The peaks, highest first; peaks that tie keep their order.
pub open spec fn highest_first(peaks: Seq<(usize, F32)>) -> Seq<(usize, F32)> {
    arranged(peaks, sorted_order(heights(peaks), true, peaks.len()))
}

/// Two places are less than `distance` apart.
pub open spec fn too_close(a: usize, b: usize, distance: int) -> bool {
    -distance < a - b < distance
}

/// The first `n` peaks, without those too close to one that is kept before them.
pub open spec fn spaced(peaks: Seq<(usize, F32)>, distance: int, n: nat) -> Seq<(usize, F32)>
    decreases n,
{
    if n == 0 {
        Seq::empty()
    } else {
        let kept = spaced(peaks, distance, (n - 1) as nat);
        if exists|k: int| 0 <= k < kept.len() && too_close(peaks[n - 1].0, (#[trigger] kept[k]).0, distance) {
            kept
        } else {
            kept.push(peaks[n - 1])
        }
    }
}

/// The peaks of a signal, highest first.
pub open spec fn peaks_of(signal: Seq<F32>, threshold: F32, min_distance: int) -> Seq<(usize, F32)> {
    let peaks = all_peaks(signal, needed_height(signal, threshold));
    let sorted = highest_first(peaks);
    if signal.len() < 3 || peak_height(signal, signal.len()) < ratio(1, 10_000_000_000) {
        Seq::empty()
    } else if min_distance > 0 && peaks.len() > 1 {
        highest_first(spaced(sorted, min_distance, sorted.len()))
    } else {
        sorted
    }
}

/// No two of the peaks are too close to one another.
pub open spec fn all_spaced(peaks: Seq<(usize, F32)>, distance: int) -> bool {
    forall|i: int, j: int|
        0 <= i < peaks.len() && 0 <= j < peaks.len() && i != j ==> !too_close(
            (#[trigger] peaks[i]).0,
            (#[trigger] peaks[j]).0,
            distance,
        )
}

/// What is kept by distance is at that distance.
pub proof fn lemma_spaced_keeps_distance(peaks: Seq<(usize, F32)>, distance: int, n: nat)
    requires
        n <= peaks.len(),
    ensures
        all_spaced(spaced(peaks, distance, n), distance),
    decreases n,
{
    if n > 0 {
        lemma_spaced_keeps_distance(peaks, distance, (n - 1) as nat);
    }
}

proof fn lemma_arranged_keeps_distance(peaks: Seq<(usize, F32)>, order: Seq<usize>, distance: int)
    requires
        all_spaced(peaks, distance),
        lists_indices(order, peaks.len()),
    ensures
        all_spaced(arranged(peaks, order), distance),
{
    let r = arranged(peaks, order);
    assert forall|i: int, j: int|
        0 <= i < r.len() && 0 <= j < r.len() && i != j implies !too_close(
        (#[trigger] r[i]).0,
        (#[trigger] r[j]).0,
        distance,
    ) by {
        assert(r[i] == peaks[order[i] as int]);
        assert(r[j] == peaks[order[j] as int]);
        assert(order[i] != order[j]);
    }
}

/// Peaks that are found with a minimum distance keep it.
pub proof fn lemma_peaks_keep_distance(signal: Seq<F32>, threshold: F32, min_distance: int)
    requires
        min_distance > 0,
        signal.len() <= usize::MAX,
    ensures
        all_spaced(peaks_of(signal, threshold, min_distance), min_distance),
{
    let peaks = all_peaks(signal, needed_height(signal, threshold));
    let sorted = highest_first(peaks);
    lemma_spaced_keeps_distance(sorted, min_distance, sorted.len());
    let kept = spaced(sorted, min_distance, sorted.len());
    lemma_spaced_len(sorted, min_distance, sorted.len());
    if signal.len() >= 3 {
        lemma_all_peaks_len(signal, needed_height(signal, threshold));
        crate::sorting::lemma_sorted_order_lists_indices(heights(peaks), true, peaks.len());
        crate::sorting::lemma_sorted_order_lists_indices(heights(kept), true, kept.len());
        lemma_arranged_keeps_distance(kept, sorted_order(heights(kept), true, kept.len()), min_distance);
    }
}

proof fn lemma_spaced_len(peaks: Seq<(usize, F32)>, distance: int, n: nat)
    ensures
        spaced(peaks, distance, n).len() <= n,
    decreases n,
{
    if n > 0 {
        lemma_spaced_len(peaks, distance, (n - 1) as nat);
    }
}

proof fn lemma_inner_peaks_len(signal: Seq<F32>, height: F32, n: nat)
    ensures
        n >= 1 ==> inner_peaks(signal, height, n).len() <= n - 1,
        n == 0 ==> inner_peaks(signal, height, n).len() == 0,
    decreases n,
{
    if n > 1 {
        lemma_inner_peaks_len(signal, height, (n - 1) as nat);
    }
}

proof fn lemma_all_peaks_len(signal: Seq<F32>, height: F32)
    requires
        signal.len() >= 3,
    ensures
        all_peaks(signal, height).len() <= signal.len(),
{
    lemma_inner_peaks_len(signal, height, (signal.len() - 1) as nat);
}

fn sort_peaks(peaks: &[(usize, F32)]) -> (r: Vec<(usize, F32)>)
    ensures
        r@ == highest_first(peaks@),
        r@.len() == peaks@.len(),
{
    let mut keys: Vec<F32> = Vec::new();
    let mut i: usize = 0;
    while i < peaks.len()
        invariant
            i <= peaks.len(),
            keys@.len() == i,
            forall|k: int| 0 <= k < i ==> keys@[k] == peaks@[k].1,
        decreases peaks.len() - i,
    {
        keys.push(peaks[i].1);
        i = i + 1;
    }
    assert(keys@ =~= heights(peaks@));
    let order: Vec<usize> = sort_order(keys.as_slice(), true);
    arrange(peaks, order.as_slice())
}

fn keep_spaced(peaks: &[(usize, F32)], distance: usize) -> (r: Vec<(usize, F32)>)
    ensures
        r@ == spaced(peaks@, distance as int, peaks@.len()),
{
    let mut kept: Vec<(usize, F32)> = Vec::new();
    let mut n: usize = 0;
    while n < peaks.len()
        invariant
            n <= peaks.len(),
            kept@ == spaced(peaks@, distance as int, n as nat),
        decreases peaks.len() - n,
    {
        let x: usize = peaks[n].0;
        let mut close: bool = false;
        let mut k: usize = 0;
        while k < kept.len()
            invariant
                k <= kept.len(),
                close == exists|l: int|
                    0 <= l < k && too_close(x, (#[trigger] kept@[l]).0, distance as int),
            decreases kept.len() - k,
        {
            let y: usize = kept[k].0;
            let gap: usize = if x >= y {
                x - y
            } else {
                y - x
            };
            if gap < distance {
                close = true;
                assert(too_close(x, kept@[k as int].0, distance as int));
            }
            k = k + 1;
        }
        if !close {
            kept.push(peaks[n]);
        }
        n = n + 1;
    }
    kept
}

/// Finds the peaks of a signal: values above their neighbours and high enough,
/// at least `min_distance` apart (the higher one stays), highest first.
pub fn find_peaks(signal: &[F32], threshold: F32, min_distance: usize) -> (r: Vec<(usize, F32)>)
    ensures
        r@ == peaks_of(signal@, threshold, min_distance as int),
{
    if signal.len() < 3 {
        return Vec::new();
    }
    let max = find_height(signal);
    let height = if threshold > zero() && threshold < one() && max > zero() {
        max * threshold
    } else {
        threshold
    };
    if max < ratio(1, 10_000_000_000) {
        return Vec::new();
    }
    let mut peaks: Vec<(usize, F32)> = Vec::new();
    let last: usize = signal.len() - 1;
    let mut i: usize = 1;
    while i < last
        invariant
            1 <= i <= last,
            last == signal@.len() - 1,
            signal@.len() >= 3,
            peaks@ == inner_peaks(signal@, height, i as nat),
        decreases last - i,
    {
        let value = signal[i];
        if value > signal[i - 1] && value > signal[i + 1] && value >= height {
            peaks.push((i, value));
        }
        i = i + 1;
    }
    if signal[0] > signal[1] && signal[0] >= height {
        peaks.push((0, signal[0]));
    }
    if signal[last] > signal[last - 1] && signal[last] >= height {
        peaks.push((last, signal[last]));
    }
    assert(peaks@ == all_peaks(signal@, height));
    let sorted: Vec<(usize, F32)> = sort_peaks(peaks.as_slice());
    if min_distance > 0 && peaks.len() > 1 {
        let kept: Vec<(usize, F32)> = keep_spaced(sorted.as_slice(), min_distance);
        sort_peaks(kept.as_slice())
    } else {
        sorted
    }
}

proof fn lemma_inner_peaks_are_numbers(signal: Seq<F32>, height: F32, n: nat)
    requires
        n < signal.len(),
    ensures
        forall|i: int|
            0 <= i < inner_peaks(signal, height, n).len() ==> !(#[trigger] inner_peaks(
                signal,
                height,
                n,
            )[i]).1.is_nan(),
    decreases n,
{
    if n > 1 {
        let before = inner_peaks(signal, height, (n - 1) as nat);
        let all = inner_peaks(signal, height, n);
        lemma_inner_peaks_are_numbers(signal, height, (n - 1) as nat);
        assert forall|i: int| 0 <= i < all.len() implies !(#[trigger] all[i]).1.is_nan() by {
            if i < before.len() {
                assert(all[i] == before[i]);
            }
        }
    }
}

proof fn lemma_spaced_are_numbers(peaks: Seq<(usize, F32)>, distance: int, n: nat)
    requires
        n <= peaks.len(),
        forall|i: int| 0 <= i < peaks.len() ==> !(#[trigger] peaks[i]).1.is_nan(),
    ensures
        forall|i: int|
            0 <= i < spaced(peaks, distance, n).len() ==> !(#[trigger] spaced(
                peaks,
                distance,
                n,
            )[i]).1.is_nan(),
    decreases n,
{
    if n > 0 {
        let before = spaced(peaks, distance, (n - 1) as nat);
        let all = spaced(peaks, distance, n);
        lemma_spaced_are_numbers(peaks, distance, (n - 1) as nat);
        assert forall|i: int| 0 <= i < all.len() implies !(#[trigger] all[i]).1.is_nan() by {
            if i < before.len() {
                assert(all[i] == before[i]);
            } else {
                assert(all[i] == peaks[n - 1]);
            }
        }
    }
}

proof fn lemma_highest_first(peaks: Seq<(usize, F32)>)
    requires
        peaks.len() <= usize::MAX,
        forall|i: int| 0 <= i < peaks.len() ==> !(#[trigger] peaks[i]).1.is_nan(),
    ensures
        highest_first(peaks).len() == peaks.len(),
        forall|i: int|
            0 <= i < peaks.len() ==> !(#[trigger] highest_first(peaks)[i]).1.is_nan(),
        forall|i: int, j: int|
            0 <= i < j < peaks.len() ==> !((#[trigger] highest_first(peaks)[i]).1 < (
            #[trigger] highest_first(peaks)[j]).1),
{
    let keys = heights(peaks);
    crate::sorting::lemma_sorted_order_lists_indices(keys, true, peaks.len());
    assert forall|i: int| 0 <= i < keys.len() implies !(#[trigger] keys[i]).is_nan() by {
        assert(keys[i] == peaks[i].1);
    }
    assert forall|i: int| 0 <= i < peaks.len() implies !(#[trigger] highest_first(
        peaks,
    )[i]).1.is_nan() by {
        let k = crate::sorting::lemma_arranged_from(peaks, keys, true, i);
    }
    assert forall|i: int, j: int| 0 <= i < j < peaks.len() implies !((#[trigger] highest_first(
        peaks,
    )[i]).1 < (#[trigger] highest_first(peaks)[j]).1) by {
        let r = crate::sorting::lemma_arranged_in_order(peaks, keys, true, i, j);
    }
}

/// Peaks stand by height, the highest first.
pub proof fn lemma_peaks_are_highest_first(
    signal: Seq<F32>,
    threshold: F32,
    min_distance: int,
    i: int,
    j: int,
)
    requires
        signal.len() <= usize::MAX,
        0 <= i < j < peaks_of(signal, threshold, min_distance).len(),
    ensures
        !(peaks_of(signal, threshold, min_distance)[i].1 < peaks_of(
            signal,
            threshold,
            min_distance,
        )[j].1),
{
    let height = needed_height(signal, threshold);
    let peaks = all_peaks(signal, height);
    if signal.len() >= 3 {
        lemma_inner_peaks_are_numbers(signal, height, (signal.len() - 1) as nat);
        lemma_all_peaks_len(signal, height);
        lemma_highest_first(peaks);
        let sorted = highest_first(peaks);
        lemma_spaced_are_numbers(sorted, min_distance, sorted.len());
        lemma_spaced_len(sorted, min_distance, sorted.len());
        lemma_highest_first(spaced(sorted, min_distance, sorted.len()));
    }
}

} // verus!
