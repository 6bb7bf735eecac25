//! Medians and percentiles.
use crate::float::F32;
use crate::float::ratio;
use crate::float::zero;
use crate::sorting::arrange;
use crate::sorting::arranged;
use crate::sorting::lemma_arranged_from;
use crate::sorting::lemma_arranged_keeps_items;
use crate::sorting::lemma_sorted_order_lists_indices;
use crate::sorting::same_numbers;
use crate::sorting::sort_order;
use crate::sorting::sorted_order;
use vstd::prelude::*;

verus! {

/// The values in ascending order.
pub open spec fn ascending(values: Seq<F32>) -> Seq<F32> {
    arranged(values, sorted_order(values, false, values.len()))
}

/// Sorts values in ascending order.
pub fn sort_ascending(values: &[F32]) -> (r: Vec<F32>)
    ensures
        r@ == ascending(values@),
        r@.len() == values@.len(),
{
    let order: Vec<usize> = sort_order(values, false);
    arrange(values, order.as_slice())
}

/// The value in the middle of values in order, or the mean of the two that are
/// there; zero without any value.
pub open spec fn middle(sorted: Seq<F32>) -> F32 {
    let n = sorted.len() as int;
    if n == 0 {
        zero()
    } else if n % 2 == 0 {
        (sorted[n / 2 - 1] + sorted[n / 2]) * ratio(5, 10)
    } else {
        sorted[n / 2]
    }
}

/// The median of values; zero without any.
pub open spec fn median_of(values: Seq<F32>) -> F32 {
    middle(ascending(values))
}

/// Computes the median of values.
pub fn median(values: &[F32]) -> (r: F32)
    ensures
        r == median_of(values@),
{
    let sorted: Vec<F32> = sort_ascending(values);
    let n: usize = sorted.len();
    if n == 0 {
        zero()
    } else if n % 2 == 0 {
        (sorted[n / 2 - 1] + sorted[n / 2]) * ratio(5, 10)
    } else {
        sorted[n / 2]
    }
}

/// The place of a percentile among `n` values in order.
pub open spec fn percentile_place(n: int, percentile: F32) -> int {
    let i = (F32::from_usize(n as usize) * percentile).to_usize();
    if i <= n - 1 {
        i as int
    } else {
        n - 1
    }
}

/// The value at a percentile of values that are not empty.
pub open spec fn percentile_of(values: Seq<F32>, percentile: F32) -> F32 {
    ascending(values)[percentile_place(values.len() as int, percentile)]
}

/// Finds the value at a percentile.
pub fn value_at_percentile(values: &[F32], percentile: F32) -> (r: F32)
    requires
        values@.len() > 0,
    ensures
        r == percentile_of(values@, percentile),
{
    let sorted: Vec<F32> = sort_ascending(values);
    let i: usize = (F32::from_usize(sorted.len()) * percentile).to_usize();
    if i <= sorted.len() - 1 {
        sorted[i]
    } else {
        sorted[sorted.len() - 1]
    }
}

/// The value at a percentile is one of the values.
pub proof fn lemma_percentile_is_a_value(values: Seq<F32>, percentile: F32) -> (k: int)
    requires
        0 < values.len() <= usize::MAX,
    ensures
        0 <= k < values.len(),
        percentile_of(values, percentile) == values[k],
{
    lemma_sorted_order_lists_indices(values, false, values.len());
    lemma_arranged_from(values, values, false, percentile_place(values.len() as int, percentile))
}

/// The values as whole numbers of units.
spec fn units_of(a: Seq<F32>) -> Seq<int> {
    Seq::new(a.len(), |i: int| a[i].units())
}

/// Values in another order have the same units in another order.
proof fn lemma_units_in_another_order(a: Seq<F32>, b: Seq<F32>)
    requires
        a.to_multiset() == b.to_multiset(),
    ensures
        units_of(a).to_multiset() == units_of(b).to_multiset(),
    decreases a.len(),
{
    broadcast use vstd::seq_lib::group_to_multiset_ensures;

    a.to_multiset_ensures();
    b.to_multiset_ensures();
    if a.len() == 0 {
        assert(units_of(a) =~= units_of(b));
    } else {
        let x = a.last();
        assert(a.contains(x));
        assert(b.to_multiset().count(x) > 0);
        let j = choose|j: int| 0 <= j < b.len() && b[j] == x;
        let shorter = a.drop_last();
        let other = b.remove(j);
        assert(a =~= shorter.push(x));
        assert(shorter.to_multiset() =~= a.to_multiset().remove(x));
        lemma_units_in_another_order(shorter, other);
        assert(units_of(a) =~= units_of(shorter).push(x.units()));
        assert(units_of(other) =~= units_of(b).remove(j));
        assert(units_of(b)[j] == x.units());
        assert(units_of(b).contains(x.units()));
        assert(units_of(b).to_multiset() =~= units_of(other).to_multiset().insert(x.units()));
    }
}

/// Values in ascending order do not depend on the order that they came in.
pub proof fn lemma_ascending_forgets_order(a: Seq<F32>, b: Seq<F32>)
    requires
        a.len() <= usize::MAX,
        a.to_multiset() == b.to_multiset(),
        forall|i: int| 0 <= i < a.len() ==> !(#[trigger] a[i]).is_nan(),
    ensures
        a.len() == b.len(),
        same_numbers(ascending(a), ascending(b)),
{
    a.to_multiset_ensures();
    b.to_multiset_ensures();
    assert forall|i: int| 0 <= i < b.len() implies !(#[trigger] b[i]).is_nan() by {
        assert(b.contains(b[i]));
        assert(a.to_multiset().count(b[i]) > 0);
        assert(a.contains(b[i]));
        let k = choose|k: int| 0 <= k < a.len() && a[k] == b[i];
        assert(!a[k].is_nan());
    }
    lemma_ascending_is_sorted(a);
    lemma_ascending_is_sorted(b);
    lemma_arranged_keeps_items(a, a, false, a.len());
    lemma_arranged_keeps_items(b, b, false, b.len());
    assert(a.take(a.len() as int) =~= a);
    assert(b.take(b.len() as int) =~= b);
    lemma_units_in_another_order(ascending(a), ascending(b));
    let leq = |x: int, y: int| x <= y;
    assert(vstd::relations::sorted_by(units_of(ascending(a)), leq));
    assert(vstd::relations::sorted_by(units_of(ascending(b)), leq));
    vstd::seq_lib::lemma_sorted_unique(units_of(ascending(a)), units_of(ascending(b)), leq);
    assert forall|i: int| 0 <= i < ascending(a).len() implies (
    #[trigger] ascending(a)[i]).same_number(ascending(b)[i]) by {
        assert(units_of(ascending(a))[i] == units_of(ascending(b))[i]);
        assert(!ascending(a)[i].is_nan() && !ascending(b)[i].is_nan());
    }
}

proof fn lemma_ascending_is_sorted(a: Seq<F32>)
    requires
        a.len() <= usize::MAX,
        forall|i: int| 0 <= i < a.len() ==> !(#[trigger] a[i]).is_nan(),
    ensures
        ascending(a).len() == a.len(),
        forall|i: int| 0 <= i < a.len() ==> !(#[trigger] ascending(a)[i]).is_nan(),
        forall|i: int, j: int|
            0 <= i < j < a.len() ==> (#[trigger] ascending(a)[i]).units() <= (
            #[trigger] ascending(a)[j]).units(),
{
    let s = ascending(a);
    lemma_sorted_order_lists_indices(a, false, a.len());
    assert forall|i: int| 0 <= i < s.len() implies !(#[trigger] s[i]).is_nan() by {
        let k = lemma_arranged_from(a, a, false, i);
    }
    assert forall|i: int, j: int| 0 <= i < j < s.len() implies (#[trigger] s[i]).units() <= (
    #[trigger] s[j]).units() by {
        let (k, l) = crate::sorting::lemma_arranged_in_order(a, a, false, i, j);
        assert(!a[k].is_nan() && !a[l].is_nan());
    }
}

} // verus!
