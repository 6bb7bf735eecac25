//! What holds of every median and percentile.
use crate::float::F32;
use crate::float::zero;
use crate::float_laws::lemma_halved_sum_between;
use crate::sorting::lemma_sorted_order_is_stable;
use crate::sorting::lemma_sorted_order_lists_indices;
use crate::sorting::lists_indices;
use crate::sorting::sorted_order;
use crate::statistics::ascending;
use crate::statistics::median_of;
use crate::statistics::percentile_of;
use crate::statistics::percentile_place;
use vstd::prelude::*;

verus! {

/// `order` lists all of the values once; those at the first `behind` places are not above
/// `x`, and those from place `from` on are not below it.
pub open spec fn parts_at(values: Seq<F32>, order: Seq<usize>, x: F32, behind: int, from: int) -> bool {
    &&& lists_indices(order, values.len())
    &&& forall|k: int| 0 <= k < behind ==> values[(#[trigger] order[k]) as int] <= x
    &&& forall|k: int| from <= k < values.len() ==> x <= values[(#[trigger] order[k]) as int]
}

pub proof fn lemma_order(values: Seq<F32>, p: int) -> (order: Seq<usize>)
    requires
        0 <= p < values.len() <= usize::MAX,
        forall|i: int| 0 <= i < values.len() ==> !(#[trigger] values[i]).is_nan(),
    ensures
        parts_at(values, order, ascending(values)[p], p + 1, p),
        order == sorted_order(values, false, values.len()),
{
    let order = sorted_order(values, false, values.len());
    lemma_sorted_order_lists_indices(values, false, values.len());
    lemma_sorted_order_is_stable(values, false, values.len());
    let x = ascending(values)[p];
    assert(x == values[order[p] as int]);
    assert forall|k: int| 0 <= k <= p implies values[(#[trigger] order[k]) as int] <= x by {
        assert(!values[order[k] as int].is_nan());
        if k < p {
            assert(!(values[order[p] as int] < values[order[k] as int]));
        }
    }
    assert forall|k: int| p <= k < values.len() implies x <= values[(
    #[trigger] order[k]) as int] by {
        assert(!values[order[k] as int].is_nan());
        if p < k {
            assert(!(values[order[k] as int] < values[order[p] as int]));
        }
    }
    order
}

/// Half of the values are not above the median and half are not below it.
pub proof fn lemma_median_is_in_the_middle(values: Seq<F32>) -> (order: Seq<usize>)
    requires
        0 < values.len() <= usize::MAX,
        forall|i: int|
            0 <= i < values.len() ==> zero() <= #[trigger] values[i] && (values[i]
                + values[i]).is_finite(),
    ensures
        parts_at(
            values,
            order,
            median_of(values),
            (values.len() as int + 1) / 2,
            values.len() as int / 2,
        ),
{
    let n = values.len() as int;
    let sorted = ascending(values);
    let order = lemma_order(values, n / 2);
    if n % 2 == 0 {
        let other = lemma_order(values, n / 2 - 1);
        let low = sorted[n / 2 - 1];
        let high = sorted[n / 2];
        assert(low == values[order[n / 2 - 1] as int] && high == values[order[n / 2] as int]);
        assert(low <= high);
        lemma_halved_sum_not_below(low, high);
        lemma_halved_sum_between(high, low, high);
    }
    order
}

/// Half the sum of two numbers is not below the smaller one.
proof fn lemma_halved_sum_not_below(low: F32, high: F32)
    requires
        zero() <= low,
        low <= high,
        (low + low).is_finite(),
        (high + high).is_finite(),
    ensures
        low <= (low + high) * crate::float::ratio(5, 10),
{
    crate::float_order::lemma_sums_keep_order(low, low, low, high);
    lemma_halved_sum_between(high, low, high);
    lemma_halved_sum_between(low, low, low);
    crate::float_laws::lemma_half();
    crate::float_laws::lemma_product_keeps_order(
        crate::float::ratio(5, 10),
        low + low,
        low + high,
    );
    crate::float_order::lemma_product_commutes(crate::float::ratio(5, 10), low + low);
    crate::float_order::lemma_product_commutes(crate::float::ratio(5, 10), low + high);
    crate::float_laws::lemma_twice_halved(low);
}

/// The value at a percentile has its share of the values below or level with it, and
/// the others above or level with it.
pub proof fn lemma_percentile_parts_the_values(values: Seq<F32>, percentile: F32) -> (order: Seq<
    usize,
>)
    requires
        0 < values.len() <= usize::MAX,
        forall|i: int| 0 <= i < values.len() ==> !(#[trigger] values[i]).is_nan(),
    ensures
        ({
            let share = (F32::from_usize(values.len() as usize) * percentile).to_usize() as int;
            let p = if share < values.len() {
                share
            } else {
                values.len() - 1
            };
            parts_at(values, order, percentile_of(values, percentile), p + 1, p)
        }),
{
    lemma_order(values, percentile_place(values.len() as int, percentile))
}

} // verus!
