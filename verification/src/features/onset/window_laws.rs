//! What holds of the medians that part a spectrogram, and of what they decide.
use crate::features::chroma::laws::around;
use crate::features::chroma::laws::lemma_nothing_of;
use crate::float::F32;
use crate::float::ratio;
use crate::float::zero;
use crate::float_laws::lemma_ratio_above_zero;
use crate::float_laws::lemma_sum_grows;
use crate::float_laws::lemma_whole_and_no_part;
use crate::float_laws::lemma_zero_and_one;
use crate::float_order::lemma_count;
use crate::float_order::lemma_product_commutes;
use crate::float_order::lemma_products_keep_order;
use crate::float_order::lemma_sums_keep_order;
use crate::float_order::lemma_times_one;
use crate::float_order::lemma_whole;
use crate::float_order::lemma_whole_product;
use crate::float_order::lemma_whole_quotient;
use crate::statistics::median_of;
use crate::statistics::percentile_of;
use crate::statistics_laws::lemma_median_is_in_the_middle;
use crate::statistics_laws::parts_at;
use super::consensus::tolerance_samples;
use super::energy_flux::level_exponent;
use super::flux_peaks::lemma_onset_frames_are_the_peaks;
use super::hpss::harmonic_part;
use super::hpss::median_over_bins;
use super::hpss::median_over_time;
use super::hpss::percussive_part;
use super::spectral_flux::percentile_onsets;
use super::threshold::deviations;
use super::threshold::threshold_of;
use vstd::arithmetic::power2::pow2;
use vstd::prelude::*;

verus! {

/// The median over time is in the middle of the values of a bin in the frames around: as
/// far to both sides as the margin, where they are there.
pub proof fn lemma_median_over_time_is_in_the_middle(
    g: Seq<Seq<F32>>,
    margin: int,
    f: int,
    b: int,
) -> (order: Seq<usize>)
    requires
        0 <= margin,
        0 <= f < g.len() <= usize::MAX,
        forall|i: int|
            0 <= i < g.len() ==> zero() <= (#[trigger] g[i])[b] && (g[i][b] + g[i][b]).is_finite(),
    ensures
        ({
            let values = around(g, f, margin, b);
            parts_at(
                values,
                order,
                median_over_time(g, margin, f, b),
                (values.len() as int + 1) / 2,
                values.len() as int / 2,
            )
        }),
{
    let values = around(g, f, margin, b);
    let start = super::super::period::novelty::window_start(f, margin, 0);
    let end = super::super::period::novelty::window_end(f, margin, g.len() as int);
    assert(values =~= super::hpss::column(g, b, start, (end - start) as nat));
    assert forall|i: int| 0 <= i < values.len() implies zero() <= #[trigger] values[i] && (values[i]
        + values[i]).is_finite() by {
        assert(zero() <= g[start + i][b]);
    }
    lemma_median_is_in_the_middle(values)
}

/// The values of a row around bin `b` that are there, no further than `reach` from it.
pub open spec fn bins_around(row: Seq<F32>, b: int, reach: int) -> Seq<F32> {
    let first = if b < reach {
        0
    } else {
        b - reach
    };
    let last = if b + reach < row.len() {
        b + reach
    } else {
        row.len() - 1
    };
    row.subrange(first, last + 1)
}

/// The median over bins is in the middle of the values of a frame in the bins around: as
/// far to both sides as the margin, where they are there.
pub proof fn lemma_median_over_bins_is_in_the_middle(row: Seq<F32>, margin: int, b: int) -> (order:
    Seq<usize>)
    requires
        0 <= margin,
        0 <= b < row.len() <= usize::MAX,
        forall|i: int|
            0 <= i < row.len() ==> zero() <= #[trigger] row[i] && (row[i] + row[i]).is_finite(),
    ensures
        ({
            let values = bins_around(row, b, margin);
            parts_at(
                values,
                order,
                median_over_bins(row, margin, b),
                (values.len() as int + 1) / 2,
                values.len() as int / 2,
            )
        }),
{
    let values = bins_around(row, b, margin);
    let start = super::super::period::novelty::window_start(b, margin, 0);
    let end = super::super::period::novelty::window_end(b, margin, row.len() as int);
    assert(values =~= row.subrange(start, end));
    assert forall|i: int| 0 <= i < values.len() implies zero() <= #[trigger] values[i] && (values[i]
        + values[i]).is_finite() by {
        assert(zero() <= row[start + i]);
    }
    lemma_median_is_in_the_middle(values)
}

/// What only lasts is wholly harmonic, and what only spreads is wholly percussive.
pub proof fn lemma_lasting_is_harmonic(value: F32, x: F32)
    requires
        zero() <= value,
        value.is_finite(),
        ratio(1, 10_000_000_000) < x,
        x.is_finite(),
    ensures
        harmonic_part(value, x, zero()).same_number(value),
        percussive_part(value, x, zero()) <= zero(),
        harmonic_part(value, zero(), x) <= zero(),
        percussive_part(value, zero(), x).same_number(value),
{
    lemma_zero_and_one();
    lemma_ratio_above_zero(1, 10_000_000_000);
    lemma_whole_and_no_part(x);
    lemma_times_one(value);
    lemma_product_commutes(value, zero());
    lemma_scaled_to_nothing(value);
}

proof fn lemma_scaled_to_nothing(value: F32)
    requires
        zero() <= value,
        value.is_finite(),
    ensures
        value * zero() <= zero(),
        zero() <= value * zero(),
{
    lemma_zero_and_one();
    lemma_nothing_of(value);
    reveal(F32::units);
    crate::rounding::lemma_mag_units_scaled(0, 0);
}

/// A threshold is not below the median, and the greater the multiple of the deviation
/// that is asked for, the higher it is.
pub proof fn lemma_threshold_rises(values: Seq<F32>, low: F32, high: F32)
    requires
        0 < values.len() <= usize::MAX,
        forall|i: int|
            0 <= i < values.len() ==> zero() <= #[trigger] values[i] && (values[i]
                + values[i]).is_finite(),
        forall|i: int|
            0 <= i < values.len() ==> {
                let d = (#[trigger] values[i] - median_of(values)).abs();
                (d + d).is_finite()
            },
        zero() <= low,
        low <= high,
        high.is_finite(),
    ensures
        median_of(values) <= threshold_of(values, low),
        threshold_of(values, low) <= threshold_of(values, high),
{
    let m = median_of(values);
    let d = deviations(values, m);
    lemma_zero_and_one();
    let order = lemma_median_is_in_the_middle(values);
    lemma_middle_is_number(values, m, order);
    assert forall|i: int| 0 <= i < d.len() implies zero() <= #[trigger] d[i] && (d[i]
        + d[i]).is_finite() by {
        let x = (values[i] - m).abs();
        reveal(F32::units);
        crate::rounding::lemma_mag_units_nonnegative(x.mag());
        assert((x + x).is_finite());
        lemma_doubled(x);
    }
    let other = lemma_median_is_in_the_middle(d);
    lemma_middle_is_number(d, median_of(d), other);
    let spread = median_of(d);
    let k = other[d.len() as int / 2] as int;
    assert(spread <= d[k]);
    lemma_doubled(d[k]);
    crate::float_order::lemma_finite_below(spread, d[k]);
    crate::float_order::lemma_finite_below(low, high);
    lemma_products_keep_order(low, spread, high, spread);
    lemma_sum_grows(m, low * spread);
    lemma_sums_keep_order(m, low * spread, m, high * spread);
}

/// A number is finite where twice it is.
proof fn lemma_doubled(x: F32)
    requires
        (x + x).is_finite(),
    ensures
        x.is_finite(),
{
    reveal(F32::spec_add);
}

proof fn lemma_middle_is_number(values: Seq<F32>, m: F32, order: Seq<usize>)
    requires
        values.len() > 0,
        forall|i: int| 0 <= i < values.len() ==> zero() <= #[trigger] values[i],
        parts_at(values, order, m, (values.len() as int + 1) / 2, values.len() as int / 2),
    ensures
        zero() <= m,
{
    let k = order[0] as int;
    assert(values[order[0] as int] <= m);
    assert(zero() <= values[k]);
}

/// Ten times as loud is twenty decibels, and a tolerance of whole seconds is as many times
/// the samples of one.
pub proof fn lemma_whole_units(factors: u32, seconds: u32, rate: u32)
    requires
        factors < 0x1000,
        seconds < 0x100,
        seconds * rate < 0x100_0000,
        rate < 0x100_0000,
    ensures
        level_exponent(F32::from_u32((20 * factors) as u32)).units() == factors * pow2(149),
        tolerance_samples((1000 * seconds) as u32, rate) == seconds * rate,
{
    lemma_whole(20);
    lemma_whole(1000);
    lemma_count(20 * factors);
    lemma_count(1000 * seconds);
    lemma_count(rate as int);
    assert(20 * factors == factors * 20 && 1000 * seconds == seconds * 1000);
    lemma_whole_quotient(
        F32::from_u32((20 * factors) as u32),
        ratio(20, 1),
        factors as int,
        20,
    );
    let s = F32::from_u32((1000 * seconds) as u32) / ratio(1000, 1);
    lemma_whole_quotient(
        F32::from_u32((1000 * seconds) as u32),
        ratio(1000, 1),
        seconds as int,
        1000,
    );
    lemma_whole_product(s, F32::from_u32(rate), seconds as int, rate as int);
    assert(seconds * rate >= 0) by (nonlinear_arith);
    crate::features::period::conversion_laws::lemma_truncated(
        s * F32::from_u32(rate),
        seconds * rate,
    );
}

/// The frames with an onset are exactly those that change by more than the change at the
/// percentile, by more than the frame before them and no less than the one behind them.
pub proof fn lemma_onsets_are_the_greatest_changes(flux: Seq<F32>, percentile: F32, x: usize)
    requires
        1 < flux.len() < usize::MAX,
        1 <= x <= flux.len(),
    ensures
        percentile_onsets(flux, percentile).contains(x) <==> {
            &&& percentile_of(flux, percentile) < flux[x - 1]
            &&& x >= 2 ==> flux[x - 2] < flux[x - 1]
            &&& x < flux.len() ==> flux[x as int] <= flux[x - 1]
        },
{
    lemma_onset_frames_are_the_peaks(flux, percentile_of(flux, percentile), flux.len(), x);
}

} // verus!
