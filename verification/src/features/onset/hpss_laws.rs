//! What holds of the harmonic and the percussive part of every spectrogram.
use super::hpss::column;
use super::hpss::harmonic_part;
use super::hpss::lemma_parts_of_a_magnitude;
use super::hpss::median_over_bins;
use super::hpss::median_over_time;
use super::hpss::next_harmonic;
use super::hpss::next_percussive;
use super::hpss::percussive_part;
use super::hpss::settled;
use crate::features::period::novelty::window_end;
use crate::features::period::novelty::window_start;
use crate::float::abs_int;
use crate::float::ratio;
use crate::float::zero;
use crate::float::F32;
use crate::float_laws::lemma_half;
use crate::float_laws::lemma_halved_sum_between;
use crate::float_laws::lemma_nonnegative;
use crate::float_laws::lemma_part_of_whole;
use crate::float_laws::lemma_product_error;
use crate::float_laws::lemma_quotient_error;
use crate::float_laws::lemma_ratio_above_zero;
use crate::float_laws::lemma_ratio_at_least;
use crate::float_laws::lemma_sum_error;
use crate::float_laws::lemma_sum_grows;
use crate::float_laws::lemma_unit_is_finite;
use crate::float_laws::lemma_zero_and_one;
use crate::float_laws::off_by_rounding;
use crate::rounding::lemma_mag_units_increases;
use crate::sorting::lemma_arranged_from;
use crate::sorting::lemma_sorted_order_lists_indices;
use crate::spectrogram::is_grid;
use crate::statistics::ascending;
use crate::statistics::median_of;
use vstd::arithmetic::power2::lemma_pow2_pos;
use vstd::arithmetic::power2::pow2;
use vstd::prelude::*;

verus! {

/// Two parts add up to a value but for rounding: their sum is off by one part in
/// `2^20` of the value and two of the smallest numbers at most, both the exact sum and
/// the sum as a number.
pub open spec fn add_up(x: F32, y: F32, value: F32) -> bool {
    let room = value.units() + 2 * 0x10_0000;
    &&& 0x10_0000 * abs_int(x.units() + y.units() - value.units()) <= room
    &&& (x + y).is_finite() ==> 0x10_0000 * abs_int((x + y).units() - value.units()) <= room
}

/// The shares of two numbers in their sum, each rounded, fill the whole but for
/// rounding. A whole is `k` units.
proof fn lemma_shares_fill_the_whole(h: int, p: int, s: int, a: int, b: int, k: int)
    requires
        0 <= h,
        0 <= p,
        0x80_0000 <= s,
        0x100_0000 <= k,
        0 <= a <= k,
        0 <= b <= k,
        off_by_rounding(s, h + p, 1),
        off_by_rounding(a, h * k, s),
        off_by_rounding(b, p * k, s),
    ensures
        0x20_0000 * abs_int(k - (a + b)) <= k,
{
    let c = a + b;
    let t = h + p;
    assert(0x80_0000 * (t - s) <= s && 0x80_0000 * (s - t) <= s);
    assert(h * k + p * k == t * k && s * a + s * b == s * c) by (nonlinear_arith)
        requires
            c == a + b,
            t == h + p,
    ;
    assert(s * (a + 0x80_0000) + s * (b + 0x80_0000) <= s * (2 * k + 0x100_0000)) by (nonlinear_arith)
        requires
            a <= k,
            b <= k,
            s >= 0,
    ;
    assert(0x100_0000 * (t * k - s * c) <= s * (2 * k + 0x100_0000));
    assert(0x100_0000 * (s * c - t * k) <= s * (2 * k + 0x100_0000));
    assert(0x100_0000 * (s * k - t * k) <= 2 * (s * k) && 0x100_0000 * (t * k - s * k) <= 2 * (s * k))
        by (nonlinear_arith)
        requires
            0x80_0000 * (t - s) <= s,
            0x80_0000 * (s - t) <= s,
            k > 0,
    ;
    assert(0x100_0000 * (k - c) <= 4 * k + 0x100_0000 && 0x100_0000 * (c - k) <= 4 * k + 0x100_0000)
        by (nonlinear_arith)
        requires
            0x100_0000 * (t * k - s * c) <= s * (2 * k + 0x100_0000),
            0x100_0000 * (s * c - t * k) <= s * (2 * k + 0x100_0000),
            0x100_0000 * (s * k - t * k) <= 2 * (s * k),
            0x100_0000 * (t * k - s * k) <= 2 * (s * k),
            s > 0,
    ;
}

/// The parts of a value, by shares that fill the whole but for rounding, add up to it
/// but for rounding.
proof fn lemma_parts_fill_the_value(v: int, a: int, b: int, x: int, y: int, k: int)
    requires
        0 < k,
        0 <= x <= v,
        0 <= y <= v,
        0x20_0000 * abs_int(k - (a + b)) <= k,
        off_by_rounding(x, v * a, k),
        off_by_rounding(y, v * b, k),
    ensures
        0x100_0000 * abs_int(x + y - v) <= 10 * v + 0x100_0000,
{
    let c = a + b;
    let z = x + y;
    assert(v * a + v * b == v * c && k * x + k * y == k * z) by (nonlinear_arith)
        requires
            c == a + b,
            z == x + y,
    ;
    assert(k * (x + 0x80_0000) + k * (y + 0x80_0000) <= k * (2 * v + 0x100_0000)) by (nonlinear_arith)
        requires
            x <= v,
            y <= v,
            k > 0,
    ;
    assert(0x100_0000 * (v * c - k * z) <= k * (2 * v + 0x100_0000));
    assert(0x100_0000 * (k * z - v * c) <= k * (2 * v + 0x100_0000));
    assert(0x20_0000 * (v * k - v * c) <= v * k && 0x20_0000 * (v * c - v * k) <= v * k)
        by (nonlinear_arith)
        requires
            0x20_0000 * (k - c) <= k,
            0x20_0000 * (c - k) <= k,
            v >= 0,
    ;
    assert(0x100_0000 * (v - z) <= 10 * v + 0x100_0000 && 0x100_0000 * (z - v) <= 10 * v + 0x100_0000)
        by (nonlinear_arith)
        requires
            0x100_0000 * (v * c - k * z) <= k * (2 * v + 0x100_0000),
            0x100_0000 * (k * z - v * c) <= k * (2 * v + 0x100_0000),
            0x20_0000 * (v * k - v * c) <= v * k,
            0x20_0000 * (v * c - v * k) <= v * k,
            k > 0,
    ;
}

/// The harmonic and the percussive part of a magnitude add up to it but for rounding.
pub proof fn lemma_parts_add_up(value: F32, h: F32, p: F32)
    requires
        zero() <= value,
        value.is_finite(),
        zero() <= h,
        zero() <= p,
        (h + p).is_finite(),
    ensures
        add_up(harmonic_part(value, h, p), percussive_part(value, h, p), value),
{
    let x = harmonic_part(value, h, p);
    let y = percussive_part(value, h, p);
    let k = pow2(149) as int;
    lemma_zero_and_one();
    lemma_pow2_pos(149);
    vstd::arithmetic::power2::lemma2_to64();
    vstd::arithmetic::power2::lemma_pow2_strictly_increases(24, 149);
    lemma_half();
    lemma_parts_of_a_magnitude(value, h, p);
    lemma_nonnegative(value);
    lemma_nonnegative(x);
    lemma_nonnegative(y);
    lemma_finite_below(x, value);
    lemma_finite_below(y, value);
    let shares = if h + p > ratio(1, 10_000_000_000) {
        (h / (h + p), p / (h + p))
    } else {
        (ratio(5, 10), ratio(5, 10))
    };
    if h + p > ratio(1, 10_000_000_000) {
        lemma_sum_error(h, p);
        lemma_sum_grows(h, p);
        lemma_nonnegative(h);
        lemma_nonnegative(p);
        lemma_nonnegative(h + p);
        lemma_ratio_above_zero(1, 10_000_000_000);
        vstd::arithmetic::power2::lemma2_to64_rest();
        lemma_ratio_at_least(1, 10_000_000_000, 34);
        vstd::arithmetic::power2::lemma_pow2_strictly_increases(23, 115);
        lemma_part_of_whole(h, h + p);
        lemma_part_of_whole(p, h + p);
        lemma_unit_is_finite(shares.0);
        lemma_unit_is_finite(shares.1);
        lemma_quotient_error(h, h + p);
        lemma_quotient_error(p, h + p);
        lemma_nonnegative(shares.0);
        lemma_nonnegative(shares.1);
        lemma_shares_fill_the_whole(
            h.units(),
            p.units(),
            (h + p).units(),
            shares.0.units(),
            shares.1.units(),
            k,
        );
    } else {
        vstd::arithmetic::power2::lemma_pow2_unfold(149);
    }
    lemma_product_error(value, shares.0);
    lemma_product_error(value, shares.1);
    lemma_parts_fill_the_value(
        value.units(),
        shares.0.units(),
        shares.1.units(),
        x.units(),
        y.units(),
        k,
    );
    if (x + y).is_finite() {
        lemma_sum_error(x, y);
        lemma_sum_grows(x, y);
        lemma_nonnegative(x + y);
    }
}

/// A number not below zero is finite where one not below it is.
proof fn lemma_finite_below(x: F32, high: F32)
    requires
        zero() <= x,
        x <= high,
        high.is_finite(),
    ensures
        x.is_finite(),
{
    lemma_zero_and_one();
    lemma_nonnegative(x);
    lemma_nonnegative(high);
    if x.mag() == crate::rounding::INF_BITS {
        lemma_mag_units_increases(high.mag(), x.mag());
    }
}

/// The median of numbers from zero to a bound lies there too, as long as twice the
/// bound is finite.
proof fn lemma_median_between(values: Seq<F32>, high: F32)
    requires
        values.len() <= usize::MAX,
        zero() <= high,
        (high + high).is_finite(),
        forall|i: int| 0 <= i < values.len() ==> zero() <= #[trigger] values[i] && values[i] <= high,
    ensures
        zero() <= median_of(values),
        median_of(values) <= high,
{
    lemma_zero_and_one();
    let sorted = ascending(values);
    let n = sorted.len() as int;
    lemma_sorted_order_lists_indices(values, false, values.len());
    if n > 0 {
        let k = lemma_arranged_from(values, values, false, n / 2);
        if n % 2 == 0 {
            let j = lemma_arranged_from(values, values, false, n / 2 - 1);
            lemma_halved_sum_between(high, values[j], values[k]);
        }
    }
}

/// A spectrogram of magnitudes from zero to a bound.
pub open spec fn are_magnitudes(g: Seq<Seq<F32>>, frames: nat, bins: nat, high: F32) -> bool {
    &&& is_grid(g, frames, bins)
    &&& forall|f: int, b: int|
        0 <= f < frames && 0 <= b < bins ==> zero() <= (#[trigger] g[f][b]) && g[f][b] <= high
}

/// Every value of two spectrograms adds up to that of a third but for rounding.
pub open spec fn all_add_up(
    h: Seq<Seq<F32>>,
    p: Seq<Seq<F32>>,
    g: Seq<Seq<F32>>,
    frames: nat,
    bins: nat,
) -> bool {
    forall|f: int, b: int|
        0 <= f < frames && 0 <= b < bins ==> add_up(
            #[trigger] h[f][b],
            #[trigger] p[f][b],
            g[f][b],
        )
}

proof fn lemma_medians_between(
    h: Seq<Seq<F32>>,
    p: Seq<Seq<F32>>,
    margin: int,
    f: int,
    b: int,
    frames: nat,
    bins: nat,
    high: F32,
)
    requires
        are_magnitudes(h, frames, bins, high),
        are_magnitudes(p, frames, bins, high),
        frames <= usize::MAX,
        bins <= usize::MAX,
        (high + high).is_finite(),
        margin >= 0,
        0 <= f < frames,
        0 <= b < bins,
    ensures
        zero() <= median_over_time(h, margin, f, b),
        median_over_time(h, margin, f, b) <= high,
        zero() <= median_over_bins(p[f], margin, b),
        median_over_bins(p[f], margin, b) <= high,
{
    lemma_zero_and_one();
    assert(zero() <= h[f][b] && h[f][b] <= high);
    let start = window_start(f, margin, 0);
    let n = (window_end(f, margin, h.len() as int) - start) as nat;
    let over_time = column(h, b, start, n);
    assert forall|i: int| 0 <= i < over_time.len() implies zero() <= #[trigger] over_time[i]
        && over_time[i] <= high by {
        assert(over_time[i] == h[start + i][b]);
    }
    lemma_median_between(over_time, high);
    let row = p[f];
    assert(row.len() == bins);
    let first = window_start(b, margin, 0);
    let over_bins = row.subrange(first, window_end(b, margin, row.len() as int));
    assert forall|i: int| 0 <= i < over_bins.len() implies zero() <= #[trigger] over_bins[i]
        && over_bins[i] <= high by {
        assert(over_bins[i] == p[f][first + i]);
    }
    lemma_median_between(over_bins, high);
}

/// What one round leaves at a place are magnitudes that add up.
proof fn lemma_place_adds_up(
    g: Seq<Seq<F32>>,
    h: Seq<Seq<F32>>,
    p: Seq<Seq<F32>>,
    margin: int,
    f: int,
    b: int,
    frames: nat,
    bins: nat,
    high: F32,
)
    requires
        are_magnitudes(g, frames, bins, high),
        are_magnitudes(h, frames, bins, high),
        are_magnitudes(p, frames, bins, high),
        frames <= usize::MAX,
        bins <= usize::MAX,
        (high + high).is_finite(),
        margin >= 0,
        0 <= f < frames,
        0 <= b < bins,
    ensures
        ({
            let x = next_harmonic(g, h, p, margin)[f][b];
            let y = next_percussive(g, h, p, margin)[f][b];
            &&& zero() <= x && x <= high
            &&& zero() <= y && y <= high
            &&& add_up(x, y, g[f][b])
        }),
{
    let x = median_over_time(h, margin, f, b);
    let y = median_over_bins(p[f], margin, b);
    assert(g[f].len() == bins);
    assert(zero() <= g[f][b] && g[f][b] <= high);
    lemma_zero_and_one();
    lemma_medians_between(h, p, margin, f, b, frames, bins, high);
    lemma_halved_sum_between(high, x, y);
    lemma_sum_error(high, high);
    lemma_finite_below(g[f][b], high);
    lemma_parts_of_a_magnitude(g[f][b], x, y);
    lemma_parts_add_up(g[f][b], x, y);
    assert(next_harmonic(g, h, p, margin)[f][b] == harmonic_part(g[f][b], x, y));
    assert(next_percussive(g, h, p, margin)[f][b] == percussive_part(g[f][b], x, y));
}

/// One round leaves magnitudes that add up.
proof fn lemma_round_adds_up(
    g: Seq<Seq<F32>>,
    h: Seq<Seq<F32>>,
    p: Seq<Seq<F32>>,
    margin: int,
    frames: nat,
    bins: nat,
    high: F32,
)
    requires
        are_magnitudes(g, frames, bins, high),
        are_magnitudes(h, frames, bins, high),
        are_magnitudes(p, frames, bins, high),
        frames <= usize::MAX,
        bins <= usize::MAX,
        (high + high).is_finite(),
        margin >= 0,
    ensures
        are_magnitudes(next_harmonic(g, h, p, margin), frames, bins, high),
        are_magnitudes(next_percussive(g, h, p, margin), frames, bins, high),
        all_add_up(
            next_harmonic(g, h, p, margin),
            next_percussive(g, h, p, margin),
            g,
            frames,
            bins,
        ),
{
    let h1 = next_harmonic(g, h, p, margin);
    let p1 = next_percussive(g, h, p, margin);
    assert forall|f: int, b: int| 0 <= f < frames && 0 <= b < bins implies add_up(
        #[trigger] h1[f][b],
        #[trigger] p1[f][b],
        g[f][b],
    ) by {
        lemma_place_adds_up(g, h, p, margin, f, b, frames, bins, high);
    }
    assert forall|f: int, b: int| 0 <= f < frames && 0 <= b < bins implies zero() <= (
    #[trigger] h1[f][b]) && h1[f][b] <= high by {
        lemma_place_adds_up(g, h, p, margin, f, b, frames, bins, high);
    }
    assert forall|f: int, b: int| 0 <= f < frames && 0 <= b < bins implies zero() <= (
    #[trigger] p1[f][b]) && p1[f][b] <= high by {
        lemma_place_adds_up(g, h, p, margin, f, b, frames, bins, high);
    }
}

/// The harmonic and the percussive part of a spectrogram add up to it but for
/// rounding, value by value; no value of either is below zero.
pub proof fn lemma_decomposition_adds_up(
    g: Seq<Seq<F32>>,
    margin: int,
    frames: nat,
    bins: nat,
    high: F32,
)
    requires
        are_magnitudes(g, frames, bins, high),
        frames <= usize::MAX,
        bins <= usize::MAX,
        (high + high).is_finite(),
        margin >= 0,
    ensures
        ({
            let (h, p) = settled(g, g, g, margin, 0);
            &&& all_add_up(h, p, g, frames, bins)
            &&& are_magnitudes(h, frames, bins, high)
            &&& are_magnitudes(p, frames, bins, high)
        }),
{
    lemma_settled_adds_up(g, g, g, margin, 0, frames, bins, high);
}

proof fn lemma_settled_adds_up(
    g: Seq<Seq<F32>>,
    h: Seq<Seq<F32>>,
    p: Seq<Seq<F32>>,
    margin: int,
    round: int,
    frames: nat,
    bins: nat,
    high: F32,
)
    requires
        are_magnitudes(g, frames, bins, high),
        are_magnitudes(h, frames, bins, high),
        are_magnitudes(p, frames, bins, high),
        frames <= usize::MAX,
        bins <= usize::MAX,
        (high + high).is_finite(),
        margin >= 0,
        0 <= round <= 10,
        round > 0 ==> all_add_up(h, p, g, frames, bins),
    ensures
        ({
            let (h1, p1) = settled(g, h, p, margin, round);
            &&& all_add_up(h1, p1, g, frames, bins)
            &&& are_magnitudes(h1, frames, bins, high)
            &&& are_magnitudes(p1, frames, bins, high)
        }),
    decreases 10 - round,
{
    if round < 10 {
        lemma_round_adds_up(g, h, p, margin, frames, bins, high);
        lemma_settled_adds_up(
            g,
            next_harmonic(g, h, p, margin),
            next_percussive(g, h, p, margin),
            margin,
            round + 1,
            frames,
            bins,
            high,
        );
    }
}

} // verus!
