//! What holds of every curve of novelty: what it rises with, and where it is nothing.
use crate::features::chroma::laws::lemma_whole_difference;
use crate::float::F32;
use crate::float::one;
use crate::float::ratio;
use crate::float::zero;
use crate::float_laws::lemma_itself_once;
use crate::float_laws::lemma_nonnegative;
use crate::float_laws::lemma_quotient_keeps_order;
use crate::float_laws::lemma_ratio_above_zero;
use crate::float_laws::lemma_zero_and_one;
use crate::float_laws::off_by_rounding;
use crate::float_order::lemma_count;
use crate::float_order::lemma_difference_is_number;
use crate::float_order::lemma_products_keep_order;
use crate::float_order::lemma_signed_sums_keep_order;
use crate::float_order::lemma_sums_keep_order;
use super::mel::falling_part;
use super::mel::rising_part;
use super::novelty::above_local_mean;
use super::novelty::frequency_content;
use super::novelty::local_mean;
use super::novelty::rise_energy;
use super::novelty::rises;
use super::novelty::scaled_curve;
use super::novelty::smoothed;
use super::novelty::superflux_energy;
use super::novelty::superflux_of;
use super::novelty::weighted_curves;
use super::novelty::window_end;
use super::novelty::window_max;
use super::novelty::window_start;
use super::novelty::window_sum;
use super::peak_picking::peak_height;
use super::selection_laws::lemma_highest_value;
use vstd::arithmetic::power2::lemma_pow2_pos;
use vstd::arithmetic::power2::pow2;
use vstd::prelude::*;

verus! {

// ---------------------------------------------------------------- scaling

/// A curve that is scaled has one where it was greatest, and stands elsewhere as it did.
pub proof fn lemma_greatest_becomes_one(curve: Seq<F32>, top: int, i: int)
    requires
        0 <= top < curve.len(),
        0 <= i < curve.len(),
        forall|k: int|
            0 <= k < curve.len() ==> zero() <= #[trigger] curve[k] && curve[k] <= curve[top],
        curve[top].is_finite(),
        ratio(1, 10_000_000_000) < curve[top],
    ensures
        scaled_curve(curve).len() == curve.len(),
        scaled_curve(curve)[top].units() == one().units(),
        forall|j: int|
            0 <= j < curve.len() && curve[i] <= #[trigger] curve[j] ==> !(scaled_curve(curve)[j]
                < scaled_curve(curve)[i]),
{
    let max = peak_height(curve, curve.len());
    lemma_zero_and_one();
    lemma_ratio_above_zero(1, 10_000_000_000);
    lemma_highest_value(curve, curve.len(), top);
    assert(max != zero());
    let k = choose|k: int| 0 <= k < curve.len() && #[trigger] curve[k] == max;
    assert(curve[k] <= curve[top]);
    crate::float_order::lemma_same_above_zero(max, curve[top]);
    lemma_itself_once(max);
    assert forall|j: int| 0 <= j < curve.len() && curve[i] <= #[trigger] curve[j] implies !(
    scaled_curve(curve)[j] < scaled_curve(curve)[i]) by {
        lemma_quotient_keeps_order(curve[i], curve[j], max);
    }
}

// ------------------------------------------------------------------ rises

/// The rise to a value: nothing where it falls or stays, and no less where the value is
/// greater or the one before it smaller.
pub proof fn lemma_rises(a: Seq<F32>, b: Seq<F32>, i: int)
    requires
        0 <= i,
        i + 1 < a.len(),
        i + 1 < b.len(),
        a[i].is_finite(),
        a[i + 1].is_finite(),
        b[i].is_finite(),
        b[i + 1].is_finite(),
    ensures
        rises(a).len() == a.len() - 1,
        a[i + 1] <= a[i] ==> rises(a)[i].zero_valued(),
        b[i] <= a[i] && a[i + 1] <= b[i + 1] ==> rises(a)[i] <= rises(b)[i],
{
    lemma_rise(a[i], a[i + 1]);
    if b[i] <= a[i] && a[i + 1] <= b[i + 1] {
        lemma_greater_rise(a[i], a[i + 1], b[i], b[i + 1]);
    }
}

pub proof fn lemma_rise(before: F32, now: F32)
    requires
        before.is_finite(),
        now.is_finite(),
    ensures
        zero() <= (now - before).max(zero()),
        now <= before ==> (now - before).max(zero()).zero_valued(),
{
    lemma_zero_and_one();
    lemma_difference_is_number(now, before);
    if now <= before {
        lemma_signed_sums_keep_order(now, before.neg(), before, before.neg());
        crate::float_laws::lemma_negated(before);
        crate::float_order::lemma_no_distance(before);
        let d = before - before;
        assert(d.abs() == zero());
        assert(d.units() == 0) by {
            reveal(F32::units);
            crate::rounding::lemma_mag_units_scaled(0, 0);
        }
        let e = now - before;
        assert(e.units() <= 0);
        if e.units() == 0 {
            assert(e.mag() == 0) by {
                reveal(F32::units);
                crate::rounding::lemma_mag_units_scaled(0, 0);
                if e.mag() > 0 {
                    crate::rounding::lemma_mag_units_increases(0, e.mag());
                }
            }
        }
    }
}

proof fn lemma_greater_rise(a0: F32, a1: F32, b0: F32, b1: F32)
    requires
        a0.is_finite(),
        a1.is_finite(),
        b0.is_finite(),
        b1.is_finite(),
        b0 <= a0,
        a1 <= b1,
    ensures
        (a1 - a0).max(zero()) <= (b1 - b0).max(zero()),
        zero() <= (a1 - a0).max(zero()),
{
    lemma_zero_and_one();
    crate::float_laws::lemma_negated(a0);
    crate::float_laws::lemma_negated(b0);
    lemma_signed_sums_keep_order(a1, a0.neg(), b1, b0.neg());
    lemma_difference_is_number(a1, a0);
    lemma_difference_is_number(b1, b0);
}

/// No energy is added where nothing rises.
proof fn lemma_no_more(acc: F32, d: F32)
    requires
        acc.zero_valued(),
        d.zero_valued(),
    ensures
        (acc + d * d).zero_valued(),
        acc + d * d == zero(),
{
    reveal(F32::spec_mul);
    reveal(F32::spec_add);
    reveal(F32::units);
    lemma_pow2_pos(149);
    crate::rounding::lemma_mag_units_scaled(0, 0);
    crate::rounding::lemma_rounded_exact(0, 1);
    crate::rounding::lemma_rounded_exact(0, pow2(149) as int);
}

/// A spectrum of which no bin rises has no flux.
pub proof fn lemma_falling_spectrum_has_no_flux(prev: Seq<F32>, curr: Seq<F32>, n: nat)
    requires
        n <= prev.len(),
        n <= curr.len(),
        forall|b: int|
            0 <= b < n ==> (#[trigger] curr[b]) <= prev[b] && curr[b].is_finite()
                && prev[b].is_finite(),
    ensures
        rise_energy(prev, curr, n).zero_valued(),
    decreases n,
{
    if n > 0 {
        lemma_falling_spectrum_has_no_flux(prev, curr, (n - 1) as nat);
        assert(curr[n - 1] <= prev[n - 1]);
        lemma_rise(prev[n - 1], curr[n - 1]);
        lemma_no_more(
            rise_energy(prev, curr, (n - 1) as nat),
            (curr[n - 1] - prev[n - 1]).max(zero()),
        );
    }
}

/// The more the bins of a spectrum rise, the greater is its flux.
pub proof fn lemma_greater_rises_greater_flux(
    prev: Seq<F32>,
    curr: Seq<F32>,
    louder: Seq<F32>,
    n: nat,
)
    requires
        n <= prev.len(),
        n <= curr.len(),
        n <= louder.len(),
        forall|b: int|
            0 <= b < n ==> (#[trigger] curr[b]) <= louder[b] && curr[b].is_finite()
                && louder[b].is_finite() && prev[b].is_finite() && (louder[b]
                - prev[b]).is_finite(),
    ensures
        zero() <= rise_energy(prev, curr, n),
        rise_energy(prev, curr, n) <= rise_energy(prev, louder, n),
    decreases n,
{
    lemma_zero_and_one();
    if n > 0 {
        lemma_greater_rises_greater_flux(prev, curr, louder, (n - 1) as nat);
        let b = n - 1;
        assert(curr[b] <= louder[b]);
        lemma_greater_rise(prev[b], curr[b], prev[b], louder[b]);
        let d = (curr[b] - prev[b]).max(zero());
        let e = (louder[b] - prev[b]).max(zero());
        lemma_products_keep_order(d, d, e, e);
        lemma_sums_keep_order(
            rise_energy(prev, curr, (n - 1) as nat),
            d * d,
            rise_energy(prev, louder, (n - 1) as nat),
            e * e,
        );
    } else {
        assert(zero() <= crate::sorting::empty_sum()) by {
            reveal(F32::units);
            crate::rounding::lemma_mag_units_scaled(0, 0);
        }
    }
}

// -------------------------------------------------------------- superflux

proof fn lemma_window_max(s: Seq<F32>, start: int, n: nat, i: int)
    requires
        0 <= start,
        start + n <= s.len(),
        start <= i < start + n,
        forall|k: int| 0 <= k < s.len() ==> (#[trigger] s[k]).is_finite(),
    ensures
        s[i] <= window_max(s, start, n),
        window_max(s, start, n).is_finite(),
    decreases n,
{
    lemma_zero_and_one();
    lemma_window_max_is_finite(s, start, (n - 1) as nat);
    assert(s[start + n - 1].is_finite());
    if i < start + n - 1 {
        lemma_window_max(s, start, (n - 1) as nat, i);
    }
}

proof fn lemma_window_max_is_finite(s: Seq<F32>, start: int, n: nat)
    requires
        0 <= start,
        start + n <= s.len(),
        forall|k: int| 0 <= k < s.len() ==> (#[trigger] s[k]).is_finite(),
    ensures
        window_max(s, start, n).is_finite(),
    decreases n,
{
    if n > 0 {
        lemma_window_max_is_finite(s, start, (n - 1) as nat);
        assert(s[start + n - 1].is_finite());
    }
}

/// A bin of the frame before, within `reach` of bin `b` and in the band, is no lower than
/// `x`.
pub open spec fn was_as_high_near(prev: Seq<F32>, x: F32, b: int, reach: int, start: int, end: int) -> bool {
    exists|i: int|
        start <= i < end && b - reach <= i <= b + reach && x <= #[trigger] prev[i]
}

proof fn lemma_no_superflux(
    prev: Seq<F32>,
    curr: Seq<F32>,
    reach: int,
    start: int,
    end: int,
    n: nat,
)
    requires
        0 <= reach,
        0 <= start,
        start + n <= end,
        end <= prev.len(),
        end <= curr.len(),
        forall|k: int| 0 <= k < prev.len() ==> (#[trigger] prev[k]).is_finite(),
        forall|k: int| 0 <= k < curr.len() ==> (#[trigger] curr[k]).is_finite(),
        forall|b: int|
            start <= b < end ==> #[trigger] was_as_high_near(prev, curr[b], b, reach, start, end),
    ensures
        superflux_energy(prev, curr, reach, start, end, n).zero_valued(),
    decreases n,
{
    if n > 0 {
        lemma_no_superflux(prev, curr, reach, start, end, (n - 1) as nat);
        let b = start + n - 1;
        assert(was_as_high_near(prev, curr[b], b, reach, start, end));
        let i = choose|i: int|
            start <= i < end && b - reach <= i <= b + reach && curr[b] <= #[trigger] prev[i];
        let from = window_start(b, reach, start);
        let width = (window_end(b, reach, end) - from) as nat;
        lemma_window_max(prev, from, width, i);
        let max = window_max(prev, from, width);
        assert(curr[b].is_finite());
        lemma_rise(max, curr[b]);
        lemma_no_more(
            superflux_energy(prev, curr, reach, start, end, (n - 1) as nat),
            (curr[b] - max).max(zero()),
        );
    }
}

/// A tone that wavers by a few bins makes no novelty: where every bin of a frame was as
/// high in the frame before, as near as the filter reaches, nothing is new.
pub proof fn lemma_wavering_tone_is_not_new(
    frames: Seq<Vec<F32>>,
    reach: int,
    start: int,
    end: int,
    f: int,
)
    requires
        0 <= reach,
        0 <= start <= end,
        0 <= f,
        f + 1 < frames.len(),
        end <= frames[f]@.len(),
        end <= frames[f + 1]@.len(),
        forall|k: int| 0 <= k < frames[f]@.len() ==> (#[trigger] frames[f]@[k]).is_finite(),
        forall|k: int|
            0 <= k < frames[f + 1]@.len() ==> (#[trigger] frames[f + 1]@[k]).is_finite(),
        forall|b: int|
            start <= b < end ==> #[trigger] was_as_high_near(
                frames[f]@,
                frames[f + 1]@[b],
                b,
                reach,
                start,
                end,
            ),
    ensures
        superflux_of(frames, reach, start, end)[f].zero_valued(),
{
    let n = (end - start) as nat;
    lemma_no_superflux(frames[f]@, frames[f + 1]@, reach, start, end, n);
    reveal(crate::float::sqrt_of);
}

/// What sounds further from a bin than the filter reaches, or outside the band, does not
/// keep its rise from being new: with the same values in reach, the energy is the same.
pub proof fn lemma_superflux_is_of_what_is_in_reach(
    p: Seq<F32>,
    q: Seq<F32>,
    curr: Seq<F32>,
    reach: int,
    start: int,
    end: int,
    n: nat,
)
    requires
        0 <= reach,
        0 <= start,
        start + n <= end,
        end <= p.len(),
        end <= q.len(),
        end <= curr.len(),
        forall|i: int|
            start <= i < end && start - reach <= i < start + n + reach ==> #[trigger] p[i] == q[i],
    ensures
        superflux_energy(p, curr, reach, start, end, n) == superflux_energy(
            q,
            curr,
            reach,
            start,
            end,
            n,
        ),
    decreases n,
{
    if n > 0 {
        lemma_superflux_is_of_what_is_in_reach(p, q, curr, reach, start, end, (n - 1) as nat);
        let b = start + n - 1;
        let from = window_start(b, reach, start);
        lemma_same_window_max(p, q, from, (window_end(b, reach, end) - from) as nat);
    }
}

proof fn lemma_same_window_max(p: Seq<F32>, q: Seq<F32>, start: int, n: nat)
    requires
        forall|i: int| start <= i < start + n ==> #[trigger] p[i] == q[i],
    ensures
        window_max(p, start, n) == window_max(q, start, n),
    decreases n,
{
    if n > 0 {
        lemma_same_window_max(p, q, start, (n - 1) as nat);
        assert(p[start + n - 1] == q[start + n - 1]);
    }
}

// ------------------------------------------------------------ conditioning

proof fn lemma_same_window_sum(p: Seq<F32>, q: Seq<F32>, start: int, n: nat)
    requires
        forall|i: int| start <= i < start + n ==> #[trigger] p[i] == q[i],
    ensures
        window_sum(p, start, n) == window_sum(q, start, n),
    decreases n,
{
    if n > 0 {
        lemma_same_window_sum(p, q, start, (n - 1) as nat);
        assert(p[start + n - 1] == q[start + n - 1]);
    }
}

/// A value that is conditioned depends on those near it alone: half a window to each side.
pub proof fn lemma_conditioning_is_local(p: Seq<F32>, q: Seq<F32>, window: int, i: int)
    requires
        p.len() == q.len(),
        0 <= window,
        0 <= i < p.len(),
        forall|k: int|
            0 <= k < p.len() && i - window / 2 <= k <= i + window / 2 ==> #[trigger] p[k] == q[k],
    ensures
        above_local_mean(p, window)[i] == above_local_mean(q, window)[i],
        smoothed(p, window)[i] == smoothed(q, window)[i],
{
    let start = window_start(i, window / 2, 0);
    let end = window_end(i, window / 2, p.len() as int);
    lemma_same_window_sum(p, q, start, (end - start) as nat);
    assert(p[i] == q[i]);
    assert(local_mean(p, window / 2, i) == local_mean(q, window / 2, i));
}

/// A curve alone in having weight decides how the combined curve stands: the spectral one
/// by the first weight, that of energy by the second, and that of high frequencies by the
/// third.
pub proof fn lemma_curve_with_all_the_weight(
    spectral: Seq<F32>,
    energy: Seq<F32>,
    hfc: Seq<F32>,
    w: F32,
    i: int,
    j: int,
)
    requires
        spectral.len() == energy.len() == hfc.len(),
        0 <= i < spectral.len(),
        0 <= j < spectral.len(),
        zero() < w,
        w.is_finite(),
        forall|k: int| 0 <= k < spectral.len() ==> crate::float_laws::in_unit(#[trigger] spectral[k]),
        forall|k: int| 0 <= k < energy.len() ==> crate::float_laws::in_unit(#[trigger] energy[k]),
        forall|k: int| 0 <= k < hfc.len() ==> crate::float_laws::in_unit(#[trigger] hfc[k]),
    ensures
        spectral[i] <= spectral[j] ==> {
            let c = weighted_curves(spectral, energy, hfc, w, zero(), zero());
            !(c[j] < c[i])
        },
        energy[i] <= energy[j] ==> {
            let c = weighted_curves(spectral, energy, hfc, zero(), w, zero());
            !(c[j] < c[i])
        },
        hfc[i] <= hfc[j] ==> {
            let c = weighted_curves(spectral, energy, hfc, zero(), zero(), w);
            !(c[j] < c[i])
        },
{
    let none = zero();
    lemma_zero_and_one();
    lemma_ratio_above_zero(1, 10_000_000_000);
    lemma_no_weight(spectral[i], spectral[j]);
    lemma_no_weight(energy[i], energy[j]);
    lemma_no_weight(hfc[i], hfc[j]);
    if spectral[i] <= spectral[j] {
        lemma_weighted(spectral[i], spectral[j], w);
        lemma_ordered_sums(
            spectral[i] * w,
            energy[i] * none,
            hfc[i] * none,
            spectral[j] * w,
            energy[j] * none,
            hfc[j] * none,
            (w + none + none).max(ratio(1, 10_000_000_000)),
        );
    }
    if energy[i] <= energy[j] {
        lemma_weighted(energy[i], energy[j], w);
        lemma_ordered_sums(
            spectral[i] * none,
            energy[i] * w,
            hfc[i] * none,
            spectral[j] * none,
            energy[j] * w,
            hfc[j] * none,
            (none + w + none).max(ratio(1, 10_000_000_000)),
        );
    }
    if hfc[i] <= hfc[j] {
        lemma_weighted(hfc[i], hfc[j], w);
        lemma_ordered_sums(
            spectral[i] * none,
            energy[i] * none,
            hfc[i] * w,
            spectral[j] * none,
            energy[j] * none,
            hfc[j] * w,
            (none + none + w).max(ratio(1, 10_000_000_000)),
        );
    }
}

/// Without weight, no number is above another.
proof fn lemma_no_weight(x: F32, y: F32)
    requires
        crate::float_laws::in_unit(x),
        crate::float_laws::in_unit(y),
    ensures
        zero() <= x * zero(),
        x * zero() <= y * zero(),
        y * zero() <= x * zero(),
{
    lemma_zero_and_one();
    crate::float_laws::lemma_unit_is_finite(x);
    crate::float_laws::lemma_unit_is_finite(y);
    crate::float_order::lemma_product_commutes(x, zero());
    crate::float_order::lemma_product_commutes(y, zero());
    crate::float_laws::lemma_scaled_down(zero(), x);
    crate::float_laws::lemma_scaled_down(zero(), y);
}

proof fn lemma_weighted(x: F32, y: F32, w: F32)
    requires
        crate::float_laws::in_unit(x),
        crate::float_laws::in_unit(y),
        x <= y,
        zero() < w,
        w.is_finite(),
    ensures
        zero() <= x * w,
        x * w <= y * w,
{
    crate::float_laws::lemma_unit_is_finite(y);
    lemma_products_keep_order(x, w, y, w);
}

proof fn lemma_ordered_sums(a: F32, b: F32, c: F32, d: F32, e: F32, f: F32, total: F32)
    requires
        zero() <= a,
        a <= d,
        zero() <= b,
        b <= e,
        zero() <= c,
        c <= f,
        zero() < total,
    ensures
        !((d + e + f) / total < (a + b + c) / total),
{
    lemma_sums_keep_order(a, b, d, e);
    lemma_sums_keep_order(a + b, c, d + e, f);
    lemma_quotient_keeps_order(a + b + c, d + e + f, total);
}

// ------------------------------------------------------------ mel triangles

/// A band takes from the bins between its corners alone: on the way up to its centre by
/// how far they are on it, and on the way down by how far they are from its end, but for
/// rounding.
pub proof fn lemma_band_is_a_triangle(left: int, center: int, right: int, m: int, b: int)
    requires
        0 <= left < center < right < 0x100_0000,
        0 <= m <= usize::MAX,
        0 <= b < 0x100_0000,
    ensures
        ({
            let up = rising_part(left, center, right, m, b);
            let down = falling_part(left, center, right, m, b);
            &&& up.len() == 1 <==> left < b <= center
            &&& down.len() == 1 <==> center <= b < right
            &&& up.len() <= 1
            &&& down.len() <= 1
            &&& left < b <= center ==> up[0].0 == m && off_by_rounding(
                up[0].1.units(),
                ((b - left) * pow2(149)) * pow2(149),
                (center - left) * pow2(149),
            )
            &&& center <= b < right ==> down[0].0 == m && off_by_rounding(
                down[0].1.units(),
                ((right - b) * pow2(149)) * pow2(149),
                (right - center) * pow2(149),
            )
        }),
{
    if left < b <= center {
        lemma_part_of_a_side(b, left, center, left);
    }
    if center <= b < right {
        lemma_part_of_a_side(right, b, right, center);
    }
}

/// A part of a distance in bins.
proof fn lemma_part_of_a_side(a: int, b: int, c: int, d: int)
    requires
        0 <= b < a < 0x100_0000,
        0 <= d < c < 0x100_0000,
        a - b <= c - d,
    ensures
        ({
            let w = (F32::from_usize(a as usize) - F32::from_usize(b as usize)) / (F32::from_usize(
                c as usize,
            ) - F32::from_usize(d as usize));
            &&& zero() < w
            &&& off_by_rounding(
                w.units(),
                ((a - b) * pow2(149)) * pow2(149),
                (c - d) * pow2(149),
            )
        }),
{
    let x = F32::from_usize(a as usize);
    let y = F32::from_usize(b as usize);
    let u = F32::from_usize(c as usize);
    let v = F32::from_usize(d as usize);
    lemma_zero_and_one();
    lemma_count(a);
    lemma_count(b);
    lemma_count(c);
    lemma_count(d);
    lemma_whole_difference(x, y, a, b);
    lemma_whole_difference(u, v, c, d);
    lemma_pow2_pos(149);
    let p = x - y;
    let q = u - v;
    assert((a - b) * pow2(149) <= (c - d) * pow2(149) && pow2(149) <= (a - b) * pow2(149))
        by (nonlinear_arith)
        requires
            1 <= a - b <= c - d,
            pow2(149) > 0,
    ;
    crate::float_laws::lemma_part_of_whole(p, q);
    crate::float_laws::lemma_unit_is_finite(p / q);
    crate::float_laws::lemma_quotient_error(p, q);
    let w = (p / q).units();
    if w <= 0 {
        // a part of one in sixteen million is still told from nothing
        let n = ((a - b) * pow2(149)) * pow2(149);
        let e = (c - d) * pow2(149);
        lemma_nonnegative(p / q);
        assert(w == 0);
        assert(0x100_0000 * (n - e * w) <= e * (w + 0x80_0000));
        assert(e * w == 0) by (nonlinear_arith)
            requires
                w == 0,
        ;
        assert(e * (w + 0x80_0000) == e * 0x80_0000) by (nonlinear_arith)
            requires
                w == 0,
        ;
        let one_unit = pow2(149) as int;
        assert(one_unit * one_unit <= n) by (nonlinear_arith)
            requires
                n == ((a - b) * one_unit) * one_unit,
                1 <= a - b,
                one_unit > 0,
        ;
        assert(e <= 0x100_0000 * one_unit) by (nonlinear_arith)
            requires
                e == (c - d) * one_unit,
                c - d <= 0x100_0000,
                one_unit > 0,
        ;
        vstd::arithmetic::power2::lemma_pow2_adds(64, 85);
        vstd::arithmetic::power2::lemma_pow2_pos(85);
        vstd::arithmetic::power2::lemma2_to64();
        assert(one_unit > 0x80_0000) by (nonlinear_arith)
            requires
                one_unit == pow2(64) * pow2(85),
                pow2(64) == 0x1_0000_0000_0000_0000,
                pow2(85) > 0,
        ;
        assert(false) by (nonlinear_arith)
            requires
                0x100_0000 * n <= e * 0x80_0000,
                e <= 0x100_0000 * one_unit,
                one_unit * one_unit <= n,
                one_unit > 0x80_0000,
        ;
    }
    assert(p.units() * pow2(149) == ((a - b) * pow2(149)) * pow2(149));
    assert(q.units() == (c - d) * pow2(149));
    assert(zero() < p / q);
}

// ------------------------------------------------------- high frequencies

/// The content of a spectrum with one tone is that of the tone.
proof fn lemma_single_content(frame: Seq<F32>, k: int, n: nat)
    requires
        n <= frame.len() <= usize::MAX,
        0 <= k < frame.len(),
        zero() <= frame[k],
        frame[k].is_finite(),
        (F32::from_usize(k as usize) * frame[k] * frame[k]).is_finite(),
        forall|i: int| 0 <= i < frame.len() && i != k ==> #[trigger] frame[i] == zero(),
    ensures
        !frequency_content(frame, 0, n).is_nan(),
        frequency_content(frame, 0, n).units() == if k < n {
            (F32::from_usize(k as usize) * frame[k] * frame[k]).units()
        } else {
            0
        },
    decreases n,
{
    lemma_zero_and_one();
    if n == 0 {
        assert(crate::sorting::empty_sum().units() == 0) by {
            reveal(F32::units);
            crate::rounding::lemma_mag_units_scaled(0, 0);
        }
    } else {
        lemma_single_content(frame, k, (n - 1) as nat);
        let before = frequency_content(frame, 0, (n - 1) as nat);
        let b = n - 1;
        let y = F32::from_usize(b as usize) * frame[b] * frame[b];
        if b == k {
            lemma_added_to_nothing(before, y);
        } else {
            assert(frame[b] == zero());
            vstd::arithmetic::power2::lemma2_to64();
            crate::float_sizes::lemma_count_within(b, 64);
            crate::float_laws::lemma_count_order(0, b as usize);
            let x = F32::from_usize(b as usize);
            crate::features::chroma::laws::lemma_nothing_of(x);
            lemma_nothing_times(x * zero());
            lemma_nothing_added(before, y);
        }
    }
}

proof fn lemma_nothing_times(x: F32)
    requires
        x.zero_valued(),
    ensures
        (x * zero()).zero_valued(),
{
    reveal(F32::spec_mul);
    lemma_pow2_pos(149);
    crate::rounding::lemma_mag_units_scaled(0, 0);
    crate::rounding::lemma_rounded_exact(0, pow2(149) as int);
    assert(crate::rounding::mag_units(0) * crate::rounding::mag_units(0) == 0) by (nonlinear_arith)
        requires
            crate::rounding::mag_units(0) == 0,
    ;
    assert(crate::rounding::mag_units(0) * pow2(149) == 0) by (nonlinear_arith)
        requires
            crate::rounding::mag_units(0) == 0,
    ;
}

proof fn lemma_nothing_added(x: F32, y: F32)
    requires
        !x.is_nan(),
        y.zero_valued(),
    ensures
        !(x + y).is_nan(),
        (x + y).units() == x.units(),
{
    lemma_zero_and_one();
    crate::float_order::lemma_plus_zero(x);
    assert((x + y).units() == (x + zero()).units() && !(x + y).is_nan()) by {
        reveal(F32::spec_add);
        reveal(F32::units);
        crate::rounding::lemma_mag_units_scaled(0, 0);
    }
}

proof fn lemma_added_to_nothing(x: F32, y: F32)
    requires
        !x.is_nan(),
        x.units() == 0,
        y.is_finite(),
    ensures
        !(x + y).is_nan(),
        (x + y).units() == y.units(),
{
    lemma_zero_and_one();
    crate::float_laws::lemma_zero_plus(y);
    crate::rounding::lemma_mag_units_scaled(0, 0);
    assert(x.mag() == 0) by {
        reveal(F32::units);
        if x.mag() > 0 {
            crate::rounding::lemma_mag_units_increases(0, x.mag());
        }
    }
    assert((x + y).units() == (zero() + y).units() && !(x + y).is_nan()) by {
        reveal(F32::spec_add);
        reveal(F32::units);
    }
}

/// A tone that is moved to a higher bin has more of high frequencies, not less, and one in
/// the lowest bin has none.
pub proof fn lemma_higher_tone_has_more_content(a: Seq<F32>, b: Seq<F32>, i: int, j: int)
    requires
        a.len() == b.len() <= usize::MAX,
        0 <= i <= j < a.len(),
        a[i] == b[j],
        zero() <= a[i],
        a[i].is_finite(),
        (F32::from_usize(j as usize) * a[i]).is_finite(),
        (F32::from_usize(j as usize) * a[i] * a[i]).is_finite(),
        forall|k: int| 0 <= k < a.len() && k != i ==> #[trigger] a[k] == zero(),
        forall|k: int| 0 <= k < b.len() && k != j ==> #[trigger] b[k] == zero(),
    ensures
        frequency_content(a, 0, a.len()) <= frequency_content(b, 0, b.len()),
        i == 0 ==> frequency_content(a, 0, a.len()).units() == 0,
{
    let x = a[i];
    let m = F32::from_usize(i as usize);
    let n = F32::from_usize(j as usize);
    lemma_zero_and_one();
    crate::float_laws::lemma_count_order(i as usize, j as usize);
    vstd::arithmetic::power2::lemma2_to64();
    crate::float_sizes::lemma_count_within(j, 64);
    lemma_products_keep_order(m, x, n, x);
    crate::float_order::lemma_finite_below(m * x, n * x);
    lemma_products_keep_order(m * x, x, n * x, x);
    crate::float_order::lemma_finite_below(m * x * x, n * x * x);
    lemma_single_content(a, i, a.len());
    lemma_single_content(b, j, b.len());
    if i == 0 {
        crate::float_laws::lemma_from_none();
        assert(m == zero());
        crate::float_order::lemma_product_commutes(zero(), x);
        crate::features::chroma::laws::lemma_nothing_of(x);
        assert((m * x).zero_valued());
        lemma_nothing_of_either(m * x, x);
    }
}

proof fn lemma_nothing_of_either(z: F32, x: F32)
    requires
        z.zero_valued(),
        x.is_finite(),
    ensures
        (z * x).units() == 0,
{
    reveal(F32::spec_mul);
    reveal(F32::units);
    lemma_pow2_pos(149);
    crate::rounding::lemma_mag_units_scaled(0, 0);
    crate::rounding::lemma_rounded_exact(0, pow2(149) as int);
    let u = crate::rounding::mag_units(x.mag());
    assert(crate::rounding::mag_units(0) * u == 0) by (nonlinear_arith)
        requires
            crate::rounding::mag_units(0) == 0,
    ;
    assert(crate::rounding::mag_units(0) * pow2(149) == 0) by (nonlinear_arith)
        requires
            crate::rounding::mag_units(0) == 0,
    ;
}

} // verus!
