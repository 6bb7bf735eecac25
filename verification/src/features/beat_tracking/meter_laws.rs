//! What holds of every time signature: it is that of the bars that repeat best.
use super::grid_laws::beats_in_bar;
use super::time_signature::intervals_of;
use super::time_signature::meter_of;
use super::time_signature::meter_score;
use super::time_signature::resemblance;
use super::time_signature::resemblance_sum;
use super::time_signature::squared_distances;
use super::time_signature::variation_of;
use super::time_signature::TimeSignature;
use crate::error::Outcome;
use crate::float::clamp_unit;
use crate::float::one;
use crate::float::ratio;
use crate::float::zero;
use crate::float::F32;
use crate::float_laws::in_unit;
use crate::float_laws::lemma_half;
use crate::float_laws::lemma_inverse_never_outside;
use crate::float_laws::lemma_nonnegative;
use crate::float_laws::lemma_part_of_whole;
use crate::float_laws::lemma_product_error;
use crate::float_laws::lemma_quotient_error;
use crate::float_laws::lemma_quotient_never_negative;
use crate::float_laws::lemma_ratio_above_zero;
use crate::float_laws::lemma_ratio_in_unit;
use crate::float_laws::lemma_root_never_negative;
use crate::float_laws::lemma_square_never_negative;
use crate::float_laws::lemma_sum_error;
use crate::float_laws::lemma_sum_grows;
use crate::float_laws::lemma_sum_never_negative;
use crate::float_laws::lemma_unit_is_finite;
use crate::float_laws::lemma_unit_product;
use crate::float_laws::lemma_whole_and_no_part;
use crate::float_laws::lemma_zero_and_one;
use crate::float_order::lemma_count;
use crate::float_order::lemma_difference_is_number;
use crate::float_order::lemma_no_distance;
use crate::float_order::lemma_products_keep_order;
use crate::float_order::lemma_quotient_is_number;
use crate::float_order::lemma_same_above_zero;
use crate::float_order::lemma_sum_at_most;
use crate::float_order::lemma_sums_keep_order;
use crate::float_order::lemma_tenths;
use crate::float_order::lemma_times_one;
use crate::sorting::sum_of;
use vstd::arithmetic::power2::lemma2_to64;
use vstd::arithmetic::power2::lemma_pow2_adds;
use vstd::arithmetic::power2::lemma_pow2_pos;
use vstd::arithmetic::power2::lemma_pow2_unfold;
use vstd::arithmetic::power2::pow2;
use vstd::prelude::*;

verus! {

/// The intervals between beats and their neighbours.
pub open spec fn spacing(beats: Seq<F32>) -> Seq<F32> {
    Seq::new((beats.len() - 1) as nat, |i: int| beats[i + 1] - beats[i])
}

/// The mean of values.
pub open spec fn mean_of(s: Seq<F32>) -> F32 {
    sum_of(s) / F32::from_usize(s.len() as usize)
}

proof fn lemma_intervals_are_spacing(beats: Seq<F32>, n: nat)
    requires
        1 <= n <= beats.len(),
        forall|i: int| 0 <= i < n - 1 ==> (#[trigger] beats[i + 1]) - beats[i] > zero(),
    ensures
        intervals_of(beats, n) == spacing(beats.take(n as int)),
    decreases n,
{
    if n > 1 {
        lemma_intervals_are_spacing(beats, (n - 1) as nat);
        assert(beats[(n - 2) + 1] - beats[n - 2] > zero());
    }
    assert(intervals_of(beats, n) =~= spacing(beats.take(n as int)));
}

/// How well intervals fit the bars of a time signature: their score at the lag of a bar.
pub open spec fn fit(s: Seq<F32>, meter: TimeSignature) -> F32 {
    meter_score(s, beats_in_bar(meter) as int, mean_of(s))
}

/// The time signature that is detected is one whose bars fit best: where the intervals
/// between beats fit the bars of one time signature better than those of the other two,
/// it is that one. Its score is the confidence.
pub proof fn lemma_fittest_meter_is_detected(beats: Seq<F32>, bpm: F32, meter: TimeSignature)
    requires
        beats.len() >= 8,
        intervals_of(beats, beats.len()).len() > 0,
    ensures
        meter_of(beats, bpm) matches Outcome::Value((detected, confidence)) ==> {
            let s = intervals_of(beats, beats.len());
            &&& confidence == clamp_unit(fit(s, detected))
            &&& (forall|other: TimeSignature|
                other != meter ==> #[trigger] fit(s, other) < fit(s, meter)) ==> detected == meter
        },
{
    let s = intervals_of(beats, beats.len());
    if forall|other: TimeSignature| other != meter ==> #[trigger] fit(s, other) < fit(s, meter) {
        let four = TimeSignature::FourFour;
        let three = TimeSignature::ThreeFour;
        let six = TimeSignature::SixEight;
        assert(four != meter ==> fit(s, four) < fit(s, meter));
        assert(three != meter ==> fit(s, three) < fit(s, meter));
        assert(six != meter ==> fit(s, six) < fit(s, meter));
    }
}

/// Intervals repeat every `n` beats.
pub open spec fn repeat_every(s: Seq<F32>, n: int) -> bool {
    forall|i: int| 0 <= i < s.len() - n ==> (#[trigger] s[i]) == s[i + n]
}

/// An interval differs from the one `n` beats later by half the mean or more.
pub open spec fn breaks_after(s: Seq<F32>, n: int) -> bool {
    exists|i: int|
        0 <= i < s.len() - n && ratio(5, 10) <= ((#[trigger] s[i]) - s[i + n]).abs() / mean_of(s)
}

proof fn lemma_same_resemblance(a: F32, mean: F32)
    requires
        a.is_finite(),
        zero() < mean,
        mean.is_finite(),
    ensures
        resemblance(a, a, mean) == one(),
{
    lemma_zero_and_one();
    lemma_no_distance(a);
    lemma_whole_and_no_part(mean);
    lemma_unit_is_finite(one());
    lemma_whole_and_no_part(one());
}

proof fn lemma_resemblance_in_unit(a: F32, b: F32, mean: F32)
    requires
        a.is_finite(),
        b.is_finite(),
        zero() < mean,
        mean.is_finite(),
    ensures
        in_unit(resemblance(a, b, mean)),
        ratio(5, 10) <= (a - b).abs() / mean ==> resemblance(a, b, mean).units() <= 3 * pow2(147),
{
    lemma_zero_and_one();
    let x = (a - b).abs();
    lemma_difference_is_number(a, b);
    lemma_quotient_is_number(x, mean);
    lemma_quotient_never_negative(x, mean);
    let d = x / mean;
    lemma_sum_grows(one(), d);
    let w = one() + d;
    if w.is_finite() {
        lemma_part_of_whole(one(), w);
        if ratio(5, 10) <= d {
            lemma_half();
            lemma_sums_keep_order(one(), ratio(5, 10), one(), d);
            let q = resemblance(a, b, mean);
            lemma_unit_is_finite(q);
            lemma_unit_is_finite(one());
            lemma_nonnegative(w);
            lemma_nonnegative(q);
            lemma_quotient_error(one(), w);
            let p = pow2(149) as int;
            lemma_pow2_unfold(149);
            lemma_pow2_unfold(148);
            lemma_pow2_adds(24, 123);
            lemma_pow2_pos(123);
            lemma2_to64();
            crate::float_order::lemma_finite_below(one() + ratio(5, 10), w);
            lemma_sum_error(one(), ratio(5, 10));
            lemma_large_denominator(q.units(), w.units(), pow2(147) as int);
        }
    } else {
        reveal(F32::spec_euclidean_or_real_div);
        lemma_nonnegative(w);
        crate::float_laws::lemma_from_pattern(false, 0);
        crate::rounding::lemma_mag_units_scaled(0, 0);
        lemma_pow2_pos(147);
    }
}

/// Without floats: what is divided by about one and a half is at most three quarters.
proof fn lemma_large_denominator(q: int, w: int, k: int)
    requires
        0x100_0000 <= k,
        0 <= q,
        0x100_0000 * (6 * k - w) <= w + 0x80_0000 || 6 * k <= w,
        0x100_0000 * (w * q - (4 * k) * (4 * k)) <= w * (q + 0x80_0000),
    ensures
        q <= 3 * k,
{
    if q > 3 * k {
        assert(59 * k <= 10 * w);
        assert(10 * (w * q) >= 177 * (k * k)) by (nonlinear_arith)
            requires
                59 * k <= 10 * w,
                q >= 3 * k,
                k > 0,
        ;
        assert(w * (q + 0x80_0000) == w * q + 0x80_0000 * w) by (nonlinear_arith);
        assert(0x80_0000 * w <= w * q) by (nonlinear_arith)
            requires
                q >= 0x80_0000,
                w >= 0,
        ;
        assert((4 * k) * (4 * k) == 16 * (k * k)) by (nonlinear_arith);
        assert(k * k > 0) by (nonlinear_arith)
            requires
                k > 0,
        ;
        assert(false);
    }
}

proof fn lemma_repeating_sum(s: Seq<F32>, lag: int, mean: F32, n: nat)
    requires
        0 < lag,
        n + lag <= s.len() < 0x100_0000,
        zero() < mean,
        mean.is_finite(),
        forall|i: int| 0 <= i < s.len() ==> (#[trigger] s[i]).is_finite(),
        forall|i: int| 0 <= i < n ==> (#[trigger] s[i]) == s[i + lag],
    ensures
        resemblance_sum(s, lag, mean, n).units() == n * pow2(149),
        zero() <= resemblance_sum(s, lag, mean, n),
        resemblance_sum(s, lag, mean, n).is_finite(),
    decreases n,
{
    lemma_zero_and_one();
    if n > 0 {
        lemma_repeating_sum(s, lag, mean, (n - 1) as nat);
        assert(s[n - 1] == s[n - 1 + lag]);
        lemma_same_resemblance(s[n - 1], mean);
        lemma_unit_is_finite(one());
        let sum = resemblance_sum(s, lag, mean, (n - 1) as nat);
        assert((n - 1) * pow2(149) + pow2(149) == n * pow2(149)) by (nonlinear_arith);
        lemma_sum_at_most(sum, one(), n as int, 149);
    } else {
        assert(0 * pow2(149) == 0) by (nonlinear_arith);
    }
}

/// The sum over `n` neighbours is at most `n`, and less by a quarter where one of them
/// is far off.
proof fn lemma_bounded_sum(s: Seq<F32>, lag: int, mean: F32, n: nat, i: int)
    requires
        0 < lag,
        n + lag <= s.len() < 0x20_0000,
        zero() < mean,
        mean.is_finite(),
        forall|k: int| 0 <= k < s.len() ==> (#[trigger] s[k]).is_finite(),
    ensures
        zero() <= resemblance_sum(s, lag, mean, n),
        resemblance_sum(s, lag, mean, n).is_finite(),
        resemblance_sum(s, lag, mean, n).units() <= (4 * n) * pow2(147),
        0 <= i < n && ratio(5, 10) <= (s[i] - s[i + lag]).abs() / mean ==> resemblance_sum(
            s,
            lag,
            mean,
            n,
        ).units() <= (4 * n - 1) * pow2(147),
    decreases n,
{
    lemma_zero_and_one();
    let q = pow2(147) as int;
    lemma_pow2_pos(147);
    lemma_pow2_unfold(149);
    lemma_pow2_unfold(148);
    if n > 0 {
        lemma_bounded_sum(s, lag, mean, (n - 1) as nat, i);
        let sum = resemblance_sum(s, lag, mean, (n - 1) as nat);
        let r = resemblance(s[n - 1], s[n - 1 + lag], mean);
        lemma_resemblance_in_unit(s[n - 1], s[n - 1 + lag], mean);
        lemma_unit_is_finite(r);
        assert((4 * (n - 1)) * q + 4 * q == (4 * n) * q) by (nonlinear_arith);
        assert((4 * (n - 1)) * q + 3 * q == (4 * n - 1) * q) by (nonlinear_arith);
        assert((4 * (n - 1) - 1) * q + 4 * q == (4 * n - 1) * q) by (nonlinear_arith);
        lemma_sum_at_most(sum, r, (4 * n) as int, 147);
        if 0 <= i < n && ratio(5, 10) <= (s[i] - s[i + lag]).abs() / mean {
            lemma_sum_at_most(sum, r, 4 * n - 1, 147);
        }
    } else {
        assert((4 * 0) * q == 0) by (nonlinear_arith);
    }
}

proof fn lemma_squares_are_numbers(s: Seq<F32>, mean: F32, n: nat)
    requires
        n <= s.len(),
        mean.is_finite(),
        forall|k: int| 0 <= k < s.len() ==> (#[trigger] s[k]).is_finite(),
    ensures
        !squared_distances(s, mean, n).is_nan(),
        !(squared_distances(s, mean, n) < zero()),
    decreases n,
{
    lemma_zero_and_one();
    if n > 0 {
        lemma_squares_are_numbers(s, mean, (n - 1) as nat);
        let d = s[n - 1] - mean;
        lemma_difference_is_number(s[n - 1], mean);
        lemma_square_never_negative(d);
        lemma_square_is_number(d);
        let sum = squared_distances(s, mean, (n - 1) as nat);
        lemma_sum_never_negative(sum, d * d);
        lemma_sum_grows(sum, d * d);
    } else {
        reveal(F32::units);
        crate::rounding::lemma_mag_units_scaled(0, 0);
    }
}

proof fn lemma_square_is_number(x: F32)
    requires
        !x.is_nan(),
    ensures
        !(x * x).is_nan(),
{
    reveal(F32::spec_mul);
    let u = crate::rounding::mag_units(x.mag());
    let p = pow2(149) as int;
    lemma_pow2_pos(149);
    crate::rounding::lemma_mag_units_nonnegative(x.mag());
    assert(u * u >= 0) by (nonlinear_arith);
    crate::rounding::lemma_rounded_monotone(u * u, p, u * u, p);
}

proof fn lemma_root_is_number(x: F32)
    requires
        !x.is_nan(),
        !(x < zero()),
    ensures
        !x.sqrt().is_nan(),
{
    lemma_zero_and_one();
    lemma_nonnegative(x);
    reveal(crate::float::sqrt_of);
    let n = crate::rounding::mag_units(x.mag()) * pow2(149);
    crate::rounding::lemma_mag_units_nonnegative(x.mag());
    lemma_pow2_pos(149);
    assert(n >= 0) by (nonlinear_arith)
        requires
            n == crate::rounding::mag_units(x.mag()) * pow2(149),
            crate::rounding::mag_units(x.mag()) >= 0,
            pow2(149) > 0,
    ;
    crate::rounding::lemma_sqrt_exists(n);
}

/// How even intervals are is a number from zero to one.
proof fn lemma_evenness_in_unit(s: Seq<F32>, mean: F32)
    requires
        0 < s.len() < 0x20_0000,
        zero() < mean,
        mean.is_finite(),
        forall|k: int| 0 <= k < s.len() ==> (#[trigger] s[k]).is_finite(),
    ensures
        in_unit(one() / (one() + variation_of(s, mean))),
{
    lemma_zero_and_one();
    lemma_squares_are_numbers(s, mean, s.len());
    let n = F32::from_usize(s.len() as usize);
    lemma_count(s.len() as int);
    lemma_pow2_pos(149);
    assert(s.len() * pow2(149) > 0) by (nonlinear_arith)
        requires
            s.len() > 0,
            pow2(149) > 0,
    ;
    let squares = squared_distances(s, mean, s.len());
    lemma_quotient_is_number(squares, n);
    lemma_quotient_never_negative(squares, n);
    lemma_root_never_negative(squares / n);
    lemma_root_is_number(squares / n);
    lemma_quotient_is_number((squares / n).sqrt(), mean);
    lemma_quotient_never_negative((squares / n).sqrt(), mean);
    let v = variation_of(s, mean);
    assert(zero() <= v);
    lemma_sum_grows(one(), v);
    lemma_inverse_never_outside(v);
    if (one() + v).is_finite() {
        lemma_part_of_whole(one(), one() + v);
    } else {
        reveal(F32::spec_euclidean_or_real_div);
        lemma_nonnegative(one() + v);
        crate::float_laws::lemma_from_pattern(false, 0);
    }
}

/// What the repeating share comes to, for intervals that repeat and for others.
proof fn lemma_shares(s: Seq<F32>, lag: int, mean: F32, i: int)
    requires
        0 < lag < s.len() < 0x20_0000,
        zero() < mean,
        mean.is_finite(),
        forall|k: int| 0 <= k < s.len() ==> (#[trigger] s[k]).is_finite(),
    ensures
        ({
            let n = (s.len() - lag) as nat;
            let share = resemblance_sum(s, lag, mean, n) / F32::from_usize(n as usize);
            &&& in_unit(share)
            &&& (forall|k: int| 0 <= k < n ==> (#[trigger] s[k]) == s[k + lag]) ==> share == one()
            &&& 0 <= i < n && ratio(5, 10) <= (s[i] - s[i + lag]).abs() / mean && s.len() <= 0x1_0000
                ==> share.units() <= pow2(149) - pow2(130)
        }),
{
    lemma_zero_and_one();
    let n = (s.len() - lag) as nat;
    let sum = resemblance_sum(s, lag, mean, n);
    let count = F32::from_usize(n as usize);
    lemma_count(n as int);
    lemma_bounded_sum(s, lag, mean, n, i);
    let p = pow2(149) as int;
    lemma_pow2_pos(149);
    lemma_pow2_pos(147);
    lemma_pow2_unfold(149);
    lemma_pow2_unfold(148);
    assert((4 * n) * pow2(147) == n * p) by (nonlinear_arith)
        requires
            p == 4 * pow2(147),
    ;
    assert(n * p > 0) by (nonlinear_arith)
        requires
            n > 0,
            p > 0,
    ;
    lemma_part_of_whole(sum, count);
    let share = sum / count;
    if forall|k: int| 0 <= k < n ==> (#[trigger] s[k]) == s[k + lag] {
        lemma_repeating_sum(s, lag, mean, n);
        lemma_same_above_zero(count, sum);
        lemma_whole_and_no_part(count);
    }
    if 0 <= i < n && ratio(5, 10) <= (s[i] - s[i + lag]).abs() / mean && s.len() <= 0x1_0000 {
        lemma_unit_is_finite(share);
        lemma_nonnegative(share);
        lemma_nonnegative(sum);
        lemma_quotient_error(sum, count);
        lemma_pow2_adds(17, 130);
        lemma_pow2_adds(19, 130);
        lemma_pow2_adds(24, 106);
        lemma_pow2_pos(106);
        lemma2_to64();
        lemma_share_below(share.units(), sum.units(), n as int, pow2(130) as int);
    }
}

/// Without floats: a sum short of `n` by a quarter is a share short of one.
proof fn lemma_share_below(share: int, sum: int, n: int, k: int)
    requires
        0 < n <= 0x1_0000,
        0x100_0000 <= k,
        0 <= share <= 0x8_0000 * k,
        sum <= (4 * n - 1) * (0x2_0000 * k),
        0x100_0000 * ((n * (0x8_0000 * k)) * share - sum * (0x8_0000 * k)) <= (n * (0x8_0000 * k)) * (
        share + 0x80_0000),
    ensures
        share <= 0x8_0000 * k - k,
{
    let p = 0x8_0000 * k;
    assert(p * (0x100_0000 * (n * share - sum)) <= p * (n * (share + 0x80_0000))) by (nonlinear_arith)
        requires
            0x100_0000 * ((n * p) * share - sum * p) <= (n * p) * (share + 0x80_0000),
    ;
    assert(0x100_0000 * (n * share - sum) <= n * (share + 0x80_0000)) by (nonlinear_arith)
        requires
            p * (0x100_0000 * (n * share - sum)) <= p * (n * (share + 0x80_0000)),
            p > 0,
    ;
    if share > p - k {
        assert(n * share >= n * p - n * k) by (nonlinear_arith)
            requires
                share >= p - k,
                n > 0,
        ;
        assert((4 * n - 1) * (0x2_0000 * k) == n * p - 0x2_0000 * k) by (nonlinear_arith)
            requires
                p == 0x8_0000 * k,
        ;
        assert(n * (share + 0x80_0000) <= n * (2 * p)) by (nonlinear_arith)
            requires
                share + 0x80_0000 <= 2 * p,
                n > 0,
        ;
        assert(n * (2 * p) == 0x10_0000 * (n * k)) by (nonlinear_arith)
            requires
                p == 0x8_0000 * k,
        ;
        assert(n * k <= 0x1_0000 * k) by (nonlinear_arith)
            requires
                n <= 0x1_0000,
                k > 0,
        ;
        assert(false);
    }
}

/// A share below one scores strictly below a share of one.
proof fn lemma_smaller_share(share: F32, even: F32)
    requires
        in_unit(share),
        in_unit(even),
        share.units() <= pow2(149) - pow2(130),
    ensures
        (share * ratio(7, 10) + even * ratio(3, 10)).min(one()) < (one() * ratio(7, 10) + even * ratio(
            3,
            10,
        )).min(one()),
{
    lemma_zero_and_one();
    lemma_tenths(7);
    lemma_tenths(3);
    let seven = ratio(7, 10);
    let three = ratio(3, 10);
    lemma_ratio_in_unit(7, 10);
    lemma_ratio_in_unit(3, 10);
    lemma_unit_is_finite(seven);
    lemma_unit_is_finite(three);
    lemma_unit_is_finite(share);
    lemma_unit_is_finite(even);
    lemma_unit_is_finite(one());
    lemma_ratio_above_zero(7, 10);
    lemma_times_one(seven);
    crate::float_order::lemma_product_commutes(one(), seven);
    let a = share * seven;
    let b = even * three;
    let full = one() * seven;
    lemma_unit_product(share, seven);
    lemma_unit_product(even, three);
    lemma_unit_product(one(), seven);
    lemma_unit_is_finite(a);
    lemma_unit_is_finite(b);
    lemma_unit_is_finite(full);
    lemma_product_error(share, seven);
    lemma_products_keep_order(even, three, one(), three);
    lemma_times_one(three);
    crate::float_order::lemma_product_commutes(one(), three);
    lemma_nonnegative(a);
    lemma_nonnegative(b);
    lemma_nonnegative(full);
    lemma_nonnegative(share);
    crate::float_order::lemma_unit_within(a);
    crate::float_order::lemma_unit_within(b);
    crate::float_order::lemma_unit_within(full);
    crate::float_sizes::lemma_sum_within(a, b, 149);
    crate::float_sizes::lemma_sum_within(full, b, 149);
    lemma_sum_error(a, b);
    lemma_sum_error(full, b);
    lemma_sum_grows(a, b);
    lemma_sum_grows(full, b);
    lemma_nonnegative(a + b);
    lemma_nonnegative(full + b);
    let k = pow2(130) as int;
    lemma_pow2_adds(19, 130);
    lemma_pow2_adds(24, 106);
    lemma_pow2_pos(106);
    lemma2_to64();
    lemma_scaled_share(a.units(), share.units(), seven.units(), k);
    let p = 0x8_0000 * k;
    assert(pow2(149) == p);
    assert(a.units() + k / 2 <= full.units());
    assert((a + b).units() < (full + b).units());
    assert((a + b).units() < p);
}

/// Without floats: seven tenths of a share short of one are short of seven tenths.
proof fn lemma_scaled_share(a: int, share: int, seven: int, k: int)
    requires
        0x100_0000 <= k,
        0 <= share <= 0x8_0000 * k - k,
        0 <= seven <= 0x8_0000 * k,
        (7 * (0x8_0000 * k) - 10 * seven) * 0x80_0000 <= 10 * (0x8_0000 * k),
        0 <= a <= 0x8_0000 * k,
        0x100_0000 * ((0x8_0000 * k) * a - share * seven) <= (0x8_0000 * k) * (a + 0x80_0000),
    ensures
        2 * a + k <= 2 * seven,
{
    let p = 0x8_0000 * k;
    assert(share * seven <= (p - k) * seven) by (nonlinear_arith)
        requires
            share <= p - k,
            seven >= 0,
    ;
    assert((p - k) * seven == p * seven - k * seven) by (nonlinear_arith);
    assert(p * (a + 0x80_0000) <= p * (2 * p)) by (nonlinear_arith)
        requires
            a + 0x80_0000 <= 2 * p,
            p > 0,
    ;
    assert(10 * (k * seven) >= k * (6 * p)) by (nonlinear_arith)
        requires
            10 * seven >= 6 * p,
            k > 0,
    ;
    assert(k * (6 * p) == p * (6 * k)) by (nonlinear_arith);
    assert(p * (2 * p) == p * (0x10_0000 * k)) by (nonlinear_arith)
        requires
            p == 0x8_0000 * k,
    ;
    let pk = p * k;
    assert(p * (6 * k) == 6 * pk && p * (0x10_0000 * k) == 0x10_0000 * pk) by (nonlinear_arith)
        requires
            pk == p * k,
    ;
    // p * a <= p * seven - 0.6 * p * k + p * k / 16
    assert(2 * (p * a) + pk <= 2 * (p * seven));
    assert(2 * a + k <= 2 * seven) by (nonlinear_arith)
        requires
            2 * (p * a) + p * k <= 2 * (p * seven),
            p > 0,
    ;
}

/// Where the intervals between beats repeat every bar of a time signature, that time
/// signature fits them as well as any.
pub proof fn lemma_repeating_bars_fit_best(s: Seq<F32>, meter: TimeSignature, other: TimeSignature)
    requires
        6 < s.len() <= 0x1_0000,
        zero() < mean_of(s),
        mean_of(s).is_finite(),
        forall|k: int| 0 <= k < s.len() ==> (#[trigger] s[k]).is_finite(),
        repeat_every(s, beats_in_bar(meter) as int),
    ensures
        fit(s, other) <= fit(s, meter),
        breaks_after(s, beats_in_bar(other) as int) ==> fit(s, other) < fit(s, meter),
{
    let mean = mean_of(s);
    let n = beats_in_bar(meter) as int;
    let m = beats_in_bar(other) as int;
    let i = choose|i: int|
        0 <= i < s.len() - m && ratio(5, 10) <= ((#[trigger] s[i]) - s[i + m]).abs() / mean;
    lemma_zero_and_one();
    lemma_shares(s, n, mean, 0);
    lemma_shares(s, m, mean, i);
    lemma_evenness_in_unit(s, mean);
    let share = resemblance_sum(s, m, mean, (s.len() - m) as nat) / F32::from_usize(
        (s.len() - m) as usize,
    );
    let even = one() / (one() + variation_of(s, mean));
    lemma_ratio_in_unit(7, 10);
    lemma_ratio_in_unit(3, 10);
    lemma_unit_is_finite(ratio(7, 10));
    lemma_unit_is_finite(ratio(3, 10));
    lemma_unit_is_finite(even);
    lemma_unit_is_finite(one());
    lemma_products_keep_order(share, ratio(7, 10), one(), ratio(7, 10));
    lemma_products_keep_order(even, ratio(3, 10), even, ratio(3, 10));
    lemma_sums_keep_order(
        share * ratio(7, 10),
        even * ratio(3, 10),
        one() * ratio(7, 10),
        even * ratio(3, 10),
    );
    if breaks_after(s, m) {
        lemma_smaller_share(share, even);
    }
}

/// Beats whose intervals repeat every bar of a time signature, and do not repeat every
/// bar of either of the others, have that time signature.
pub proof fn lemma_repeating_bars_are_detected(beats: Seq<F32>, bpm: F32, meter: TimeSignature)
    requires
        8 <= beats.len() <= 0x1_0000,
        forall|i: int|
            0 <= i < beats.len() - 1 ==> (#[trigger] beats[i + 1]) - beats[i] > zero() && (beats[i
                + 1] - beats[i]).is_finite(),
        zero() < mean_of(spacing(beats)),
        mean_of(spacing(beats)).is_finite(),
        repeat_every(spacing(beats), beats_in_bar(meter) as int),
        forall|other: TimeSignature|
            other != meter ==> breaks_after(spacing(beats), #[trigger] beats_in_bar(other) as int),
        ratio(1, 10_000_000_000) < bpm,
    ensures
        meter_of(beats, bpm) matches Outcome::Value((detected, _)) && detected == meter,
{
    let s = spacing(beats);
    lemma_intervals_are_spacing(beats, beats.len());
    assert(beats.take(beats.len() as int) =~= beats);
    assert forall|k: int| 0 <= k < s.len() implies (#[trigger] s[k]).is_finite() by {
        assert(s[k] == beats[k + 1] - beats[k]);
    }
    assert forall|other: TimeSignature| other != meter implies #[trigger] fit(s, other) < fit(
        s,
        meter,
    ) by {
        assert(breaks_after(s, beats_in_bar(other) as int));
        lemma_repeating_bars_fit_best(s, meter, other);
    }
    lemma_fittest_meter_is_detected(beats, bpm, meter);
}

/// Fewer than eight beats, or beats none of which is behind another, are taken for a common
/// meter, and that is as likely as not.
pub proof fn lemma_few_beats_are_common_time(beats: Seq<F32>, bpm: F32)
    requires
        beats.len() < 8 || forall|i: int|
            0 <= i < beats.len() - 1 ==> !((#[trigger] beats[i + 1]) - beats[i] > zero()),
        ratio(1, 10_000_000_000) < bpm,
    ensures
        meter_of(beats, bpm) == Outcome::<(TimeSignature, F32)>::Value(
            (TimeSignature::FourFour, ratio(5, 10)),
        ),
{
    if beats.len() >= 8 {
        lemma_no_intervals(beats, beats.len());
    }
}

proof fn lemma_no_intervals(beats: Seq<F32>, n: nat)
    requires
        n <= beats.len(),
        forall|i: int|
            0 <= i < beats.len() - 1 ==> !((#[trigger] beats[i + 1]) - beats[i] > zero()),
    ensures
        intervals_of(beats, n).len() == 0,
    decreases n,
{
    if n > 1 {
        lemma_no_intervals(beats, (n - 1) as nat);
        assert(!(beats[(n - 2) + 1] - beats[n - 2] > zero()));
    }
}

} // verus!
