//! What holds of how steady beats are: the more even their intervals, the more stable
//! their grid and the surer the tempo of a stretch.
use super::grid::evenness;
use super::grid::stability_of;
use super::grid::times_of;
use super::grid::BeatPosition;
use super::meter_laws::mean_of;
use super::tempo_variation::segment_at;
use super::tempo_variation::segment_from;
use super::tempo_variation::times_within;
use super::time_signature::intervals_of;
use super::time_signature::squared_distances;
use crate::error::Outcome;
use crate::float::one;
use crate::float::ratio;
use crate::float::zero;
use crate::float::F32;
use crate::float_laws::in_unit;
use crate::float_laws::lemma_complement_in_unit;
use crate::float_laws::lemma_count_order;
use crate::float_laws::lemma_half;
use crate::float_laws::lemma_quotient_error;
use crate::float_laws::lemma_quotient_keeps_order;
use crate::float_laws::lemma_quotient_never_negative;
use crate::float_laws::lemma_ratio_above_zero;
use crate::float_laws::lemma_ratio_is_finite;
use crate::float_laws::lemma_sum_grows;
use crate::float_laws::lemma_zero_and_one;
use crate::float_laws::off_by_rounding;
use crate::float_order::lemma_inverse_falls;
use crate::float_order::lemma_less_left;
use crate::float_order::lemma_products_keep_order;
use crate::float_order::lemma_quotient_is_number;
use crate::float_order::lemma_root_keeps_order;
use crate::float_order::lemma_sums_keep_order;
use vstd::arithmetic::power2::lemma_pow2_pos;
use vstd::arithmetic::power2::pow2;
use vstd::prelude::*;

verus! {

/// Each interval of one grid is as near to the mean as that of the other.
pub open spec fn is_nearer(s: Seq<F32>, t: Seq<F32>, mean: F32) -> bool {
    s.len() == t.len() && forall|i: int|
        0 <= i < s.len() ==> ((#[trigger] s[i]) - mean).abs() <= (t[i] - mean).abs() && (t[i]
            - mean).is_finite()
}

/// A square is that of the size.
proof fn lemma_square_of_size(x: F32)
    ensures
        x * x == x.abs() * x.abs(),
{
    reveal(F32::spec_mul);
}

proof fn lemma_nearer_squares(s: Seq<F32>, t: Seq<F32>, mean: F32, n: nat)
    requires
        n <= s.len(),
        is_nearer(s, t, mean),
    ensures
        squared_distances(s, mean, n) <= squared_distances(t, mean, n),
        zero() <= squared_distances(s, mean, n),
    decreases n,
{
    lemma_zero_and_one();
    reveal(F32::units);
    crate::rounding::lemma_mag_units_scaled(0, 0);
    if n > 0 {
        lemma_nearer_squares(s, t, mean, (n - 1) as nat);
        let x = s[n - 1] - mean;
        let y = t[n - 1] - mean;
        assert(x.abs() <= y.abs());
        lemma_square_of_size(x);
        lemma_square_of_size(y);
        lemma_size_not_negative(x);
        lemma_products_keep_order(x.abs(), x.abs(), y.abs(), y.abs());
        lemma_sums_keep_order(
            squared_distances(s, mean, (n - 1) as nat),
            x * x,
            squared_distances(t, mean, (n - 1) as nat),
            y * y,
        );
    }
}

proof fn lemma_size_not_negative(x: F32)
    requires
        !x.is_nan(),
    ensures
        zero() <= x.abs(),
{
    lemma_zero_and_one();
    reveal(F32::units);
    crate::rounding::lemma_mag_units_nonnegative(x.mag());
    crate::rounding::lemma_mag_units_scaled(0, 0);
}

/// Of two grids with the same mean interval, the one whose intervals are all nearer to it
/// is no less stable.
pub proof fn lemma_more_even_is_more_stable(
    p: Seq<BeatPosition>,
    q: Seq<BeatPosition>,
    bpm: F32,
)
    requires
        p.len() >= 2,
        q.len() >= 2,
        zero() < bpm,
        ({
            let s = intervals_of(times_of(p), p.len());
            let t = intervals_of(times_of(q), q.len());
            &&& 0 < s.len() <= usize::MAX
            &&& mean_of(s) == mean_of(t)
            &&& ratio(1, 10_000_000_000) < mean_of(s)
            &&& mean_of(s).is_finite()
            &&& is_nearer(s, t, mean_of(s))
        }),
    ensures
        stability_of(p, bpm) matches Outcome::Value(x) && (stability_of(q, bpm) matches Outcome::Value(y)
            && y <= x && in_unit(y)),
{
    let s = intervals_of(times_of(p), p.len());
    let t = intervals_of(times_of(q), q.len());
    let n = F32::from_usize(s.len() as usize);
    let mean = mean_of(s);
    lemma_zero_and_one();
    lemma_ratio_above_zero(1, 10_000_000_000);
    lemma_nearer_squares(s, t, mean, s.len());
    lemma_count_order(0, s.len() as usize);
    lemma_counted(s.len() as usize);
    let a = squared_distances(s, mean, s.len());
    let b = squared_distances(t, mean, t.len());
    lemma_quotient_keeps_order(a, b, n);
    lemma_quotient_is_number(a, n);
    lemma_quotient_is_number(b, n);
    lemma_quotient_never_negative(a, n);
    lemma_root_keeps_order(a / n, b / n);
    let x = (a / n).sqrt();
    let y = (b / n).sqrt();
    lemma_quotient_keeps_order(x, y, mean);
    lemma_quotient_is_number(x, mean);
    lemma_quotient_is_number(y, mean);
    lemma_quotient_never_negative(x, mean);
    lemma_sums_keep_order(one(), x / mean, one(), y / mean);
    lemma_sum_grows(one(), x / mean);
    lemma_inverse_falls(one() + x / mean, one() + y / mean);
    assert(evenness(s) == one() / (one() + x / mean));
    assert(evenness(t) == one() / (one() + y / mean));
}

/// A count above zero is a finite number above zero.
proof fn lemma_counted(n: usize)
    requires
        n > 0,
    ensures
        zero() < F32::from_usize(n),
        F32::from_usize(n).is_finite(),
{
    lemma_zero_and_one();
    lemma_count_order(1, n);
    vstd::arithmetic::power2::lemma2_to64();
    crate::float_sizes::lemma_count_within(n as int, 64);
}

/// A stretch whose tempo varies is at most half sure of it, and one whose tempo does not
/// is half sure at least.
pub proof fn lemma_varying_tempo_is_unsure(start: F32, end: F32, mean: F32, cv: F32, nominal_bpm: F32)
    requires
        zero() <= cv,
        cv.is_finite(),
    ensures
        ({
            let s = segment_from(start, end, mean, cv, nominal_bpm);
            &&& in_unit(s.confidence)
            &&& s.is_variable ==> s.confidence <= ratio(5, 10)
            &&& !s.is_variable ==> ratio(5, 10) <= s.confidence
        }),
{
    lemma_zero_and_one();
    let d = ratio(3, 10);
    lemma_ratio_above_zero(3, 10);
    lemma_ratio_is_finite(3, 10);
    lemma_half_of_three();
    lemma_half();
    lemma_ratio_above_zero(15, 100);
    let q = cv / d;
    lemma_quotient_is_number(cv, d);
    lemma_quotient_never_negative(cv, d);
    if cv > ratio(15, 100) {
        lemma_quotient_keeps_order(ratio(15, 100), cv, d);
    } else {
        lemma_quotient_keeps_order(cv, ratio(15, 100), d);
    }
    let y = q.min(one());
    assert(in_unit(y));
    lemma_complement_in_unit(y);
    crate::float_laws::lemma_unit_is_finite(y);
    crate::float_laws::lemma_unit_is_finite(one());
    crate::float_laws::lemma_ratio_in_unit(5, 10);
    crate::float_laws::lemma_unit_is_finite(ratio(5, 10));
    lemma_half_left();
    if cv > ratio(15, 100) {
        lemma_less_left(one(), ratio(5, 10), y);
    } else {
        lemma_less_left(one(), y, ratio(5, 10));
    }
}

/// Three twentieths are half of three tenths.
proof fn lemma_half_of_three()
    ensures
        ratio(15, 100) / ratio(3, 10) == ratio(5, 10),
{
    lemma_zero_and_one();
    let a: int = 0x3e19_999a;
    let b: int = 0x3e99_999a;
    vstd::arithmetic::power2::lemma2_to64();
    lemma_pow2_pos(120);
    lemma_pow2_pos(149);
    vstd::arithmetic::power2::lemma_pow2_adds(29, 120);
    crate::rounding::lemma_mag_units_scaled(123, 0x99_999a);
    crate::rounding::lemma_mag_units_scaled(124, 0x99_999a);
    crate::rounding::lemma_mag_units_scaled(123, 0x99_9999);
    crate::rounding::lemma_mag_units_scaled(123, 0x99_999b);
    crate::rounding::lemma_mag_units_scaled(124, 0x99_9999);
    crate::rounding::lemma_mag_units_scaled(124, 0x99_999b);
    vstd::arithmetic::power2::lemma_pow2_adds(3, 120);
    vstd::arithmetic::power2::lemma_pow2_adds(4, 120);
    let k = pow2(120) as int;
    assert(pow2(149) == 0x2000_0000 * k);
    assert(123 * 0x80_0000 + 0x99_999a == a);
    assert(124 * 0x80_0000 + 0x99_999a == b);
    crate::rounding::lemma_rounded(15 * (pow2(149) as int), 100, a);
    crate::rounding::lemma_rounded(3 * (pow2(149) as int), 10, b);
    crate::float_laws::lemma_from_pattern(false, a);
    crate::float_laws::lemma_from_pattern(false, b);
    reveal(F32::spec_euclidean_or_real_div);
    lemma_half();
    let h = ratio(5, 10).mag();
    let ub = crate::rounding::mag_units(b);
    let ua = crate::rounding::mag_units(a);
    assert(ub == 2 * ua);
    vstd::arithmetic::power2::lemma_pow2_unfold(149);
    let p = pow2(149) as int;
    assert(ua * p == pow2(148) * ub) by (nonlinear_arith)
        requires
            ub == 2 * ua,
            p == 2 * pow2(148),
    ;
    crate::rounding::lemma_rounded_exact(h, ub);
}

/// One less a half is a half.
proof fn lemma_half_left()
    ensures
        (one() - ratio(5, 10)).same_number(ratio(5, 10)),
{
    lemma_zero_and_one();
    lemma_half();
    vstd::arithmetic::power2::lemma_pow2_unfold(149);
    lemma_pow2_pos(148);
    reveal(F32::spec_add);
    crate::float_laws::lemma_negated(ratio(5, 10));
    crate::rounding::lemma_rounded_exact(ratio(5, 10).mag(), 1);
    crate::float_laws::lemma_from_pattern(false, ratio(5, 10).mag());
}

/// The tempo of a stretch is that of its mean interval: a minute holds as many of these
/// as the tempo says, but for rounding. It goes from where it starts to at most the last
/// beat.
pub proof fn lemma_tempo_of_a_stretch(beats: Seq<F32>, start: F32, duration: F32, nominal_bpm: F32)
    requires
        beats.len() > 0,
    ensures
        segment_at(beats, start, duration, nominal_bpm) matches Some(s) ==> {
            let inside = times_within(beats, start, s.end_time, beats.len());
            let mean = mean_of(intervals_of(inside, inside.len()));
            &&& s.start_time == start
            &&& !(beats.last() < s.end_time)
            &&& inside.len() >= 3
            &&& ratio(1, 10_000_000_000) < mean && mean.is_finite() && s.bpm.is_finite()
                ==> off_by_rounding(s.bpm.units(), 60 * (pow2(149) as int) * pow2(149), mean.units())
        },
{
    lemma_zero_and_one();
    lemma_ratio_above_zero(1, 10_000_000_000);
    crate::float_order::lemma_whole(60);
    if let Some(s) = segment_at(beats, start, duration, nominal_bpm) {
        let inside = times_within(beats, start, s.end_time, beats.len());
        let mean = mean_of(intervals_of(inside, inside.len()));
        if ratio(1, 10_000_000_000) < mean && mean.is_finite() && s.bpm.is_finite() {
            lemma_quotient_error(ratio(60, 1), mean);
        }
    }
}

proof fn lemma_times_of_a_stretch_upto(times: Seq<F32>, start: F32, end: F32, n: nat, x: F32)
    requires
        n <= times.len(),
    ensures
        times_within(times, start, end, n).contains(x) <==> times.take(n as int).contains(x) && start <= x
            && x <= end,
    decreases n,
{
    if n > 0 {
        lemma_times_of_a_stretch_upto(times, start, end, (n - 1) as nat, x);
        let before = times_within(times, start, end, (n - 1) as nat);
        assert(times.take(n as int) =~= times.take(n - 1).push(times[n - 1]));
        super::grid_laws::lemma_push_contains(times.take(n - 1), times[n - 1], x);
        super::grid_laws::lemma_push_contains(before, times[n - 1], x);
    }
}

/// The times of a stretch are exactly those from its start to its end.
pub proof fn lemma_times_of_a_stretch(times: Seq<F32>, start: F32, end: F32, x: F32)
    ensures
        times_within(times, start, end, times.len()).contains(x) <==> times.contains(x) && start <= x
            && x <= end,
{
    lemma_times_of_a_stretch_upto(times, start, end, times.len(), x);
    assert(times.take(times.len() as int) =~= times);
}

} // verus!
