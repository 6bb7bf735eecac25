//! What holds of every tempo and its interval: minutes have sixty seconds.
use crate::float::F32;
use crate::float::one;
use crate::float::ratio;
use crate::float::zero;
use crate::float_laws::lemma_quotient_error;
use crate::float_laws::lemma_zero_and_one;
use crate::float_laws::off_by_rounding;
use crate::float_order::lemma_count;
use crate::float_order::lemma_sum_at_most;
use crate::float_order::lemma_whole;
use crate::float_order::lemma_whole_product;
use crate::float_order::lemma_whole_quotient;
use crate::float_sizes::lemma_quotient_within;
use crate::float_sizes::within;
use super::autocorrelation::bpm_lag;
use super::autocorrelation::lag_bpm;
use super::beat_contrast::frames_per_beat;
use super::candidate_filter::Group;
use super::candidate_filter::Mention;
use super::candidate_filter::cents_exponent;
use super::candidate_filter::is_double;
use super::candidate_filter::joined;
use super::comb_filter::beat_period;
use super::comb_filter::beats_until;
use super::comb_filter::comb_score;
use super::comb_filter::comb_tolerance;
use super::comb_filter::is_aligned;
use super::comb_filter::tempos;
use super::novelty::mel_argument;
use super::novelty::mel_exponent;
use super::novelty::mel_place;
use super::tempo_table::frame_rate;
use super::tempogram_autocorr::lag_of;
use super::tempogram_autocorr::lag_strength;
use super::tempogram_autocorr::lag_sum;
use super::tempogram_fft::bin_bpm;
use vstd::arithmetic::power2::lemma2_to64;
use vstd::arithmetic::power2::lemma_pow2_adds;
use vstd::arithmetic::power2::lemma_pow2_pos;
use vstd::arithmetic::power2::pow2;
use vstd::prelude::*;

verus! {

/// The samples of a minute.
proof fn lemma_minute(rate: u32) -> (minute: F32)
    requires
        60 * rate < 0x100_0000,
    ensures
        minute == ratio(60, 1) * F32::from_u32(rate),
        zero() <= minute,
        minute.is_finite(),
        minute.units() == (60 * rate) * pow2(149),
        within(minute, 173),
{
    let minute = ratio(60, 1) * F32::from_u32(rate);
    lemma_whole(60);
    lemma_count(rate as int);
    lemma_whole_product(ratio(60, 1), F32::from_u32(rate), 60, rate as int);
    lemma2_to64();
    lemma_pow2_adds(24, 149);
    lemma_pow2_pos(149);
    assert((60 * rate) * pow2(149) <= 0x100_0000 * pow2(149)) by (nonlinear_arith)
        requires
            60 * rate <= 0x100_0000,
            pow2(149) > 0,
    ;
    crate::float_laws::lemma_nonnegative(minute);
    minute
}

/// A minute of samples parted into equal steps of one sample or more.
proof fn lemma_steps_of_a_minute(rate: u32, step: F32)
    requires
        rate <= 192_000,
        one() <= step,
        step.is_finite(),
    ensures
        off_by_rounding(
            (ratio(60, 1) * F32::from_u32(rate) / step).units(),
            ((60 * rate) * pow2(149)) * pow2(149),
            step.units(),
        ),
{
    let minute = lemma_minute(rate);
    lemma_zero_and_one();
    lemma_quotient_within(minute, step, 173, 149, 173);
    lemma_quotient_error(minute, step);
}

/// The samples from one beat to the next, times the beats per minute, are the samples of
/// a minute, but for rounding.
pub proof fn lemma_beats_of_a_minute(rate: u32, bpm: F32)
    requires
        rate <= 192_000,
        one() <= bpm,
        bpm.is_finite(),
    ensures
        off_by_rounding(
            beat_period(rate, bpm).units(),
            ((60 * rate) * pow2(149)) * pow2(149),
            bpm.units(),
        ),
{
    lemma_steps_of_a_minute(rate, bpm);
}

/// A lag of so many frames is the tempo whose beats are as many frames apart, but for
/// rounding.
pub proof fn lemma_tempo_of_a_lag(rate: u32, hop: usize, lag: usize)
    requires
        rate <= 192_000,
        0 < hop,
        0 < lag,
        lag * hop < 0x100_0000,
    ensures
        off_by_rounding(
            lag_bpm(rate, hop, lag).units(),
            ((60 * rate) * pow2(149)) * pow2(149),
            (lag * hop) * pow2(149),
        ),
{
    lemma_frames(lag as int, hop as int);
    lemma_steps_of_a_minute(rate, F32::from_usize(lag) * F32::from_usize(hop));
}

proof fn lemma_frames(n: int, hop: int)
    requires
        0 < n,
        0 < hop,
        n * hop < 0x100_0000,
    ensures
        ({
            let r = crate::float::of_int(n) * crate::float::of_int(hop);
            one() <= r && r.is_finite() && r.units() == (n * hop) * pow2(149)
        }),
{
    assert(n < 0x100_0000 && hop < 0x100_0000 && 1 <= n * hop) by (nonlinear_arith)
        requires
            0 < n,
            0 < hop,
            n * hop < 0x100_0000,
    ;
    lemma_zero_and_one();
    lemma_count(n);
    lemma_count(hop);
    lemma_whole_product(crate::float::of_int(n), crate::float::of_int(hop), n, hop);
    lemma_pow2_pos(149);
    assert(pow2(149) <= (n * hop) * pow2(149)) by (nonlinear_arith)
        requires
            1 <= n * hop,
            pow2(149) > 0,
    ;
}

/// The frames from one beat to the next, at a whole tempo, times the tempo and the samples
/// per frame, are the samples of a minute, but for rounding.
pub proof fn lemma_frames_of_a_beat(rate: u32, hop: u32, bpm: u32)
    requires
        rate <= 192_000,
        0 < hop,
        0 < bpm,
        bpm * hop < 0x100_0000,
    ensures
        off_by_rounding(
            frames_per_beat(rate, hop, F32::from_u32(bpm)).units(),
            ((60 * rate) * pow2(149)) * pow2(149),
            (bpm * hop) * pow2(149),
        ),
{
    lemma_frames(bpm as int, hop as int);
    lemma_steps_of_a_minute(rate, F32::from_u32(bpm) * F32::from_u32(hop));
}

/// A bin of a transform with whole Hz per bin has sixty times its frequency as its tempo.
pub proof fn lemma_tempo_of_a_bin(bin: usize, hz: u32)
    requires
        0 < bin,
        0 < hz,
        bin * hz * 60 < 0x100_0000,
    ensures
        bin_bpm(bin, F32::from_u32(hz)).units() == (60 * (bin * hz)) * pow2(149),
{
    lemma_frames(bin as int, hz as int);
    lemma_zero_and_one();
    lemma_whole(60);
    lemma_whole_product(
        F32::from_usize(bin) * F32::from_u32(hz),
        ratio(60, 1),
        bin * hz,
        60,
    );
}

// ------------------------------------------------------------------ steps

/// The tempos that are searched start with the first and are a step apart; the last is
/// one that no further step stays in range from.
pub proof fn lemma_tempos_are_a_step_apart(bpm: F32, limit: F32, step: F32, i: int)
    requires
        bpm <= limit,
        0 <= i < tempos(bpm, limit, step).len(),
    ensures
        tempos(bpm, limit, step)[0] == bpm,
        i + 1 < tempos(bpm, limit, step).len() ==> tempos(bpm, limit, step)[i + 1] == tempos(
            bpm,
            limit,
            step,
        )[i] + step,
        i + 1 == tempos(bpm, limit, step).len() ==> {
            let next = tempos(bpm, limit, step)[i] + step;
            !(next <= limit) || !(tempos(bpm, limit, step)[i] < next)
        },
    decreases i,
{
    let all = tempos(bpm, limit, step);
    reveal_with_fuel(tempos, 3);
    if bpm + step > bpm {
        let rest = tempos(bpm + step, limit, step);
        assert(all =~= seq![bpm] + rest);
        if i > 0 {
            lemma_tempos_are_a_step_apart(bpm + step, limit, step, i - 1);
            assert(all[i] == rest[i - 1]);
            if i + 1 < all.len() {
                assert(all[i + 1] == rest[i]);
            }
        } else if rest.len() > 0 {
            assert(rest[0] == bpm + step);
            assert(all[1] == rest[0]);
        }
    }
}

// ------------------------------------------------------------------- comb

/// A tempo all of whose beats have an onset near them scores one, and one none of whose
/// beats has any scores nothing.
pub proof fn lemma_comb_score_by_beats(onsets: Seq<usize>, rate: u32, bpm: F32, tolerance: F32)
    requires
        onsets.len() > 0,
        beats_until(onsets.last(), beat_period(rate, bpm)) < 0x100_0000,
    ensures
        ({
            let period = beat_period(rate, bpm);
            let n = beats_until(onsets.last(), period);
            let near = period * tolerance;
            &&& (forall|i: int| 0 <= i < n ==> #[trigger] is_aligned(onsets, period, near, i))
                ==> comb_score(onsets, rate, bpm, tolerance) == one()
            &&& (forall|i: int| 0 <= i < n ==> !#[trigger] is_aligned(onsets, period, near, i))
                ==> comb_score(onsets, rate, bpm, tolerance) == zero()
        }),
{
    let period = beat_period(rate, bpm);
    let n = beats_until(onsets.last(), period);
    super::selection_laws::lemma_counted_beats_have_onsets(
        onsets,
        period,
        period * tolerance,
        n as nat,
    );
    lemma_zero_and_one();
    lemma_count(n);
    lemma_count(0);
    crate::float_laws::lemma_from_none();
    crate::float_laws::lemma_count_order(1, n as usize);
    crate::float_laws::lemma_whole_and_no_part(F32::from_usize(n as usize));
}

// ----------------------------------------------------------------- groups

/// The tempo of a group is the mean of its members, each of which counts the same, but
/// for rounding: with whole tempos, so many members at one mean and one more.
pub proof fn lemma_group_has_the_mean_tempo(g: Group, c: Mention, of_comb: bool, mean: u32, bpm: u32)
    requires
        g.bpm == F32::from_u32(mean),
        c.bpm == F32::from_u32(bpm),
        0 < g.size,
        g.size < 0x1_0000,
        0 < mean < 0x100,
        0 < bpm < 0x100,
    ensures
        off_by_rounding(
            joined(g, c, of_comb).bpm.units(),
            ((mean * g.size + bpm) * pow2(149)) * pow2(149),
            (g.size + 1) * pow2(149),
        ),
{
    let n = g.size as int;
    assert(mean * n + bpm < 0x100_0000 && 1 <= mean * n + bpm) by (nonlinear_arith)
        requires
            0 < mean < 0x100,
            0 < bpm < 0x100,
            0 < n < 0x1_0000,
    ;
    assert(mean * n < 0x100_0000) by (nonlinear_arith)
        requires
            0 < mean < 0x100,
            0 < n < 0x1_0000,
    ;
    lemma_zero_and_one();
    lemma_count(mean as int);
    lemma_count(bpm as int);
    lemma_count(n);
    lemma_count(n + 1);
    lemma_whole_product(g.bpm, F32::from_u32(g.size), mean as int, n);
    assert((mean * n) * pow2(149) + bpm * pow2(149) == (mean * n + bpm) * pow2(149))
        by (nonlinear_arith);
    let sum = g.bpm * F32::from_u32(g.size) + c.bpm;
    lemma_sum_at_most(g.bpm * F32::from_u32(g.size), c.bpm, mean * n + bpm, 149);
    lemma2_to64();
    lemma_pow2_adds(24, 149);
    lemma_pow2_pos(149);
    assert((mean * n + bpm) * pow2(149) <= 0x100_0000 * pow2(149)) by (nonlinear_arith)
        requires
            mean * n + bpm <= 0x100_0000,
            pow2(149) > 0,
    ;
    assert(pow2(149) <= (n + 1) * pow2(149)) by (nonlinear_arith)
        requires
            1 <= n + 1,
            pow2(149) > 0,
    ;
    crate::float_laws::lemma_nonnegative(sum);
    let d = F32::from_u32((n + 1) as u32);
    lemma_quotient_within(sum, d, 173, 149, 173);
    lemma_quotient_error(sum, d);
}

// ------------------------------------------------------- autocorrelation

/// An even curve is as strong at every lag.
pub proof fn lemma_even_curve_has_no_lag(curve: Seq<F32>, lag: usize)
    requires
        lag < curve.len() < 0x100_0000,
        forall|i: int| 0 <= i < curve.len() ==> #[trigger] curve[i] == one(),
    ensures
        lag_strength(curve, lag) == one(),
{
    let n = (curve.len() - lag) as nat;
    lemma_ones(curve, lag as int, n);
    lemma_zero_and_one();
    lemma_count(n as int);
    crate::float_laws::lemma_count_order(1, n as usize);
    let sum = lag_sum(curve, lag as int, n);
    crate::float_order::lemma_same_above_zero(F32::from_usize(n as usize), sum);
    crate::float_laws::lemma_whole_and_no_part(sum);
}

proof fn lemma_ones(curve: Seq<F32>, lag: int, n: nat)
    requires
        0 <= lag,
        lag + n <= curve.len() < 0x100_0000,
        forall|i: int| 0 <= i < curve.len() ==> #[trigger] curve[i] == one(),
    ensures
        zero() <= lag_sum(curve, lag, n),
        lag_sum(curve, lag, n).is_finite(),
        lag_sum(curve, lag, n).units() == n * pow2(149),
    decreases n,
{
    lemma_zero_and_one();
    crate::float_laws::lemma_unit_is_finite(one());
    if n > 0 {
        lemma_ones(curve, lag, (n - 1) as nat);
        assert(curve[n - 1] == one() && curve[n - 1 + lag] == one());
        lemma_whole_product(one(), one(), 1, 1);
        assert((n - 1) * pow2(149) + pow2(149) == n * pow2(149)) by (nonlinear_arith);
        lemma_sum_at_most(lag_sum(curve, lag, (n - 1) as nat), one() * one(), n as int, 149);
    } else {
        crate::rounding::lemma_mag_units_scaled(0, 0);
    }
}

// ----------------------------------------------------------- even tempos

/// Beats that come `beats` times a second, in a curve of `lag` frames for each, are as many
/// frames apart.
pub proof fn lemma_lag_of_even_beats(beats: u32, lag: u32)
    requires
        0 < beats < 0x1000,
        lag < 0x1000,
    ensures
        lag_of(F32::from_u32((beats * lag) as u32), F32::from_u32((60 * beats) as u32)) == lag,
{
    assert(beats * lag < 0x100_0000) by (nonlinear_arith)
        requires
            beats < 0x1000,
            lag < 0x1000,
    ;
    let rate = F32::from_u32((beats * lag) as u32);
    let bpm = F32::from_u32((60 * beats) as u32);
    lemma_whole(60);
    lemma_count(beats * lag);
    lemma_count(60 * beats);
    assert(60 * beats == beats * 60);
    lemma_whole_quotient(bpm, ratio(60, 1), beats as int, 60);
    assert(beats * lag == lag * beats) by (nonlinear_arith);
    lemma_whole_quotient(rate, bpm / ratio(60, 1), lag as int, beats as int);
    lemma_truncated(rate / (bpm / ratio(60, 1)), lag as int);
}

/// A whole number is its own whole part.
pub proof fn lemma_truncated(x: F32, n: int)
    requires
        zero() <= x,
        x.is_finite(),
        0 <= n < 0x100_0000,
        x.units() == n * pow2(149),
    ensures
        x.to_usize() == n,
{
    lemma_zero_and_one();
    crate::float_laws::lemma_nonnegative(x);
    lemma_pow2_pos(149);
    let p = pow2(149) as int;
    vstd::arithmetic::div_mod::lemma_fundamental_div_mod_converse(n * p, p, n, 0);
    if x.negative() {
        crate::rounding::lemma_mag_units_scaled(0, 0);
        assert(n == 0) by (nonlinear_arith)
            requires
                n * p == 0,
                p > 0,
        ;
    }
}

/// A tempo whose beats are a whole number of frames apart has that lag.
pub proof fn lemma_lag_of_a_tempo(bpm: u32, hop: usize, lag: u32, rate: u32)
    requires
        0 < bpm,
        0 < hop,
        0 < lag,
        60 * rate == lag * (bpm * hop),
        60 * rate < 0x100_0000,
    ensures
        bpm_lag(rate, hop, F32::from_u32(bpm)).units() == lag * pow2(149),
{
    assert(bpm * hop <= lag * (bpm * hop) && lag <= lag * (bpm * hop) && 1 <= bpm * hop)
        by (nonlinear_arith)
        requires
            0 < lag,
            0 < bpm,
            0 < hop,
    ;
    let minute = lemma_minute(rate);
    lemma_frames(bpm as int, hop as int);
    lemma_zero_and_one();
    lemma_whole_quotient(
        minute,
        F32::from_u32(bpm) * F32::from_usize(hop),
        lag as int,
        bpm * hop,
    );
}

/// So many hops in a second are as many frames per second.
pub proof fn lemma_frames_of_a_second(hop: u32, frames: u32)
    requires
        0 < hop,
        frames * hop < 0x100_0000,
    ensures
        frame_rate((frames * hop) as u32, hop).units() == frames * pow2(149),
{
    assert(frames <= frames * hop) by (nonlinear_arith)
        requires
            0 < hop,
    ;
    if frames > 0 {
        assert(hop <= frames * hop) by (nonlinear_arith)
            requires
                0 < frames,
        ;
        lemma_count(hop as int);
        lemma_count(frames * hop);
        lemma_whole_quotient(
            F32::from_u32((frames * hop) as u32),
            F32::from_u32(hop),
            frames as int,
            hop as int,
        );
    } else {
        lemma_nothing_per_second(hop);
    }
}

proof fn lemma_nothing_per_second(hop: u32)
    requires
        0 < hop,
    ensures
        (F32::from_u32(0) / F32::from_u32(hop)).units() == 0,
{
    lemma_count(0);
    lemma_zero_and_one();
    assert(F32::from_u32(0) == zero()) by {
        crate::float_laws::lemma_from_none();
    }
    crate::float_laws::lemma_count_order(1, hop as usize);
    assert(F32::from_u32(hop) == F32::from_usize(hop as usize));
    vstd::arithmetic::power2::lemma2_to64();
    crate::float_sizes::lemma_count_within(hop as int, 32);
    crate::float_laws::lemma_whole_and_no_part(F32::from_u32(hop));
}

// ----------------------------------------------------------------- octaves

/// A tempo that is twice as fast as another is its double, whatever the tolerance.
pub proof fn lemma_twice_as_fast_is_double(bpm: u32, tolerance: F32)
    requires
        0 < bpm < 0x1000,
        one() < tolerance,
        tolerance.is_finite(),
    ensures
        is_double(F32::from_u32((2 * bpm) as u32), F32::from_u32(bpm), tolerance),
{
    let a = F32::from_u32((2 * bpm) as u32);
    let b = F32::from_u32(bpm);
    lemma_zero_and_one();
    lemma_count(2 * bpm);
    lemma_count(bpm as int);
    lemma_whole(2);
    lemma_whole_quotient(a, b, 2, bpm as int);
    lemma_whole_quotient(a / b, ratio(2, 1), 1, 2);
    lemma_pow2_pos(149);
    let x = a / b / ratio(2, 1);
    crate::float_order::lemma_same_above_zero(x, one());
    crate::float_laws::lemma_unit_is_finite(one());
    crate::float_order::lemma_no_distance(one());
    lemma_above(tolerance);
}

proof fn lemma_above(x: F32)
    requires
        one() < x,
        x.is_finite(),
    ensures
        zero() < x - one(),
{
    lemma_zero_and_one();
    crate::float_laws::lemma_nonnegative(x);
    crate::float_laws::lemma_unit_is_finite(one());
    crate::float_order::lemma_difference(x, one());
    crate::float_laws::lemma_negated(one());
    let d = x - one();
    let n = x.units() - one().units();
    assert(d == crate::float::signed(false, crate::rounding::rounded(n, 1))) by {
        reveal(F32::spec_add);
    }
    crate::rounding::lemma_mag_units_scaled(0, 0);
    crate::rounding::lemma_mag_units_scaled(0, 1);
    lemma2_to64();
    crate::rounding::lemma_rounded_exact(1, 1);
    crate::rounding::lemma_rounded_monotone(1, 1, n, 1);
    crate::float_laws::lemma_from_pattern(false, crate::rounding::rounded(n, 1));
    crate::rounding::lemma_mag_units_monotone(1, crate::rounding::rounded(n, 1));
}

/// An octave is twelve hundred cents.
pub proof fn lemma_cents_of_octaves(octaves: u32)
    requires
        octaves < 0x1000,
    ensures
        cents_exponent(F32::from_u32((1200 * octaves) as u32)).units() == octaves * pow2(149),
{
    lemma_whole(1200);
    lemma_count(1200 * octaves);
    assert(1200 * octaves == octaves * 1200);
    lemma_whole_quotient(
        F32::from_u32((1200 * octaves) as u32),
        ratio(1200, 1),
        octaves as int,
        1200,
    );
}

/// The faster a tempo is, the less an onset may be off, as a part of the interval: a tenth
/// at 120, and never less than one twentieth or more than three twentieths.
pub proof fn lemma_faster_tempo_is_stricter(slow: F32, fast: F32)
    requires
        one() <= slow,
        slow <= fast,
        fast.is_finite(),
    ensures
        comb_tolerance(fast) <= comb_tolerance(slow),
        ratio(5, 100) <= comb_tolerance(fast),
        comb_tolerance(slow) <= ratio(15, 100),
        comb_tolerance(ratio(120, 1)) == ratio(1, 10),
{
    lemma_zero_and_one();
    lemma_whole(120);
    let a = ratio(120, 1) / slow;
    let b = ratio(120, 1) / fast;
    crate::float_order::lemma_finite_below(slow, fast);
    crate::float_order::lemma_quotient_falls(ratio(120, 1), slow, fast);
    crate::float_laws::lemma_ratio_in_unit(1, 10);
    crate::float_laws::lemma_unit_is_finite(ratio(1, 10));
    lemma2_to64();
    crate::float_sizes::lemma_ratio_within(120, 1, 7);
    lemma_quotient_within(ratio(120, 1), slow, 156, 149, 156);
    crate::float_order::lemma_products_keep_order(ratio(1, 10), b, ratio(1, 10), a);
    crate::float_laws::lemma_ratio_order(5, 100, 1, 10);
    crate::float_laws::lemma_ratio_order(1, 10, 15, 100);
    crate::float_laws::lemma_whole_and_no_part(ratio(120, 1));
    crate::float_laws::lemma_ratio_above_zero(1, 10);
    crate::float_order::lemma_times_one(ratio(1, 10));
    crate::float_order::lemma_same_above_zero(ratio(1, 10), ratio(1, 10) * one());
}

// -------------------------------------------------------------------- mels

/// What mels are taken of grows by one with every seven hundred Hz, and an exponent of one
/// is as many mels as go to a decade.
pub proof fn lemma_whole_mels(n: u32)
    requires
        n < 0x1000,
    ensures
        mel_argument(F32::from_u32((700 * n) as u32)).units() == (n + 1) * pow2(149),
        mel_exponent(F32::from_u32((2595 * n) as u32)).units() == n * pow2(149),
        mel_place(F32::from_u32(n)).units() == (2595 * n) * pow2(149),
{
    lemma_zero_and_one();
    crate::float_laws::lemma_unit_is_finite(one());
    lemma_whole(700);
    lemma_whole(2595);
    lemma_count(700 * n);
    lemma_count(2595 * n);
    lemma_count(n as int);
    assert(700 * n == n * 700 && 2595 * n == n * 2595);
    lemma_whole_quotient(F32::from_u32((700 * n) as u32), ratio(700, 1), n as int, 700);
    lemma_whole_quotient(F32::from_u32((2595 * n) as u32), ratio(2595, 1), n as int, 2595);
    lemma_whole_product(ratio(2595, 1), F32::from_u32(n), 2595, n as int);
    let q = F32::from_u32((700 * n) as u32) / ratio(700, 1);
    assert(pow2(149) + n * pow2(149) == (n + 1) * pow2(149)) by (nonlinear_arith);
    lemma_sum_at_most(one(), q, n + 1, 149);
}

} // verus!
