//! What holds of every chroma vector and of what it is made from.
use crate::float::F32;
use crate::float::one;
use crate::float::ratio;
use crate::float::zero;
use crate::float_laws::in_unit;
use crate::float_laws::lemma_negated;
use crate::float_laws::lemma_nonnegative;
use crate::float_laws::lemma_once_and_no_part;
use crate::float_laws::lemma_part_of_whole;
use crate::float_laws::lemma_quotient_error;
use crate::float_laws::lemma_quotient_keeps_order;
use crate::float_laws::lemma_ratio_above_zero;
use crate::float_laws::lemma_scaled_down;
use crate::float_laws::lemma_sum_grows;
use crate::float_laws::lemma_unit_is_finite;
use crate::float_laws::lemma_whole_and_no_part;
use crate::float_laws::lemma_zero_and_one;
use crate::float_laws::lemma_zero_plus;
use crate::float_laws::off_by_rounding;
use crate::float_order::lemma_count;
use crate::float_order::lemma_finite_below;
use crate::float_order::lemma_no_distance;
use crate::float_order::lemma_no_subtraction;
use crate::float_order::lemma_same_above_zero;
use crate::float_order::lemma_sum_at_most;
use crate::float_order::lemma_times_one;
use crate::float_order::lemma_whole;
use crate::float_order::lemma_whole_parts;
use crate::float_order::lemma_whole_product;
use crate::float_order::lemma_whole_rounds;
use crate::sorting::lemma_sorted_order_finds;
use crate::sorting::lemma_sorted_order_is_stable;
use crate::sorting::lemma_sorted_order_lists_indices;
use crate::sorting::sorted_order;
use crate::statistics_laws::lemma_order;
use crate::statistics_laws::parts_at;
use crate::vector::energy;
use crate::vector::normalized;
use super::beat_chroma::BeatSpan;
use super::beat_chroma::beat_chroma;
use super::beat_chroma::beat_class_sum;
use super::extractor::ChromaOptions;
use super::extractor::PitchTable;
use super::extractor::bin_counts;
use super::harmonic::mask;
use super::harmonic::masked;
use super::harmonic::passing_part;
use super::hpcp::HpcpOptions;
use super::hpcp::SoundedPartial;
use super::hpcp::all_peaks;
use super::hpcp::blended;
use super::hpcp::heights_of;
use super::hpcp::highest_peaks;
use super::hpcp::partial_strength;
use super::hpcp::peak_bins;
use super::log_frequency::octave_sum;
use super::log_frequency::with_share;
use super::normalization::unit_or_uniform;
use super::pitch::circle_distance;
use super::pitch::class_of;
use super::pitch::frequency_resolution;
use super::pitch::gaussian_exponent;
use super::pitch::nyquist;
use super::pitch::semitone_of;
use super::pitch::tuned_semitone;
use super::smoothing::median_smoothed;
use super::smoothing::upper_median;
use super::smoothing::window_values;
use super::stft::windowed_frames;
use super::tuning::StrongBin;
use super::tuning::TuningOptions;
use super::tuning::TuningVote;
use super::tuning::band_peak;
use super::tuning::in_band;
use super::tuning::mean_direction;
use super::tuning::strong_bins_of;
use super::tuning::strong_in_row;
use super::tuning::vote_sums;
use vstd::arithmetic::power2::pow2;
use vstd::prelude::*;

verus! {

// -------------------------------------------------------------- smoothing

/// The frames around frame `f` that are there, no further than `reach` from it: the values
/// that they have in a bin.
pub open spec fn around(g: Seq<Seq<F32>>, f: int, reach: int, b: int) -> Seq<F32> {
    let first = if f < reach {
        0
    } else {
        f - reach
    };
    let last = if f + reach < g.len() {
        f + reach
    } else {
        g.len() - 1
    };
    Seq::new((last - first + 1) as nat, |k: int| g[first + k][b])
}

/// A smoothed entry is in the middle of those around it in time, as many before it as
/// behind it: half of these are not above it, and half are not below it.
pub proof fn lemma_smoothed_entry_is_in_the_middle(
    g: Seq<Seq<F32>>,
    size: int,
    f: int,
    b: int,
) -> (order: Seq<usize>)
    requires
        1 < size,
        0 <= f < g.len() <= usize::MAX,
        0 <= b < g[0].len(),
        forall|i: int| 0 <= i < g.len() ==> !(#[trigger] g[i])[b].is_nan(),
    ensures
        ({
            let values = around(g, f, size / 2, b);
            parts_at(
                values,
                order,
                median_smoothed(g, size)[f][b],
                values.len() as int / 2 + 1,
                values.len() as int / 2,
            )
        }),
{
    let values = around(g, f, size / 2, b);
    let odd = super::smoothing::odd_size(size);
    assert(odd / 2 == size / 2 && odd == 2 * (size / 2) + 1);
    let w = window_values(g, odd, f, b);
    assert(w =~= values);
    assert forall|i: int| 0 <= i < values.len() implies !(#[trigger] values[i]).is_nan() by {
        let first = if f < size / 2 {
            0
        } else {
            f - size / 2
        };
        assert(!g[first + i][b].is_nan());
    }
    assert(median_smoothed(g, size)[f][b] == upper_median(w));
    lemma_order(values, values.len() as int / 2)
}

// ---------------------------------------------------------- normalisation

/// Bringing a vector to length one keeps the order of its entries, and leaves those of
/// no size without size.
pub proof fn lemma_length_one_keeps_order(v: Seq<F32>, eps: F32, i: int, j: int)
    requires
        0 <= i < v.len(),
        0 <= j < v.len(),
        zero() <= v[i],
        v[i] <= v[j],
        zero() <= eps,
    ensures
        normalized(v, eps).len() == v.len(),
        !(normalized(v, eps)[j] < normalized(v, eps)[i]),
        v[i] == v[j] ==> normalized(v, eps)[i] == normalized(v, eps)[j],
{
    let norm = energy(v).sqrt();
    lemma_zero_and_one();
    if norm > eps {
        lemma_quotient_keeps_order(v[i], v[j], norm);
    }
}

/// A chroma vector that is brought to length one keeps the order of its entries; without
/// any sound, no pitch class stands out.
pub proof fn lemma_unit_chroma(v: Seq<F32>, i: int, j: int)
    requires
        0 <= i < v.len(),
        0 <= j < v.len(),
        zero() <= v[i],
        v[i] <= v[j],
    ensures
        unit_or_uniform(v).len() == v.len(),
        !(unit_or_uniform(v)[j] < unit_or_uniform(v)[i]),
        !(energy(v).sqrt() > ratio(1, 10_000_000_000)) ==> unit_or_uniform(v)[i]
            == unit_or_uniform(v)[j],
{
    let norm = energy(v).sqrt();
    lemma_zero_and_one();
    lemma_ratio_above_zero(1, 10_000_000_000);
    if norm > ratio(1, 10_000_000_000) {
        lemma_quotient_keeps_order(v[i], v[j], norm);
    }
}

// ------------------------------------------------------- beats and octaves

/// The chroma vector of a beat is of the frames that start within it: what sounds before
/// and behind makes no difference.
pub proof fn lemma_beat_is_of_its_frames(
    p: Seq<Vec<F32>>,
    q: Seq<Vec<F32>>,
    table: PitchTable,
    o: ChromaOptions,
    beat: BeatSpan,
)
    requires
        p.len() == q.len() <= usize::MAX,
        forall|i: int|
            0 <= i < p.len() && beat.start <= F32::from_usize(i as usize) * (F32::from_usize(
                beat.hop_size,
            ) / F32::from_u32(beat.sample_rate)) && F32::from_usize(i as usize) * (F32::from_usize(
                beat.hop_size,
            ) / F32::from_u32(beat.sample_rate)) < beat.end ==> (#[trigger] p[i])@ == q[i]@,
    ensures
        beat_chroma(p, table, o, beat) == beat_chroma(q, table, o, beat),
{
    assert forall|c: int| 0 <= c < 12 implies #[trigger] beat_class_sum(
        p,
        table,
        o,
        beat,
        c,
        p.len(),
    ) == beat_class_sum(q, table, o, beat, c, p.len()) by {
        lemma_same_sums(p, q, table, o, beat, c, p.len());
    }
    assert(beat_chroma(p, table, o, beat) =~= beat_chroma(q, table, o, beat)) by {
        let n = super::beat_chroma::frames_in(beat, p.len());
        let a = Seq::new(
            12,
            |c: int|
                beat_class_sum(p, table, o, beat, c, p.len()) / F32::from_usize(n as usize),
        );
        let b = Seq::new(
            12,
            |c: int|
                beat_class_sum(q, table, o, beat, c, q.len()) / F32::from_usize(n as usize),
        );
        assert(a =~= b);
    }
}

proof fn lemma_same_sums(
    p: Seq<Vec<F32>>,
    q: Seq<Vec<F32>>,
    table: PitchTable,
    o: ChromaOptions,
    beat: BeatSpan,
    c: int,
    n: nat,
)
    requires
        n <= p.len() == q.len() <= usize::MAX,
        forall|i: int|
            0 <= i < p.len() && beat.start <= F32::from_usize(i as usize) * (F32::from_usize(
                beat.hop_size,
            ) / F32::from_u32(beat.sample_rate)) && F32::from_usize(i as usize) * (F32::from_usize(
                beat.hop_size,
            ) / F32::from_u32(beat.sample_rate)) < beat.end ==> (#[trigger] p[i])@ == q[i]@,
    ensures
        beat_class_sum(p, table, o, beat, c, n) == beat_class_sum(q, table, o, beat, c, n),
    decreases n,
{
    if n > 0 {
        lemma_same_sums(p, q, table, o, beat, c, (n - 1) as nat);
        assert(super::beat_chroma::in_beat(beat, (n - 1) as usize) ==> p[n - 1]@ == q[n - 1]@);
    }
}

/// An octave makes no difference to the chroma vector of semitones, and a semitone moves
/// what each pitch class gets to the next class.
pub proof fn lemma_semitones_move_classes(row: Seq<F32>, offset: int, class: int, n: nat)
    requires
        n <= row.len(),
        0 <= class < 12,
    ensures
        octave_sum(row, offset + 12, class, n) == octave_sum(row, offset, class, n),
        octave_sum(row, offset + 1, (class + 1) % 12, n) == octave_sum(row, offset, class, n),
    decreases n,
{
    if n > 0 {
        lemma_semitones_move_classes(row, offset, class, (n - 1) as nat);
        lemma_next_class(offset + n - 1, class);
        assert(offset + 12 + n - 1 == (offset + n - 1) + 12);
        assert(offset + 1 + n - 1 == (offset + n - 1) + 1);
    }
}

proof fn lemma_next_class(x: int, class: int)
    requires
        0 <= class < 12,
    ensures
        class_of(x + 12) == class_of(x),
        class_of(x + 1) == (class + 1) % 12 <==> class_of(x) == class,
{
}

/// A semitone goes to its own pitch class alone: C to the first, and so on up to B.
pub proof fn lemma_single_semitone(row: Seq<F32>, offset: int, k: int, class: int, n: nat)
    requires
        0 <= k < row.len(),
        n <= row.len(),
        zero() < row[k],
        forall|i: int| 0 <= i < row.len() && i != k ==> (#[trigger] row[i]) <= zero(),
    ensures
        octave_sum(row, offset, class, n) == if k < n && (offset + k) % 12 == class {
            zero() + row[k]
        } else {
            zero()
        },
    decreases n,
{
    lemma_zero_and_one();
    if n > 0 {
        lemma_single_semitone(row, offset, k, class, (n - 1) as nat);
        if n - 1 != k {
            assert(row[n - 1] <= zero());
        }
    }
}

// ------------------------------------------------------------------ peaks

/// A bin is a peak: in the band, above the one below it and not under the one above it.
pub open spec fn is_top(m: Seq<F32>, o: HpcpOptions, i: int) -> bool {
    &&& 1 <= i < m.len() - 1
    &&& super::harmonic::band_floor(o.fmin_hz) <= super::hpcp::hpcp_frequency(o, i as usize)
    &&& super::hpcp::hpcp_frequency(o, i as usize) <= super::hpcp::hpcp_ceiling(o)
    &&& m[i - 1] < m[i]
    &&& m[i + 1] <= m[i]
}

proof fn lemma_tops(m: Seq<F32>, o: HpcpOptions, n: nat)
    requires
        n < m.len() <= usize::MAX,
        forall|i: int| 0 <= i < m.len() ==> !(#[trigger] m[i]).is_nan(),
        forall|i: int|
            0 <= i < m.len() ==> !(#[trigger] super::hpcp::hpcp_frequency(o, i as usize)).is_nan(),
        !super::harmonic::band_floor(o.fmin_hz).is_nan(),
        !super::hpcp::hpcp_ceiling(o).is_nan(),
    ensures
        forall|i: int|
            0 <= i < n ==> (peak_bins(m, o, n).contains(i as usize) <==> #[trigger] is_top(m, o, i)),
        forall|k: int|
            0 <= k < peak_bins(m, o, n).len() ==> (#[trigger] peak_bins(m, o, n)[k]) < n,
    decreases n,
{
    if n > 1 {
        lemma_tops(m, o, (n - 1) as nat);
        let before = peak_bins(m, o, (n - 1) as nat);
        let all = peak_bins(m, o, n);
        assert(super::hpcp::is_spectral_peak(m, o, n - 1) == is_top(m, o, n - 1));
        assert forall|i: int| 0 <= i < n implies (all.contains(i as usize) <==> #[trigger] is_top(
            m,
            o,
            i,
        )) by {
            if is_top(m, o, n - 1) {
                crate::features::beat_tracking::grid_laws::lemma_push_contains(
                    before,
                    (n - 1) as usize,
                    i as usize,
                );
            }
            if i == n - 1 && before.contains(i as usize) {
                let k = choose|k: int| 0 <= k < before.len() && before[k] == i as usize;
                assert(before[k] < n - 1);
            }
        }
    }
}

/// The peaks of a spectrum are exactly its tops in the band.
pub proof fn lemma_peaks_are_the_tops(m: Seq<F32>, o: HpcpOptions, i: int)
    requires
        2 <= m.len() <= usize::MAX,
        forall|k: int| 0 <= k < m.len() ==> !(#[trigger] m[k]).is_nan(),
        forall|k: int|
            0 <= k < m.len() ==> !(#[trigger] super::hpcp::hpcp_frequency(o, k as usize)).is_nan(),
        !super::harmonic::band_floor(o.fmin_hz).is_nan(),
        !super::hpcp::hpcp_ceiling(o).is_nan(),
        0 <= i < m.len() - 1,
    ensures
        all_peaks(m, o).contains(i as usize) <==> is_top(m, o, i),
{
    lemma_tops(m, o, (m.len() - 1) as nat);
    assert(is_top(m, o, i) || !is_top(m, o, i));
}

/// The peaks that are used come highest first, and none that is left out is higher than
/// one of them.
pub proof fn lemma_highest_peaks_are_used(m: Seq<F32>, o: HpcpOptions, i: int)
    requires
        2 <= m.len() <= usize::MAX,
        forall|k: int| 0 <= k < m.len() ==> !(#[trigger] m[k]).is_nan(),
        0 <= i < highest_peaks(m, o).len(),
    ensures
        highest_peaks(m, o).len() <= all_peaks(m, o).len(),
        o.peaks_per_frame >= 1 ==> highest_peaks(m, o).len() <= o.peaks_per_frame,
        forall|j: int|
            i < j < highest_peaks(m, o).len() ==> m[(#[trigger] highest_peaks(m, o)[j]) as int]
                <= m[highest_peaks(m, o)[i] as int],
        forall|k: int|
            0 <= k < all_peaks(m, o).len() ==> highest_peaks(m, o).contains(
                #[trigger] all_peaks(m, o)[k],
            ) || m[all_peaks(m, o)[k] as int] <= m[highest_peaks(m, o)[i] as int],
{
    let bins = all_peaks(m, o);
    let keys = heights_of(m, bins);
    let order = sorted_order(keys, true, bins.len());
    let used = highest_peaks(m, o);
    super::hpcp::lemma_peak_bins(m, o, (m.len() - 1) as nat);
    lemma_sorted_order_lists_indices(keys, true, bins.len());
    lemma_sorted_order_is_stable(keys, true, bins.len());
    assert forall|j: int| i < j < used.len() implies m[(#[trigger] used[j]) as int]
        <= m[used[i] as int] by {
        assert(used[i] == bins[order[i] as int] && used[j] == bins[order[j] as int]);
        assert(!(keys[order[i] as int] < keys[order[j] as int]));
    }
    assert forall|k: int| 0 <= k < bins.len() implies used.contains(#[trigger] bins[k])
        || m[bins[k] as int] <= m[used[i] as int] by {
        let j = lemma_sorted_order_finds(keys, true, bins.len(), k as usize);
        assert(used[i] == bins[order[i] as int]);
        if j < used.len() {
            assert(used[j] == bins[k]);
        } else {
            assert(!(keys[order[i] as int] < keys[order[j] as int]));
        }
    }
}

// ------------------------------------------------------------------ pitch

/// The note A that is so many octaves above 440 Hz has a semitone that is twelve times as
/// many above 57, and is of the tenth of the pitch classes from C on.
pub proof fn lemma_every_octave_has_its_a(octaves: usize)
    requires
        octaves <= 1000,
    ensures
        semitone_of(F32::from_usize(octaves)).round().to_i32() == 57 + 12 * octaves,
        class_of(semitone_of(F32::from_usize(octaves)).round().to_i32() as int) == 9,
{
    lemma_whole(12);
    lemma_whole(57);
    lemma_count(octaves as int);
    let x = F32::from_usize(octaves);
    lemma_whole_product(ratio(12, 1), x, 12, octaves as int);
    assert((12 * octaves) * pow2(149) + 57 * pow2(149) == (57 + 12 * octaves) * pow2(149))
        by (nonlinear_arith);
    lemma_sum_at_most(ratio(12, 1) * x, ratio(57, 1), 57 + 12 * octaves, 149);
    lemma_whole_rounds(semitone_of(x), 57 + 12 * octaves);
}

/// A place that is a whole semitone gives all to that semitone, and the others nothing.
pub proof fn lemma_whole_place_is_not_shared(acc: F32, s: int, n: int, k: usize, magnitude: F32)
    requires
        0 <= s < n <= usize::MAX,
        k < n,
        k < 0x100_0000,
    ensures
        with_share(acc, s, n, F32::from_usize(k), magnitude) == if s == k {
            acc + magnitude * one()
        } else {
            acc
        },
{
    let x = F32::from_usize(k);
    lemma_count(k as int);
    lemma_whole_parts(x, k as int);
    assert(x - x == zero()) by {
        lemma_no_distance(x);
        lemma_negated(x);
        reveal(F32::spec_add);
        crate::rounding::lemma_mag_units_scaled(0, 0);
        crate::rounding::lemma_rounded_exact(0, 1);
    }
    lemma_zero_and_one();
    assert(one() - zero() == one()) by {
        lemma_unit_is_finite(one());
        lemma_no_subtraction(one(), zero());
        lemma_same_above_zero(one(), one() - zero());
    }
}

// --------------------------------------------------------- masks and blends

/// A mask takes from each magnitude, adds to none, and leaves nothing where nothing lasts.
pub proof fn lemma_mask_takes(g: Seq<Seq<F32>>, hp: Seq<Seq<F32>>, rp: Seq<Seq<F32>>, f: int, b: int)
    requires
        0 <= f < g.len(),
        0 <= b < g[f].len(),
        zero() <= g[f][b],
        g[f][b].is_finite(),
        zero() <= hp[f][b],
        zero() <= rp[f][b],
        (hp[f][b] + rp[f][b] + ratio(1, 1_000_000_000_000)).is_finite(),
    ensures
        zero() <= masked(g, hp, rp)[f][b],
        masked(g, hp, rp)[f][b] <= g[f][b],
        hp[f][b] == zero() ==> masked(g, hp, rp)[f][b].zero_valued(),
{
    let l = hp[f][b];
    let r = rp[f][b];
    let small = ratio(1, 1_000_000_000_000);
    lemma_zero_and_one();
    lemma_ratio_above_zero(1, 1_000_000_000_000);
    lemma_sum_grows(l, r);
    lemma_sum_grows(l + r, small);
    lemma_part_of_whole(l, l + r + small);
    lemma_scaled_down(g[f][b], mask(l, r));
    assert(g[f][b].max(zero()).same_number(g[f][b]));
    lemma_scaled_down(g[f][b].max(zero()), mask(l, r));
    if l == zero() {
        lemma_whole_and_no_part(l + r + small);
        lemma_nothing_of(g[f][b].max(zero()));
    }
}

/// Nothing of a number is nothing.
pub proof fn lemma_nothing_of(x: F32)
    requires
        zero() <= x,
        x.is_finite(),
    ensures
        (x * zero()).zero_valued(),
{
    lemma_zero_and_one();
    lemma_nonnegative(x);
    reveal(F32::spec_mul);
    crate::rounding::lemma_mag_units_scaled(0, 0);
    vstd::arithmetic::power2::lemma_pow2_pos(149);
    crate::rounding::lemma_rounded_exact(0, pow2(149) as int);
    let n = crate::rounding::mag_units(x.mag()) * crate::rounding::mag_units(zero().mag());
    assert(zero().mag() == 0 && crate::rounding::mag_units(0) == 0);
    assert(n == 0) by (nonlinear_arith)
        requires
            n == crate::rounding::mag_units(x.mag()) * crate::rounding::mag_units(zero().mag()),
            crate::rounding::mag_units(zero().mag()) == 0,
    ;
    assert(crate::rounding::mag_units(0) * pow2(149) == 0) by (nonlinear_arith)
        requires
            crate::rounding::mag_units(0) == 0,
    ;
    assert(crate::rounding::rounded(0, pow2(149) as int) == 0);
}

/// A blend without any bass stands as the full profile does, and one of bass alone as
/// the bass does.
pub proof fn lemma_blend_by_weight(full: Seq<F32>, bass: Seq<F32>, i: int, j: int)
    requires
        full.len() == 12,
        bass.len() == 12,
        0 <= i < 12,
        0 <= j < 12,
        forall|c: int| 0 <= c < 12 ==> zero() <= #[trigger] full[c] && full[c].is_finite(),
        forall|c: int| 0 <= c < 12 ==> zero() <= #[trigger] bass[c] && bass[c].is_finite(),
    ensures
        full[i] <= full[j] ==> !(blended(full, bass, zero())[j] < blended(full, bass, zero())[i]),
        bass[i] <= bass[j] ==> !(blended(full, bass, one())[j] < blended(full, bass, one())[i]),
{
    let eps = ratio(1, 10_000_000_000);
    lemma_zero_and_one();
    lemma_ratio_above_zero(1, 10_000_000_000);
    assert(one() - zero() == one()) by {
        lemma_unit_is_finite(one());
        lemma_no_subtraction(one(), zero());
        lemma_same_above_zero(one(), one() - zero());
    }
    assert(one() - one() == zero()) by {
        lemma_unit_is_finite(one());
        lemma_no_distance(one());
        lemma_negated(one());
        reveal(F32::spec_add);
        crate::rounding::lemma_mag_units_scaled(0, 0);
        crate::rounding::lemma_rounded_exact(0, 1);
    }
    let a = Seq::new(12, |c: int| (one() - zero()) * full[c] + zero() * bass[c]);
    let b = Seq::new(12, |c: int| (one() - one()) * full[c] + one() * bass[c]);
    lemma_once_and_no_part(full[i], bass[i]);
    lemma_once_and_no_part(full[j], bass[j]);
    lemma_once_and_no_part(bass[i], full[i]);
    lemma_once_and_no_part(bass[j], full[j]);
    if full[i] <= full[j] {
        lemma_length_one_keeps_order(a, eps, i, j);
    }
    if bass[i] <= bass[j] {
        lemma_length_one_keeps_order(b, eps, i, j);
    }
}

// ----------------------------------------------------------------- tuning

/// Deviations that are all upward have no direction downward.
pub proof fn lemma_direction_of_deviations(votes: Seq<TuningVote>, n: nat)
    requires
        n <= votes.len(),
        forall|i: int|
            0 <= i < votes.len() ==> zero() <= (#[trigger] votes[i]).sin && votes[i].sin.is_finite(),
        forall|i: int| 0 <= i < votes.len() ==> (#[trigger] votes[i]).weight.is_finite(),
    ensures
        zero() <= vote_sums(votes, n).0,
        n == votes.len() ==> (mean_direction(votes) matches Some((s, c)) ==> zero() <= s),
    decreases n,
{
    lemma_zero_and_one();
    if n > 0 {
        lemma_direction_of_deviations(votes, (n - 1) as nat);
        let v = votes[n - 1];
        if !(v.weight <= zero()) {
            crate::float_order::lemma_products_keep_order(v.weight, v.sin, v.weight, v.sin);
            lemma_sum_grows(vote_sums(votes, (n - 1) as nat).0, v.weight * v.sin);
        }
    }
}

/// What is taken from a sum that was added to zero leaves nothing.
proof fn lemma_opposite(w: F32, x: F32)
    requires
        w.is_finite(),
        x.is_finite(),
        (w * x).is_finite(),
    ensures
        !(zero() + w * x + w * x.neg()).is_nan(),
        (zero() + w * x + w * x.neg()).units() == 0,
        (zero() + w * x + w * x.neg()).zero_valued(),
{
    let y = w * x;
    lemma_zero_and_one();
    lemma_negated(x);
    lemma_negated(y);
    lemma_zero_plus(y);
    assert(w * x.neg() == y.neg()) by {
        reveal(F32::spec_mul);
        let n = crate::rounding::mag_units(w.mag()) * crate::rounding::mag_units(x.mag());
        assert(n >= 0) by {
            crate::rounding::lemma_mag_units_nonnegative(w.mag());
            crate::rounding::lemma_mag_units_nonnegative(x.mag());
            vstd::arithmetic::mul::lemma_mul_nonnegative(
                crate::rounding::mag_units(w.mag()),
                crate::rounding::mag_units(x.mag()),
            );
        }
        vstd::arithmetic::power2::lemma_pow2_pos(149);
        crate::rounding::lemma_rounding_exists(n, pow2(149) as int);
    }
    let z = zero() + y;
    assert(z.is_finite()) by {
        reveal(F32::units);
        crate::rounding::lemma_mag_units_nonnegative(y.mag());
        crate::rounding::lemma_mag_units_nonnegative(z.mag());
        crate::rounding::lemma_mag_units_increases(y.mag(), crate::rounding::INF_BITS as int);
    }
    assert(z + y.neg() == crate::float::signed(z.negative() && y.neg().negative(), 0)) by {
        reveal(F32::spec_add);
    }
    reveal(F32::units);
    crate::rounding::lemma_mag_units_scaled(0, 0);
}

/// Two deviations of the same weight in opposite directions agree on none.
pub proof fn lemma_opposite_deviations_have_no_direction(w: F32, sin: F32, cos: F32)
    requires
        zero() < w,
        (w + w).is_finite(),
        sin.is_finite(),
        cos.is_finite(),
        (w * sin).is_finite(),
        (w * cos).is_finite(),
    ensures
        mean_direction(
            seq![
                (TuningVote { weight: w, sin, cos }),
                (TuningVote { weight: w, sin: sin.neg(), cos: cos.neg() }),
            ],
        ) is None,
{
    let a = TuningVote { weight: w, sin, cos };
    let b = TuningVote { weight: w, sin: sin.neg(), cos: cos.neg() };
    let votes = seq![a, b];
    lemma_zero_and_one();
    lemma_ratio_above_zero(5, 100);
    lemma_ratio_above_zero(1, 1_000_000);
    reveal_with_fuel(vote_sums, 3);
    let s = zero() + w * sin + w * sin.neg();
    let c = zero() + w * cos + w * cos.neg();
    lemma_sum_grows(w, w);
    lemma_finite_below(w, w + w);
    lemma_opposite(w, sin);
    lemma_opposite(w, cos);
    let total = zero() + w + w;
    assert(total == w + w) by {
        lemma_whole_and_no_part(w);
    }
    assert(vote_sums(votes, 2) == (s, c, total));
    let length = (s * s + c * c).sqrt();
    assert(length.zero_valued() && !length.is_nan()) by {
        lemma_no_length(s, c);
    }
    assert(length / total < ratio(5, 100)) by {
        lemma_nonnegative(total);
        reveal(F32::spec_euclidean_or_real_div);
        crate::rounding::lemma_mag_units_scaled(0, 0);
        crate::rounding::lemma_rounded_exact(0, crate::rounding::mag_units(total.mag()));
        reveal(F32::units);
    }
}

proof fn lemma_no_length(s: F32, c: F32)
    requires
        s.zero_valued(),
        c.zero_valued(),
    ensures
        (s * s + c * c).sqrt().zero_valued(),
        !(s * s + c * c).sqrt().is_nan(),
{
    lemma_zero_and_one();
    reveal(F32::spec_mul);
    reveal(F32::spec_add);
    reveal(F32::units);
    reveal(crate::float::sqrt_of);
    vstd::arithmetic::power2::lemma_pow2_pos(149);
    crate::rounding::lemma_mag_units_scaled(0, 0);
    crate::rounding::lemma_rounded_exact(0, 1);
    crate::rounding::lemma_rounded_exact(0, pow2(149) as int);
}

/// A tone counts as lower the higher the tuning is, by as much.
pub proof fn lemma_higher_tuning_lowers_tones(log2_ratio: F32, low: F32, high: F32)
    requires
        semitone_of(log2_ratio).is_finite(),
        low.is_finite(),
        high.is_finite(),
        low <= high,
    ensures
        tuned_semitone(log2_ratio, high) <= tuned_semitone(log2_ratio, low),
        low == zero() && zero() <= semitone_of(log2_ratio) ==> tuned_semitone(
            log2_ratio,
            low,
        ).same_number(semitone_of(log2_ratio)),
{
    lemma_zero_and_one();
    crate::float_order::lemma_less_left(semitone_of(log2_ratio), low, high);
    if low == zero() && zero() <= semitone_of(log2_ratio) {
        lemma_no_subtraction(semitone_of(log2_ratio), zero());
    }
}

// ----------------------------------------------------------------- frames

/// The frames of a signal are all that fit: each is a hop behind the one before it, the
/// last ends within the signal, and one more would not.
pub proof fn lemma_frames_that_fit(samples: Seq<F32>, window: Seq<F32>, hop: int)
    requires
        0 < hop,
        0 < window.len() <= samples.len(),
    ensures
        ({
            let n = windowed_frames(samples, window, hop).len();
            &&& n > 0
            &&& (n - 1) * hop + window.len() <= samples.len()
            &&& samples.len() < n * hop + window.len()
        }),
{
    let room = samples.len() - window.len();
    vstd::arithmetic::div_mod::lemma_fundamental_div_mod(room, hop);
    let q = room / hop;
    assert(q >= 0) by {
        vstd::arithmetic::div_mod::lemma_div_pos_is_pos(room, hop);
    }
    assert(hop * q == q * hop && (q + 1) * hop == q * hop + hop) by (nonlinear_arith);
    vstd::arithmetic::div_mod::lemma_mod_bound(room, hop);
}

/// A window of ones leaves the samples as they are: frame `i` is what sounds from `i` hops
/// on.
pub proof fn lemma_plain_window_keeps_samples(
    samples: Seq<F32>,
    window: Seq<F32>,
    hop: int,
    i: int,
    k: int,
)
    requires
        0 < hop,
        0 < window.len() <= samples.len(),
        0 <= i < windowed_frames(samples, window, hop).len(),
        0 <= k < window.len(),
        window[k] == one(),
        zero() <= samples[i * hop + k],
        samples[i * hop + k].is_finite(),
    ensures
        windowed_frames(samples, window, hop)[i].len() == window.len(),
        windowed_frames(samples, window, hop)[i][k].same_number(samples[i * hop + k]),
{
    lemma_times_one(samples[i * hop + k]);
}

/// The harmonics of a tone are whole multiples of it, and a higher one counts for no more.
pub proof fn lemma_higher_harmonic_counts_less(a: SoundedPartial, b: SoundedPartial)
    requires
        0 < a.harmonic <= b.harmonic,
        a.strength == b.strength,
        a.decay == b.decay,
        in_unit(a.strength),
        in_unit(a.decay),
    ensures
        partial_strength(b) <= partial_strength(a),
        a.harmonic == 1 ==> partial_strength(a).same_number(a.strength * a.decay),
{
    let m = F32::from_usize(a.harmonic);
    let n = F32::from_usize(b.harmonic);
    lemma_zero_and_one();
    lemma_unit_is_finite(a.strength);
    lemma_unit_is_finite(a.decay);
    crate::float_laws::lemma_count_order(1, a.harmonic);
    crate::float_laws::lemma_count_order(a.harmonic, b.harmonic);
    vstd::arithmetic::power2::lemma2_to64();
    crate::float_sizes::lemma_count_within(b.harmonic as int, 64);
    lemma_finite_below(m, n);
    crate::float_order::lemma_quotient_falls(a.decay, m, n);
    crate::float_order::lemma_quotient_falls(a.decay, one(), m);
    lemma_by_one(a.decay);
    lemma_finite_below(a.decay / m, a.decay);
    crate::float_order::lemma_products_keep_order(
        a.strength,
        a.decay / n,
        a.strength,
        a.decay / m,
    );
    if a.harmonic == 1 {
        lemma_count(1);
        assert(m == crate::float::of_int(1));
        assert(1 * pow2(149) == pow2(149));
        assert(m.units() == one().units());
        lemma_same_above_zero(one(), m);
        crate::float_order::lemma_products_keep_order(
            a.strength,
            a.decay,
            a.strength,
            a.decay / m,
        );
        crate::float_order::lemma_products_keep_order(
            a.strength,
            a.decay / m,
            a.strength,
            a.decay,
        );
    }
}

/// A number divided by one is the number.
proof fn lemma_by_one(x: F32)
    requires
        zero() <= x,
        x.is_finite(),
    ensures
        (x / one()).same_number(x),
{
    lemma_zero_and_one();
    lemma_nonnegative(x);
    vstd::arithmetic::power2::lemma_pow2_pos(149);
    crate::rounding::lemma_mag_units_scaled(0, 0);
    crate::rounding::lemma_rounded_exact(x.mag(), pow2(149) as int);
    reveal(F32::spec_euclidean_or_real_div);
    reveal(F32::units);
}

/// Half of an even sample rate is the highest frequency that it can tell, and so many
/// bins share a rate that is as many times a whole number evenly.
pub proof fn lemma_frequencies_of_a_rate(half: u32, bins: usize, hz: u32)
    requires
        half < 0x80_0000,
        0 < bins,
        0 < hz,
        hz * bins < 0x100_0000,
    ensures
        nyquist((2 * half) as u32).units() == half * pow2(149),
        frequency_resolution((hz * bins) as u32, bins).units() == hz * pow2(149),
{
    assert(bins <= hz * bins && hz <= hz * bins) by (nonlinear_arith)
        requires
            0 < bins,
            0 < hz,
    ;
    lemma_whole(2);
    lemma_count(2 * half);
    lemma_count(hz * bins);
    lemma_count(bins as int);
    assert(2 * half == half * 2);
    crate::float_order::lemma_whole_quotient(
        F32::from_u32((2 * half) as u32),
        ratio(2, 1),
        half as int,
        2,
    );
    crate::float_order::lemma_whole_quotient(
        F32::from_u32((hz * bins) as u32),
        F32::from_usize(bins),
        hz as int,
        bins as int,
    );
}

/// On the circle of twelve classes, a whole place is as far from a class as the shorter
/// way round.
pub proof fn lemma_shorter_way_round(place: usize, class: usize)
    requires
        class <= place < 12,
    ensures
        circle_distance(F32::from_usize(place), class).units() == (if place - class <= 6 {
            place - class
        } else {
            12 - (place - class)
        }) * pow2(149),
{
    let x = F32::from_usize(place);
    let y = F32::from_usize(class);
    let d = place - class;
    lemma_zero_and_one();
    lemma_count(place as int);
    lemma_count(class as int);
    lemma_whole(12);
    lemma_whole_difference(x, y, place as int, class as int);
    let e = (x - y).abs();
    assert(e.units() == d * pow2(149) && zero() <= e && e.is_finite()) by {
        lemma_nonnegative(x - y);
        reveal(F32::units);
        crate::rounding::lemma_mag_units_nonnegative((x - y).mag());
    }
    lemma_whole_difference(ratio(12, 1), e, 12, d);
    vstd::arithmetic::power2::lemma_pow2_pos(149);
    if d <= 6 {
        assert(d * pow2(149) <= (12 - d) * pow2(149)) by (nonlinear_arith)
            requires
                d <= 6,
                pow2(149) > 0,
        ;
    } else {
        assert((12 - d) * pow2(149) < d * pow2(149)) by (nonlinear_arith)
            requires
                d > 6,
                pow2(149) > 0,
        ;
    }
}

/// The difference of small whole numbers is what it is called.
pub proof fn lemma_whole_difference(a: F32, b: F32, m: int, n: int)
    requires
        zero() <= a,
        zero() <= b,
        a.is_finite(),
        b.is_finite(),
        0 <= n <= m < 0x100_0000,
        a.units() == m * pow2(149),
        b.units() == n * pow2(149),
    ensures
        zero() <= a - b,
        (a - b).is_finite(),
        (a - b).units() == (m - n) * pow2(149),
{
    lemma_zero_and_one();
    vstd::arithmetic::power2::lemma_pow2_pos(149);
    assert(m * pow2(149) - n * pow2(149) == (m - n) * pow2(149)) by (nonlinear_arith);
    lemma_count(m - n);
    let r = crate::float::of_int(m - n);
    lemma_nonnegative(r);
    lemma_negated(b);
    crate::rounding::lemma_mag_units_scaled(0, 0);
    crate::rounding::lemma_rounded_exact(r.mag(), 1);
    crate::rounding::lemma_rounded_exact(0, 1);
    let sum = a.units() + b.neg().units();
    assert(sum == r.units());
    assert(sum >= 0) by (nonlinear_arith)
        requires
            sum == (m - n) * pow2(149),
            m >= n,
            pow2(149) > 0,
    ;
    assert(a - b == if sum == 0 {
        crate::float::signed(a.negative() && b.neg().negative(), 0)
    } else {
        crate::float::signed(false, crate::rounding::rounded(sum, 1))
    }) by {
        reveal(F32::spec_add);
    }
    reveal(F32::units);
}

/// A value passes where it is above what lasts: by nothing where it is not, by all of it
/// where nothing lasts, and by no less where it is greater.
pub proof fn lemma_passing_part(low: F32, high: F32, smoothed: F32)
    requires
        zero() <= low,
        low <= high,
        high.is_finite(),
        zero() <= smoothed,
        smoothed.is_finite(),
    ensures
        passing_part(low, smoothed) <= passing_part(high, smoothed),
        low <= smoothed ==> passing_part(low, smoothed).zero_valued(),
        smoothed == zero() ==> passing_part(low, smoothed).same_number(low),
{
    let s = smoothed.max(zero());
    let a = low.max(zero());
    let b = high.max(zero());
    lemma_zero_and_one();
    lemma_finite_below(low, high);
    lemma_negated(s);
    crate::float_order::lemma_signed_sums_keep_order(a, s.neg(), b, s.neg());
    crate::float_order::lemma_difference_is_number(a, s);
    crate::float_order::lemma_difference_is_number(b, s);
    crate::features::period::flux_laws::lemma_rise(s, a);
    if smoothed == zero() {
        lemma_no_subtraction(a, zero());
    }
}

/// The weight of a class is that of a bell curve: with whole distances and deviations, its
/// exponent is the square of the one over twice the square of the other, below zero, but
/// for rounding.
pub proof fn lemma_bell_curve(distance: u32, sigma: u32)
    requires
        distance < 0x400,
        0 < sigma < 0x400,
    ensures
        ({
            let r = gaussian_exponent(F32::from_u32(distance), F32::from_u32(sigma));
            off_by_rounding(
                r.neg().units(),
                ((distance * distance) * pow2(149)) * pow2(149),
                (2 * sigma * sigma) * pow2(149),
            )
        }),
{
    let d = F32::from_u32(distance);
    let s = F32::from_u32(sigma);
    assert(distance * distance < 0x100_0000 && 2 * sigma * sigma < 0x100_0000 && 1 <= 2 * sigma
        * sigma) by (nonlinear_arith)
        requires
            distance < 0x400,
            0 < sigma < 0x400,
    ;
    lemma_zero_and_one();
    lemma_whole(2);
    lemma_count(distance as int);
    lemma_count(sigma as int);
    lemma_whole_product(d, d, distance as int, distance as int);
    lemma_whole_product(ratio(2, 1), s, 2, sigma as int);
    lemma_whole_product(ratio(2, 1) * s, s, 2 * sigma, sigma as int);
    let square = d * d;
    let spread = ratio(2, 1) * s * s;
    vstd::arithmetic::power2::lemma_pow2_pos(149);
    assert(pow2(149) <= (2 * sigma * sigma) * pow2(149)) by (nonlinear_arith)
        requires
            1 <= 2 * sigma * sigma,
            pow2(149) > 0,
    ;
    lemma_negated(d);
    assert(d.neg() * d == square.neg()) by {
        reveal(F32::spec_mul);
        let n = crate::rounding::mag_units(d.mag()) * crate::rounding::mag_units(d.mag());
        assert(n >= 0) by (nonlinear_arith)
            requires
                n == crate::rounding::mag_units(d.mag()) * crate::rounding::mag_units(d.mag()),
        ;
        crate::rounding::lemma_rounding_exists(n, pow2(149) as int);
    }
    crate::float_order::lemma_negated_quotient(square, spread);
    lemma_negated(square / spread);
    assert((square / spread).neg().neg() == square / spread);
    vstd::arithmetic::power2::lemma2_to64();
    vstd::arithmetic::power2::lemma_pow2_adds(24, 149);
    assert((distance * distance) * pow2(149) <= 0x100_0000 * pow2(149)) by (nonlinear_arith)
        requires
            distance * distance <= 0x100_0000,
            pow2(149) > 0,
    ;
    lemma_nonnegative(square);
    crate::float_sizes::lemma_quotient_within(square, spread, 173, 149, 173);
    lemma_quotient_error(square, spread);
}

/// The bins that count for chroma vectors sound from 100 to 5000 Hz, and below the highest
/// frequency that the sample rate can tell.
pub proof fn lemma_bins_that_count(o: ChromaOptions, bin: usize)
    requires
        !(F32::from_usize(bin) * (F32::from_u32(o.sample_rate) / F32::from_usize(
            o.fft_size,
        ))).is_nan(),
    ensures
        ({
            let f = F32::from_usize(bin) * (F32::from_u32(o.sample_rate) / F32::from_usize(
                o.fft_size,
            ));
            bin_counts(o, bin) <==> ratio(100, 1) <= f && f <= ratio(5000, 1) && f < F32::from_u32(
                o.sample_rate,
            ) / ratio(2, 1)
        }),
{
    lemma_whole(100);
    lemma_whole(5000);
    lemma_whole(2);
    vstd::arithmetic::power2::lemma_pow2_pos(149);
    lemma_zero_and_one();
    vstd::arithmetic::power2::lemma2_to64();
    crate::float_sizes::lemma_count_within(o.sample_rate as int, 32);
    crate::float_order::lemma_quotient_is_number(F32::from_u32(o.sample_rate), ratio(2, 1));
}

// ----------------------------------------------------------------- tones

proof fn lemma_strong_in_row(row: Seq<F32>, o: TuningOptions, t: F32, frame: usize, n: nat, b: int)
    requires
        n <= row.len() <= usize::MAX,
        0 <= b < row.len(),
    ensures
        strong_in_row(row, o, t, frame, n).contains(StrongBin { frame, bin: b as usize }) <==> b < n
            && in_band(o, b as usize) && !(row[b] < t),
    decreases n,
{
    if n > 0 {
        lemma_strong_in_row(row, o, t, frame, (n - 1) as nat, b);
        if super::tuning::is_strong(row, o, t, n - 1) {
            crate::features::beat_tracking::grid_laws::lemma_push_contains(
                strong_in_row(row, o, t, frame, (n - 1) as nat),
                StrongBin { frame, bin: (n - 1) as usize },
                StrongBin { frame, bin: b as usize },
            );
        }
    }
}

proof fn lemma_band_peak(row: Seq<F32>, o: TuningOptions, n: nat, b: int)
    requires
        n <= row.len() <= usize::MAX,
        0 <= b < n,
        in_band(o, b as usize),
        forall|i: int| 0 <= i < row.len() ==> zero() <= #[trigger] row[i],
    ensures
        row[b] <= band_peak(row, o, n),
    decreases n,
{
    lemma_zero_and_one();
    assert(zero() <= row[n - 1] && zero() <= row[b]);
    if b < n - 1 {
        lemma_band_peak(row, o, (n - 1) as nat, b);
    } else {
        lemma_band_peak_is_number(row, o, (n - 1) as nat);
    }
}

proof fn lemma_band_peak_is_number(row: Seq<F32>, o: TuningOptions, n: nat)
    requires
        n <= row.len() <= usize::MAX,
        forall|i: int| 0 <= i < row.len() ==> zero() <= #[trigger] row[i],
    ensures
        zero() <= band_peak(row, o, n),
        band_peak(row, o, n) == zero() || exists|i: int|
            0 <= i < n && in_band(o, i as usize) && #[trigger] row[i] == band_peak(row, o, n),
    decreases n,
{
    lemma_zero_and_one();
    if n > 0 {
        lemma_band_peak_is_number(row, o, (n - 1) as nat);
        assert(zero() <= row[n - 1]);
    }
}

/// The bins that the tuning is told from are those in the band that are loud, as a part of
/// the loudest there; the loudest is always one of them.
pub proof fn lemma_strong_bins_are_the_loud_ones(
    row: Seq<F32>,
    o: TuningOptions,
    frame: usize,
    top: int,
    b: int,
)
    requires
        row.len() <= usize::MAX,
        0 <= top < row.len(),
        0 <= b < row.len(),
        in_band(o, top as usize),
        ratio(1, 1_000_000_000_000) < row[top],
        row[top].is_finite(),
        forall|i: int| 0 <= i < row.len() ==> zero() <= #[trigger] row[i],
        forall|i: int|
            0 <= i < row.len() && in_band(o, i as usize) ==> #[trigger] row[i] <= row[top],
        in_unit(o.peak_rel_threshold),
    ensures
        strong_bins_of(row, o, frame).contains(StrongBin { frame, bin: b as usize }) <==> in_band(
            o,
            b as usize,
        ) && row[top] * o.peak_rel_threshold <= row[b],
        strong_bins_of(row, o, frame).contains(StrongBin { frame, bin: top as usize }),
{
    let peak = band_peak(row, o, row.len());
    lemma_zero_and_one();
    lemma_ratio_above_zero(1, 1_000_000_000_000);
    lemma_band_peak(row, o, row.len(), top);
    lemma_band_peak_is_number(row, o, row.len());
    let i = choose|i: int|
        0 <= i < row.len() && in_band(o, i as usize) && #[trigger] row[i] == peak;
    assert(row[i] <= row[top]);
    lemma_same_above_zero(peak, row[top]);
    assert(super::tuning::in_band(o, b as usize) ==> row[b] <= row[top]);
    lemma_scaled_down(peak, o.peak_rel_threshold);
    let t = peak * o.peak_rel_threshold;
    assert(crate::float::clamp_unit(o.peak_rel_threshold) == o.peak_rel_threshold);
    lemma_strong_in_row(row, o, t, frame, row.len(), b);
    lemma_strong_in_row(row, o, t, frame, row.len(), top);
    assert(zero() <= row[b]);
}

} // verus!
