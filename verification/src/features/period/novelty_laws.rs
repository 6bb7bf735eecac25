//! Laws of novelty curves.
use super::mel::band_count;
use super::mel::mel_curve_or_error;
use super::mel::mel_energies;
use super::mel::mel_flux;
use super::mel::mel_parts;
use super::novelty::above_local_mean;
use super::novelty::at_least_one;
use super::novelty::band_curve_or_error;
use super::novelty::combined_curve;
use super::novelty::contents_of;
use super::novelty::curve_or_error;
use super::novelty::energies_of;
use super::novelty::rise_energy;
use super::novelty::rises;
use super::novelty::scaled_curve;
use super::novelty::smoothed;
use super::novelty::spectral_flux_of;
use super::novelty::superflux_energy;
use super::novelty::superflux_of;
use super::novelty::unit_frame;
use super::novelty::weighted_curves;
use super::novelty::window_end;
use super::novelty::window_start;
use super::novelty::window_sum;
use super::peak_picking::peak_height;
use crate::error::Outcome;
use crate::float::ratio;
use crate::float::zero;
use crate::float::F32;
use crate::float_laws::lemma_count_order;
use crate::float_laws::lemma_part_never_outside;
use crate::float_laws::lemma_product_never_negative;
use crate::float_laws::lemma_quotient_never_negative;
use crate::float_laws::lemma_ratio_above_zero;
use crate::float_laws::lemma_ratio_in_unit;
use crate::float_laws::lemma_root_never_negative;
use crate::float_laws::lemma_sum_never_negative;
use crate::float_laws::lemma_zero_and_one;
use crate::float_laws::never_outside;
use vstd::prelude::*;

verus! {

/// No value is below zero.
pub open spec fn none_negative(s: Seq<F32>) -> bool {
    forall|i: int| 0 <= i < s.len() ==> !((#[trigger] s[i]) < zero())
}

/// No value is outside the range from zero to one.
pub open spec fn none_outside(s: Seq<F32>) -> bool {
    forall|i: int| 0 <= i < s.len() ==> never_outside(#[trigger] s[i])
}

proof fn lemma_height(s: Seq<F32>, n: nat)
    requires
        n <= s.len(),
    ensures
        zero() <= peak_height(s, n),
        forall|i: int| 0 <= i < n ==> s[i].is_nan() || #[trigger] s[i] <= peak_height(s, n),
    decreases n,
{
    lemma_zero_and_one();
    if n > 0 {
        lemma_height(s, (n - 1) as nat);
    }
}

/// A curve none of whose values is below zero is scaled into the range from zero to one.
pub proof fn lemma_scaled_curve_none_outside(curve: Seq<F32>)
    requires
        none_negative(curve),
    ensures
        none_outside(scaled_curve(curve)),
        scaled_curve(curve).len() == curve.len(),
{
    let max = peak_height(curve, curve.len());
    lemma_zero_and_one();
    lemma_height(curve, curve.len());
    lemma_ratio_above_zero(1, 10_000_000_000);
    lemma_ratio_in_unit(1, 10_000_000_000);
    assert forall|i: int| 0 <= i < curve.len() implies never_outside(
        #[trigger] scaled_curve(curve)[i],
    ) by {
        if max > ratio(1, 10_000_000_000) {
            lemma_part_never_outside(curve[i], max);
        }
    }
}

/// The spectral flux is not below zero.
pub proof fn lemma_spectral_flux_none_negative(frames: Seq<Vec<F32>>)
    requires
        frames.len() > 0,
    ensures
        none_negative(spectral_flux_of(frames)),
{
    let flux = spectral_flux_of(frames);
    assert forall|i: int| 0 <= i < flux.len() implies !((#[trigger] flux[i]) < zero()) by {
        lemma_root_never_negative(
            rise_energy(
                unit_frame(frames[i]@),
                unit_frame(frames[i + 1]@),
                frames[i]@.len(),
            ),
        );
    }
}

proof fn lemma_superflux_none_negative(frames: Seq<Vec<F32>>, k: int, start: int, end: int)
    requires
        frames.len() > 0,
    ensures
        none_negative(superflux_of(frames, k, start, end)),
{
    let flux = superflux_of(frames, k, start, end);
    assert forall|i: int| 0 <= i < flux.len() implies !((#[trigger] flux[i]) < zero()) by {
        lemma_root_never_negative(
            superflux_energy(
                frames[i]@,
                frames[i + 1]@,
                k,
                start,
                end,
                (end - start) as nat,
            ),
        );
    }
}

/// The rises of values are not below zero.
pub proof fn lemma_rises_none_negative(values: Seq<F32>)
    ensures
        none_negative(rises(values)),
{
    lemma_zero_and_one();
}

/// A curve, where there is one, lies in the range from zero to one.
pub open spec fn curve_none_outside(outcome: Outcome<Seq<F32>>) -> bool {
    outcome matches Outcome::Value(curve) ==> none_outside(curve)
}

/// Every novelty curve of a spectrogram lies in the range from zero to one.
pub proof fn lemma_novelty_none_outside(frames: Seq<Vec<F32>>, k: int, start: int, end: int)
    ensures
        curve_none_outside(curve_or_error(frames, spectral_flux_of(frames))),
        curve_none_outside(curve_or_error(frames, superflux_of(frames, k, start, end))),
        curve_none_outside(curve_or_error(frames, rises(energies_of(frames, start, end)))),
        curve_none_outside(curve_or_error(frames, rises(contents_of(frames, start, end)))),
{
    if frames.len() > 0 {
        lemma_spectral_flux_none_negative(frames);
        lemma_superflux_none_negative(frames, k, start, end);
        lemma_rises_none_negative(energies_of(frames, start, end));
        lemma_rises_none_negative(contents_of(frames, start, end));
        lemma_scaled_curve_none_outside(spectral_flux_of(frames));
        lemma_scaled_curve_none_outside(superflux_of(frames, k, start, end));
        lemma_scaled_curve_none_outside(rises(energies_of(frames, start, end)));
        lemma_scaled_curve_none_outside(rises(contents_of(frames, start, end)));
    }
}

/// Every novelty curve of a band of a spectrogram lies in the range from zero to one.
pub proof fn lemma_band_novelty_none_outside(
    frames: Seq<Vec<F32>>,
    first: usize,
    behind: usize,
    k: int,
    start: int,
    end: int,
)
    ensures
        curve_none_outside(
            band_curve_or_error(frames, first, behind, superflux_of(frames, k, start, end)),
        ),
        curve_none_outside(
            band_curve_or_error(frames, first, behind, rises(energies_of(frames, start, end))),
        ),
        curve_none_outside(
            band_curve_or_error(frames, first, behind, rises(contents_of(frames, start, end))),
        ),
{
    if frames.len() > 0 {
        lemma_superflux_none_negative(frames, k, start, end);
        lemma_rises_none_negative(energies_of(frames, start, end));
        lemma_rises_none_negative(contents_of(frames, start, end));
        lemma_scaled_curve_none_outside(superflux_of(frames, k, start, end));
        lemma_scaled_curve_none_outside(rises(energies_of(frames, start, end)));
        lemma_scaled_curve_none_outside(rises(contents_of(frames, start, end)));
    }
}

/// The novelty curve of mel bands lies in the range from zero to one.
pub proof fn lemma_mel_novelty_none_outside(
    log_frames: Seq<Vec<F32>>,
    sample_rate: u32,
    hz_points: Seq<F32>,
    max_filter_mels: usize,
)
    ensures
        curve_none_outside(
            mel_curve_or_error(log_frames, sample_rate, hz_points, max_filter_mels),
        ),
{
    let n_mels = band_count(hz_points);
    let parts = mel_parts(sample_rate, log_frames[0]@.len() as usize, hz_points);
    let rows = Seq::new(log_frames.len(), |i: int| mel_energies(parts, n_mels, log_frames[i]@));
    let k = at_least_one(max_filter_mels);
    if log_frames.len() > 0 {
        let flux = mel_flux(rows, k, n_mels as int);
        assert forall|i: int| 0 <= i < flux.len() implies !((#[trigger] flux[i]) < zero()) by {
            lemma_root_never_negative(
                superflux_energy(rows[i], rows[i + 1], k, 0, n_mels as int, n_mels),
            );
        }
        lemma_scaled_curve_none_outside(flux);
    }
}

proof fn lemma_window_sum_not_negative(s: Seq<F32>, start: int, n: nat)
    requires
        none_negative(s),
        0 <= start,
        start + n <= s.len(),
    ensures
        !(window_sum(s, start, n) < zero()),
    decreases n,
{
    lemma_zero_and_one();
    if n > 0 {
        lemma_window_sum_not_negative(s, start, (n - 1) as nat);
        lemma_sum_never_negative(window_sum(s, start, (n - 1) as nat), s[start + n - 1]);
    }
}

proof fn lemma_smoothed_none_negative(s: Seq<F32>, window: int)
    requires
        none_negative(s),
        s.len() <= usize::MAX,
    ensures
        none_negative(smoothed(s, window)),
        smoothed(s, window).len() == s.len(),
{
    lemma_zero_and_one();
    if s.len() >= 3 && window > 1 {
        let half = window / 2;
        assert forall|i: int| 0 <= i < s.len() implies !((#[trigger] smoothed(s, window)[i])
            < zero()) by {
            let start = window_start(i, half, 0);
            let end = window_end(i, half, s.len() as int);
            lemma_window_sum_not_negative(s, start, (end - start) as nat);
            lemma_count_order(0, (end - start) as usize);
            lemma_quotient_never_negative(
                window_sum(s, start, (end - start) as nat),
                F32::from_usize((end - start) as usize),
            );
        }
    }
}

proof fn lemma_weighted_none_negative(
    spectral: Seq<F32>,
    energy: Seq<F32>,
    hfc: Seq<F32>,
    w_spectral: F32,
    w_energy: F32,
    w_hfc: F32,
)
    requires
        none_negative(spectral),
        none_negative(energy),
        none_negative(hfc),
    ensures
        none_negative(weighted_curves(spectral, energy, hfc, w_spectral, w_energy, w_hfc)),
{
    lemma_zero_and_one();
    lemma_ratio_above_zero(1, 10_000_000_000);
    let ws = w_spectral.max(zero());
    let we = w_energy.max(zero());
    let wh = w_hfc.max(zero());
    let total = (ws + we + wh).max(ratio(1, 10_000_000_000));
    let w = weighted_curves(spectral, energy, hfc, w_spectral, w_energy, w_hfc);
    assert(zero() < total);
    assert forall|i: int| 0 <= i < w.len() implies !((#[trigger] w[i]) < zero()) by {
        lemma_product_never_negative(spectral[i], ws);
        lemma_product_never_negative(energy[i], we);
        lemma_product_never_negative(hfc[i], wh);
        lemma_sum_never_negative(spectral[i] * ws, energy[i] * we);
        lemma_sum_never_negative(spectral[i] * ws + energy[i] * we, hfc[i] * wh);
        lemma_quotient_never_negative(
            spectral[i] * ws + energy[i] * we + hfc[i] * wh,
            total,
        );
    }
}

/// Curves in the range from zero to one, combined under any weights and windows,
/// lie in that range.
pub proof fn lemma_combined_novelty_none_outside(
    spectral: Seq<F32>,
    energy: Seq<F32>,
    hfc: Seq<F32>,
    w_spectral: F32,
    w_energy: F32,
    w_hfc: F32,
    local_mean_window: int,
    smooth_window: int,
)
    requires
        none_outside(spectral),
        none_outside(energy),
        none_outside(hfc),
        spectral.len() <= usize::MAX,
        energy.len() <= usize::MAX,
        hfc.len() <= usize::MAX,
    ensures
        none_outside(
            combined_curve(
                spectral,
                energy,
                hfc,
                w_spectral,
                w_energy,
                w_hfc,
                local_mean_window,
                smooth_window,
            ),
        ),
{
    lemma_zero_and_one();
    let w = weighted_curves(spectral, energy, hfc, w_spectral, w_energy, w_hfc);
    lemma_weighted_none_negative(spectral, energy, hfc, w_spectral, w_energy, w_hfc);
    lemma_scaled_curve_none_outside(w);
    let c1 = scaled_curve(w);
    let c2 = if local_mean_window > 1 {
        above_local_mean(c1, local_mean_window)
    } else {
        c1
    };
    assert(none_negative(c2));
    lemma_smoothed_none_negative(c2, smooth_window);
    let c3 = if smooth_window > 1 {
        smoothed(c2, smooth_window)
    } else {
        c2
    };
    lemma_scaled_curve_none_outside(c3);
}

} // verus!
