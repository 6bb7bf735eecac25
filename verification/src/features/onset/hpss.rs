//! Onsets of what is percussive: the spectrogram is parted into what lasts over
//! time and what spreads over frequency, and onsets are where the latter rises.
use super::flux_peaks::bad_percentile_text;
use super::flux_peaks::check_percentile;
use super::flux_peaks::is_percentile;
use super::spectral_flux::find_percentile_onsets;
use super::spectral_flux::percentile_onsets;
use crate::error::gives;
use crate::error::invalid_input;
use crate::error::AnalysisError;
use crate::error::Outcome;
use crate::features::period::novelty::check_frames;
use crate::features::period::novelty::compute_rises;
use crate::features::period::novelty::frames_error;
use crate::features::period::novelty::rises;
use crate::features::period::novelty::window_end;
use crate::features::period::novelty::window_start;
use crate::float::ratio;
use crate::float::zero;
use crate::float::F32;
use crate::float_laws::lemma_part_of_whole;
use crate::float_laws::lemma_ratio_in_unit;
use crate::float_laws::lemma_scaled_down;
use crate::float_laws::lemma_sum_grows;
use crate::spectrogram::copy_rows;
use crate::spectrogram::is_grid;
use crate::spectrogram::rows;
use crate::statistics::median;
use crate::statistics::median_of;
use crate::vector::dot_product;
use crate::vector::energy;
use vstd::prelude::*;
use vstd::slice::slice_subrange;

verus! {

/// `n` values of a bin, from frame `start` on.
pub open spec fn column(g: Seq<Seq<F32>>, bin: int, start: int, n: nat) -> Seq<F32> {
    Seq::new(n, |k: int| g[start + k][bin])
}

/// The median over time around a place.
pub open spec fn median_over_time(g: Seq<Seq<F32>>, margin: int, f: int, b: int) -> F32 {
    let start = window_start(f, margin, 0);
    median_of(column(g, b, start, (window_end(f, margin, g.len() as int) - start) as nat))
}

/// The median over frequency around a place.
pub open spec fn median_over_bins(row: Seq<F32>, margin: int, b: int) -> F32 {
    median_of(
        row.subrange(window_start(b, margin, 0), window_end(b, margin, row.len() as int)),
    )
}

/// What of a value is harmonic, by what lasts and what spreads.
#[verifier::allow_in_spec]
pub fn harmonic_part(value: F32, h: F32, p: F32) -> F32
    returns
        (if h + p > ratio(1, 10_000_000_000) {
            value * (h / (h + p))
        } else {
            value * ratio(5, 10)
        }),
{
    if h + p > ratio(1, 10_000_000_000) {
        value * (h / (h + p))
    } else {
        value * ratio(5, 10)
    }
}

/// What of a value is percussive, by what lasts and what spreads.
#[verifier::allow_in_spec]
pub fn percussive_part(value: F32, h: F32, p: F32) -> F32
    returns
        (if h + p > ratio(1, 10_000_000_000) {
            value * (p / (h + p))
        } else {
            value * ratio(5, 10)
        }),
{
    if h + p > ratio(1, 10_000_000_000) {
        value * (p / (h + p))
    } else {
        value * ratio(5, 10)
    }
}

/// The harmonic part of a spectrogram after one more round.
pub open spec fn next_harmonic(
    g: Seq<Seq<F32>>,
    h: Seq<Seq<F32>>,
    p: Seq<Seq<F32>>,
    margin: int,
) -> Seq<Seq<F32>> {
    Seq::new(
        g.len(),
        |f: int|
            Seq::new(
                g[f].len(),
                |b: int|
                    harmonic_part(
                        g[f][b],
                        median_over_time(h, margin, f, b),
                        median_over_bins(p[f], margin, b),
                    ),
            ),
    )
}

/// The percussive part of a spectrogram after one more round.
pub open spec fn next_percussive(
    g: Seq<Seq<F32>>,
    h: Seq<Seq<F32>>,
    p: Seq<Seq<F32>>,
    margin: int,
) -> Seq<Seq<F32>> {
    Seq::new(
        g.len(),
        |f: int|
            Seq::new(
                g[f].len(),
                |b: int|
                    percussive_part(
                        g[f][b],
                        median_over_time(h, margin, f, b),
                        median_over_bins(p[f], margin, b),
                    ),
            ),
    )
}

/// The greatest of `acc` and the changes of the first `n` bins.
pub open spec fn row_change(
    acc: F32,
    h0: Seq<F32>,
    h1: Seq<F32>,
    p0: Seq<F32>,
    p1: Seq<F32>,
    n: nat,
) -> F32
    decreases n,
{
    if n == 0 {
        acc
    } else {
        row_change(acc, h0, h1, p0, p1, (n - 1) as nat).max((h1[n - 1] - h0[n - 1]).abs()).max(
            (p1[n - 1] - p0[n - 1]).abs(),
        )
    }
}

/// The greatest change in the first `n` frames; zero at least.
pub open spec fn grid_change(
    h0: Seq<Seq<F32>>,
    h1: Seq<Seq<F32>>,
    p0: Seq<Seq<F32>>,
    p1: Seq<Seq<F32>>,
    n: nat,
) -> F32
    decreases n,
{
    if n == 0 {
        zero()
    } else {
        row_change(
            grid_change(h0, h1, p0, p1, (n - 1) as nat),
            h0[n - 1],
            h1[n - 1],
            p0[n - 1],
            p1[n - 1],
            h1[n - 1].len(),
        )
    }
}

/// The two parts after round `round` and those that follow: ten in all, or fewer
/// where a round after the first changes next to nothing.
pub open spec fn settled(
    g: Seq<Seq<F32>>,
    h: Seq<Seq<F32>>,
    p: Seq<Seq<F32>>,
    margin: int,
    round: int,
) -> (Seq<Seq<F32>>, Seq<Seq<F32>>)
    decreases 10 - round,
{
    if round >= 10 {
        (h, p)
    } else {
        let h1 = next_harmonic(g, h, p, margin);
        let p1 = next_percussive(g, h, p, margin);
        if round > 0 && grid_change(h, h1, p, p1, g.len()) < ratio(1, 1_000_000) {
            (h1, p1)
        } else {
            settled(g, h1, p1, margin, round + 1)
        }
    }
}

/// The two parts of a spectrogram have its shape.
pub proof fn lemma_parts_keep_shape(
    g: Seq<Seq<F32>>,
    h: Seq<Seq<F32>>,
    p: Seq<Seq<F32>>,
    margin: int,
    round: int,
    frames: nat,
    bins: nat,
)
    requires
        is_grid(g, frames, bins),
        is_grid(h, frames, bins),
        is_grid(p, frames, bins),
    ensures
        is_grid(settled(g, h, p, margin, round).0, frames, bins),
        is_grid(settled(g, h, p, margin, round).1, frames, bins),
    decreases 10 - round,
{
    if round < 10 {
        let h1 = next_harmonic(g, h, p, margin);
        let p1 = next_percussive(g, h, p, margin);
        assert(is_grid(h1, frames, bins));
        assert(is_grid(p1, frames, bins));
        lemma_parts_keep_shape(g, h1, p1, margin, round + 1, frames, bins);
    }
}

/// Neither part of a magnitude is below zero or above the magnitude.
pub proof fn lemma_parts_of_a_magnitude(value: F32, h: F32, p: F32)
    requires
        zero() <= value,
        value.is_finite(),
        zero() <= h,
        zero() <= p,
        (h + p).is_finite(),
    ensures
        zero() <= harmonic_part(value, h, p),
        harmonic_part(value, h, p) <= value,
        zero() <= percussive_part(value, h, p),
        percussive_part(value, h, p) <= value,
{
    lemma_sum_grows(h, p);
    lemma_ratio_in_unit(5, 10);
    lemma_ratio_in_unit(1, 10_000_000_000);
    lemma_scaled_down(value, ratio(5, 10));
    if h + p > ratio(1, 10_000_000_000) {
        lemma_part_of_whole(h, h + p);
        lemma_part_of_whole(p, h + p);
        lemma_scaled_down(value, h / (h + p));
        lemma_scaled_down(value, p / (h + p));
    }
}

fn find_median_over_time(g: &[Vec<F32>], margin: usize, f: usize, b: usize) -> (r: F32)
    requires
        f < g@.len(),
        forall|i: int| 0 <= i < g@.len() ==> b < (#[trigger] g@[i])@.len(),
    ensures
        r == median_over_time(rows(g@), margin as int, f as int, b as int),
{
    let n: usize = g.len();
    let start: usize = if f >= margin {
        f - margin
    } else {
        0
    };
    let end: usize = if margin < n - f {
        f + margin + 1
    } else {
        n
    };
    let mut window: Vec<F32> = Vec::new();
    let mut i: usize = start;
    while i < end
        invariant
            start <= i <= end <= g@.len(),
            forall|i: int| 0 <= i < g@.len() ==> b < (#[trigger] g@[i])@.len(),
            window@.len() == i - start,
            forall|k: int| 0 <= k < i - start ==> window@[k] == g@[start + k]@[b as int],
        decreases end - i,
    {
        window.push(g[i][b]);
        i = i + 1;
    }
    assert(window@ =~= column(rows(g@), b as int, start as int, (end - start) as nat));
    median(window.as_slice())
}

fn find_median_over_bins(row: &[F32], margin: usize, b: usize) -> (r: F32)
    requires
        b < row@.len(),
    ensures
        r == median_over_bins(row@, margin as int, b as int),
{
    let n: usize = row.len();
    let start: usize = if b >= margin {
        b - margin
    } else {
        0
    };
    let end: usize = if margin < n - b {
        b + margin + 1
    } else {
        n
    };
    median(slice_subrange(row, start, end))
}

/// One round of the two parts.
fn refine(g: &[Vec<F32>], h: &[Vec<F32>], p: &[Vec<F32>], margin: usize) -> (r: (
    Vec<Vec<F32>>,
    Vec<Vec<F32>>,
))
    requires
        g@.len() > 0,
        is_grid(rows(g@), g@.len(), g@[0]@.len()),
        is_grid(rows(h@), g@.len(), g@[0]@.len()),
        is_grid(rows(p@), g@.len(), g@[0]@.len()),
    ensures
        rows(r.0@) == next_harmonic(rows(g@), rows(h@), rows(p@), margin as int),
        rows(r.1@) == next_percussive(rows(g@), rows(h@), rows(p@), margin as int),
{
    let ghost gs: Seq<Seq<F32>> = rows(g@);
    let ghost hs: Seq<Seq<F32>> = rows(h@);
    let ghost ps: Seq<Seq<F32>> = rows(p@);
    let ghost hn: Seq<Seq<F32>> = next_harmonic(gs, hs, ps, margin as int);
    let ghost pn: Seq<Seq<F32>> = next_percussive(gs, hs, ps, margin as int);
    let frames: usize = g.len();
    let bins: usize = g[0].len();
    let mut h1: Vec<Vec<F32>> = Vec::new();
    let mut p1: Vec<Vec<F32>> = Vec::new();
    let mut f: usize = 0;
    while f < frames
        invariant
            f <= frames,
            frames == g@.len(),
            gs == rows(g@),
            hs == rows(h@),
            ps == rows(p@),
            is_grid(gs, frames as nat, bins as nat),
            is_grid(hs, frames as nat, bins as nat),
            is_grid(ps, frames as nat, bins as nat),
            hn == next_harmonic(gs, hs, ps, margin as int),
            pn == next_percussive(gs, hs, ps, margin as int),
            h1@.len() == f,
            p1@.len() == f,
            forall|k: int| 0 <= k < f ==> (#[trigger] h1@[k])@ == hn[k],
            forall|k: int| 0 <= k < f ==> (#[trigger] p1@[k])@ == pn[k],
        decreases frames - f,
    {
        let mut hr: Vec<F32> = Vec::new();
        let mut pr: Vec<F32> = Vec::new();
        assert(gs[f as int] == g@[f as int]@);
        assert(ps[f as int] == p@[f as int]@);
        let mut b: usize = 0;
        while b < bins
            invariant
                b <= bins,
                f < frames,
                frames == g@.len(),
                gs == rows(g@),
                hs == rows(h@),
                ps == rows(p@),
                is_grid(gs, frames as nat, bins as nat),
                is_grid(hs, frames as nat, bins as nat),
                is_grid(ps, frames as nat, bins as nat),
                gs[f as int] == g@[f as int]@,
                ps[f as int] == p@[f as int]@,
                hn == next_harmonic(gs, hs, ps, margin as int),
                pn == next_percussive(gs, hs, ps, margin as int),
                hr@.len() == b,
                pr@.len() == b,
                forall|k: int| 0 <= k < b ==> hr@[k] == hn[f as int][k],
                forall|k: int| 0 <= k < b ==> pr@[k] == pn[f as int][k],
            decreases bins - b,
        {
            assert forall|i: int| 0 <= i < h@.len() implies b < (#[trigger] h@[i])@.len() by {
                assert(hs[i].len() == bins);
            }
            let mh = find_median_over_time(h, margin, f, b);
            let mp = find_median_over_bins(p[f].as_slice(), margin, b);
            let value = g[f][b];
            hr.push(harmonic_part(value, mh, mp));
            pr.push(percussive_part(value, mh, mp));
            b = b + 1;
        }
        assert(hr@ =~= hn[f as int]);
        assert(pr@ =~= pn[f as int]);
        h1.push(hr);
        p1.push(pr);
        f = f + 1;
    }
    assert(rows(h1@) =~= hn);
    assert(rows(p1@) =~= pn);
    (h1, p1)
}

fn find_change(h0: &[Vec<F32>], h1: &[Vec<F32>], p0: &[Vec<F32>], p1: &[Vec<F32>], bins: usize) -> (r: F32)
    requires
        is_grid(rows(h0@), h1@.len(), bins as nat),
        is_grid(rows(h1@), h1@.len(), bins as nat),
        is_grid(rows(p0@), h1@.len(), bins as nat),
        is_grid(rows(p1@), h1@.len(), bins as nat),
    ensures
        r == grid_change(rows(h0@), rows(h1@), rows(p0@), rows(p1@), h1@.len()),
{
    let frames: usize = h1.len();
    let mut acc = zero();
    let mut f: usize = 0;
    while f < frames
        invariant
            f <= frames,
            frames == h1@.len(),
            is_grid(rows(h0@), frames as nat, bins as nat),
            is_grid(rows(h1@), frames as nat, bins as nat),
            is_grid(rows(p0@), frames as nat, bins as nat),
            is_grid(rows(p1@), frames as nat, bins as nat),
            acc == grid_change(rows(h0@), rows(h1@), rows(p0@), rows(p1@), f as nat),
        decreases frames - f,
    {
        let ghost start: F32 = acc;
        assert(rows(h0@)[f as int] == h0@[f as int]@);
        assert(rows(h1@)[f as int] == h1@[f as int]@);
        assert(rows(p0@)[f as int] == p0@[f as int]@);
        assert(rows(p1@)[f as int] == p1@[f as int]@);
        let mut b: usize = 0;
        while b < bins
            invariant
                b <= bins,
                f < frames,
                f < h0@.len(),
                f < h1@.len(),
                f < p0@.len(),
                f < p1@.len(),
                h0@[f as int]@.len() == bins,
                h1@[f as int]@.len() == bins,
                p0@[f as int]@.len() == bins,
                p1@[f as int]@.len() == bins,
                acc == row_change(
                    start,
                    h0@[f as int]@,
                    h1@[f as int]@,
                    p0@[f as int]@,
                    p1@[f as int]@,
                    b as nat,
                ),
            decreases bins - b,
        {
            acc = acc.max((h1[f][b] - h0[f][b]).abs()).max((p1[f][b] - p0[f][b]).abs());
            b = b + 1;
        }
        f = f + 1;
    }
    acc
}

/// What is wrong with a spectrogram that is to be parted.
pub open spec fn hpss_error(frames: Seq<Vec<F32>>) -> Option<Seq<char>> {
    if frames.len() == 0 {
        Some("Empty spectrogram"@)
    } else {
        frames_error(frames, "Empty frames"@, ""@)
    }
}

/// Parts a spectrogram into what is harmonic and what is percussive. `margin` is
/// the radius of the medians, in frames and in bins.
pub fn hpss_decompose(magnitude_spec: &[Vec<F32>], margin: usize) -> (r: Result<
    (Vec<Vec<F32>>, Vec<Vec<F32>>),
    AnalysisError,
>)
    ensures
        match hpss_error(magnitude_spec@) {
            Some(msg) => crate::error::is_invalid_input(r, msg),
            None => r is Ok && (rows(r->Ok_0.0@), rows(r->Ok_0.1@)) == settled(
                rows(magnitude_spec@),
                rows(magnitude_spec@),
                rows(magnitude_spec@),
                margin as int,
                0,
            ),
        },
{
    if magnitude_spec.len() == 0 {
        return Err(invalid_input("Empty spectrogram"));
    }
    proof {
        reveal_strlit("");
    }
    match check_frames(magnitude_spec, "Empty frames", "") {
        Err(e) => {
            return Err(e);
        },
        Ok(_) => {},
    }
    let bins: usize = magnitude_spec[0].len();
    let ghost g: Seq<Seq<F32>> = rows(magnitude_spec@);
    let mut h: Vec<Vec<F32>> = copy_rows(magnitude_spec);
    let mut p: Vec<Vec<F32>> = copy_rows(magnitude_spec);
    let mut round: usize = 0;
    while round < 10
        invariant
            round <= 10,
            magnitude_spec@.len() > 0,
            hpss_error(magnitude_spec@) is None,
            g == rows(magnitude_spec@),
            bins == magnitude_spec@[0]@.len(),
            is_grid(g, magnitude_spec@.len(), bins as nat),
            is_grid(rows(h@), magnitude_spec@.len(), bins as nat),
            is_grid(rows(p@), magnitude_spec@.len(), bins as nat),
            settled(g, g, g, margin as int, 0) == settled(
                g,
                rows(h@),
                rows(p@),
                margin as int,
                round as int,
            ),
        decreases 10 - round,
    {
        let (h1, p1) = refine(magnitude_spec, h.as_slice(), p.as_slice(), margin);
        assert(h1@.len() == rows(h1@).len());
        let change = find_change(h.as_slice(), h1.as_slice(), p.as_slice(), p1.as_slice(), bins);
        h = h1;
        p = p1;
        if round > 0 && change < ratio(1, 1_000_000) {
            return Ok((h, p));
        }
        round = round + 1;
    }
    Ok((h, p))
}

/// The energy of each row.
pub open spec fn row_energies(g: Seq<Vec<F32>>) -> Seq<F32> {
    Seq::new(g.len(), |i: int| energy(g[i]@))
}

/// Detects onsets where the energy of the percussive part rises by more than a
/// percentile of all rises. The onsets are frames, in order.
pub fn detect_hpss_onsets(percussive_component: &[Vec<F32>], threshold_percentile: F32) -> (r: Result<
    Vec<usize>,
    AnalysisError,
>)
    ensures
        gives(
            r,
            if percussive_component@.len() == 0 {
                Outcome::Value(Seq::empty())
            } else if !is_percentile(threshold_percentile) {
                Outcome::Invalid(bad_percentile_text(threshold_percentile))
            } else if percussive_component@.len() < 2 {
                Outcome::Value(Seq::empty())
            } else {
                Outcome::Value(
                    percentile_onsets(
                        rises(row_energies(percussive_component@)),
                        threshold_percentile,
                    ),
                )
            },
        ),
{
    if percussive_component.len() == 0 {
        return Ok(Vec::new());
    }
    match check_percentile(threshold_percentile) {
        Err(e) => {
            return Err(e);
        },
        Ok(_) => {},
    }
    if percussive_component.len() < 2 {
        return Ok(Vec::new());
    }
    let mut energies: Vec<F32> = Vec::new();
    let mut i: usize = 0;
    while i < percussive_component.len()
        invariant
            i <= percussive_component.len(),
            energies@.len() == i,
            forall|k: int| 0 <= k < i ==> energies@[k] == energy(percussive_component@[k]@),
        decreases percussive_component.len() - i,
    {
        let row = percussive_component[i].as_slice();
        energies.push(dot_product(row, row));
        i = i + 1;
    }
    assert(energies@ =~= row_energies(percussive_component@));
    let flux: Vec<F32> = compute_rises(energies.as_slice());
    Ok(find_percentile_onsets(flux.as_slice(), threshold_percentile))
}

} // verus!
