//! Mel bands: triangular filters over the bins of a spectrogram, and the novelty
//! curve of their log-compressed energies.
use super::novelty::at_least_one;
use super::novelty::check_frames;
use super::novelty::compute_superflux;
use super::novelty::normalize_in_place;
use super::novelty::scaled_curve;
use super::novelty::spectrogram_error;
use super::novelty::superflux_energy;
use crate::error::gives;
use crate::error::invalid_input;
use crate::error::AnalysisError;
use crate::error::Outcome;
use crate::float::zero;
use crate::float::F32;
use vstd::prelude::*;

verus! {

/// The length of the transform that gives `n_bins` bins.
#[verifier::allow_in_spec]
pub fn transform_len(n_bins: usize) -> usize
    returns
        (if n_bins == 0 {
            0
        } else if n_bins - 1 <= usize::MAX / 2 {
            (2 * (n_bins - 1)) as usize
        } else {
            usize::MAX
        }),
{
    if n_bins == 0 {
        0
    } else if n_bins - 1 <= usize::MAX / 2 {
        2 * (n_bins - 1)
    } else {
        usize::MAX
    }
}

/// The bin nearest to a frequency, up to the last one.
pub open spec fn bin_near(hz: F32, resolution: F32, n_bins: int) -> int {
    let b = (hz / resolution).round().to_usize();
    if b <= n_bins - 1 {
        b as int
    } else {
        n_bins - 1
    }
}

/// The bin of corner `i`, moved up behind the one before it where that is
/// possible.
pub open spec fn corner(hz_points: Seq<F32>, resolution: F32, n_bins: int, i: int) -> int
    decreases i,
{
    let b = bin_near(hz_points[i], resolution, n_bins);
    if i <= 0 {
        b
    } else {
        let before = corner(hz_points, resolution, n_bins, i - 1);
        if b > before {
            b
        } else if before + 1 <= n_bins - 1 {
            before + 1
        } else {
            n_bins - 1
        }
    }
}

/// What the rising side of band `m` gives to bin `b`.
pub open spec fn rising_part(left: int, center: int, right: int, m: int, b: int) -> Seq<(usize, F32)> {
    let w = (F32::from_usize(b as usize) - F32::from_usize(left as usize)) / (F32::from_usize(
        center as usize,
    ) - F32::from_usize(left as usize));
    if left < center < right && left < b <= center && w > zero() {
        seq![(m as usize, w)]
    } else {
        Seq::empty()
    }
}

/// What the falling side of band `m` gives to bin `b`.
pub open spec fn falling_part(left: int, center: int, right: int, m: int, b: int) -> Seq<(usize, F32)> {
    let w = (F32::from_usize(right as usize) - F32::from_usize(b as usize)) / (F32::from_usize(
        right as usize,
    ) - F32::from_usize(center as usize));
    if left < center < right && center <= b < right && w > zero() {
        seq![(m as usize, w)]
    } else {
        Seq::empty()
    }
}

/// What the first `m` bands give to bin `b`: at the peak of a band both of its sides.
pub open spec fn bin_parts(corners: Seq<usize>, b: int, m: nat) -> Seq<(usize, F32)>
    decreases m,
{
    if m == 0 {
        Seq::empty()
    } else {
        let left = corners[m - 1] as int;
        let center = corners[m as int] as int;
        let right = corners[m as int + 1] as int;
        bin_parts(corners, b, (m - 1) as nat) + rising_part(left, center, right, m - 1, b)
            + falling_part(left, center, right, m - 1, b)
    }
}

/// The bins of all corners.
pub open spec fn corners_of(hz_points: Seq<F32>, resolution: F32, n_bins: int) -> Seq<usize> {
    Seq::new(hz_points.len(), |i: int| corner(hz_points, resolution, n_bins, i) as usize)
}

/// The number of bands that have these corners.
pub open spec fn band_count(hz_points: Seq<F32>) -> nat {
    if hz_points.len() >= 2 {
        (hz_points.len() - 2) as nat
    } else {
        0
    }
}

/// For each bin, what the bands with these corners give to it.
pub open spec fn mel_parts(sample_rate: u32, n_bins: usize, hz_points: Seq<F32>) -> Seq<
    Seq<(usize, F32)>,
> {
    let resolution = F32::from_u32(sample_rate) / F32::from_usize(transform_len(n_bins));
    let corners = corners_of(hz_points, resolution, n_bins as int);
    Seq::new(n_bins as nat, |b: int| bin_parts(corners, b, band_count(hz_points)))
}

/// The energy of band `m` from the first `b` bins of a log-compressed frame; a bin
/// that is not above zero counts for nothing.
pub open spec fn band_energy(parts: Seq<Seq<(usize, F32)>>, log_frame: Seq<F32>, m: int, b: nat) -> F32
    decreases b,
{
    if b == 0 {
        zero()
    } else {
        let acc = band_energy(parts, log_frame, m, (b - 1) as nat);
        if log_frame[b - 1] <= zero() {
            acc
        } else {
            with_parts(acc, parts[b - 1], log_frame[b - 1], m, parts[b - 1].len())
        }
    }
}

/// The energies of `n_mels` bands.
pub open spec fn mel_energies(parts: Seq<Seq<(usize, F32)>>, n_mels: nat, log_frame: Seq<F32>) -> Seq<F32> {
    let n = if log_frame.len() <= parts.len() {
        log_frame.len()
    } else {
        parts.len()
    };
    Seq::new(n_mels, |m: int| band_energy(parts, log_frame, m, n))
}

/// The SuperFlux value from each row of band energies to the next.
pub open spec fn mel_flux(rows: Seq<Seq<F32>>, k: int, n_mels: int) -> Seq<F32> {
    Seq::new(
        (rows.len() - 1) as nat,
        |i: int| superflux_energy(rows[i], rows[i + 1], k, 0, n_mels, n_mels as nat).sqrt(),
    )
}

/// The mel novelty curve of log-compressed frames.
pub open spec fn mel_curve_or_error(
    log_frames: Seq<Vec<F32>>,
    sample_rate: u32,
    hz_points: Seq<F32>,
    max_filter_mels: usize,
) -> Outcome<Seq<F32>> {
    let n_mels = band_count(hz_points);
    let parts = mel_parts(sample_rate, log_frames[0]@.len() as usize, hz_points);
    let rows = Seq::new(log_frames.len(), |i: int| mel_energies(parts, n_mels, log_frames[i]@));
    if log_frames.len() < 2 {
        Outcome::Value(Seq::empty())
    } else {
        match spectrogram_error(log_frames) {
            Some(msg) => Outcome::Invalid(msg),
            None => if sample_rate == 0 {
                Outcome::Invalid("Sample rate must be > 0"@)
            } else if log_frames[0]@.len() < 2 {
                Outcome::Invalid("Not enough FFT bins"@)
            } else if n_mels == 0 {
                Outcome::Value(Seq::empty())
            } else {
                Outcome::Value(
                    scaled_curve(mel_flux(rows, at_least_one(max_filter_mels), n_mels as int)),
                )
            },
        }
    }
}

/// A bank of mel filters: for each bin, the bands that it belongs to, with weights.
pub struct MelFilterbank {
    /// Number of bands
    pub n_mels: usize,
    /// For each bin, bands and weights
    pub bin_contribs: Vec<Vec<(usize, F32)>>,
}

impl MelFilterbank {
    /// The weights refer to bands that there are.
    pub open spec fn well_formed(self) -> bool {
        forall|b: int, j: int|
            #![trigger self.bin_contribs@[b]@[j]]
            0 <= b < self.bin_contribs@.len() && 0 <= j < self.bin_contribs@[b]@.len()
                ==> self.bin_contribs@[b]@[j].0 < self.n_mels
    }

    /// For each bin, bands and weights.
    pub open spec fn parts(self) -> Seq<Seq<(usize, F32)>> {
        Seq::new(self.bin_contribs@.len(), |b: int| self.bin_contribs@[b]@)
    }

    /// Makes the bank of bands with corners at these frequencies.
    pub fn new(sample_rate: u32, n_bins: usize, hz_points: &[F32]) -> (r: Result<
        MelFilterbank,
        AnalysisError,
    >)
        ensures
            if sample_rate == 0 {
                crate::error::is_invalid_input(r, "Sample rate must be > 0"@)
            } else if n_bins < 2 {
                crate::error::is_invalid_input(r, "Not enough FFT bins"@)
            } else {
                &&& r is Ok
                &&& r->Ok_0.n_mels == band_count(hz_points@)
                &&& r->Ok_0.parts() == mel_parts(sample_rate, n_bins, hz_points@)
                &&& r->Ok_0.well_formed()
            },
    {
        if sample_rate == 0 {
            return Err(invalid_input("Sample rate must be > 0"));
        }
        if n_bins < 2 {
            return Err(invalid_input("Not enough FFT bins"));
        }
        let resolution = F32::from_u32(sample_rate) / F32::from_usize(transform_len(n_bins));
        let corners: Vec<usize> = find_corners(hz_points, resolution, n_bins);
        let n_mels: usize = if hz_points.len() >= 2 {
            hz_points.len() - 2
        } else {
            0
        };
        let mut contribs: Vec<Vec<(usize, F32)>> = Vec::new();
        let mut b: usize = 0;
        while b < n_bins
            invariant
                b <= n_bins,
                n_mels == band_count(hz_points@),
                corners@.len() == hz_points@.len(),
                contribs@.len() == b,
                forall|k: int|
                    0 <= k < b ==> (#[trigger] contribs@[k])@ == bin_parts(
                        corners@,
                        k,
                        n_mels as nat,
                    ),
                forall|k: int, j: int|
                    #![trigger contribs@[k]@[j]]
                    0 <= k < b && 0 <= j < contribs@[k]@.len() ==> contribs@[k]@[j].0 < n_mels,
            decreases n_bins - b,
        {
            let row: Vec<(usize, F32)> = find_bin_parts(corners.as_slice(), b, n_mels);
            contribs.push(row);
            b = b + 1;
        }
        let bank = MelFilterbank { n_mels, bin_contribs: contribs };
        assert(bank.parts() =~= mel_parts(sample_rate, n_bins, hz_points@));
        Ok(bank)
    }

    /// The band energies of a log-compressed frame.
    pub fn apply_logmag(&self, log_frame: &[F32]) -> (r: Vec<F32>)
        requires
            self.well_formed(),
        ensures
            r@ == mel_energies(self.parts(), self.n_mels as nat, log_frame@),
    {
        let n: usize = self.n_mels;
        let mut mel: Vec<F32> = vec![zero(); n];
        let mut b: usize = 0;
        while b < log_frame.len() && b < self.bin_contribs.len()
            invariant
                b <= log_frame.len(),
                b <= self.bin_contribs.len(),
                self.well_formed(),
                n == self.n_mels,
                mel@.len() == n,
                forall|m: int|
                    0 <= m < n ==> mel@[m] == band_energy(self.parts(), log_frame@, m, b as nat),
            decreases log_frame.len() - b,
        {
            let v = log_frame[b];
            if !(v <= zero()) {
                let row = &self.bin_contribs[b];
                let ghost start: Seq<F32> = mel@;
                let mut j: usize = 0;
                while j < row.len()
                    invariant
                        j <= row.len(),
                        b < self.bin_contribs.len(),
                        row@ == self.bin_contribs@[b as int]@,
                        self.well_formed(),
                        n == self.n_mels,
                        start.len() == n,
                        mel@.len() == n,
                        forall|m: int|
                            0 <= m < n ==> mel@[m] == with_parts(start[m], row@, v, m, j as nat),
                    decreases row.len() - j,
                {
                    let (m, w) = row[j];
                    assert(self.bin_contribs@[b as int]@[j as int].0 < self.n_mels);
                    let acc = mel[m];
                    mel.set(m, acc + v * w);
                    j = j + 1;
                }
            }
            b = b + 1;
        }
        assert(mel@ =~= mel_energies(self.parts(), n as nat, log_frame@));
        mel
    }
}

/// `acc` with those of the first `n` parts of a bin added that belong to band `m`.
pub open spec fn with_parts(acc: F32, row: Seq<(usize, F32)>, v: F32, m: int, n: nat) -> F32
    decreases n,
{
    if n == 0 {
        acc
    } else {
        let a = with_parts(acc, row, v, m, (n - 1) as nat);
        if row[n - 1].0 == m {
            a + v * row[n - 1].1
        } else {
            a
        }
    }
}

fn find_corners(hz_points: &[F32], resolution: F32, n_bins: usize) -> (r: Vec<usize>)
    requires
        n_bins >= 2,
    ensures
        r@ == corners_of(hz_points@, resolution, n_bins as int),
{
    let mut r: Vec<usize> = Vec::new();
    let mut i: usize = 0;
    while i < hz_points.len()
        invariant
            i <= hz_points.len(),
            n_bins >= 2,
            r@.len() == i,
            forall|k: int|
                0 <= k < i ==> r@[k] == corner(hz_points@, resolution, n_bins as int, k) && r@[k]
                    < n_bins,
        decreases hz_points.len() - i,
    {
        let near: usize = (hz_points[i] / resolution).round().to_usize();
        let b: usize = if near <= n_bins - 1 {
            near
        } else {
            n_bins - 1
        };
        let c: usize = if i == 0 || b > r[i - 1] {
            b
        } else if r[i - 1] + 1 <= n_bins - 1 {
            r[i - 1] + 1
        } else {
            n_bins - 1
        };
        r.push(c);
        i = i + 1;
    }
    assert(r@ =~= corners_of(hz_points@, resolution, n_bins as int));
    r
}

fn find_bin_parts(corners: &[usize], b: usize, n_mels: usize) -> (r: Vec<(usize, F32)>)
    requires
        n_mels > 0 ==> n_mels + 2 <= corners@.len(),
    ensures
        r@ == bin_parts(corners@, b as int, n_mels as nat),
        forall|j: int| 0 <= j < r@.len() ==> (#[trigger] r@[j]).0 < n_mels,
{
    let mut r: Vec<(usize, F32)> = Vec::new();
    let mut m: usize = 0;
    while m < n_mels
        invariant
            m <= n_mels,
            n_mels > 0 ==> n_mels + 2 <= corners@.len(),
            r@ == bin_parts(corners@, b as int, m as nat),
            forall|j: int| 0 <= j < r@.len() ==> (#[trigger] r@[j]).0 < m,
        decreases n_mels - m,
    {
        let left: usize = corners[m];
        let center: usize = corners[m + 1];
        let right: usize = corners[m + 2];
        let ghost before: Seq<(usize, F32)> = r@;
        let ghost rising: Seq<(usize, F32)> = rising_part(
            left as int,
            center as int,
            right as int,
            m as int,
            b as int,
        );
        let ghost falling: Seq<(usize, F32)> = falling_part(
            left as int,
            center as int,
            right as int,
            m as int,
            b as int,
        );
        if left < center && center < right {
            if left < b && b <= center {
                let w = (F32::from_usize(b) - F32::from_usize(left)) / (F32::from_usize(center)
                    - F32::from_usize(left));
                if w > zero() {
                    r.push((m, w));
                }
            }
            assert(r@ =~= before + rising);
            if center <= b && b < right {
                let w = (F32::from_usize(right) - F32::from_usize(b)) / (F32::from_usize(right)
                    - F32::from_usize(center));
                if w > zero() {
                    r.push((m, w));
                }
            }
        }
        assert(r@ =~= before + rising + falling);
        m = m + 1;
    }
    r
}

/// The novelty curve of mel bands: SuperFlux over their log-compressed energies.
/// `hz_points` are the corners of the bands, evenly spaced on the mel scale.
pub fn mel_superflux_novelty(
    log_frames: &[Vec<F32>],
    sample_rate: u32,
    hz_points: &[F32],
    max_filter_mels: usize,
) -> (r: Result<Vec<F32>, AnalysisError>)
    ensures
        gives(
            r,
            mel_curve_or_error(log_frames@, sample_rate, hz_points@, max_filter_mels),
        ),
{
    if log_frames.len() < 2 {
        return Ok(Vec::new());
    }
    proof {
        reveal_strlit("");
    }
    match check_frames(log_frames, "Empty magnitude frames", "") {
        Err(e) => {
            return Err(e);
        },
        Ok(_) => {},
    }
    let bank = match MelFilterbank::new(sample_rate, log_frames[0].len(), hz_points) {
        Err(e) => {
            return Err(e);
        },
        Ok(bank) => bank,
    };
    if bank.n_mels == 0 {
        return Ok(Vec::new());
    }
    let mut mel: Vec<Vec<F32>> = Vec::new();
    let mut i: usize = 0;
    while i < log_frames.len()
        invariant
            i <= log_frames.len(),
            bank.well_formed(),
            mel@.len() == i,
            forall|k: int| 0 <= k < i ==> (#[trigger] mel@[k])@ == mel_energies(
                bank.parts(),
                bank.n_mels as nat,
                log_frames@[k]@,
            ),
        decreases log_frames.len() - i,
    {
        let row: Vec<F32> = bank.apply_logmag(log_frames[i].as_slice());
        mel.push(row);
        i = i + 1;
    }
    let k: usize = if max_filter_mels >= 1 {
        max_filter_mels
    } else {
        1
    };
    let mut flux: Vec<F32> = compute_superflux(mel.as_slice(), k, 0, bank.n_mels);
    proof {
        let rows = Seq::new(
            log_frames@.len(),
            |i: int| mel_energies(bank.parts(), bank.n_mels as nat, log_frames@[i]@),
        );
        assert(flux@ =~= mel_flux(rows, at_least_one(max_filter_mels), bank.n_mels as int));
    }
    normalize_in_place(&mut flux);
    Ok(flux)
}

} // verus!
