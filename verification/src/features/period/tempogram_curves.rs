//! The novelty curves that a tempogram is made of: one of the full spectrum, and
//! where wanted one for each of three bands and one of mel bands.
use super::mel::mel_curve_or_error;
use super::mel::mel_superflux_novelty;
use super::novelty::at_least_one;
use super::novelty::band_curve_or_error;
use super::novelty::clipped;
use super::novelty::combined_curve;
use super::novelty::combined_novelty_with_params;
use super::novelty::contents_of;
use super::novelty::curve_or_error;
use super::novelty::energies_of;
use super::novelty::energy_flux_novelty;
use super::novelty::energy_flux_novelty_band;
use super::novelty::hfc_novelty;
use super::novelty::hfc_novelty_band;
use super::novelty::rises;
use super::novelty::superflux_novelty;
use super::novelty::superflux_novelty_band;
use super::novelty::superflux_of;
use super::tempogram_autocorr::autocorr_error;
use super::tempo_table::check_parameters;
use crate::error::gives;
use crate::error::invalid_input;
use crate::error::AnalysisError;
use crate::error::Outcome;
use crate::float::one;
use crate::float::ratio;
use crate::float::zero;
use crate::float::F32;
use crate::number_text::shortest;
use crate::spectrogram::rows;
use crate::spectrogram::same_shape;
use vstd::prelude::*;
use vstd::string::StringExecFns;

verus! {

/// Configuration of band-limited novelty fusion inside the tempogram estimator.
#[derive(Debug, Clone, Copy)]
pub struct TempogramBandFusionConfig {
    /// Enable multi-band novelty and tempogram fusion
    pub enabled: bool,
    /// Upper cutoff of the low band in Hz
    pub low_max_hz: F32,
    /// Upper cutoff of the mid band in Hz; the high band starts there
    pub mid_max_hz: F32,
    /// Upper cutoff of the high band in Hz; the Nyquist frequency if not above zero
    pub high_max_hz: F32,
    /// Weight of the full band
    pub w_full: F32,
    /// Weight of the low band
    pub w_low: F32,
    /// Weight of the mid band
    pub w_mid: F32,
    /// Weight of the high band
    pub w_high: F32,
    /// Bands give candidates only; the full band alone gives scores
    pub seed_only: bool,
    /// From which support on a band counts as supporting a candidate
    pub support_threshold: F32,
    /// Bonus where several bands support the same candidate
    pub consensus_bonus: F32,
    /// Use a log-mel novelty curve too
    pub enable_mel: bool,
    /// Number of mel bands
    pub mel_n_mels: usize,
    /// Minimum mel frequency in Hz
    pub mel_fmin_hz: F32,
    /// Maximum mel frequency in Hz; the Nyquist frequency if not above zero
    pub mel_fmax_hz: F32,
    /// Radius of the maximum filter, in mel bands
    pub mel_max_filter_bins: usize,
    /// Weight of the mel curve
    pub w_mel: F32,
    /// Novelty weight of the spectral flux
    pub novelty_w_spectral: F32,
    /// Novelty weight of the energy flux
    pub novelty_w_energy: F32,
    /// Novelty weight of the high-frequency content
    pub novelty_w_hfc: F32,
    /// Window of the local mean that is taken off a novelty curve
    pub novelty_local_mean_window: usize,
    /// Window of the moving average; none up to one
    pub novelty_smooth_window: usize,
    /// Print debug output for this track
    pub debug_track_id: Option<u32>,
    /// True tempo for debug output
    pub debug_gt_bpm: Option<F32>,
    /// How many candidates debug output shows
    pub debug_top_n: usize,
    /// Radius of the SuperFlux maximum filter, in bins
    pub superflux_max_filter_bins: usize,
}

/// What part of the spectrum a curve is made from.
#[derive(Debug, Clone, Copy, PartialEq, Eq, Structural)]
pub enum Band {
    /// All of it
    Full,
    /// The low band
    Low,
    /// The mid band
    Mid,
    /// The high band
    High,
    /// Mel bands
    Mel,
}

/// A novelty curve, with the power spectrum that its tempogram is read from.
#[derive(Debug, Clone)]
pub struct TempoCurve {
    /// What it is made from
    pub band: Band,
    /// Its weight
    pub weight: F32,
    /// The curve
    pub novelty: Vec<F32>,
    /// Squared magnitudes of the transform of the curve; empty until it is made
    pub power_spectrum: Vec<F32>,
}

/// What a curve holds.
pub ghost struct CurveView {
    pub band: Band,
    pub weight: F32,
    pub novelty: Seq<F32>,
    pub power_spectrum: Seq<F32>,
}

impl View for TempoCurve {
    type V = CurveView;

    open spec fn view(&self) -> CurveView {
        CurveView {
            band: self.band,
            weight: self.weight,
            novelty: self.novelty@,
            power_spectrum: self.power_spectrum@,
        }
    }
}

/// What curves hold.
pub open spec fn curve_views(curves: Seq<TempoCurve>) -> Seq<CurveView> {
    Seq::new(curves.len(), |i: int| curves[i]@)
}

/// How novelty is computed and combined.
#[derive(Debug, Clone, Copy)]
pub struct NoveltyOptions {
    /// Radius of the SuperFlux maximum filter, in bins
    pub radius: usize,
    /// Weight of the spectral flux
    pub w_spectral: F32,
    /// Weight of the energy flux
    pub w_energy: F32,
    /// Weight of the high-frequency content
    pub w_hfc: F32,
    /// Window of the local mean
    pub local_mean_window: usize,
    /// Window of the moving average
    pub smooth_window: usize,
}

/// How novelty is computed under a configuration, and without one.
#[verifier::allow_in_spec]
pub fn novelty_options(cfg: Option<TempogramBandFusionConfig>) -> NoveltyOptions
    returns
        (match cfg {
            Some(c) => NoveltyOptions {
                radius: c.superflux_max_filter_bins,
                w_spectral: c.novelty_w_spectral,
                w_energy: c.novelty_w_energy,
                w_hfc: c.novelty_w_hfc,
                local_mean_window: c.novelty_local_mean_window,
                smooth_window: c.novelty_smooth_window,
            },
            None => NoveltyOptions {
                radius: 4,
                w_spectral: ratio(5, 10),
                w_energy: ratio(3, 10),
                w_hfc: ratio(2, 10),
                local_mean_window: 16,
                smooth_window: 5,
            },
        }),
{
    match cfg {
        Some(c) => NoveltyOptions {
            radius: c.superflux_max_filter_bins,
            w_spectral: c.novelty_w_spectral,
            w_energy: c.novelty_w_energy,
            w_hfc: c.novelty_w_hfc,
            local_mean_window: c.novelty_local_mean_window,
            smooth_window: c.novelty_smooth_window,
        },
        None => NoveltyOptions {
            radius: 4,
            w_spectral: ratio(5, 10),
            w_energy: ratio(3, 10),
            w_hfc: ratio(2, 10),
            local_mean_window: 16,
            smooth_window: 5,
        },
    }
}

/// Three curves combined, where all three are there.
pub open spec fn combine_outcomes(
    spectral: Outcome<Seq<F32>>,
    energy: Outcome<Seq<F32>>,
    hfc: Outcome<Seq<F32>>,
    o: NoveltyOptions,
) -> Outcome<Seq<F32>> {
    match spectral {
        Outcome::Value(s) => match energy {
            Outcome::Value(e) => match hfc {
                Outcome::Value(h) => Outcome::Value(
                    combined_curve(
                        s,
                        e,
                        h,
                        o.w_spectral,
                        o.w_energy,
                        o.w_hfc,
                        o.local_mean_window as int,
                        o.smooth_window as int,
                    ),
                ),
                _ => hfc,
            },
            _ => energy,
        },
        _ => spectral,
    }
}

/// The novelty curve of the full spectrum.
pub open spec fn full_curve(
    frames: Seq<Vec<F32>>,
    log_frames: Seq<Vec<F32>>,
    sample_rate: u32,
    o: NoveltyOptions,
) -> Outcome<Seq<F32>> {
    combine_outcomes(
        curve_or_error(
            log_frames,
            superflux_of(log_frames, at_least_one(o.radius), 0, log_frames[0]@.len() as int),
        ),
        curve_or_error(frames, rises(energies_of(frames, 0, frames[0]@.len() as int))),
        if frames.len() > 0 && sample_rate == 0 {
            Outcome::Invalid("Sample rate must be > 0"@)
        } else {
            curve_or_error(frames, rises(contents_of(frames, 0, frames[0]@.len() as int)))
        },
        o,
    )
}

/// The novelty curve of a band of bins.
pub open spec fn band_curve(
    frames: Seq<Vec<F32>>,
    log_frames: Seq<Vec<F32>>,
    start: usize,
    end: usize,
    o: NoveltyOptions,
) -> Outcome<Seq<F32>> {
    combine_outcomes(
        band_curve_or_error(
            log_frames,
            start,
            end,
            superflux_of(
                log_frames,
                at_least_one(o.radius),
                clipped(start, log_frames[0]@.len()),
                clipped(end, log_frames[0]@.len()),
            ),
        ),
        band_curve_or_error(
            frames,
            start,
            end,
            rises(
                energies_of(
                    frames,
                    clipped(start, frames[0]@.len()),
                    clipped(end, frames[0]@.len()),
                ),
            ),
        ),
        band_curve_or_error(
            frames,
            start,
            end,
            rises(
                contents_of(
                    frames,
                    clipped(start, frames[0]@.len()),
                    clipped(end, frames[0]@.len()),
                ),
            ),
        ),
        o,
    )
}

fn compute_full_curve(
    frames: &[Vec<F32>],
    log_frames: &[Vec<F32>],
    sample_rate: u32,
    o: NoveltyOptions,
) -> (r: Result<Vec<F32>, AnalysisError>)
    ensures
        gives(r, full_curve(frames@, log_frames@, sample_rate, o)),
{
    let spectral: Vec<F32> = match superflux_novelty(log_frames, o.radius) {
        Err(e) => {
            return Err(e);
        },
        Ok(c) => c,
    };
    let energy: Vec<F32> = match energy_flux_novelty(frames) {
        Err(e) => {
            return Err(e);
        },
        Ok(c) => c,
    };
    let hfc: Vec<F32> = match hfc_novelty(frames, sample_rate) {
        Err(e) => {
            return Err(e);
        },
        Ok(c) => c,
    };
    Ok(
        combined_novelty_with_params(
            spectral.as_slice(),
            energy.as_slice(),
            hfc.as_slice(),
            o.w_spectral,
            o.w_energy,
            o.w_hfc,
            o.local_mean_window,
            o.smooth_window,
        ),
    )
}

fn compute_band_curve(
    frames: &[Vec<F32>],
    log_frames: &[Vec<F32>],
    start: usize,
    end: usize,
    o: NoveltyOptions,
) -> (r: Result<Vec<F32>, AnalysisError>)
    ensures
        gives(r, band_curve(frames@, log_frames@, start, end, o)),
{
    let spectral: Vec<F32> = match superflux_novelty_band(log_frames, o.radius, start, end) {
        Err(e) => {
            return Err(e);
        },
        Ok(c) => c,
    };
    let energy: Vec<F32> = match energy_flux_novelty_band(frames, start, end) {
        Err(e) => {
            return Err(e);
        },
        Ok(c) => c,
    };
    let hfc: Vec<F32> = match hfc_novelty_band(frames, start, end) {
        Err(e) => {
            return Err(e);
        },
        Ok(c) => c,
    };
    Ok(
        combined_novelty_with_params(
            spectral.as_slice(),
            energy.as_slice(),
            hfc.as_slice(),
            o.w_spectral,
            o.w_energy,
            o.w_hfc,
            o.local_mean_window,
            o.smooth_window,
        ),
    )
}

/// The bin of a frequency among `n_bins`; the first one where there is none.
#[verifier::allow_in_spec]
pub fn hz_to_bin(hz: F32, resolution: F32, n_bins: usize) -> usize
    returns
        (if !hz.is_finite() || hz <= zero() || !resolution.is_finite() || resolution <= zero()
            || n_bins == 0 {
            0
        } else if (hz / resolution).round().to_usize() <= n_bins - 1 {
            (hz / resolution).round().to_usize()
        } else {
            (n_bins - 1) as usize
        }),
{
    if !hz.is_finite() || hz <= zero() || !resolution.is_finite() || resolution <= zero() || n_bins
        == 0 {
        0
    } else {
        let b: usize = (hz / resolution).round().to_usize();
        if b <= n_bins - 1 {
            b
        } else {
            n_bins - 1
        }
    }
}

/// The distance between bins in Hz.
#[verifier::allow_in_spec]
pub fn bin_spacing(sample_rate: u32, n_bins: usize) -> F32
    returns
        F32::from_u32(sample_rate) / F32::from_usize(
            if n_bins <= 2 {
                2
            } else if n_bins - 1 <= usize::MAX / 2 {
                (2 * (n_bins - 1)) as usize
            } else {
                usize::MAX
            },
        ),
{
    let len: usize = if n_bins <= 2 {
        2
    } else if n_bins - 1 <= usize::MAX / 2 {
        2 * (n_bins - 1)
    } else {
        usize::MAX
    };
    F32::from_u32(sample_rate) / F32::from_usize(len)
}

pub open spec fn greater(a: int, b: int) -> int {
    if a >= b {
        a
    } else {
        b
    }
}

/// The bins that limit the three bands: the start of the low band, then the ends
/// of the low, the mid and the high band.
pub open spec fn band_limits(cfg: TempogramBandFusionConfig, spacing: F32, n_bins: usize) -> (
    int,
    int,
    int,
    int,
) {
    let first = if n_bins >= 2 {
        1int
    } else {
        0int
    };
    let low = greater(hz_to_bin(cfg.low_max_hz, spacing, n_bins) as int, first);
    let mid = greater(hz_to_bin(cfg.mid_max_hz, spacing, n_bins) as int, low + 1);
    let high = if cfg.high_max_hz > zero() {
        greater(hz_to_bin(cfg.high_max_hz, spacing, n_bins) as int, mid + 1)
    } else {
        n_bins as int
    };
    (
        first,
        low,
        mid,
        if high <= n_bins {
            high
        } else {
            n_bins as int
        },
    )
}

fn find_band_limits(cfg: &TempogramBandFusionConfig, spacing: F32, n_bins: usize) -> (r: (
    usize,
    usize,
    usize,
    usize,
))
    requires
        n_bins > 0,
    ensures
        (r.0 as int, r.1 as int, r.2 as int, r.3 as int) == band_limits(*cfg, spacing, n_bins),
{
    let first: usize = if n_bins >= 2 {
        1
    } else {
        0
    };
    let low_bin: usize = hz_to_bin(cfg.low_max_hz, spacing, n_bins);
    let low: usize = if low_bin >= first {
        low_bin
    } else {
        first
    };
    let mid_bin: usize = hz_to_bin(cfg.mid_max_hz, spacing, n_bins);
    let mid: usize = if mid_bin >= low + 1 {
        mid_bin
    } else {
        low + 1
    };
    let high_bin: usize = hz_to_bin(cfg.high_max_hz, spacing, n_bins);
    let high: usize = if cfg.high_max_hz > zero() && mid < n_bins {
        if high_bin >= mid + 1 {
            high_bin
        } else {
            mid + 1
        }
    } else {
        n_bins
    };
    (
        first,
        low,
        mid,
        if high <= n_bins {
            high
        } else {
            n_bins
        },
    )
}

/// A band takes part: its weight is above zero and it holds more than one bin.
#[verifier::allow_in_spec]
pub fn takes_part(weight: F32, start: usize, end: usize) -> bool
    returns
        weight.is_finite() && weight > zero() && end > start && end - start > 1,
{
    weight.is_finite() && weight > zero() && end > start && end - start > 1
}

/// `curves` and the curve of a band behind them, where the band takes part.
pub open spec fn with_band(
    curves: Outcome<Seq<CurveView>>,
    frames: Seq<Vec<F32>>,
    log_frames: Seq<Vec<F32>>,
    o: NoveltyOptions,
    band: Band,
    weight: F32,
    start: usize,
    end: usize,
) -> Outcome<Seq<CurveView>> {
    match curves {
        Outcome::Value(c) => if takes_part(weight, start, end) {
            with_curve(c, band, weight, band_curve(frames, log_frames, start, end, o))
        } else {
            curves
        },
        _ => curves,
    }
}

/// `curves` and a curve behind them, unless it is empty.
pub open spec fn with_curve(
    curves: Seq<CurveView>,
    band: Band,
    weight: F32,
    curve: Outcome<Seq<F32>>,
) -> Outcome<Seq<CurveView>> {
    match curve {
        Outcome::Value(c) => if c.len() == 0 {
            Outcome::Value(curves)
        } else {
            Outcome::Value(
                curves.push(CurveView { band, weight, novelty: c, power_spectrum: Seq::empty() }),
            )
        },
        Outcome::Invalid(m) => Outcome::Invalid(m),
        Outcome::Failed(m) => Outcome::Failed(m),
        Outcome::Numerical(m) => Outcome::Numerical(m),
    }
}

/// The curves of a tempogram. The parameters are checked once the full curve is
/// there.
pub open spec fn curves_or_error(
    frames: Seq<Vec<F32>>,
    log_frames: Seq<Vec<F32>>,
    hz_points: Seq<F32>,
    sample_rate: u32,
    hop_size: u32,
    min_bpm: F32,
    max_bpm: F32,
    step: F32,
    cfg: Option<TempogramBandFusionConfig>,
) -> Outcome<Seq<CurveView>> {
    if frames.len() == 0 || frames[0]@.len() == 0 {
        Outcome::Invalid("Empty magnitude frames"@)
    } else {
        match full_curve(frames, log_frames, sample_rate, novelty_options(cfg)) {
            Outcome::Value(c) => if c.len() == 0 {
                Outcome::Failed("Novelty curve is empty after extraction"@)
            } else {
                match autocorr_error(c.len(), sample_rate, hop_size, min_bpm, max_bpm, step) {
                    Some(msg) => Outcome::Invalid(msg),
                    None => {
                        let full = CurveView {
                            band: Band::Full,
                            weight: match cfg {
                                Some(k) => k.w_full,
                                None => one(),
                            },
                            novelty: c,
                            power_spectrum: Seq::empty(),
                        };
                        more_curves(seq![full], frames, log_frames, hz_points, sample_rate, cfg)
                    },
                }
            },
            Outcome::Invalid(m) => Outcome::Invalid(m),
            Outcome::Failed(m) => Outcome::Failed(m),
            Outcome::Numerical(m) => Outcome::Numerical(m),
        }
    }
}

/// `curves` with those of the three bands behind them.
pub open spec fn with_bands(
    curves: Seq<CurveView>,
    frames: Seq<Vec<F32>>,
    log_frames: Seq<Vec<F32>>,
    sample_rate: u32,
    k: TempogramBandFusionConfig,
) -> Outcome<Seq<CurveView>> {
    let o = novelty_options(Some(k));
    let n_bins = frames[0]@.len() as usize;
    let (first, low, mid, high) = band_limits(k, bin_spacing(sample_rate, n_bins), n_bins);
    let c1 = with_band(
        Outcome::Value(curves),
        frames,
        log_frames,
        o,
        Band::Low,
        k.w_low,
        first as usize,
        low as usize,
    );
    let c2 = with_band(
        c1,
        frames,
        log_frames,
        o,
        Band::Mid,
        k.w_mid,
        low as usize,
        mid as usize,
    );
    with_band(c2, frames, log_frames, o, Band::High, k.w_high, mid as usize, high as usize)
}

/// `curves` with those behind them that a configuration asks for.
pub open spec fn more_curves(
    curves: Seq<CurveView>,
    frames: Seq<Vec<F32>>,
    log_frames: Seq<Vec<F32>>,
    hz_points: Seq<F32>,
    sample_rate: u32,
    cfg: Option<TempogramBandFusionConfig>,
) -> Outcome<Seq<CurveView>> {
    match cfg {
        None => Outcome::Value(curves),
        Some(k) => {
            let banded = if k.enabled {
                with_bands(curves, frames, log_frames, sample_rate, k)
            } else {
                Outcome::Value(curves)
            };
            match banded {
                Outcome::Value(c) => if k.enable_mel {
                    with_curve(
                        c,
                        Band::Mel,
                        k.w_mel,
                        mel_curve_or_error(
                            log_frames,
                            sample_rate,
                            hz_points,
                            k.mel_max_filter_bins,
                        ),
                    )
                } else {
                    banded
                },
                _ => banded,
            }
        },
    }
}

/// Adds the curve of a band, where the band takes part.
fn add_band(
    curves: &mut Vec<TempoCurve>,
    frames: &[Vec<F32>],
    log_frames: &[Vec<F32>],
    o: NoveltyOptions,
    band: Band,
    weight: F32,
    start: usize,
    end: usize,
) -> (r: Result<(), AnalysisError>)
    ensures
        match with_band(
            Outcome::Value(curve_views(old(curves)@)),
            frames@,
            log_frames@,
            o,
            band,
            weight,
            start,
            end,
        ) {
            Outcome::Value(c) => r is Ok && curve_views(final(curves)@) == c,
            Outcome::Invalid(msg) => crate::error::is_invalid_input(r, msg),
            Outcome::Failed(msg) => crate::error::is_processing_error(r, msg),
            Outcome::Numerical(msg) => crate::error::is_numerical_error(r, msg),
        },
{
    let ghost before: Seq<TempoCurve> = curves@;
    if takes_part(weight, start, end) {
        let novelty: Vec<F32> = match compute_band_curve(frames, log_frames, start, end, o) {
            Err(e) => {
                return Err(e);
            },
            Ok(c) => c,
        };
        if novelty.len() > 0 {
            curves.push(TempoCurve { band, weight, novelty, power_spectrum: Vec::new() });
            assert(curve_views(curves@) =~= curve_views(before).push(curves@.last()@));
        }
    }
    Ok(())
}

/// `r` is what the curves come to.
pub open spec fn gives_curves(
    r: Result<Vec<TempoCurve>, AnalysisError>,
    outcome: Outcome<Seq<CurveView>>,
) -> bool {
    match outcome {
        Outcome::Value(c) => r is Ok && curve_views(r->Ok_0@) == c,
        Outcome::Invalid(msg) => crate::error::is_invalid_input(r, msg),
        Outcome::Failed(msg) => crate::error::is_processing_error(r, msg),
        Outcome::Numerical(msg) => crate::error::is_numerical_error(r, msg),
    }
}

/// Adds the curves that a configuration asks for.
fn add_curves(
    curves: Vec<TempoCurve>,
    frames: &[Vec<F32>],
    log_frames: &[Vec<F32>],
    hz_points: &[F32],
    sample_rate: u32,
    cfg: Option<TempogramBandFusionConfig>,
) -> (r: Result<Vec<TempoCurve>, AnalysisError>)
    requires
        frames@.len() > 0,
        frames@[0]@.len() > 0,
    ensures
        gives_curves(
            r,
            more_curves(
                curve_views(curves@),
                frames@,
                log_frames@,
                hz_points@,
                sample_rate,
                cfg,
            ),
        ),
{
    let mut all: Vec<TempoCurve> = curves;
    let k = match cfg {
        None => {
            return Ok(all);
        },
        Some(k) => k,
    };
    if k.enabled {
        let o = novelty_options(Some(k));
        let n_bins: usize = frames[0].len();
        let (first, low, mid, high) = find_band_limits(
            &k,
            bin_spacing(sample_rate, n_bins),
            n_bins,
        );
        match add_band(&mut all, frames, log_frames, o, Band::Low, k.w_low, first, low) {
            Err(e) => {
                return Err(e);
            },
            Ok(_) => {},
        }
        match add_band(&mut all, frames, log_frames, o, Band::Mid, k.w_mid, low, mid) {
            Err(e) => {
                return Err(e);
            },
            Ok(_) => {},
        }
        match add_band(&mut all, frames, log_frames, o, Band::High, k.w_high, mid, high) {
            Err(e) => {
                return Err(e);
            },
            Ok(_) => {},
        }
    }
    if k.enable_mel {
        let novelty: Vec<F32> = match mel_superflux_novelty(
            log_frames,
            sample_rate,
            hz_points,
            k.mel_max_filter_bins,
        ) {
            Err(e) => {
                return Err(e);
            },
            Ok(c) => c,
        };
        if novelty.len() > 0 {
            let ghost before: Seq<TempoCurve> = all@;
            all.push(
                TempoCurve { band: Band::Mel, weight: k.w_mel, novelty, power_spectrum: Vec::new() },
            );
            assert(curve_views(all@) =~= curve_views(before).push(all@.last()@));
        }
    }
    Ok(all)
}

/// Computes the curves of a tempogram. `log_frames` is the spectrogram after log
/// compression, `hz_points` the corners of the mel bands.
pub fn tempogram_curves(
    magnitude_spec_frames: &[Vec<F32>],
    log_frames: &[Vec<F32>],
    hz_points: &[F32],
    sample_rate: u32,
    hop_size: u32,
    min_bpm: F32,
    max_bpm: F32,
    bpm_resolution: F32,
    cfg: Option<TempogramBandFusionConfig>,
) -> (r: Result<Vec<TempoCurve>, AnalysisError>)
    requires
        same_shape(rows(magnitude_spec_frames@), rows(log_frames@)),
    ensures
        gives_curves(
            r,
            curves_or_error(
                magnitude_spec_frames@,
                log_frames@,
                hz_points@,
                sample_rate,
                hop_size,
                min_bpm,
                max_bpm,
                bpm_resolution,
                cfg,
            ),
        ),
{
    if magnitude_spec_frames.len() == 0 || magnitude_spec_frames[0].len() == 0 {
        return Err(invalid_input("Empty magnitude frames"));
    }
    let novelty: Vec<F32> = match compute_full_curve(
        magnitude_spec_frames,
        log_frames,
        sample_rate,
        novelty_options(cfg),
    ) {
        Err(e) => {
            return Err(e);
        },
        Ok(c) => c,
    };
    if novelty.len() == 0 {
        return Err(
            AnalysisError::ProcessingError("Novelty curve is empty after extraction".to_owned()),
        );
    }
    match check_parameters(novelty.len(), sample_rate, hop_size, min_bpm, max_bpm) {
        Err(e) => {
            return Err(e);
        },
        Ok(_) => {},
    }
    if bpm_resolution <= zero() {
        return Err(
            AnalysisError::InvalidInput(
                "BPM resolution must be > 0, got ".to_owned().concat(
                    shortest(bpm_resolution).as_str(),
                ),
            ),
        );
    }
    let weight = match cfg {
        Some(k) => k.w_full,
        None => one(),
    };
    let mut curves: Vec<TempoCurve> = Vec::new();
    curves.push(TempoCurve { band: Band::Full, weight, novelty, power_spectrum: Vec::new() });
    assert(curve_views(curves@) =~= seq![curves@[0]@]);
    add_curves(curves, magnitude_spec_frames, log_frames, hz_points, sample_rate, cfg)
}

} // verus!
