//! What of a spectrogram is harmonic: what lasts over time is kept, what does not
//! is masked.
//!
//! Masks are made of powers, which come from outside; this module says of what
//! they are to be taken.
use super::extractor::check_chroma_frames;
use super::extractor::chroma_frames_error;
use super::extractor::gives_rows;
use super::pitch::frequency_resolution;
use super::pitch::nyquist;
use super::smoothing::find_upper_median;
use super::smoothing::upper_median;
use crate::error::AnalysisError;
use crate::features::onset::hpss::column;
use crate::features::period::novelty::window_end;
use crate::features::period::novelty::window_start;
use crate::float::one;
use crate::float::ratio;
use crate::float::zero;
use crate::float::F32;
use crate::spectrogram::copy_rows;
use crate::spectrogram::is_grid;
use crate::spectrogram::rows;
use crate::spectrogram::same_shape;
use vstd::prelude::*;

verus! {

// --------------------------------------------------------- time smoothing

/// The sum of a bin over the first `n` frames, added up from the left.
pub open spec fn running_sum(g: Seq<Seq<F32>>, bin: int, n: nat) -> F32
    decreases n,
{
    if n == 0 {
        zero()
    } else {
        running_sum(g, bin, (n - 1) as nat) + g[n - 1][bin]
    }
}

/// The mean of a bin around a frame: the difference of two running sums.
pub open spec fn time_mean(g: Seq<Seq<F32>>, margin: int, f: int, b: int) -> F32 {
    let start = window_start(f, margin, 0);
    let end = window_end(f, margin, g.len() as int);
    (running_sum(g, b, end as nat) - running_sum(g, b, start as nat)) / F32::from_usize(
        (end - start) as usize,
    )
}

/// A spectrogram smoothed over time.
pub open spec fn time_smoothed(g: Seq<Seq<F32>>, margin: int) -> Seq<Seq<F32>> {
    if g.len() == 0 || margin == 0 {
        g
    } else {
        Seq::new(
            g.len(),
            |f: int| Seq::new(g[0].len(), |b: int| time_mean(g, margin, f, b)),
        )
    }
}

/// The running sums of a bin.
fn find_running_sums(g: &[Vec<F32>], b: usize) -> (r: Vec<F32>)
    requires
        forall|i: int| 0 <= i < g@.len() ==> b < (#[trigger] g@[i])@.len(),
    ensures
        r@.len() == g@.len() + 1,
        forall|k: int| 0 <= k <= g@.len() ==> (#[trigger] r@[k]) == running_sum(
            rows(g@),
            b as int,
            k as nat,
        ),
{
    let mut r: Vec<F32> = Vec::new();
    let mut acc = zero();
    r.push(acc);
    let mut n: usize = 0;
    while n < g.len()
        invariant
            n <= g.len(),
            forall|i: int| 0 <= i < g@.len() ==> b < (#[trigger] g@[i])@.len(),
            acc == running_sum(rows(g@), b as int, n as nat),
            r@.len() == n + 1,
            forall|k: int| 0 <= k <= n ==> (#[trigger] r@[k]) == running_sum(
                rows(g@),
                b as int,
                k as nat,
            ),
        decreases g.len() - n,
    {
        assert(rows(g@)[n as int] == g@[n as int]@);
        acc = acc + g[n][b];
        r.push(acc);
        n = n + 1;
    }
    r
}

/// Smooths every bin over time.
fn smooth_bins(g: &[Vec<F32>], margin: usize) -> (r: Vec<Vec<F32>>)
    requires
        g@.len() > 0,
        margin > 0,
        is_grid(rows(g@), g@.len(), g@[0]@.len()),
    ensures
        rows(r@) == time_smoothed(rows(g@), margin as int),
{
    let ghost gs: Seq<Seq<F32>> = rows(g@);
    let frames: usize = g.len();
    let bins: usize = g[0].len();
    let mut sums: Vec<Vec<F32>> = Vec::new();
    let mut b: usize = 0;
    while b < bins
        invariant
            b <= bins,
            frames == g@.len(),
            gs == rows(g@),
            is_grid(gs, frames as nat, bins as nat),
            sums@.len() == b,
            forall|c: int| 0 <= c < b ==> (#[trigger] sums@[c])@.len() == frames + 1,
            forall|c: int, k: int|
                0 <= c < b && 0 <= k <= frames ==> (#[trigger] sums@[c]@[k]) == running_sum(
                    gs,
                    c,
                    k as nat,
                ),
        decreases bins - b,
    {
        assert forall|i: int| 0 <= i < g@.len() implies b < (#[trigger] g@[i])@.len() by {
            assert(gs[i].len() == bins);
        }
        let s: Vec<F32> = find_running_sums(g, b);
        sums.push(s);
        b = b + 1;
    }
    let mut r: Vec<Vec<F32>> = Vec::new();
    let mut f: usize = 0;
    while f < frames
        invariant
            f <= frames,
            frames == g@.len(),
            gs == rows(g@),
            is_grid(gs, frames as nat, bins as nat),
            sums@.len() == bins,
            forall|c: int| 0 <= c < bins ==> (#[trigger] sums@[c])@.len() == frames + 1,
            forall|c: int, k: int|
                0 <= c < bins && 0 <= k <= frames ==> (#[trigger] sums@[c]@[k]) == running_sum(
                    gs,
                    c,
                    k as nat,
                ),
            r@.len() == f,
            forall|k: int| 0 <= k < f ==> (#[trigger] r@[k])@ == Seq::new(
                bins as nat,
                |b: int| time_mean(gs, margin as int, k, b),
            ),
        decreases frames - f,
    {
        let start: usize = if f >= margin {
            f - margin
        } else {
            0
        };
        let end: usize = if margin < frames - f {
            f + margin + 1
        } else {
            frames
        };
        let mut row: Vec<F32> = Vec::new();
        let mut c: usize = 0;
        while c < bins
            invariant
                c <= bins,
                frames == gs.len(),
                start == window_start(f as int, margin as int, 0),
                end == window_end(f as int, margin as int, frames as int),
                start < end <= frames,
                sums@.len() == bins,
                forall|c: int| 0 <= c < bins ==> (#[trigger] sums@[c])@.len() == frames + 1,
                forall|c: int, k: int|
                    0 <= c < bins && 0 <= k <= frames ==> (#[trigger] sums@[c]@[k]) == running_sum(
                        gs,
                        c,
                        k as nat,
                    ),
                row@.len() == c,
                forall|k: int| 0 <= k < c ==> row@[k] == time_mean(gs, margin as int, f as int, k),
            decreases bins - c,
        {
            assert(sums@[c as int]@.len() == frames + 1);
            let total = sums[c][end] - sums[c][start];
            row.push(total / F32::from_usize(end - start));
            c = c + 1;
        }
        assert(row@ =~= Seq::new(bins as nat, |b: int| time_mean(gs, margin as int, f as int, b)));
        r.push(row);
        f = f + 1;
    }
    assert(rows(r@) =~= time_smoothed(gs, margin as int)) by {
        let want = time_smoothed(gs, margin as int);
        assert forall|f: int| 0 <= f < want.len() implies rows(r@)[f] == want[f] by {
            assert(rows(r@)[f] =~= want[f]);
        }
    }
    r
}

/// What is wrong with a spectrogram that is to be smoothed over time.
pub open spec fn smoothing_error(frames: Seq<Vec<F32>>, margin: usize) -> Option<Seq<char>> {
    if margin == 0 {
        None
    } else {
        chroma_frames_error(frames)
    }
}

/// Smooths a spectrogram over time by means; `margin` is their radius in frames.
pub fn smooth_spectrogram_time(magnitude_spec_frames: &[Vec<F32>], margin: usize) -> (r: Result<
    Vec<Vec<F32>>,
    AnalysisError,
>)
    ensures
        gives_rows(
            r,
            smoothing_error(magnitude_spec_frames@, margin),
            time_smoothed(rows(magnitude_spec_frames@), margin as int),
        ),
{
    if magnitude_spec_frames.len() == 0 || margin == 0 {
        return Ok(copy_rows(magnitude_spec_frames));
    }
    match check_chroma_frames(magnitude_spec_frames) {
        Err(e) => {
            return Err(e);
        },
        Ok(_) => {},
    }
    Ok(smooth_bins(magnitude_spec_frames, margin))
}

// -------------------------------------------------------------- time mask

/// The harmonic part: what is left of the smoothed value when none is below zero.
#[verifier::allow_in_spec]
pub fn lasting_part(smoothed: F32) -> F32
    returns
        smoothed.max(zero()),
{
    smoothed.max(zero())
}

/// The rest: what a value has above the smoothed one.
#[verifier::allow_in_spec]
pub fn passing_part(value: F32, smoothed: F32) -> F32
    returns
        (value.max(zero()) - smoothed.max(zero())).max(zero()),
{
    (value.max(zero()) - smoothed.max(zero())).max(zero())
}

/// The harmonic parts of a spectrogram, given its smoothed values.
pub open spec fn lasting_parts(s: Seq<Seq<F32>>) -> Seq<Seq<F32>> {
    Seq::new(s.len(), |f: int| Seq::new(s[f].len(), |b: int| lasting_part(s[f][b])))
}

/// The rest of a spectrogram, given its smoothed values.
pub open spec fn passing_parts(g: Seq<Seq<F32>>, s: Seq<Seq<F32>>) -> Seq<Seq<F32>> {
    Seq::new(
        s.len(),
        |f: int| Seq::new(s[f].len(), |b: int| passing_part(g[f][b], s[f][b])),
    )
}

/// `r` holds two tables, or an error with this message.
pub open spec fn gives_two(
    r: Result<(Vec<Vec<F32>>, Vec<Vec<F32>>), AnalysisError>,
    error: Option<Seq<char>>,
    first: Seq<Seq<F32>>,
    second: Seq<Seq<F32>>,
) -> bool {
    match error {
        Some(msg) => crate::error::is_invalid_input(r, msg),
        None => r is Ok && rows(r->Ok_0.0@) == first && rows(r->Ok_0.1@) == second,
    }
}

/// Parts a spectrogram into what lasts and what passes: what powers are taken of
/// for the mask.
pub fn time_mask_parts(magnitude_spec_frames: &[Vec<F32>], smooth_margin: usize) -> (r: Result<
    (Vec<Vec<F32>>, Vec<Vec<F32>>),
    AnalysisError,
>)
    ensures
        gives_two(
            r,
            chroma_frames_error(magnitude_spec_frames@),
            lasting_parts(time_smoothed(rows(magnitude_spec_frames@), smooth_margin as int)),
            passing_parts(
                rows(magnitude_spec_frames@),
                time_smoothed(rows(magnitude_spec_frames@), smooth_margin as int),
            ),
        ),
{
    match check_chroma_frames(magnitude_spec_frames) {
        Err(e) => {
            return Err(e);
        },
        Ok(_) => {},
    }
    let s: Vec<Vec<F32>> = match smooth_spectrogram_time(magnitude_spec_frames, smooth_margin) {
        Err(e) => {
            return Err(e);
        },
        Ok(s) => s,
    };
    let ghost gs: Seq<Seq<F32>> = rows(magnitude_spec_frames@);
    let ghost ss: Seq<Seq<F32>> = rows(s@);
    assert(s@.len() == ss.len());
    assert forall|k: int| 0 <= k < ss.len() implies (#[trigger] s@[k])@.len()
        == magnitude_spec_frames@[k]@.len() by {
        assert(ss[k] == s@[k]@);
        assert(gs[k] == magnitude_spec_frames@[k]@);
        assert(gs[0] == magnitude_spec_frames@[0]@);
    }
    let mut h: Vec<Vec<F32>> = Vec::new();
    let mut p: Vec<Vec<F32>> = Vec::new();
    let mut f: usize = 0;
    while f < s.len()
        invariant
            f <= s.len(),
            gs == rows(magnitude_spec_frames@),
            ss == rows(s@),
            s@.len() == magnitude_spec_frames@.len(),
            forall|k: int|
                0 <= k < s@.len() ==> (#[trigger] s@[k])@.len() == magnitude_spec_frames@[k]@.len(),
            h@.len() == f,
            p@.len() == f,
            forall|k: int| 0 <= k < f ==> (#[trigger] h@[k])@ == lasting_parts(ss)[k],
            forall|k: int| 0 <= k < f ==> (#[trigger] p@[k])@ == passing_parts(gs, ss)[k],
        decreases s.len() - f,
    {
        let mut hr: Vec<F32> = Vec::new();
        let mut pr: Vec<F32> = Vec::new();
        assert(ss[f as int] == s@[f as int]@);
        assert(gs[f as int] == magnitude_spec_frames@[f as int]@);
        let n: usize = s[f].len();
        let mut b: usize = 0;
        while b < n
            invariant
                b <= n,
                f < s@.len(),
                f < magnitude_spec_frames@.len(),
                n == s@[f as int]@.len(),
                n == magnitude_spec_frames@[f as int]@.len(),
                hr@.len() == b,
                pr@.len() == b,
                forall|k: int| 0 <= k < b ==> hr@[k] == lasting_part(s@[f as int]@[k]),
                forall|k: int|
                    0 <= k < b ==> pr@[k] == passing_part(
                        magnitude_spec_frames@[f as int]@[k],
                        s@[f as int]@[k],
                    ),
            decreases n - b,
        {
            hr.push(lasting_part(s[f][b]));
            pr.push(passing_part(magnitude_spec_frames[f][b], s[f][b]));
            b = b + 1;
        }
        assert(hr@ =~= lasting_parts(ss)[f as int]);
        assert(pr@ =~= passing_parts(gs, ss)[f as int]);
        h.push(hr);
        p.push(pr);
        f = f + 1;
    }
    assert(rows(h@) =~= lasting_parts(ss));
    assert(rows(p@) =~= passing_parts(gs, ss));
    Ok((h, p))
}

/// The power that masks are raised to: one at least.
#[verifier::allow_in_spec]
pub fn mask_exponent(mask_power: F32) -> F32
    returns
        mask_power.max(one()),
{
    mask_power.max(one())
}

/// The mask at a place, from the powers of what lasts and of the rest.
#[verifier::allow_in_spec]
pub fn mask(lasting: F32, rest: F32) -> F32
    returns
        lasting / (lasting + rest + ratio(1, 1_000_000_000_000)),
{
    lasting / (lasting + rest + ratio(1, 1_000_000_000_000))
}

/// A spectrogram under a mask.
pub open spec fn masked(g: Seq<Seq<F32>>, hp: Seq<Seq<F32>>, rp: Seq<Seq<F32>>) -> Seq<Seq<F32>> {
    Seq::new(
        g.len(),
        |f: int|
            Seq::new(g[f].len(), |b: int| g[f][b].max(zero()) * mask(hp[f][b], rp[f][b])),
    )
}

/// The harmonic part of a spectrogram: it is masked by what lasts over time.
/// `lasting` and `passing` are the powers of its parts.
pub fn harmonic_spectrogram_time_mask(
    magnitude_spec_frames: &[Vec<F32>],
    lasting: &[Vec<F32>],
    passing: &[Vec<F32>],
) -> (r: Vec<Vec<F32>>)
    requires
        same_shape(rows(magnitude_spec_frames@), rows(lasting@)),
        same_shape(rows(magnitude_spec_frames@), rows(passing@)),
    ensures
        rows(r@) == masked(rows(magnitude_spec_frames@), rows(lasting@), rows(passing@)),
{
    let ghost gs: Seq<Seq<F32>> = rows(magnitude_spec_frames@);
    let ghost hs: Seq<Seq<F32>> = rows(lasting@);
    let ghost ps: Seq<Seq<F32>> = rows(passing@);
    let mut r: Vec<Vec<F32>> = Vec::new();
    let mut f: usize = 0;
    while f < magnitude_spec_frames.len()
        invariant
            f <= magnitude_spec_frames.len(),
            gs == rows(magnitude_spec_frames@),
            hs == rows(lasting@),
            ps == rows(passing@),
            same_shape(gs, hs),
            same_shape(gs, ps),
            r@.len() == f,
            forall|k: int| 0 <= k < f ==> (#[trigger] r@[k])@ == masked(gs, hs, ps)[k],
        decreases magnitude_spec_frames.len() - f,
    {
        let mut row: Vec<F32> = Vec::new();
        assert(gs[f as int] == magnitude_spec_frames@[f as int]@);
        assert(hs[f as int] == lasting@[f as int]@);
        assert(ps[f as int] == passing@[f as int]@);
        let n: usize = magnitude_spec_frames[f].len();
        let mut b: usize = 0;
        while b < n
            invariant
                b <= n,
                f < magnitude_spec_frames@.len(),
                f < lasting@.len(),
                f < passing@.len(),
                n == magnitude_spec_frames@[f as int]@.len(),
                n == lasting@[f as int]@.len(),
                n == passing@[f as int]@.len(),
                row@.len() == b,
                forall|k: int|
                    0 <= k < b ==> row@[k] == magnitude_spec_frames@[f as int]@[k].max(zero())
                        * mask(lasting@[f as int]@[k], passing@[f as int]@[k]),
            decreases n - b,
        {
            row.push(magnitude_spec_frames[f][b].max(zero()) * mask(lasting[f][b], passing[f][b]));
            b = b + 1;
        }
        assert(row@ =~= masked(gs, hs, ps)[f as int]);
        r.push(row);
        f = f + 1;
    }
    assert(rows(r@) =~= masked(gs, hs, ps));
    r
}

// ------------------------------------------------------------ median mask

/// A value that is finite and not below zero; zero otherwise.
#[verifier::allow_in_spec]
pub fn clean(x: F32) -> F32
    returns
        (if x.is_finite() {
            x.max(zero())
        } else {
            zero()
        }),
{
    if x.is_finite() {
        x.max(zero())
    } else {
        zero()
    }
}

/// How a median mask is made.
#[derive(Debug, Clone, Copy)]
pub struct MedianMaskOptions {
    /// Sample rate in Hz
    pub sample_rate: u32,
    /// Length of the transform
    pub fft_size: usize,
    /// Lowest frequency in Hz
    pub fmin_hz: F32,
    /// Highest frequency in Hz
    pub fmax_hz: F32,
    /// Use every frame of this many
    pub frame_step: usize,
    /// Radius of the medians over time, in frames that are used
    pub time_margin: usize,
    /// Radius of the medians over frequency, in bins
    pub freq_margin: usize,
}

/// The lowest frequency of a band, 20 Hz at least.
#[verifier::allow_in_spec]
pub fn band_floor(fmin_hz: F32) -> F32
    returns
        fmin_hz.max(ratio(20, 1)),
{
    fmin_hz.max(ratio(20, 1))
}

/// The highest frequency of a band: above its floor, below the Nyquist frequency.
#[verifier::allow_in_spec]
pub fn band_ceiling(fmin_hz: F32, fmax_hz: F32, sample_rate: u32) -> F32
    returns
        fmax_hz.clamp(band_floor(fmin_hz) + one(), nyquist(sample_rate)),
{
    fmax_hz.clamp(band_floor(fmin_hz) + one(), nyquist(sample_rate))
}

pub open spec fn lesser(a: int, b: int) -> int {
    if a <= b {
        a
    } else {
        b
    }
}

/// The first bin of the band, of `n` bins.
pub open spec fn band_first(o: MedianMaskOptions, n: int) -> int {
    lesser(
        (band_floor(o.fmin_hz) / frequency_resolution(
            o.sample_rate,
            o.fft_size,
        )).floor().to_usize() as int,
        n,
    )
}

/// The bin behind the band, of `n` bins.
pub open spec fn band_behind(o: MedianMaskOptions, n: int) -> int {
    lesser(
        (band_ceiling(o.fmin_hz, o.fmax_hz, o.sample_rate) / frequency_resolution(
            o.sample_rate,
            o.fft_size,
        )).ceil().to_usize() as int,
        n,
    )
}

/// There is no band to mask: the spectrogram stays as it is.
pub open spec fn has_no_band(o: MedianMaskOptions, n: int) -> bool {
    o.sample_rate == 0 || o.fft_size == 0 || band_behind(o, n) <= band_first(o, n)
}

pub open spec fn step_of(o: MedianMaskOptions) -> int {
    if o.frame_step >= 1 {
        o.frame_step as int
    } else {
        1
    }
}

/// The number of frames that are used.
pub open spec fn used_frames(frames: int, step: int) -> int {
    (frames + step - 1) / step
}

/// The band of the frames that are used, each value clean.
pub open spec fn used_band(g: Seq<Seq<F32>>, o: MedianMaskOptions) -> Seq<Seq<F32>> {
    let first = band_first(o, g[0].len() as int);
    let behind = band_behind(o, g[0].len() as int);
    Seq::new(
        used_frames(g.len() as int, step_of(o)) as nat,
        |k: int|
            Seq::new(
                (behind - first) as nat,
                |b: int| clean(g[k * step_of(o)][first + b]),
            ),
    )
}

/// The medians over time of a table.
pub open spec fn medians_over_time(u: Seq<Seq<F32>>, margin: int) -> Seq<Seq<F32>> {
    Seq::new(
        u.len(),
        |t: int|
            Seq::new(
                u[0].len(),
                |b: int|
                    {
                        let start = window_start(t, margin, 0);
                        upper_median(
                            column(
                                u,
                                b,
                                start,
                                (window_end(t, margin, u.len() as int) - start) as nat,
                            ),
                        )
                    },
            ),
    )
}

/// The medians over frequency of a table.
pub open spec fn medians_over_bins(u: Seq<Seq<F32>>, margin: int) -> Seq<Seq<F32>> {
    Seq::new(
        u.len(),
        |t: int|
            Seq::new(
                u[t].len(),
                |b: int|
                    upper_median(
                        u[t].subrange(
                            window_start(b, margin, 0),
                            window_end(b, margin, u[t].len() as int),
                        ),
                    ),
            ),
    )
}

fn find_band(o: &MedianMaskOptions, n: usize) -> (r: (usize, usize))
    requires
        o.sample_rate != 0,
        o.fft_size != 0,
    ensures
        r.0 == band_first(*o, n as int),
        r.1 == band_behind(*o, n as int),
        r.0 <= n,
        r.1 <= n,
{
    let resolution = frequency_resolution(o.sample_rate, o.fft_size);
    let a: usize = (band_floor(o.fmin_hz) / resolution).floor().to_usize();
    let b: usize = (band_ceiling(o.fmin_hz, o.fmax_hz, o.sample_rate) / resolution).ceil().to_usize();
    (
        if a <= n {
            a
        } else {
            n
        },
        if b <= n {
            b
        } else {
            n
        },
    )
}

proof fn lemma_used_frame(frames: int, step: int, k: int)
    requires
        frames > 0,
        step > 0,
        0 <= k,
    ensures
        k < used_frames(frames, step) <==> k * step < frames,
        used_frames(frames, step) > 0,
{
    let n = used_frames(frames, step);
    assert(n * step >= frames && (n - 1) * step < frames) by (nonlinear_arith)
        requires
            n == (frames + step - 1) / step,
            step > 0,
    ;
    if k < n {
        assert(k * step <= (n - 1) * step) by (nonlinear_arith)
            requires
                k <= n - 1,
                step > 0,
        ;
    } else {
        assert(k * step >= n * step) by (nonlinear_arith)
            requires
                k >= n,
                step > 0,
        ;
    }
    assert(n > 0) by (nonlinear_arith)
        requires
            n * step >= frames,
            frames > 0,
            step > 0,
    ;
}

fn cut_band(g: &[Vec<F32>], o: &MedianMaskOptions) -> (r: Vec<Vec<F32>>)
    requires
        g@.len() > 0,
        is_grid(rows(g@), g@.len(), g@[0]@.len()),
        !has_no_band(*o, g@[0]@.len() as int),
    ensures
        rows(r@) == used_band(rows(g@), *o),
        r@.len() > 0,
{
    let ghost gs: Seq<Seq<F32>> = rows(g@);
    let bins: usize = g[0].len();
    assert(gs[0] == g@[0]@);
    let (first, behind) = find_band(o, bins);
    let frames: usize = g.len();
    let step: usize = if o.frame_step >= 1 {
        o.frame_step
    } else {
        1
    };
    let ghost want: Seq<Seq<F32>> = used_band(gs, *o);
    let mut r: Vec<Vec<F32>> = Vec::new();
    let mut t: usize = 0;
    let mut more: bool = true;
    proof {
        lemma_used_frame(frames as int, step as int, 0);
    }
    while more
        invariant
            frames == g@.len(),
            gs == rows(g@),
            is_grid(gs, frames as nat, bins as nat),
            first == band_first(*o, bins as int),
            behind == band_behind(*o, bins as int),
            first < behind <= bins,
            step == step_of(*o),
            step > 0,
            frames > 0,
            bins == gs[0].len(),
            want == used_band(gs, *o),
            more ==> t < frames && t == r@.len() * step && r@.len() < want.len(),
            !more ==> r@.len() == want.len(),
            want.len() == used_frames(frames as int, step as int),
            forall|k: int| 0 <= k < r@.len() ==> (#[trigger] r@[k])@ == want[k],
        decreases
            (if more {
                frames - t
            } else {
                0
            }),
    {
        let mut row: Vec<F32> = Vec::new();
        assert(gs[t as int] == g@[t as int]@);
        let mut b: usize = first;
        while b < behind
            invariant
                first <= b <= behind <= bins,
                t < g@.len(),
                g@[t as int]@.len() == bins,
                row@.len() == b - first,
                forall|k: int| 0 <= k < b - first ==> row@[k] == clean(g@[t as int]@[first + k]),
            decreases behind - b,
        {
            row.push(clean(g[t][b]));
            b = b + 1;
        }
        assert(row@ =~= want[r@.len() as int]);
        let ghost k: int = r@.len() as int;
        r.push(row);
        proof {
            lemma_used_frame(frames as int, step as int, k + 1);
            assert((k + 1) * step == k * step + step) by (nonlinear_arith);
        }
        more = step < frames - t;
        if more {
            t = t + step;
        }
    }
    assert(rows(r@) =~= want);
    r
}

fn find_time_median(u: &[Vec<F32>], margin: usize, t: usize, b: usize) -> (r: F32)
    requires
        t < u@.len(),
        forall|i: int| 0 <= i < u@.len() ==> b < (#[trigger] u@[i])@.len(),
    ensures
        ({
            let start = window_start(t as int, margin as int, 0);
            r == upper_median(
                column(
                    rows(u@),
                    b as int,
                    start,
                    (window_end(t as int, margin as int, u@.len() as int) - start) as nat,
                ),
            )
        }),
{
    let n: usize = u.len();
    let start: usize = if t >= margin {
        t - margin
    } else {
        0
    };
    let end: usize = if margin < n - t {
        t + margin + 1
    } else {
        n
    };
    let mut w: Vec<F32> = Vec::new();
    let mut i: usize = start;
    while i < end
        invariant
            start <= i <= end <= u@.len(),
            forall|i: int| 0 <= i < u@.len() ==> b < (#[trigger] u@[i])@.len(),
            w@.len() == i - start,
            forall|k: int| 0 <= k < i - start ==> w@[k] == u@[start + k]@[b as int],
        decreases end - i,
    {
        w.push(u[i][b]);
        i = i + 1;
    }
    assert(w@ =~= column(rows(u@), b as int, start as int, (end - start) as nat));
    find_upper_median(w.as_slice())
}

fn find_bin_median(row: &[F32], margin: usize, b: usize) -> (r: F32)
    requires
        b < row@.len(),
    ensures
        r == upper_median(
            row@.subrange(
                window_start(b as int, margin as int, 0),
                window_end(b as int, margin as int, row@.len() as int),
            ),
        ),
{
    let n: usize = row.len();
    let start: usize = if b >= margin {
        b - margin
    } else {
        0
    };
    let end: usize = if margin < n - b {
        b + margin + 1
    } else {
        n
    };
    find_upper_median(vstd::slice::slice_subrange(row, start, end))
}

fn find_medians(u: &[Vec<F32>], bins: usize, time_margin: usize, freq_margin: usize) -> (r: (
    Vec<Vec<F32>>,
    Vec<Vec<F32>>,
))
    requires
        u@.len() > 0,
        is_grid(rows(u@), u@.len(), bins as nat),
    ensures
        rows(r.0@) == medians_over_time(rows(u@), time_margin as int),
        rows(r.1@) == medians_over_bins(rows(u@), freq_margin as int),
{
    let ghost us: Seq<Seq<F32>> = rows(u@);
    let ghost hw: Seq<Seq<F32>> = medians_over_time(us, time_margin as int);
    let ghost pw: Seq<Seq<F32>> = medians_over_bins(us, freq_margin as int);
    let frames: usize = u.len();
    let mut h: Vec<Vec<F32>> = Vec::new();
    let mut p: Vec<Vec<F32>> = Vec::new();
    let mut t: usize = 0;
    while t < frames
        invariant
            t <= frames,
            frames == u@.len(),
            us == rows(u@),
            is_grid(us, frames as nat, bins as nat),
            hw == medians_over_time(us, time_margin as int),
            pw == medians_over_bins(us, freq_margin as int),
            h@.len() == t,
            p@.len() == t,
            forall|k: int| 0 <= k < t ==> (#[trigger] h@[k])@ == hw[k],
            forall|k: int| 0 <= k < t ==> (#[trigger] p@[k])@ == pw[k],
        decreases frames - t,
    {
        let mut hr: Vec<F32> = Vec::new();
        let mut pr: Vec<F32> = Vec::new();
        assert(us[t as int] == u@[t as int]@);
        let mut b: usize = 0;
        while b < bins
            invariant
                b <= bins,
                t < frames,
                frames == u@.len(),
                us == rows(u@),
                us[t as int] == u@[t as int]@,
                is_grid(us, frames as nat, bins as nat),
                hw == medians_over_time(us, time_margin as int),
                pw == medians_over_bins(us, freq_margin as int),
                hr@.len() == b,
                pr@.len() == b,
                forall|k: int| 0 <= k < b ==> hr@[k] == hw[t as int][k],
                forall|k: int| 0 <= k < b ==> pr@[k] == pw[t as int][k],
            decreases bins - b,
        {
            assert forall|i: int| 0 <= i < u@.len() implies b < (#[trigger] u@[i])@.len() by {
                assert(us[i].len() == bins);
            }
            hr.push(find_time_median(u, time_margin, t, b));
            pr.push(find_bin_median(u[t].as_slice(), freq_margin, b));
            b = b + 1;
        }
        assert(hr@ =~= hw[t as int]);
        assert(pr@ =~= pw[t as int]);
        h.push(hr);
        p.push(pr);
        t = t + 1;
    }
    assert(rows(h@) =~= hw);
    assert(rows(p@) =~= pw);
    (h, p)
}

/// Estimates what of a band lasts over time and what spreads over frequency, by
/// medians: what powers are taken of for the mask. Without a band both are empty.
pub fn median_mask_parts(magnitude_spec_frames: &[Vec<F32>], o: MedianMaskOptions) -> (r: Result<
    (Vec<Vec<F32>>, Vec<Vec<F32>>),
    AnalysisError,
>)
    ensures
        ({
            let g = rows(magnitude_spec_frames@);
            let none = g.len() == 0 || has_no_band(o, g[0].len() as int);
            gives_two(
                r,
                chroma_frames_error(magnitude_spec_frames@),
                if none {
                    Seq::empty()
                } else {
                    medians_over_time(used_band(g, o), o.time_margin as int)
                },
                if none {
                    Seq::empty()
                } else {
                    medians_over_bins(used_band(g, o), o.freq_margin as int)
                },
            )
        }),
{
    match check_chroma_frames(magnitude_spec_frames) {
        Err(e) => {
            return Err(e);
        },
        Ok(_) => {},
    }
    let empty_h: Vec<Vec<F32>> = Vec::new();
    let empty_p: Vec<Vec<F32>> = Vec::new();
    assert(rows(empty_h@) =~= Seq::<Seq<F32>>::empty());
    assert(rows(empty_p@) =~= Seq::<Seq<F32>>::empty());
    if magnitude_spec_frames.len() == 0 || o.sample_rate == 0 || o.fft_size == 0 {
        return Ok((empty_h, empty_p));
    }
    assert(rows(magnitude_spec_frames@)[0] == magnitude_spec_frames@[0]@);
    let (first, behind) = find_band(&o, magnitude_spec_frames[0].len());
    if behind <= first {
        return Ok((empty_h, empty_p));
    }
    let u: Vec<Vec<F32>> = cut_band(magnitude_spec_frames, &o);
    assert(u@.len() == rows(u@).len());
    Ok(find_medians(u.as_slice(), behind - first, o.time_margin, o.freq_margin))
}

/// A spectrogram with its band under a mask and nothing outside the band; each
/// frame has the mask of the used frame at or before it.
pub open spec fn band_masked(
    g: Seq<Seq<F32>>,
    o: MedianMaskOptions,
    hp: Seq<Seq<F32>>,
    pp: Seq<Seq<F32>>,
) -> Seq<Seq<F32>> {
    let first = band_first(o, g[0].len() as int);
    let behind = band_behind(o, g[0].len() as int);
    Seq::new(
        g.len(),
        |f: int|
            Seq::new(
                g[0].len(),
                |b: int|
                    if first <= b < behind {
                        clean(g[f][b]) * mask(
                            hp[f / step_of(o)][b - first],
                            pp[f / step_of(o)][b - first],
                        )
                    } else {
                        zero()
                    },
            ),
    )
}

/// The harmonic part of a spectrogram by medians. `lasting` and `spreading` are
/// the powers of its parts.
pub fn harmonic_spectrogram_hpss_median_mask(
    magnitude_spec_frames: &[Vec<F32>],
    o: MedianMaskOptions,
    lasting: &[Vec<F32>],
    spreading: &[Vec<F32>],
) -> (r: Result<Vec<Vec<F32>>, AnalysisError>)
    requires
        magnitude_spec_frames@.len() > 0 && !has_no_band(o, magnitude_spec_frames@[0]@.len() as int)
            ==> {
            let n = used_frames(magnitude_spec_frames@.len() as int, step_of(o)) as nat;
            let bins = (band_behind(o, magnitude_spec_frames@[0]@.len() as int) - band_first(
                o,
                magnitude_spec_frames@[0]@.len() as int,
            )) as nat;
            &&& is_grid(rows(lasting@), n, bins)
            &&& is_grid(rows(spreading@), n, bins)
        },
    ensures
        gives_rows(
            r,
            chroma_frames_error(magnitude_spec_frames@),
            if magnitude_spec_frames@.len() == 0 || has_no_band(
                o,
                magnitude_spec_frames@[0]@.len() as int,
            ) {
                rows(magnitude_spec_frames@)
            } else {
                band_masked(rows(magnitude_spec_frames@), o, rows(lasting@), rows(spreading@))
            },
        ),
{
    match check_chroma_frames(magnitude_spec_frames) {
        Err(e) => {
            return Err(e);
        },
        Ok(_) => {},
    }
    if magnitude_spec_frames.len() == 0 || o.sample_rate == 0 || o.fft_size == 0 {
        return Ok(copy_rows(magnitude_spec_frames));
    }
    let ghost gs: Seq<Seq<F32>> = rows(magnitude_spec_frames@);
    let ghost hs: Seq<Seq<F32>> = rows(lasting@);
    let ghost ps: Seq<Seq<F32>> = rows(spreading@);
    assert(gs[0] == magnitude_spec_frames@[0]@);
    let bins: usize = magnitude_spec_frames[0].len();
    let frames: usize = magnitude_spec_frames.len();
    let (first, behind) = find_band(&o, bins);
    if behind <= first {
        return Ok(copy_rows(magnitude_spec_frames));
    }
    let step: usize = if o.frame_step >= 1 {
        o.frame_step
    } else {
        1
    };
    let ghost want: Seq<Seq<F32>> = band_masked(gs, o, hs, ps);
    let mut r: Vec<Vec<F32>> = Vec::new();
    let mut f: usize = 0;
    while f < frames
        invariant
            f <= frames,
            frames == magnitude_spec_frames@.len(),
            gs == rows(magnitude_spec_frames@),
            hs == rows(lasting@),
            ps == rows(spreading@),
            is_grid(gs, frames as nat, bins as nat),
            step == step_of(o),
            step > 0,
            first == band_first(o, bins as int),
            behind == band_behind(o, bins as int),
            first < behind <= bins,
            is_grid(hs, used_frames(frames as int, step as int) as nat, (behind - first) as nat),
            is_grid(ps, used_frames(frames as int, step as int) as nat, (behind - first) as nat),
            bins == gs[0].len(),
            want == band_masked(gs, o, hs, ps),
            r@.len() == f,
            forall|k: int| 0 <= k < f ==> (#[trigger] r@[k])@ == want[k],
        decreases frames - f,
    {
        let t: usize = f / step;
        proof {
            lemma_used_frame(frames as int, step as int, t as int);
            assert(t * step <= f) by (nonlinear_arith)
                requires
                    t == f as int / step as int,
                    step > 0,
            ;
            assert(gs[f as int] == magnitude_spec_frames@[f as int]@);
            assert(hs[t as int] == lasting@[t as int]@);
            assert(ps[t as int] == spreading@[t as int]@);
        }
        let mut row: Vec<F32> = Vec::new();
        let mut b: usize = 0;
        while b < bins
            invariant
                b <= bins,
                f < magnitude_spec_frames@.len(),
                t < lasting@.len(),
                t < spreading@.len(),
                magnitude_spec_frames@[f as int]@.len() == bins,
                lasting@[t as int]@.len() == behind - first,
                spreading@[t as int]@.len() == behind - first,
                first < behind <= bins,
                row@.len() == b,
                forall|k: int|
                    0 <= k < b ==> row@[k] == if first <= k < behind {
                        clean(magnitude_spec_frames@[f as int]@[k]) * mask(
                            lasting@[t as int]@[k - first],
                            spreading@[t as int]@[k - first],
                        )
                    } else {
                        zero()
                    },
            decreases bins - b,
        {
            if first <= b && b < behind {
                row.push(
                    clean(magnitude_spec_frames[f][b]) * mask(
                        lasting[t][b - first],
                        spreading[t][b - first],
                    ),
                );
            } else {
                row.push(zero());
            }
            b = b + 1;
        }
        assert(row@ =~= want[f as int]);
        r.push(row);
        f = f + 1;
    }
    assert(rows(r@) =~= want);
    Ok(r)
}

} // verus!
