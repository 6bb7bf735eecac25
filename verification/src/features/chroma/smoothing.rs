//! Chroma vectors smoothed over time.
use crate::features::onset::hpss::column;
use crate::float::zero;
use crate::float::F32;
use crate::spectrogram::copy_rows;
use crate::spectrogram::is_grid;
use crate::spectrogram::rows;
use crate::spectrogram::rows_reach;
use crate::statistics::ascending;
use crate::statistics::sort_ascending;
use vstd::prelude::*;

verus! {

/// The first frame of a window of `size` frames around frame `f`.
pub open spec fn window_first(f: int, size: int) -> int {
    if f >= size / 2 {
        f - size / 2
    } else {
        0
    }
}

/// The frame behind a window of `size` frames around frame `f`, of `n` frames.
pub open spec fn window_behind(f: int, size: int, n: int) -> int {
    if f - size / 2 + size <= n {
        f - size / 2 + size
    } else {
        n
    }
}

/// The values of a bin in the window around a frame.
pub open spec fn window_values(g: Seq<Seq<F32>>, size: int, f: int, b: int) -> Seq<F32> {
    let first = window_first(f, size);
    column(g, b, first, (window_behind(f, size, g.len() as int) - first) as nat)
}

/// The value in the middle of values put in order: the upper one of two.
pub open spec fn upper_median(values: Seq<F32>) -> F32 {
    ascending(values)[values.len() as int / 2]
}

/// Finds the value in the middle of values put in order.
pub fn find_upper_median(values: &[F32]) -> (r: F32)
    requires
        values@.len() > 0,
    ensures
        r == upper_median(values@),
{
    let sorted: Vec<F32> = sort_ascending(values);
    sorted[sorted.len() / 2]
}

/// The sum of the first `n` values, added up from the left.
pub open spec fn left_sum(values: Seq<F32>, n: nat) -> F32
    decreases n,
{
    if n == 0 {
        zero()
    } else {
        left_sum(values, (n - 1) as nat) + values[n - 1]
    }
}

/// The mean of values.
pub open spec fn plain_mean(values: Seq<F32>) -> F32 {
    left_sum(values, values.len()) / F32::from_usize(values.len() as usize)
}

fn find_plain_mean(values: &[F32]) -> (r: F32)
    ensures
        r == plain_mean(values@),
{
    let mut acc = zero();
    let mut n: usize = 0;
    while n < values.len()
        invariant
            n <= values.len(),
            acc == left_sum(values@, n as nat),
        decreases values.len() - n,
    {
        acc = acc + values[n];
        n = n + 1;
    }
    acc / F32::from_usize(values.len())
}

/// A window size made odd.
pub open spec fn odd_size(size: int) -> int {
    if size % 2 == 0 {
        size + 1
    } else {
        size
    }
}

/// Chroma vectors, each entry the median of its window over time.
pub open spec fn median_smoothed(g: Seq<Seq<F32>>, size: int) -> Seq<Seq<F32>> {
    if size <= 1 {
        g
    } else {
        Seq::new(
            g.len(),
            |f: int|
                Seq::new(
                    g[0].len(),
                    |b: int| upper_median(window_values(g, odd_size(size), f, b)),
                ),
        )
    }
}

/// Chroma vectors, each entry the mean of its window over time.
pub open spec fn mean_smoothed(g: Seq<Seq<F32>>, size: int) -> Seq<Seq<F32>> {
    if size <= 1 {
        g
    } else {
        Seq::new(
            g.len(),
            |f: int|
                Seq::new(g[0].len(), |b: int| plain_mean(window_values(g, size, f, b))),
        )
    }
}

/// The values of a bin in the window around a frame: `before` frames before it and
/// `after` behind it.
fn collect_window(g: &[Vec<F32>], before: usize, after: usize, f: usize, b: usize) -> (r: Vec<F32>)
    requires
        f < g@.len(),
        forall|i: int| 0 <= i < g@.len() ==> b < (#[trigger] g@[i])@.len(),
    ensures
        r@.len() > 0,
        ({
            let first = if f >= before {
                f - before
            } else {
                0
            };
            let behind = if f + after + 1 <= g@.len() {
                f + after + 1
            } else {
                g@.len() as int
            };
            r@ == column(rows(g@), b as int, first, (behind - first) as nat)
        }),
{
    let n: usize = g.len();
    let first: usize = if f >= before {
        f - before
    } else {
        0
    };
    let behind: usize = if after < n - f {
        f + after + 1
    } else {
        n
    };
    let mut r: Vec<F32> = Vec::new();
    let mut i: usize = first;
    while i < behind
        invariant
            first <= i <= behind <= g@.len(),
            forall|i: int| 0 <= i < g@.len() ==> b < (#[trigger] g@[i])@.len(),
            r@.len() == i - first,
            forall|k: int| 0 <= k < i - first ==> r@[k] == g@[first + k]@[b as int],
        decreases behind - i,
    {
        r.push(g[i][b]);
        i = i + 1;
    }
    assert(r@ =~= column(rows(g@), b as int, first as int, (behind - first) as nat));
    r
}

/// Smooths every entry over its window; `use_median` tells the median from the mean.
fn smooth_windows(g: &[Vec<F32>], size: usize, half: usize, use_median: bool) -> (r: Vec<Vec<F32>>)
    requires
        g@.len() > 0,
        rows_reach(rows(g@), g@[0]@.len()),
        half == size / 2,
        size >= 2,
    ensures
        r@.len() == g@.len(),
        forall|f: int| 0 <= f < g@.len() ==> (#[trigger] rows(r@)[f]) == Seq::new(
            g@[0]@.len(),
            |b: int|
                if use_median {
                    upper_median(window_values(rows(g@), size as int, f, b))
                } else {
                    plain_mean(window_values(rows(g@), size as int, f, b))
                },
        ),
{
    let ghost gs: Seq<Seq<F32>> = rows(g@);
    let frames: usize = g.len();
    let bins: usize = g[0].len();
    let after: usize = size - half - 1;
    let mut r: Vec<Vec<F32>> = Vec::new();
    let mut f: usize = 0;
    while f < frames
        invariant
            f <= frames,
            frames == g@.len(),
            gs == rows(g@),
            rows_reach(gs, bins as nat),
            half == size / 2,
            after == size - half - 1,
            r@.len() == f,
            forall|k: int| 0 <= k < f ==> (#[trigger] r@[k])@ == Seq::new(
                bins as nat,
                |b: int|
                    if use_median {
                        upper_median(window_values(gs, size as int, k, b))
                    } else {
                        plain_mean(window_values(gs, size as int, k, b))
                    },
            ),
        decreases frames - f,
    {
        let mut row: Vec<F32> = Vec::new();
        let mut b: usize = 0;
        while b < bins
            invariant
                b <= bins,
                f < frames,
                frames == g@.len(),
                gs == rows(g@),
                rows_reach(gs, bins as nat),
                half == size / 2,
                after == size - half - 1,
                row@.len() == b,
                forall|k: int|
                    0 <= k < b ==> row@[k] == if use_median {
                        upper_median(window_values(gs, size as int, f as int, k))
                    } else {
                        plain_mean(window_values(gs, size as int, f as int, k))
                    },
            decreases bins - b,
        {
            assert forall|i: int| 0 <= i < g@.len() implies b < (#[trigger] g@[i])@.len() by {
                assert(bins <= gs[i].len());
            }
            let w: Vec<F32> = collect_window(g, half, after, f, b);
            assert(w@ =~= window_values(gs, size as int, f as int, b as int));
            let value = if use_median {
                find_upper_median(w.as_slice())
            } else {
                find_plain_mean(w.as_slice())
            };
            row.push(value);
            b = b + 1;
        }
        assert(row@ =~= Seq::new(
            bins as nat,
            |b: int|
                if use_median {
                    upper_median(window_values(gs, size as int, f as int, b))
                } else {
                    plain_mean(window_values(gs, size as int, f as int, b))
                },
        ));
        r.push(row);
        f = f + 1;
    }
    assert forall|f: int| 0 <= f < frames implies (#[trigger] rows(r@)[f]) == Seq::new(
        bins as nat,
        |b: int|
            if use_median {
                upper_median(window_values(gs, size as int, f, b))
            } else {
                plain_mean(window_values(gs, size as int, f, b))
            },
    ) by {
        assert(rows(r@)[f] == r@[f]@);
    }
    r
}

/// Smoothing keeps the shape of chroma.
pub proof fn lemma_smoothing_keeps_shape(g: Seq<Seq<F32>>, size: int, frames: nat, bins: nat)
    requires
        is_grid(g, frames, bins),
    ensures
        is_grid(median_smoothed(g, size), frames, bins),
        is_grid(mean_smoothed(g, size), frames, bins),
{
}

/// Smooths chroma vectors over time by medians; an even window is made odd.
pub fn smooth_chroma(chroma_vectors: &[Vec<F32>], window_size: usize) -> (r: Vec<Vec<F32>>)
    requires
        window_size <= 1 || rows_reach(rows(chroma_vectors@), rows(chroma_vectors@)[0].len()),
    ensures
        rows(r@) == median_smoothed(rows(chroma_vectors@), window_size as int),
{
    if chroma_vectors.len() == 0 || window_size <= 1 {
        let r: Vec<Vec<F32>> = copy_rows(chroma_vectors);
        assert(rows(r@) =~= median_smoothed(rows(chroma_vectors@), window_size as int));
        return r;
    }
    let size: usize = if window_size % 2 == 0 {
        window_size + 1
    } else {
        window_size
    };
    assert(rows(chroma_vectors@)[0] == chroma_vectors@[0]@);
    let r: Vec<Vec<F32>> = smooth_windows(chroma_vectors, size, size / 2, true);
    assert(rows(r@) =~= median_smoothed(rows(chroma_vectors@), window_size as int)) by {
        let want = median_smoothed(rows(chroma_vectors@), window_size as int);
        assert forall|f: int| 0 <= f < want.len() implies rows(r@)[f] == want[f] by {
            assert(rows(r@)[f] =~= want[f]);
        }
    }
    r
}

/// Smooths chroma vectors over time by means.
pub fn smooth_chroma_average(chroma_vectors: &[Vec<F32>], window_size: usize) -> (r: Vec<Vec<F32>>)
    requires
        window_size <= 1 || rows_reach(rows(chroma_vectors@), rows(chroma_vectors@)[0].len()),
    ensures
        rows(r@) == mean_smoothed(rows(chroma_vectors@), window_size as int),
{
    if chroma_vectors.len() == 0 || window_size <= 1 {
        let r: Vec<Vec<F32>> = copy_rows(chroma_vectors);
        assert(rows(r@) =~= mean_smoothed(rows(chroma_vectors@), window_size as int));
        return r;
    }
    assert(rows(chroma_vectors@)[0] == chroma_vectors@[0]@);
    let r: Vec<Vec<F32>> = smooth_windows(chroma_vectors, window_size, window_size / 2, false);
    assert(rows(r@) =~= mean_smoothed(rows(chroma_vectors@), window_size as int)) by {
        let want = mean_smoothed(rows(chroma_vectors@), window_size as int);
        assert forall|f: int| 0 <= f < want.len() implies rows(r@)[f] == want[f] by {
            assert(rows(r@)[f] =~= want[f]);
        }
    }
    r
}

} // verus!
