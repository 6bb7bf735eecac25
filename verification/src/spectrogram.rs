//! Tables of numbers: one row for each frame.
use crate::float::F32;
use vstd::prelude::*;

verus! {

/// The rows of a table.
pub open spec fn rows(frames: Seq<Vec<F32>>) -> Seq<Seq<F32>> {
    Seq::new(frames.len(), |i: int| frames[i]@)
}

/// A table of `frames` rows of `bins` numbers each.
pub open spec fn is_grid(g: Seq<Seq<F32>>, frames: nat, bins: nat) -> bool {
    g.len() == frames && forall|f: int| 0 <= f < frames ==> (#[trigger] g[f]).len() == bins
}

/// A table has the shape of a spectrogram.
pub open spec fn same_shape(g: Seq<Seq<F32>>, t: Seq<Seq<F32>>) -> bool {
    t.len() == g.len() && forall|f: int| 0 <= f < g.len() ==> (#[trigger] t[f]).len() == g[f].len()
}

/// Every row of a table has at least `bins` numbers.
pub open spec fn rows_reach(g: Seq<Seq<F32>>, bins: nat) -> bool {
    forall|f: int| 0 <= f < g.len() ==> bins <= (#[trigger] g[f]).len()
}

/// Copies a table.
pub fn copy_rows(frames: &[Vec<F32>]) -> (r: Vec<Vec<F32>>)
    ensures
        rows(r@) == rows(frames@),
{
    let mut r: Vec<Vec<F32>> = Vec::new();
    let mut i: usize = 0;
    while i < frames.len()
        invariant
            i <= frames.len(),
            r@.len() == i,
            forall|k: int| 0 <= k < i ==> (#[trigger] r@[k])@ == frames@[k]@,
        decreases frames.len() - i,
    {
        let row: Vec<F32> = copy_row(frames[i].as_slice());
        r.push(row);
        i = i + 1;
    }
    assert(rows(r@) =~= rows(frames@));
    r
}

/// Copies a row.
pub fn copy_row(row: &[F32]) -> (r: Vec<F32>)
    ensures
        r@ == row@,
{
    let mut r: Vec<F32> = Vec::new();
    let mut i: usize = 0;
    while i < row.len()
        invariant
            i <= row.len(),
            r@ == row@.take(i as int),
        decreases row.len() - i,
    {
        r.push(row[i]);
        assert(r@ =~= row@.take(i + 1));
        i = i + 1;
    }
    assert(r@ =~= row@);
    r
}

} // verus!
