//! Chroma vectors of length one.
use crate::float::one;
use crate::float::ratio;
use crate::float::F32;
use crate::vector::dot_product;
use crate::vector::energy;
use vstd::prelude::*;

verus! {

/// The vector divided by its length; one with all entries the same where it has no
/// length to speak of.
pub open spec fn unit_or_uniform(v: Seq<F32>) -> Seq<F32> {
    let norm = energy(v).sqrt();
    let uniform = one() / F32::from_usize(v.len() as usize).sqrt();
    Seq::new(
        v.len(),
        |i: int|
            if norm > ratio(1, 10_000_000_000) {
                v[i] / norm
            } else {
                uniform
            },
    )
}

/// Brings a chroma vector to length one.
pub fn l2_normalize_chroma(chroma: &[F32]) -> (r: Vec<F32>)
    ensures
        r@ == unit_or_uniform(chroma@),
{
    let norm = dot_product(chroma, chroma).sqrt();
    let uniform = one() / F32::from_usize(chroma.len()).sqrt();
    let mut r: Vec<F32> = Vec::new();
    let mut i: usize = 0;
    while i < chroma.len()
        invariant
            i <= chroma.len(),
            norm == energy(chroma@).sqrt(),
            uniform == one() / F32::from_usize(chroma@.len() as usize).sqrt(),
            r@.len() == i,
            forall|k: int| 0 <= k < i ==> r@[k] == unit_or_uniform(chroma@)[k],
        decreases chroma.len() - i,
    {
        r.push(
            if norm > ratio(1, 10_000_000_000) {
                chroma[i] / norm
            } else {
                uniform
            },
        );
        i = i + 1;
    }
    assert(r@ =~= unit_or_uniform(chroma@));
    r
}

/// Sharpens a chroma vector: its entries, each raised to a power, brought to
/// length one. `powers` are the entries raised to that power.
pub fn sharpen_chroma(powers: &[F32]) -> (r: Vec<F32>)
    ensures
        r@ == unit_or_uniform(powers@),
{
    l2_normalize_chroma(powers)
}

} // verus!
