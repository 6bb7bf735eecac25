//! Vectors of numbers: dot products and normalisation.
use crate::float::F32;
use crate::sorting::empty_sum;
use vstd::prelude::*;

verus! {

/// The sum of the products of the first `n` items, added up from the left.
pub open spec fn dot_of(a: Seq<F32>, b: Seq<F32>, n: nat) -> F32
    decreases n,
{
    if n == 0 {
        empty_sum()
    } else {
        dot_of(a, b, (n - 1) as nat) + a[n - 1] * b[n - 1]
    }
}

pub open spec fn shorter_len(a: Seq<F32>, b: Seq<F32>) -> nat {
    if a.len() <= b.len() {
        a.len()
    } else {
        b.len()
    }
}

/// The dot product, as far as both vectors go.
pub open spec fn dot(a: Seq<F32>, b: Seq<F32>) -> F32 {
    dot_of(a, b, shorter_len(a, b))
}

/// The sum of the squares.
pub open spec fn energy(a: Seq<F32>) -> F32 {
    dot(a, a)
}

/// The vector brought to length one, unless its length is not above `eps`.
pub open spec fn normalized(a: Seq<F32>, eps: F32) -> Seq<F32> {
    let norm = energy(a).sqrt();
    if norm > eps {
        Seq::new(a.len(), |i: int| a[i] / norm)
    } else {
        a
    }
}

/// Computes the dot product of two vectors.
pub fn dot_product(a: &[F32], b: &[F32]) -> (r: F32)
    ensures
        r == dot(a@, b@),
{
    let n: usize = if a.len() <= b.len() {
        a.len()
    } else {
        b.len()
    };
    let mut acc = empty_sum();
    let mut i: usize = 0;
    while i < n
        invariant
            i <= n,
            n <= a.len(),
            n <= b.len(),
            acc == dot_of(a@, b@, i as nat),
        decreases n - i,
    {
        acc = acc + a[i] * b[i];
        i = i + 1;
    }
    acc
}

/// Brings a vector to length one, unless its length is not above `eps`.
pub fn normalize(a: &mut Vec<F32>, eps: F32)
    ensures
        final(a)@ == normalized(old(a)@, eps),
{
    let norm = dot_product(a.as_slice(), a.as_slice()).sqrt();
    let ghost start: Seq<F32> = a@;
    if norm > eps {
        let mut i: usize = 0;
        let n: usize = a.len();
        while i < n
            invariant
                i <= n,
                n == start.len(),
                a@.len() == n,
                forall|k: int| 0 <= k < i ==> a@[k] == start[k] / norm,
                forall|k: int| i <= k < n ==> a@[k] == start[k],
            decreases n - i,
        {
            let x = a[i];
            a.set(i, x / norm);
            i = i + 1;
        }
    }
    assert(a@ =~= normalized(start, eps));
}

} // verus!
