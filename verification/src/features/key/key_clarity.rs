//! Key clarity: how far the best key stands out.
use super::result::score_values;
use super::result::scores_of;
use crate::analysis::result::Key;
use crate::float::clamp_unit;
use crate::float::ratio;
use crate::float::zero;
use crate::float::F32;
use crate::sorting::sum;
use crate::sorting::sum_of;
use vstd::prelude::*;

verus! {

/// The least of the first `n` values, which are at least one.
pub open spec fn least(s: Seq<F32>, n: nat) -> F32
    decreases n,
{
    if n <= 1 {
        s[0]
    } else {
        let m = least(s, (n - 1) as nat);
        if m > s[n - 1] {
            s[n - 1]
        } else {
            m
        }
    }
}

/// The greatest of the first `n` values, which are at least one.
pub open spec fn greatest(s: Seq<F32>, n: nat) -> F32
    decreases n,
{
    if n <= 1 {
        s[0]
    } else {
        let m = greatest(s, (n - 1) as nat);
        if m > s[n - 1] {
            m
        } else {
            s[n - 1]
        }
    }
}

/// How far the first score is above the average, as a part of the range of the
/// scores; zero for fewer than two scores and where the scores do not differ.
pub open spec fn clarity_of(scores: Seq<(Key, F32)>) -> F32 {
    let s = scores_of(scores);
    let range = greatest(s, s.len()) - least(s, s.len());
    if s.len() < 2 {
        zero()
    } else if range > ratio(1, 10_000_000_000) {
        clamp_unit((s[0] - sum_of(s) / F32::from_usize(s.len() as usize)) / range)
    } else {
        zero()
    }
}

/// Computes the clarity of ranked key scores.
pub fn compute_key_clarity(scores: &[(Key, F32)]) -> (r: F32)
    ensures
        r == clarity_of(scores@),
{
    if scores.len() < 2 {
        return zero();
    }
    let s: Vec<F32> = score_values(scores);
    let average = sum(s.as_slice()) / F32::from_usize(s.len());
    let mut low = s[0];
    let mut high = s[0];
    let mut i: usize = 1;
    while i < s.len()
        invariant
            1 <= i <= s.len(),
            low == least(s@, i as nat),
            high == greatest(s@, i as nat),
        decreases s.len() - i,
    {
        let x = s[i];
        if low > x {
            low = x;
        }
        if !(high > x) {
            high = x;
        }
        i = i + 1;
    }
    let range = high - low;
    if range > ratio(1, 10_000_000_000) {
        clamp_unit((s[0] - average) / range)
    } else {
        zero()
    }
}

} // verus!
