//! What key detection gives.
use crate::analysis::result::Key;
use crate::float::F32;
use vstd::prelude::*;

verus! {

/// A detected key.
#[derive(Debug, Clone)]
pub struct KeyDetectionResult {
    /// The key
    pub key: Key,
    /// Confidence, from zero to one
    pub confidence: F32,
    /// Scores of all 24 keys, highest first
    pub all_scores: Vec<(Key, F32)>,
    /// The best keys with their scores
    pub top_keys: Vec<(Key, F32)>,
}

/// A detected key, with sequences for vectors.
#[verifier::ext_equal]
pub struct Detection {
    pub key: Key,
    pub confidence: F32,
    pub all_scores: Seq<(Key, F32)>,
    pub top_keys: Seq<(Key, F32)>,
}

impl View for KeyDetectionResult {
    type V = Detection;

    open spec fn view(&self) -> Detection {
        Detection {
            key: self.key,
            confidence: self.confidence,
            all_scores: self.all_scores@,
            top_keys: self.top_keys@,
        }
    }
}

/// The scores without their keys.
pub open spec fn scores_of(s: Seq<(Key, F32)>) -> Seq<F32> {
    Seq::new(s.len(), |i: int| s[i].1)
}

/// Takes the scores out of a score table.
pub fn score_values(s: &[(Key, F32)]) -> (r: Vec<F32>)
    ensures
        r@ == scores_of(s@),
{
    let mut r: Vec<F32> = Vec::new();
    let mut i: usize = 0;
    while i < s.len()
        invariant
            i <= s.len(),
            r@.len() == i,
            forall|k: int| 0 <= k < i ==> r@[k] == s@[k].1,
        decreases s.len() - i,
    {
        r.push(s[i].1);
        i = i + 1;
    }
    assert(r@ =~= scores_of(s@));
    r
}

} // verus!
