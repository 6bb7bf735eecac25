//! Numbers added up, one after the other.
use crate::float::F32;
use vstd::prelude::*;

verus! {

/// Numbers added to a first one, one after the other.
pub open spec fn added(start: F32, s: Seq<F32>) -> F32 {
    s.fold_left(start, |sum: F32, x: F32| sum + x)
}

/// One more number is added last.
pub proof fn lemma_added_push(start: F32, s: Seq<F32>, x: F32)
    ensures
        added(start, s.push(x)) == added(start, s) + x,
{
    assert(s.push(x).drop_last() =~= s);
}

/// Numbers can be added in two goes.
pub proof fn lemma_added_both(start: F32, s: Seq<F32>, t: Seq<F32>)
    ensures
        added(start, s + t) == added(added(start, s), t),
    decreases t.len(),
{
    if t.len() > 0 {
        lemma_added_both(start, s, t.drop_last());
        assert(s + t =~= (s + t.drop_last()).push(t.last()));
        lemma_added_push(start, s + t.drop_last(), t.last());
    } else {
        assert(s + t =~= s);
    }
}

} // verus!
