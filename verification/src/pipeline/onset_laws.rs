//! What holds of the onsets that tempo and beats are found by.
use super::onsets::agreed_onsets;
use super::onsets::starts_within;
use super::onsets::voted_times;
use crate::features::beat_tracking::grid_laws::lemma_push_contains;
use crate::features::onset::consensus::OnsetCandidate;
use crate::sorting::sorted_set;
use crate::sorting::sorted_set_of;
use vstd::prelude::*;

verus! {

/// A list in increasing order with one more value.
proof fn lemma_with_value(r: Seq<usize>, x: usize) -> (all: Seq<usize>)
    requires
        forall|i: int, j: int| 0 <= i < j < r.len() ==> r[i] < r[j],
        !r.contains(x),
    ensures
        all.len() == r.len() + 1,
        forall|i: int, j: int| 0 <= i < j < all.len() ==> all[i] < all[j],
        forall|y: usize| #[trigger] all.contains(y) <==> r.contains(y) || y == x,
        all.last() == if r.len() == 0 || r.last() < x {
            x
        } else {
            r.last()
        },
    decreases r.len(),
{
    if r.len() == 0 || r.last() < x {
        let all = r.push(x);
        assert forall|y: usize| #[trigger] all.contains(y) <==> r.contains(y) || y == x by {
            lemma_push_contains(r, x, y);
        }
        all
    } else {
        let last = r.last();
        assert(r.contains(last));
        let rest = r.drop_last();
        assert forall|y: usize| #[trigger] r.contains(y) <==> rest.contains(y) || y == last by {
            lemma_push_contains(rest, last, y);
            assert(rest.push(last) =~= r);
        }
        let before = lemma_with_value(rest, x);
        assert(x < last);
        assert(before.last() < last);
        let all = before.push(last);
        assert forall|y: usize| #[trigger] all.contains(y) <==> r.contains(y) || y == x by {
            lemma_push_contains(before, last, y);
            assert(before.contains(y) <==> rest.contains(y) || y == x);
        }
        all
    }
}

proof fn lemma_sorted_set(s: Seq<usize>)
    ensures
        sorted_set_of(sorted_set(s), s),
    decreases s.len(),
{
    if s.len() == 0 {
        assert(sorted_set_of(Seq::<usize>::empty(), s));
    } else {
        let rest = s.drop_last();
        let x = s.last();
        lemma_sorted_set(rest);
        let r = sorted_set(rest);
        assert forall|y: usize| #[trigger] s.contains(y) <==> rest.contains(y) || y == x by {
            lemma_push_contains(rest, x, y);
            assert(rest.push(x) =~= s);
        }
        if r.contains(x) {
            assert(sorted_set_of(r, s));
        } else {
            let all = lemma_with_value(r, x);
            assert(sorted_set_of(all, s));
        }
    }
}

/// Enough methods voted for an onset at a time.
pub open spec fn is_voted(c: Seq<OnsetCandidate>, least: u32, time: usize) -> bool {
    exists|i: int|
        0 <= i < c.len() && (#[trigger] c[i]).voted_by >= least && c[i].time_samples == time
}

proof fn lemma_voted_times(c: Seq<OnsetCandidate>, least: u32, n: nat, x: usize)
    requires
        n <= c.len(),
    ensures
        voted_times(c, least, n).contains(x) <==> is_voted(c.take(n as int), least, x),
    decreases n,
{
    let taken = c.take(n as int);
    if n > 0 {
        lemma_voted_times(c, least, (n - 1) as nat, x);
        let before = c.take(n - 1);
        lemma_push_contains(voted_times(c, least, (n - 1) as nat), c[n - 1].time_samples, x);
        if is_voted(before, least, x) {
            let i = choose|i: int|
                0 <= i < before.len() && (#[trigger] before[i]).voted_by >= least
                    && before[i].time_samples == x;
            assert(taken[i] == before[i]);
        }
        if is_voted(taken, least, x) {
            let i = choose|i: int|
                0 <= i < taken.len() && (#[trigger] taken[i]).voted_by >= least
                    && taken[i].time_samples == x;
            if i < n - 1 {
                assert(before[i] == taken[i]);
            }
        }
        assert(taken[n - 1] == c[n - 1]);
    }
}

/// Where two methods at least agree on an onset, the onsets are exactly those that two
/// methods agree on, in order and each once; where no two agree, they are all onsets that
/// any method heard; and without any those of the energy.
pub proof fn lemma_agreed_onsets(c: Seq<OnsetCandidate>, energy_onsets: Seq<usize>)
    ensures
        ({
            let r = agreed_onsets(c, energy_onsets);
            let agreed = exists|x: usize| #[trigger] is_voted(c, 2, x);
            &&& agreed ==> forall|x: usize| #[trigger] r.contains(x) <==> is_voted(c, 2, x)
            &&& !agreed && c.len() > 0 ==> forall|x: usize| #[trigger]
                r.contains(x) <==> is_voted(c, 0, x)
            &&& c.len() > 0 ==> forall|i: int, j: int| 0 <= i < j < r.len() ==> r[i] < r[j]
            &&& c.len() == 0 ==> r == energy_onsets
        }),
{
    let n = c.len();
    assert(c.take(n as int) =~= c);
    let strong = sorted_set(voted_times(c, 2, n));
    let any = sorted_set(voted_times(c, 0, n));
    lemma_sorted_set(voted_times(c, 2, n));
    lemma_sorted_set(voted_times(c, 0, n));
    assert forall|x: usize| #[trigger] strong.contains(x) <==> is_voted(c, 2, x) by {
        lemma_voted_times(c, 2, n, x);
    }
    assert forall|x: usize| #[trigger] any.contains(x) <==> is_voted(c, 0, x) by {
        lemma_voted_times(c, 0, n, x);
    }
    if strong.len() > 0 {
        assert(strong.contains(strong[0]));
    } else {
        assert forall|x: usize| !#[trigger] is_voted(c, 2, x) by {
            assert(!strong.contains(x));
        }
    }
    if c.len() > 0 {
        assert(c[0].voted_by >= 0);
        assert(is_voted(c, 0, c[0].time_samples));
        assert(any.contains(c[0].time_samples));
    } else {
        if any.len() > 0 {
            assert(any.contains(any[0]));
        }
    }
}

/// Onset frames become the samples that they start with: every frame that starts within
/// the samples is there, and no other.
pub proof fn lemma_frames_start_within(frames: Seq<usize>, hop_size: usize, n_samples: usize, n: nat, x: usize)
    requires
        n <= frames.len(),
    ensures
        starts_within(frames, hop_size, n_samples, n).contains(x) <==> x < n_samples && exists|i: int|
            0 <= i < n && (#[trigger] frames[i]) * hop_size == x,
        sorted_set_of(
            sorted_set(starts_within(frames, hop_size, n_samples, n)),
            starts_within(frames, hop_size, n_samples, n),
        ),
    decreases n,
{
    lemma_sorted_set(starts_within(frames, hop_size, n_samples, n));
    if n > 0 {
        lemma_frames_start_within(frames, hop_size, n_samples, (n - 1) as nat, x);
        let before = starts_within(frames, hop_size, n_samples, (n - 1) as nat);
        let last = frames[n - 1] * hop_size;
        lemma_push_contains(before, last as usize, x);
        assert(last >= 0) by (nonlinear_arith)
            requires
                last == frames[n - 1] * hop_size,
        ;
        if exists|i: int| 0 <= i < n && (#[trigger] frames[i]) * hop_size == x {
            let i = choose|i: int| 0 <= i < n && (#[trigger] frames[i]) * hop_size == x;
            if i < n - 1 {
                assert(frames[i] * hop_size == x);
            }
        }
    }
}

} // verus!
