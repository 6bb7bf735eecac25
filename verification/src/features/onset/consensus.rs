//! Onsets that several methods agree on: onsets close together make up a cluster,
//! and the weights of the methods in it its confidence.
use crate::error::gives;
use crate::error::invalid_input;
use crate::error::AnalysisError;
use crate::error::Outcome;
use crate::float::clamp_unit;
use crate::float::ratio;
use crate::float::zero;
use crate::float::F32;
use crate::float_laws::in_unit;
use crate::float_laws::lemma_clamp_never_outside;
use crate::float_laws::lemma_clamp_unit;
use crate::float_laws::lemma_zero_and_one;
use crate::float_laws::never_outside;
use crate::sorting::arrange;
use crate::sorting::arranged;
use crate::sorting::sort_order;
use crate::sorting::sorted_order;
use crate::sorting::sum;
use crate::sorting::sum_of;
use vstd::prelude::*;

verus! {

/// An onset with a confidence.
#[derive(Debug, Clone, Copy)]
pub struct OnsetCandidate {
    /// Onset time in samples
    pub time_samples: usize,
    /// Onset time in seconds
    pub time_seconds: F32,
    /// Confidence, from zero to one
    pub confidence: F32,
    /// Number of methods that detected this onset
    pub voted_by: u32,
}

/// The onsets that four methods detected, in samples.
#[derive(Debug, Clone)]
pub struct OnsetConsensus {
    /// Energy flux onsets
    pub energy_flux: Vec<usize>,
    /// Spectral flux onsets
    pub spectral_flux: Vec<usize>,
    /// High-frequency content onsets
    pub hfc: Vec<usize>,
    /// Percussive onsets
    pub hpss: Vec<usize>,
}

/// An onset with the number of the method that detected it.
#[derive(Debug, Clone, Copy)]
pub struct Vote {
    /// Onset time in samples
    pub sample: usize,
    /// Method, from zero to three
    pub method: usize,
}

/// Onsets as votes of a method.
pub open spec fn votes_of(onsets: Seq<usize>, method: usize) -> Seq<Vote> {
    Seq::new(onsets.len(), |i: int| Vote { sample: onsets[i], method })
}

/// The votes of all methods, one method after the other.
pub open spec fn all_votes(c: OnsetConsensus) -> Seq<Vote> {
    votes_of(c.energy_flux@, 0) + votes_of(c.spectral_flux@, 1) + votes_of(c.hfc@, 2) + votes_of(
        c.hpss@,
        3,
    )
}

/// Where an onset goes into a list in order: behind all that are not later.
pub open spec fn spot(s: Seq<Vote>, sample: usize, p: int) -> int
    decreases p,
{
    if p > 0 && s[p - 1].sample > sample {
        spot(s, sample, p - 1)
    } else {
        p
    }
}

/// The first `n` votes in the order of their onsets; those that tie keep their order.
pub open spec fn in_order(v: Seq<Vote>, n: nat) -> Seq<Vote>
    decreases n,
{
    if n == 0 {
        Seq::empty()
    } else {
        let before = in_order(v, (n - 1) as nat);
        before.insert(spot(before, v[n - 1].sample, before.len() as int), v[n - 1])
    }
}

/// Votes are in the order of their onsets.
pub open spec fn is_ordered(s: Seq<Vote>) -> bool {
    forall|i: int, j: int| 0 <= i < j < s.len() ==> s[i].sample <= s[j].sample
}

/// The place where the cluster of the vote at `i` starts: neighbours in a cluster
/// are at most `tolerance` samples apart.
pub open spec fn cluster_start(s: Seq<Vote>, tolerance: int, i: int) -> int
    decreases i,
{
    if i <= 0 || s[i].sample - s[i - 1].sample > tolerance {
        i
    } else {
        cluster_start(s, tolerance, i - 1)
    }
}

/// The vote at `i` is the last of its cluster.
pub open spec fn ends_cluster(s: Seq<Vote>, tolerance: int, i: int) -> bool {
    i == s.len() - 1 || s[i + 1].sample - s[i].sample > tolerance
}

/// The sum of the onsets of the first `n` votes.
pub open spec fn sample_sum(s: Seq<Vote>, n: nat) -> int
    decreases n,
{
    if n == 0 {
        0
    } else {
        sample_sum(s, (n - 1) as nat) + s[n - 1].sample
    }
}

/// The vote at `k` is the first of its method.
pub open spec fn is_first_vote(s: Seq<Vote>, k: int) -> bool {
    forall|i: int| 0 <= i < k ==> (#[trigger] s[i]).method != s[k].method
}

/// The sum of the weights of the methods that have a vote among the first `n`.
pub open spec fn weight_sum(s: Seq<Vote>, weights: Seq<F32>, n: nat) -> F32
    decreases n,
{
    if n == 0 {
        zero()
    } else if is_first_vote(s, n - 1) {
        weight_sum(s, weights, (n - 1) as nat) + weights[s[n - 1].method as int]
    } else {
        weight_sum(s, weights, (n - 1) as nat)
    }
}

/// A method has a vote.
pub open spec fn has_voted(s: Seq<Vote>, method: usize) -> bool {
    exists|i: int| 0 <= i < s.len() && (#[trigger] s[i]).method == method
}

pub open spec fn one_if(b: bool) -> int {
    if b {
        1
    } else {
        0
    }
}

/// How many methods have a vote.
pub open spec fn voters(s: Seq<Vote>) -> int {
    one_if(has_voted(s, 0)) + one_if(has_voted(s, 1)) + one_if(has_voted(s, 2)) + one_if(
        has_voted(s, 3),
    )
}

/// The confidence of a cluster: its weight as a part of all weights.
#[verifier::allow_in_spec]
pub fn vote_confidence(weight: F32, total: F32) -> F32
    returns
        (if total > zero() {
            clamp_unit(weight / total)
        } else {
            zero()
        }),
{
    if total > zero() {
        clamp_unit(weight / total)
    } else {
        zero()
    }
}

/// The candidate that a cluster comes to: the mean of its onsets.
pub open spec fn candidate_of(s: Seq<Vote>, weights: Seq<F32>, sample_rate: u32) -> OnsetCandidate {
    let center = (sample_sum(s, s.len()) / s.len() as int) as usize;
    OnsetCandidate {
        time_samples: center,
        time_seconds: F32::from_usize(center) / F32::from_u32(sample_rate),
        confidence: vote_confidence(weight_sum(s, weights, s.len()), sum_of(weights)),
        voted_by: voters(s) as u32,
    }
}

/// The candidates of those clusters that end among the first `n` votes.
pub open spec fn candidates_of(
    s: Seq<Vote>,
    tolerance: int,
    weights: Seq<F32>,
    sample_rate: u32,
    n: nat,
) -> Seq<OnsetCandidate>
    decreases n,
{
    if n == 0 {
        Seq::empty()
    } else {
        let before = candidates_of(s, tolerance, weights, sample_rate, (n - 1) as nat);
        if ends_cluster(s, tolerance, n - 1) {
            before.push(
                candidate_of(
                    s.subrange(cluster_start(s, tolerance, n - 1), n as int),
                    weights,
                    sample_rate,
                ),
            )
        } else {
            before
        }
    }
}

/// The confidences of candidates.
pub open spec fn vote_confidences(c: Seq<OnsetCandidate>) -> Seq<F32> {
    Seq::new(c.len(), |i: int| c[i].confidence)
}

/// How far apart onsets of a cluster may be, in samples.
#[verifier::allow_in_spec]
pub fn tolerance_samples(tolerance_ms: u32, sample_rate: u32) -> usize
    returns
        (F32::from_u32(tolerance_ms) / ratio(1000, 1) * F32::from_u32(sample_rate)).to_usize(),
{
    (F32::from_u32(tolerance_ms) / ratio(1000, 1) * F32::from_u32(sample_rate)).to_usize()
}

/// What votes come to: the candidates, the most confident first.
pub open spec fn consensus_of(
    c: OnsetConsensus,
    weights: Seq<F32>,
    tolerance_ms: u32,
    sample_rate: u32,
) -> Seq<OnsetCandidate> {
    let votes = in_order(all_votes(c), all_votes(c).len());
    let list = candidates_of(
        votes,
        tolerance_samples(tolerance_ms, sample_rate) as int,
        weights,
        sample_rate,
        votes.len(),
    );
    arranged(list, sorted_order(vote_confidences(list), true, list.len()))
}

proof fn lemma_spot(s: Seq<Vote>, sample: usize, p: int)
    requires
        0 <= p <= s.len(),
        is_ordered(s),
        forall|k: int| p <= k < s.len() ==> (#[trigger] s[k]).sample > sample,
    ensures
        0 <= spot(s, sample, p) <= p,
        forall|k: int| spot(s, sample, p) <= k < s.len() ==> (#[trigger] s[k]).sample > sample,
        forall|k: int| 0 <= k < spot(s, sample, p) ==> (#[trigger] s[k]).sample <= sample,
    decreases p,
{
    if p > 0 && s[p - 1].sample > sample {
        lemma_spot(s, sample, p - 1);
    }
}

/// Votes put in order are in order, and they are as many as before.
pub proof fn lemma_votes_are_ordered(v: Seq<Vote>, n: nat)
    requires
        n <= v.len(),
    ensures
        is_ordered(in_order(v, n)),
        in_order(v, n).len() == n,
    decreases n,
{
    if n > 0 {
        lemma_votes_are_ordered(v, (n - 1) as nat);
        let before = in_order(v, (n - 1) as nat);
        let x = v[n - 1];
        lemma_spot(before, x.sample, before.len() as int);
        let p = spot(before, x.sample, before.len() as int);
        let all = before.insert(p, x);
        assert forall|i: int, j: int| 0 <= i < j < all.len() implies all[i].sample <= all[j].sample by {
            if i < p && j > p {
                assert(before[i].sample <= before[j - 1].sample);
            }
        }
    }
}

/// Putting votes in order keeps each of them.
pub proof fn lemma_order_keeps_votes(v: Seq<Vote>, n: nat)
    requires
        n <= v.len(),
    ensures
        in_order(v, n).to_multiset() == v.take(n as int).to_multiset(),
    decreases n,
{
    broadcast use vstd::seq_lib::group_to_multiset_ensures;

    if n == 0 {
        assert(v.take(0) =~= Seq::<Vote>::empty());
    } else {
        lemma_order_keeps_votes(v, (n - 1) as nat);
        lemma_votes_are_ordered(v, (n - 1) as nat);
        let before = in_order(v, (n - 1) as nat);
        lemma_spot(before, v[n - 1].sample, before.len() as int);
        assert(v.take(n as int) =~= v.take(n - 1).push(v[n - 1]));
        before.to_multiset_ensures();
    }
}

/// Onsets of different clusters are further apart than the tolerance, and no
/// neighbours in one cluster are.
pub proof fn lemma_clusters_are_apart(s: Seq<Vote>, tolerance: int, i: int, j: int)
    requires
        is_ordered(s),
        tolerance >= 0,
        0 <= i < j < s.len(),
    ensures
        cluster_start(s, tolerance, i) != cluster_start(s, tolerance, j) ==> s[j].sample - s[i].sample
            > tolerance,
        j == i + 1 && cluster_start(s, tolerance, i) == cluster_start(s, tolerance, j)
            ==> s[j].sample - s[i].sample <= tolerance,
    decreases j,
{
    lemma_cluster_start(s, tolerance, i);
    lemma_cluster_start(s, tolerance, j);
    if s[j].sample - s[j - 1].sample > tolerance {
        assert(s[i].sample <= s[j - 1].sample);
    } else if i < j - 1 {
        lemma_clusters_are_apart(s, tolerance, i, j - 1);
        assert(s[j - 1].sample <= s[j].sample);
    }
}

proof fn lemma_cluster_start(s: Seq<Vote>, tolerance: int, i: int)
    requires
        0 <= i < s.len(),
    ensures
        0 <= cluster_start(s, tolerance, i) <= i,
    decreases i,
{
    if !(i <= 0 || s[i].sample - s[i - 1].sample > tolerance) {
        lemma_cluster_start(s, tolerance, i - 1);
    }
}

/// A method counts once: a further vote of one that has voted adds no weight.
pub proof fn lemma_method_counts_once(s: Seq<Vote>, vote: Vote, weights: Seq<F32>)
    requires
        has_voted(s, vote.method),
    ensures
        weight_sum(s.push(vote), weights, s.len() + 1) == weight_sum(s, weights, s.len()),
        voters(s.push(vote)) == voters(s),
{
    let all = s.push(vote);
    let i = choose|i: int| 0 <= i < s.len() && (#[trigger] s[i]).method == vote.method;
    assert(all[i] == s[i]);
    assert(!is_first_vote(all, s.len() as int));
    lemma_weight_of_prefix(s, vote, weights, s.len());
    assert forall|m: usize| has_voted(all, m) == has_voted(s, m) by {
        if has_voted(s, m) {
            let k = choose|k: int| 0 <= k < s.len() && (#[trigger] s[k]).method == m;
            assert(all[k].method == m);
        }
        if has_voted(all, m) {
            let k = choose|k: int| 0 <= k < all.len() && (#[trigger] all[k]).method == m;
            if k < s.len() {
                assert(s[k].method == m);
            }
        }
    }
}

pub proof fn lemma_weight_of_prefix(s: Seq<Vote>, vote: Vote, weights: Seq<F32>, n: nat)
    requires
        n <= s.len(),
    ensures
        weight_sum(s.push(vote), weights, n) == weight_sum(s, weights, n),
    decreases n,
{
    if n > 0 {
        lemma_weight_of_prefix(s, vote, weights, (n - 1) as nat);
        let all = s.push(vote);
        assert(forall|i: int| 0 <= i < n ==> all[i] == s[i]);
        assert(is_first_vote(all, n - 1) == is_first_vote(s, n - 1)) by {
            if is_first_vote(all, n - 1) {
                assert forall|i: int| 0 <= i < n - 1 implies (#[trigger] s[i]).method != s[n
                    - 1].method by {
                    assert(all[i].method != all[n - 1].method);
                }
            }
            if is_first_vote(s, n - 1) {
                assert forall|i: int| 0 <= i < n - 1 implies (#[trigger] all[i]).method != all[n
                    - 1].method by {
                    assert(s[i].method != s[n - 1].method);
                }
            }
        }
    }
}

/// A confidence is from zero to one.
pub proof fn lemma_vote_confidence_in_unit(weight: F32, total: F32)
    requires
        !(weight / total).is_nan(),
    ensures
        in_unit(vote_confidence(weight, total)),
{
    lemma_clamp_unit(weight / total);
    lemma_zero_and_one();
}

fn push_votes(v: &mut Vec<Vote>, onsets: &[usize], method: usize)
    ensures
        final(v)@ == old(v)@ + votes_of(onsets@, method),
{
    let ghost before: Seq<Vote> = v@;
    let mut i: usize = 0;
    while i < onsets.len()
        invariant
            i <= onsets.len(),
            v@ == before + votes_of(onsets@, method).take(i as int),
        decreases onsets.len() - i,
    {
        v.push(Vote { sample: onsets[i], method });
        assert(v@ =~= before + votes_of(onsets@, method).take(i + 1));
        i = i + 1;
    }
    assert(v@ =~= before + votes_of(onsets@, method));
}

fn sort_votes(v: &[Vote]) -> (r: Vec<Vote>)
    ensures
        r@ == in_order(v@, v@.len()),
{
    let mut r: Vec<Vote> = Vec::new();
    let mut n: usize = 0;
    while n < v.len()
        invariant
            n <= v.len(),
            r@ == in_order(v@, n as nat),
        decreases v.len() - n,
    {
        let x = v[n];
        proof {
            lemma_votes_are_ordered(v@, n as nat);
        }
        let mut p: usize = r.len();
        while p > 0 && r[p - 1].sample > x.sample
            invariant
                p <= r@.len(),
                spot(r@, x.sample, r@.len() as int) == spot(r@, x.sample, p as int),
            decreases p,
        {
            p = p - 1;
        }
        r.insert(p, x);
        n = n + 1;
    }
    r
}

proof fn lemma_sample_sum(s: Seq<Vote>, n: nat)
    requires
        n <= s.len(),
    ensures
        0 <= sample_sum(s, n) <= n * usize::MAX,
    decreases n,
{
    if n > 0 {
        lemma_sample_sum(s, (n - 1) as nat);
        assert((n - 1) * usize::MAX + usize::MAX == n * usize::MAX) by (nonlinear_arith);
    }
}

/// The candidate of one cluster.
fn make_candidate(s: &[Vote], weights: &[F32], sample_rate: u32) -> (r: OnsetCandidate)
    requires
        s@.len() > 0,
        weights@.len() == 4,
        forall|i: int| 0 <= i < s@.len() ==> (#[trigger] s@[i]).method < 4,
    ensures
        r == candidate_of(s@, weights@, sample_rate),
{
    let mut total: u128 = 0;
    let mut weight = zero();
    let mut m0: bool = false;
    let mut m1: bool = false;
    let mut m2: bool = false;
    let mut m3: bool = false;
    let len: usize = s.len();
    let mut n: usize = 0;
    while n < len
        invariant
            n <= len,
            len == s@.len(),
            weights@.len() == 4,
            forall|i: int| 0 <= i < s@.len() ==> (#[trigger] s@[i]).method < 4,
            total == sample_sum(s@, n as nat),
            weight == weight_sum(s@, weights@, n as nat),
            m0 == (exists|i: int| 0 <= i < n && (#[trigger] s@[i]).method == 0),
            m1 == (exists|i: int| 0 <= i < n && (#[trigger] s@[i]).method == 1),
            m2 == (exists|i: int| 0 <= i < n && (#[trigger] s@[i]).method == 2),
            m3 == (exists|i: int| 0 <= i < n && (#[trigger] s@[i]).method == 3),
        decreases len - n,
    {
        let x = s[n];
        proof {
            lemma_sample_sum(s@, n as nat);
            lemma_sample_sum(s@, (n + 1) as nat);
            assert((n + 1) * usize::MAX <= u128::MAX) by (nonlinear_arith)
                requires
                    0 <= n < usize::MAX <= 0xffff_ffff_ffff_ffff,
            ;
        }
        total = total + x.sample as u128;
        let voted: bool = if x.method == 0 {
            m0
        } else if x.method == 1 {
            m1
        } else if x.method == 2 {
            m2
        } else {
            m3
        };
        assert(voted == !is_first_vote(s@, n as int));
        if !voted {
            weight = weight + weights[x.method];
        }
        if x.method == 0 {
            m0 = true;
        } else if x.method == 1 {
            m1 = true;
        } else if x.method == 2 {
            m2 = true;
        } else {
            m3 = true;
        }
        n = n + 1;
    }
    proof {
        lemma_sample_sum(s@, len as nat);
        assert(total as int / len as int <= usize::MAX) by (nonlinear_arith)
            requires
                0 <= total <= len * usize::MAX,
                len > 0,
        ;
    }
    let center: usize = (total / len as u128) as usize;
    let b0: u32 = if m0 {
        1
    } else {
        0
    };
    let b1: u32 = if m1 {
        1
    } else {
        0
    };
    let b2: u32 = if m2 {
        1
    } else {
        0
    };
    let b3: u32 = if m3 {
        1
    } else {
        0
    };
    OnsetCandidate {
        time_samples: center,
        time_seconds: F32::from_usize(center) / F32::from_u32(sample_rate),
        confidence: vote_confidence(weight, sum(weights)),
        voted_by: b0 + b1 + b2 + b3,
    }
}

proof fn lemma_order_keeps_methods(v: Seq<Vote>, n: nat)
    requires
        n <= v.len(),
        forall|i: int| 0 <= i < v.len() ==> (#[trigger] v[i]).method < 4,
    ensures
        forall|i: int| 0 <= i < n ==> (#[trigger] in_order(v, n)[i]).method < 4,
    decreases n,
{
    lemma_votes_are_ordered(v, n);
    if n > 0 {
        lemma_order_keeps_methods(v, (n - 1) as nat);
        lemma_votes_are_ordered(v, (n - 1) as nat);
        let before = in_order(v, (n - 1) as nat);
        lemma_spot(before, v[n - 1].sample, before.len() as int);
        let p = spot(before, v[n - 1].sample, before.len() as int);
        assert forall|i: int| 0 <= i < n implies (#[trigger] in_order(v, n)[i]).method < 4 by {
            if i < p {
                assert(in_order(v, n)[i] == before[i]);
            } else if i > p {
                assert(in_order(v, n)[i] == before[i - 1]);
            }
        }
    }
}

/// Makes the candidates of all clusters of votes in order.
fn make_candidates(s: &[Vote], tolerance: usize, weights: &[F32], sample_rate: u32) -> (r: Vec<
    OnsetCandidate,
>)
    requires
        weights@.len() == 4,
        is_ordered(s@),
        forall|i: int| 0 <= i < s@.len() ==> (#[trigger] s@[i]).method < 4,
    ensures
        r@ == candidates_of(s@, tolerance as int, weights@, sample_rate, s@.len()),
{
    let mut r: Vec<OnsetCandidate> = Vec::new();
    let len: usize = s.len();
    let mut start: usize = 0;
    let mut n: usize = 0;
    while n < len
        invariant
            n <= len,
            start <= n,
            len == s@.len(),
            weights@.len() == 4,
            is_ordered(s@),
            forall|i: int| 0 <= i < s@.len() ==> (#[trigger] s@[i]).method < 4,
            n < len ==> start == cluster_start(s@, tolerance as int, n as int),
            r@ == candidates_of(s@, tolerance as int, weights@, sample_rate, n as nat),
        decreases len - n,
    {
        assert(n + 1 < len ==> s@[n as int].sample <= s@[n + 1].sample);
        let ends: bool = n == len - 1 || s[n + 1].sample - s[n].sample > tolerance;
        if ends {
            let cluster = vstd::slice::slice_subrange(s, start, n + 1);
            r.push(make_candidate(cluster, weights, sample_rate));
            start = n + 1;
        }
        n = n + 1;
    }
    r
}

/// The surest onset stands first: none is surer than one before it.
pub proof fn lemma_surest_onset_first(
    c: OnsetConsensus,
    weights: Seq<F32>,
    tolerance_ms: u32,
    sample_rate: u32,
    i: int,
    j: int,
)
    requires
        consensus_of(c, weights, tolerance_ms, sample_rate).len() <= usize::MAX,
        0 <= i < j < consensus_of(c, weights, tolerance_ms, sample_rate).len(),
        forall|k: int|
            0 <= k < consensus_of(c, weights, tolerance_ms, sample_rate).len() ==> !(
            #[trigger] consensus_of(c, weights, tolerance_ms, sample_rate)[k]).confidence.is_nan(),
        all_votes(c).len() <= usize::MAX,
    ensures
        !(consensus_of(c, weights, tolerance_ms, sample_rate)[i].confidence < consensus_of(
            c,
            weights,
            tolerance_ms,
            sample_rate,
        )[j].confidence),
{
    let votes = in_order(all_votes(c), all_votes(c).len());
    let list = candidates_of(
        votes,
        tolerance_samples(tolerance_ms, sample_rate) as int,
        weights,
        sample_rate,
        votes.len(),
    );
    let keys = vote_confidences(list);
    let r = consensus_of(c, weights, tolerance_ms, sample_rate);
    lemma_candidates_fit(
        votes,
        tolerance_samples(tolerance_ms, sample_rate) as int,
        weights,
        sample_rate,
        votes.len(),
    );
    lemma_votes_are_ordered(all_votes(c), all_votes(c).len());
    crate::sorting::lemma_sorted_order_lists_indices(keys, true, list.len());
    assert forall|k: int| 0 <= k < keys.len() implies !(#[trigger] keys[k]).is_nan() by {
        let m = crate::sorting::lemma_sorted_order_finds(keys, true, list.len(), k as usize);
        assert(r[m] == list[k]);
    }
    let _ = crate::sorting::lemma_arranged_in_order(list, keys, true, i, j);
}

proof fn lemma_candidates_fit(
    s: Seq<Vote>,
    tolerance: int,
    weights: Seq<F32>,
    sample_rate: u32,
    n: nat,
)
    ensures
        candidates_of(s, tolerance, weights, sample_rate, n).len() <= n,
    decreases n,
{
    if n > 0 {
        lemma_candidates_fit(s, tolerance, weights, sample_rate, (n - 1) as nat);
    }
}

/// What is wrong with the arguments of a vote.
pub open spec fn vote_error(weights: Seq<F32>, tolerance_ms: u32, sample_rate: u32) -> Option<Seq<char>> {
    if sample_rate == 0 {
        Some("Sample rate must be > 0"@)
    } else if tolerance_ms == 0 {
        Some("Tolerance must be > 0"@)
    } else if weights[0] < zero() || weights[1] < zero() || weights[2] < zero() || weights[3]
        < zero() {
        Some("Weights must be non-negative"@)
    } else {
        None
    }
}

/// Clusters the onsets of four methods and lets the methods vote on them. The
/// candidates come with the most confident first.
pub fn vote_onsets(
    consensus: OnsetConsensus,
    weights: [F32; 4],
    tolerance_ms: u32,
    sample_rate: u32,
) -> (r: Result<Vec<OnsetCandidate>, AnalysisError>)
    requires
        all_votes(consensus).len() <= usize::MAX,
    ensures
        gives(
            r,
            match vote_error(weights@, tolerance_ms, sample_rate) {
                Some(msg) => Outcome::Invalid(msg),
                None => Outcome::Value(
                    consensus_of(consensus, weights@, tolerance_ms, sample_rate),
                ),
            },
        ),
{
    if sample_rate == 0 {
        return Err(invalid_input("Sample rate must be > 0"));
    }
    if tolerance_ms == 0 {
        return Err(invalid_input("Tolerance must be > 0"));
    }
    if weights[0] < zero() || weights[1] < zero() || weights[2] < zero() || weights[3] < zero() {
        return Err(invalid_input("Weights must be non-negative"));
    }
    let mut votes: Vec<Vote> = Vec::new();
    push_votes(&mut votes, consensus.energy_flux.as_slice(), 0);
    push_votes(&mut votes, consensus.spectral_flux.as_slice(), 1);
    push_votes(&mut votes, consensus.hfc.as_slice(), 2);
    push_votes(&mut votes, consensus.hpss.as_slice(), 3);
    assert(votes@ =~= all_votes(consensus));
    let sorted: Vec<Vote> = sort_votes(votes.as_slice());
    proof {
        lemma_votes_are_ordered(votes@, votes@.len());
        lemma_order_keeps_methods(votes@, votes@.len());
    }
    let list: Vec<OnsetCandidate> = make_candidates(
        sorted.as_slice(),
        tolerance_samples(tolerance_ms, sample_rate),
        weights.as_slice(),
        sample_rate,
    );
    let mut keys: Vec<F32> = Vec::new();
    let mut i: usize = 0;
    while i < list.len()
        invariant
            i <= list.len(),
            keys@.len() == i,
            forall|k: int| 0 <= k < i ==> keys@[k] == list@[k].confidence,
        decreases list.len() - i,
    {
        keys.push(list[i].confidence);
        i = i + 1;
    }
    assert(keys@ =~= vote_confidences(list@));
    let order: Vec<usize> = sort_order(keys.as_slice(), true);
    Ok(arrange(list.as_slice(), order.as_slice()))
}

proof fn lemma_sum_between(s: Seq<Vote>, low: int, high: int, n: nat)
    requires
        n <= s.len(),
        forall|i: int| 0 <= i < s.len() ==> low <= (#[trigger] s[i]).sample <= high,
    ensures
        n * low <= sample_sum(s, n) <= n * high,
    decreases n,
{
    if n > 0 {
        lemma_sum_between(s, low, high, (n - 1) as nat);
        assert((n - 1) * low + low == n * low && (n - 1) * high + high == n * high)
            by (nonlinear_arith);
    } else {
        assert(0 * low == 0 && 0 * high == 0) by (nonlinear_arith);
    }
}

/// The candidate of a cluster lies between the first onset of the cluster and the
/// last, one to four methods voted for it, and its confidence is not outside the
/// range from zero to one.
pub proof fn lemma_candidate_is_within_its_cluster(
    s: Seq<Vote>,
    weights: Seq<F32>,
    sample_rate: u32,
)
    requires
        s.len() > 0,
        is_ordered(s),
        forall|i: int| 0 <= i < s.len() ==> (#[trigger] s[i]).method < 4,
    ensures
        s[0].sample <= candidate_of(s, weights, sample_rate).time_samples <= s.last().sample,
        1 <= candidate_of(s, weights, sample_rate).voted_by <= 4,
        never_outside(candidate_of(s, weights, sample_rate).confidence),
{
    let low = s[0].sample as int;
    let high = s.last().sample as int;
    let n = s.len() as int;
    let total = sample_sum(s, s.len());
    lemma_sum_between(s, low, high, s.len());
    assert(low <= total / n <= high) by (nonlinear_arith)
        requires
            n > 0,
            n * low <= total <= n * high,
    ;
    assert(has_voted(s, s[0].method));
    lemma_zero_and_one();
    lemma_clamp_never_outside(weight_sum(s, weights, s.len()) / sum_of(weights));
}

} // verus!
