//! Merging of the tempo candidates of two methods.
//!
//! Candidates of the autocorrelation that are an octave off a confident
//! candidate of the comb filter are moved to it; close candidates are grouped;
//! groups that both methods speak for gain confidence; the most confident come first.
use super::types::BpmCandidate;
use super::types::BpmEstimate;
use crate::error::AnalysisError;
use crate::float::one;
use crate::float::ratio;
use crate::float::F32;
use crate::float_laws::lemma_zero_and_one;
use vstd::prelude::*;

verus! {

/// A common tempo: from 60 to 180 BPM.
#[verifier::allow_in_spec]
pub fn in_common_range(bpm: F32) -> bool
    returns
        bpm >= ratio(60, 1) && bpm <= ratio(180, 1),
{
    bpm >= ratio(60, 1) && bpm <= ratio(180, 1)
}

/// `a` is about twice `b`: the ratio is within `tolerance` (a ratio) of two.
#[verifier::allow_in_spec]
pub fn is_double(a: F32, b: F32, tolerance: F32) -> bool
    returns
        (a / b / ratio(2, 1) - one()).abs() < tolerance - one(),
{
    (a / b / ratio(2, 1) - one()).abs() < tolerance - one()
}

pub open spec fn is_double_error(bpm: F32, target: F32, tolerance: F32) -> bool {
    is_double(bpm, target, tolerance) && (in_common_range(target) || (bpm > ratio(200, 1) || bpm
        < ratio(30, 1)))
}

pub open spec fn is_half_error(bpm: F32, target: F32, tolerance: F32) -> bool {
    is_double(target, bpm, tolerance) && in_common_range(target)
}

/// `bpm`, or the first of the targets from `i` on (three at most) that it is an
/// octave above.
pub open spec fn halved(bpm: F32, targets: Seq<BpmCandidate>, tolerance: F32, i: int) -> F32
    decreases 3 - i,
{
    if i >= 3 || i >= targets.len() {
        bpm
    } else if is_double_error(bpm, targets[i].bpm, tolerance) {
        targets[i].bpm
    } else {
        halved(bpm, targets, tolerance, i + 1)
    }
}

/// `bpm`, or the first of the targets from `i` on (three at most) that it is an
/// octave below.
pub open spec fn doubled(bpm: F32, targets: Seq<BpmCandidate>, tolerance: F32, i: int) -> F32
    decreases 3 - i,
{
    if i >= 3 || i >= targets.len() {
        bpm
    } else if is_half_error(bpm, targets[i].bpm, tolerance) {
        targets[i].bpm
    } else {
        doubled(bpm, targets, tolerance, i + 1)
    }
}

/// A candidate as it goes into the groups.
#[derive(Clone, Copy)]
pub struct Mention {
    pub bpm: F32,
    pub confidence: F32,
    /// It was an octave off and has been moved
    pub moved: bool,
}

/// The candidate with its octave error corrected.
pub open spec fn corrected_one(c: BpmCandidate, comb: Seq<BpmCandidate>, tolerance: F32) -> Mention {
    let bpm = doubled(halved(c.bpm, comb, tolerance, 0), comb, tolerance, 0);
    Mention { bpm, confidence: c.confidence, moved: bpm != c.bpm }
}

/// The candidates with octave errors corrected.
pub open spec fn corrected(autocorr: Seq<BpmCandidate>, comb: Seq<BpmCandidate>, tolerance: F32) -> Seq<
    Mention,
> {
    Seq::new(autocorr.len(), |i: int| corrected_one(autocorr[i], comb, tolerance))
}

/// The first `n` candidates, or all where there are fewer, as they are.
pub open spec fn first_mentions(c: Seq<BpmCandidate>, n: int) -> Seq<Mention> {
    Seq::new(
        if n <= c.len() {
            n as nat
        } else {
            c.len()
        },
        |i: int| Mention { bpm: c[i].bpm, confidence: c[i].confidence, moved: false },
    )
}

/// One of the candidates is less than `distance` from `bpm`.
pub open spec fn has_near(c: Seq<Mention>, bpm: F32, distance: F32) -> bool {
    exists|i: int| 0 <= i < c.len() && ((#[trigger] c[i]).bpm - bpm).abs() < distance
}

/// `kept`, and those of the first `n` candidates that have a common tempo which
/// is not there yet.
pub open spec fn with_common(kept: Seq<Mention>, c: Seq<Mention>, n: nat) -> Seq<Mention>
    decreases n,
{
    if n == 0 {
        kept
    } else {
        let k = with_common(kept, c, (n - 1) as nat);
        if in_common_range(c[n - 1].bpm) && !has_near(k, c[n - 1].bpm, one()) {
            k.push(c[n - 1])
        } else {
            k
        }
    }
}

/// The first ten candidates, and the others with a common tempo of their own.
pub open spec fn kept_mentions(c: Seq<Mention>) -> Seq<Mention> {
    with_common(
        if c.len() > 10 {
            c.take(10)
        } else {
            c
        },
        c,
        c.len(),
    )
}

/// Candidates that are taken together.
#[derive(Clone, Copy)]
pub struct Group {
    /// Their mean tempo
    pub bpm: F32,
    /// Their confidences added up
    pub total: F32,
    /// How many they are
    pub size: u32,
    /// How many are of the autocorrelation and were not moved
    pub autocorr: u32,
    /// One was moved
    pub moved: bool,
    /// How many are of the comb filter
    pub comb: u32,
}

/// One more, as far as that can be counted.
#[verifier::allow_in_spec]
pub fn one_more(n: u32) -> u32
    returns
        (if n < u32::MAX {
            (n + 1) as u32
        } else {
            n
        }),
{
    if n < u32::MAX {
        n + 1
    } else {
        n
    }
}

/// A candidate on its own.
#[verifier::allow_in_spec]
pub fn alone(c: Mention, of_comb: bool) -> Group
    returns
        (Group {
            bpm: c.bpm,
            total: c.confidence,
            size: 1,
            autocorr: if of_comb || c.moved {
                0
            } else {
                1
            },
            moved: c.moved,
            comb: if of_comb {
                1
            } else {
                0
            },
        }),
{
    Group {
        bpm: c.bpm,
        total: c.confidence,
        size: 1,
        autocorr: if of_comb || c.moved {
            0
        } else {
            1
        },
        moved: c.moved,
        comb: if of_comb {
            1
        } else {
            0
        },
    }
}

/// The group with a candidate added.
#[verifier::allow_in_spec]
pub fn joined(g: Group, c: Mention, of_comb: bool) -> Group
    returns
        (Group {
            bpm: (g.bpm * F32::from_u32(g.size) + c.bpm) / F32::from_u32(one_more(g.size)),
            total: g.total + c.confidence,
            size: one_more(g.size),
            autocorr: if of_comb || c.moved {
                g.autocorr
            } else {
                one_more(g.autocorr)
            },
            moved: g.moved || c.moved,
            comb: if of_comb {
                one_more(g.comb)
            } else {
                g.comb
            },
        }),
{
    Group {
        bpm: (g.bpm * F32::from_u32(g.size) + c.bpm) / F32::from_u32(one_more(g.size)),
        total: g.total + c.confidence,
        size: one_more(g.size),
        autocorr: if of_comb || c.moved {
            g.autocorr
        } else {
            one_more(g.autocorr)
        },
        moved: g.moved || c.moved,
        comb: if of_comb {
            one_more(g.comb)
        } else {
            g.comb
        },
    }
}

/// The first group from `i` on within 2 BPM of `bpm`.
pub open spec fn group_for(groups: Seq<Group>, bpm: F32, i: int) -> int
    decreases groups.len() - i,
{
    if i < 0 || i >= groups.len() || (bpm - groups[i].bpm).abs() <= ratio(2, 1) {
        i
    } else {
        group_for(groups, bpm, i + 1)
    }
}

/// The groups with a candidate added: to the first that is close, or as a new one.
pub open spec fn grouped_with(groups: Seq<Group>, c: Mention, of_comb: bool) -> Seq<Group> {
    let i = group_for(groups, c.bpm, 0);
    if i < groups.len() {
        groups.update(i, joined(groups[i], c, of_comb))
    } else {
        groups.push(alone(c, of_comb))
    }
}

/// The groups with the first `n` candidates added.
pub open spec fn grouped(groups: Seq<Group>, c: Seq<Mention>, of_comb: bool, n: nat) -> Seq<Group>
    decreases n,
{
    if n == 0 {
        groups
    } else {
        grouped_with(grouped(groups, c, of_comb, (n - 1) as nat), c[n - 1], of_comb)
    }
}

/// How many of the autocorrelation speak for a group. Those that were moved say no
/// more than one at the tempo itself: together they count once, where there is none.
#[verifier::allow_in_spec]
pub fn autocorr_agreement(g: Group) -> u32
    returns
        (if g.autocorr == 0 && g.moved {
            1
        } else {
            g.autocorr
        }),
{
    if g.autocorr == 0 && g.moved {
        1
    } else {
        g.autocorr
    }
}

/// How many speak for a group, as far as that can be counted.
#[verifier::allow_in_spec]
pub fn agreement(g: Group) -> u32
    returns
        (if autocorr_agreement(g) + g.comb <= u32::MAX {
            (autocorr_agreement(g) + g.comb) as u32
        } else {
            u32::MAX
        }),
{
    if autocorr_agreement(g) <= u32::MAX - g.comb {
        autocorr_agreement(g) + g.comb
    } else {
        u32::MAX
    }
}

/// The confidence that a group gives: that of its candidates, a fifth more where
/// both methods agree, and one at most.
#[verifier::allow_in_spec]
pub fn boosted(total: F32, both: bool) -> F32
    returns
        (if both {
            (total * ratio(12, 10)).min(one())
        } else {
            total.min(one())
        }),
{
    if both {
        (total * ratio(12, 10)).min(one())
    } else {
        total.min(one())
    }
}

/// The estimate of a group.
#[verifier::allow_in_spec]
pub fn estimate_of(g: Group) -> BpmEstimate
    returns
        (BpmEstimate {
            bpm: g.bpm,
            confidence: boosted(g.total, autocorr_agreement(g) > 0 && g.comb > 0),
            method_agreement: agreement(g),
        }),
{
    BpmEstimate {
        bpm: g.bpm,
        confidence: boosted(g.total, autocorr_agreement(g) > 0 && g.comb > 0),
        method_agreement: agreement(g),
    }
}

/// `a` ranks before `b`: it has more confidence, or as much and more agree on it.
#[verifier::allow_in_spec]
pub fn ranks_before(a: BpmEstimate, b: BpmEstimate) -> bool
    returns
        b.confidence < a.confidence || (!(a.confidence < b.confidence) && b.method_agreement
            < a.method_agreement),
{
    b.confidence < a.confidence || (!(a.confidence < b.confidence) && b.method_agreement
        < a.method_agreement)
}

/// Where a new estimate goes among the first `p`: behind the last one that it
/// does not rank before.
pub open spec fn rank_place(ranked: Seq<BpmEstimate>, x: BpmEstimate, p: int) -> int
    decreases p,
{
    if p <= 0 {
        0
    } else if ranks_before(x, ranked[p - 1]) {
        rank_place(ranked, x, p - 1)
    } else {
        p
    }
}

/// The first `n` estimates in ranked order.
pub open spec fn in_rank_order(e: Seq<BpmEstimate>, n: nat) -> Seq<BpmEstimate>
    decreases n,
{
    if n == 0 {
        Seq::empty()
    } else {
        let rest = in_rank_order(e, (n - 1) as nat);
        rest.insert(rank_place(rest, e[n - 1], rest.len() as int), e[n - 1])
    }
}

/// The groups that two lists of candidates form.
pub open spec fn groups_of(autocorr: Seq<BpmCandidate>, comb: Seq<BpmCandidate>, tolerance: F32) -> Seq<
    Group,
> {
    let kept = kept_mentions(corrected(autocorr, comb, tolerance));
    let of_comb = first_mentions(comb, 10);
    grouped(grouped(Seq::empty(), kept, false, kept.len()), of_comb, true, of_comb.len())
}

/// The estimates that two lists of candidates lead to.
pub open spec fn merged(autocorr: Seq<BpmCandidate>, comb: Seq<BpmCandidate>, tolerance: F32) -> Seq<
    BpmEstimate,
> {
    let groups = groups_of(autocorr, comb, tolerance);
    in_rank_order(Seq::new(groups.len(), |i: int| estimate_of(groups[i])), groups.len())
}

proof fn lemma_rank_place_in_range(ranked: Seq<BpmEstimate>, x: BpmEstimate, p: int)
    requires
        0 <= p <= ranked.len(),
    ensures
        0 <= rank_place(ranked, x, p) <= p,
    decreases p,
{
    if p > 0 && ranks_before(x, ranked[p - 1]) {
        lemma_rank_place_in_range(ranked, x, p - 1);
    }
}

/// Ranking moves estimates about; it adds none and loses none.
pub proof fn lemma_ranking_is_permutation(e: Seq<BpmEstimate>, n: nat)
    requires
        n <= e.len(),
    ensures
        in_rank_order(e, n).to_multiset() == e.take(n as int).to_multiset(),
        in_rank_order(e, n).len() == n,
    decreases n,
{
    if n == 0 {
        assert(e.take(0) =~= Seq::<BpmEstimate>::empty());
    } else {
        let rest = in_rank_order(e, (n - 1) as nat);
        let x = e[n - 1];
        lemma_ranking_is_permutation(e, (n - 1) as nat);
        lemma_rank_place_in_range(rest, x, rest.len() as int);
        let p = rank_place(rest, x, rest.len() as int);
        let t = rest.insert(p, x);
        assert(t.remove(p) =~= rest);
        vstd::seq_lib::to_multiset_remove(t, p);
        t.to_multiset_ensures();
        assert(t[p] == x);
        assert(t.contains(x));
        assert(t.to_multiset() =~= rest.to_multiset().insert(x));
        vstd::seq_lib::to_multiset_build(e.take(n - 1), x);
        assert(e.take(n as int) =~= e.take(n - 1).push(x));
    }
}

fn correct_octaves(autocorr: &[BpmCandidate], comb: &[BpmCandidate], tolerance: F32) -> (r: Vec<
    Mention,
>)
    ensures
        r@ == corrected(autocorr@, comb@, tolerance),
{
    let mut r: Vec<Mention> = Vec::new();
    let mut i: usize = 0;
    while i < autocorr.len()
        invariant
            i <= autocorr.len(),
            r@.len() == i,
            forall|k: int| 0 <= k < i ==> r@[k] == corrected(autocorr@, comb@, tolerance)[k],
        decreases autocorr.len() - i,
    {
        let low = halve(autocorr[i].bpm, comb, tolerance);
        let bpm = double(low, comb, tolerance);
        r.push(
            Mention {
                bpm,
                confidence: autocorr[i].confidence,
                moved: bpm.bits != autocorr[i].bpm.bits,
            },
        );
        i = i + 1;
    }
    assert(r@ =~= corrected(autocorr@, comb@, tolerance));
    r
}

fn halve(bpm: F32, targets: &[BpmCandidate], tolerance: F32) -> (r: F32)
    ensures
        r == halved(bpm, targets@, tolerance, 0),
{
    let mut i: usize = 0;
    while i < 3 && i < targets.len()
        invariant
            i <= 3,
            i <= targets.len(),
            halved(bpm, targets@, tolerance, 0) == halved(bpm, targets@, tolerance, i as int),
        decreases 3 - i,
    {
        let target = targets[i].bpm;
        if is_double(bpm, target, tolerance) && (in_common_range(target) || (bpm > ratio(200, 1) || bpm
            < ratio(30, 1))) {
            return target;
        }
        i = i + 1;
    }
    bpm
}

fn double(bpm: F32, targets: &[BpmCandidate], tolerance: F32) -> (r: F32)
    ensures
        r == doubled(bpm, targets@, tolerance, 0),
{
    let mut i: usize = 0;
    while i < 3 && i < targets.len()
        invariant
            i <= 3,
            i <= targets.len(),
            doubled(bpm, targets@, tolerance, 0) == doubled(bpm, targets@, tolerance, i as int),
        decreases 3 - i,
    {
        let target = targets[i].bpm;
        if is_double(target, bpm, tolerance) && in_common_range(target) {
            return target;
        }
        i = i + 1;
    }
    bpm
}

fn mention_first(c: &[BpmCandidate], n: usize) -> (r: Vec<Mention>)
    ensures
        r@ == first_mentions(c@, n as int),
{
    let mut r: Vec<Mention> = Vec::new();
    let mut i: usize = 0;
    while i < n && i < c.len()
        invariant
            i <= n,
            i <= c.len(),
            r@.len() == i,
            forall|k: int| 0 <= k < i ==> r@[k] == first_mentions(c@, n as int)[k],
        decreases c.len() - i,
    {
        r.push(Mention { bpm: c[i].bpm, confidence: c[i].confidence, moved: false });
        i = i + 1;
    }
    assert(r@ =~= first_mentions(c@, n as int));
    r
}

fn find_near(c: &[Mention], bpm: F32, distance: F32) -> (r: bool)
    ensures
        r == has_near(c@, bpm, distance),
{
    let mut i: usize = 0;
    while i < c.len()
        invariant
            i <= c.len(),
            forall|k: int| 0 <= k < i ==> !(((#[trigger] c@[k]).bpm - bpm).abs() < distance),
        decreases c.len() - i,
    {
        if (c[i].bpm - bpm).abs() < distance {
            return true;
        }
        i = i + 1;
    }
    false
}

fn keep_mentions(c: &[Mention]) -> (r: Vec<Mention>)
    ensures
        r@ == kept_mentions(c@),
{
    let mut kept: Vec<Mention> = Vec::new();
    let mut i: usize = 0;
    while i < 10 && i < c.len()
        invariant
            i <= 10,
            i <= c.len(),
            kept@ == c@.take(i as int),
        decreases c.len() - i,
    {
        kept.push(c[i]);
        assert(c@.take(i + 1) =~= c@.take(i as int).push(c@[i as int]));
        i = i + 1;
    }
    let ghost start: Seq<Mention> = kept@;
    assert(c@.len() <= 10 ==> start =~= c@);
    let mut n: usize = 0;
    while n < c.len()
        invariant
            n <= c.len(),
            kept@ == with_common(start, c@, n as nat),
        decreases c.len() - n,
    {
        if in_common_range(c[n].bpm) && !find_near(kept.as_slice(), c[n].bpm, one()) {
            kept.push(c[n]);
        }
        n = n + 1;
    }
    kept
}

fn group_mentions(groups: &mut Vec<Group>, c: &[Mention], of_comb: bool)
    ensures
        final(groups)@ == grouped(old(groups)@, c@, of_comb, c@.len()),
{
    let ghost start: Seq<Group> = groups@;
    let mut n: usize = 0;
    while n < c.len()
        invariant
            n <= c.len(),
            groups@ == grouped(start, c@, of_comb, n as nat),
        decreases c.len() - n,
    {
        let x = c[n];
        let mut i: usize = 0;
        while i < groups.len() && !((x.bpm - groups[i].bpm).abs() <= ratio(2, 1))
            invariant
                i <= groups.len(),
                group_for(groups@, x.bpm, 0) == group_for(groups@, x.bpm, i as int),
            ensures
                i <= groups.len(),
                group_for(groups@, x.bpm, 0) == i,
            decreases groups.len() - i,
        {
            i = i + 1;
        }
        if i < groups.len() {
            let g = groups[i];
            groups.set(i, joined(g, x, of_comb));
        } else {
            groups.push(alone(x, of_comb));
        }
        n = n + 1;
    }
}

fn rank_estimates(e: &[BpmEstimate]) -> (r: Vec<BpmEstimate>)
    ensures
        r@ == in_rank_order(e@, e@.len()),
{
    let mut r: Vec<BpmEstimate> = Vec::new();
    let mut n: usize = 0;
    while n < e.len()
        invariant
            n <= e.len(),
            r@.len() == n,
            r@ == in_rank_order(e@, n as nat),
        decreases e.len() - n,
    {
        let x = e[n];
        let mut p: usize = r.len();
        while p > 0 && ranks_before(x, r[p - 1])
            invariant
                p <= r.len(),
                rank_place(r@, x, r@.len() as int) == rank_place(r@, x, p as int),
            ensures
                p <= r.len(),
                rank_place(r@, x, r@.len() as int) == p,
            decreases p,
        {
            p = p - 1;
        }
        r.insert(p, x);
        n = n + 1;
    }
    r
}

/// The exponent of the power of two that an interval in cents is.
#[verifier::allow_in_spec]
pub fn cents_exponent(cents: F32) -> F32
    returns
        cents / ratio(1200, 1),
{
    cents / ratio(1200, 1)
}

/// Merges the tempo candidates of the autocorrelation and of the comb filter,
/// each in the order of their confidence, into ranked estimates.
///
/// `octave_tolerance_ratio` is the interval by which two tempos may be off an
/// octave: 50 cents are the ratio `2^(50/1200)`.
pub fn merge_bpm_candidates(
    autocorr: Vec<BpmCandidate>,
    comb: Vec<BpmCandidate>,
    octave_tolerance_ratio: F32,
) -> (r: Result<Vec<BpmEstimate>, AnalysisError>)
    ensures
        r is Ok,
        r->Ok_0@ == merged(autocorr@, comb@, octave_tolerance_ratio),
{
    let fixed: Vec<Mention> = correct_octaves(
        autocorr.as_slice(),
        comb.as_slice(),
        octave_tolerance_ratio,
    );
    let kept: Vec<Mention> = keep_mentions(fixed.as_slice());
    let of_comb: Vec<Mention> = mention_first(comb.as_slice(), 10);
    let mut groups: Vec<Group> = Vec::new();
    assert(groups@ =~= Seq::empty());
    group_mentions(&mut groups, kept.as_slice(), false);
    group_mentions(&mut groups, of_comb.as_slice(), true);
    let mut estimates: Vec<BpmEstimate> = Vec::new();
    let mut i: usize = 0;
    while i < groups.len()
        invariant
            i <= groups.len(),
            estimates@.len() == i,
            forall|k: int| 0 <= k < i ==> estimates@[k] == estimate_of(groups@[k]),
        decreases groups.len() - i,
    {
        estimates.push(estimate_of(groups[i]));
        i = i + 1;
    }
    assert(estimates@ =~= Seq::new(groups@.len(), |k: int| estimate_of(groups@[k])));
    Ok(rank_estimates(estimates.as_slice()))
}

proof fn lemma_ranking_is_one_way(a: BpmEstimate, b: BpmEstimate)
    requires
        ranks_before(a, b),
    ensures
        !ranks_before(b, a),
{
}

proof fn lemma_rank_place_neighbours(ranked: Seq<BpmEstimate>, x: BpmEstimate, p: int)
    requires
        0 <= p <= ranked.len(),
    ensures
        ({
            let q = rank_place(ranked, x, p);
            &&& 0 <= q <= p
            &&& q > 0 ==> !ranks_before(x, ranked[q - 1])
            &&& q < p ==> ranks_before(x, ranked[q])
        }),
    decreases p,
{
    if p > 0 && ranks_before(x, ranked[p - 1]) {
        lemma_rank_place_neighbours(ranked, x, p - 1);
    }
}

/// No estimate ranks before the one just ahead of it.
pub proof fn lemma_ranking_is_in_order(e: Seq<BpmEstimate>, n: nat)
    requires
        n <= e.len(),
    ensures
        in_rank_order(e, n).len() == n,
        forall|i: int|
            0 < i < n ==> !ranks_before(
                #[trigger] in_rank_order(e, n)[i],
                in_rank_order(e, n)[i - 1],
            ),
    decreases n,
{
    if n > 0 {
        let rest = in_rank_order(e, (n - 1) as nat);
        let x = e[n - 1];
        lemma_ranking_is_in_order(e, (n - 1) as nat);
        lemma_rank_place_neighbours(rest, x, rest.len() as int);
        let p = rank_place(rest, x, rest.len() as int);
        let all = in_rank_order(e, n);
        assert(all == rest.insert(p, x));
        assert forall|i: int| 0 < i < n implies !ranks_before(#[trigger] all[i], all[i - 1]) by {
            lemma_insertion_keeps_order(rest, x, p, i);
        }
    }
}

/// An estimate put where it ranks leaves neighbours in order.
proof fn lemma_insertion_keeps_order(rest: Seq<BpmEstimate>, x: BpmEstimate, p: int, i: int)
    requires
        0 <= p <= rest.len(),
        0 < i <= rest.len(),
        p > 0 ==> !ranks_before(x, rest[p - 1]),
        p < rest.len() ==> ranks_before(x, rest[p]),
        forall|k: int| 0 < k < rest.len() ==> !ranks_before(#[trigger] rest[k], rest[k - 1]),
    ensures
        !ranks_before(rest.insert(p, x)[i], rest.insert(p, x)[i - 1]),
{
    let all = rest.insert(p, x);
    if i < p {
        assert(all[i] == rest[i] && all[i - 1] == rest[i - 1]);
    } else if i == p {
        assert(all[i] == x && all[i - 1] == rest[p - 1]);
    } else if i == p + 1 {
        assert(all[i] == rest[p] && all[i - 1] == x);
        lemma_ranking_is_one_way(x, rest[p]);
    } else {
        assert(all[i] == rest[i - 1] && all[i - 1] == rest[i - 2]);
    }
}

/// What is ranked is one of the estimates.
proof fn lemma_ranked_is_one_of(e: Seq<BpmEstimate>, k: int)
    requires
        0 <= k < e.len(),
    ensures
        in_rank_order(e, e.len()).len() == e.len(),
        e.contains(in_rank_order(e, e.len())[k]),
{
    let all = in_rank_order(e, e.len());
    lemma_ranking_is_permutation(e, e.len());
    assert(e.take(e.len() as int) =~= e);
    all.to_multiset_ensures();
    e.to_multiset_ensures();
    assert(all.contains(all[k]));
    assert(e.to_multiset().count(all[k]) > 0);
}

/// Estimates that do not outrank the one just ahead of them fall in confidence.
proof fn lemma_falls(all: Seq<BpmEstimate>, i: int, j: int)
    requires
        0 <= i <= j < all.len(),
        forall|k: int| 0 <= k < all.len() ==> !(#[trigger] all[k]).confidence.is_nan(),
        forall|k: int| 0 < k < all.len() ==> !ranks_before(#[trigger] all[k], all[k - 1]),
    ensures
        all[i].confidence >= all[j].confidence,
    decreases j - i,
{
    if i < j {
        lemma_falls(all, i, j - 1);
        assert(!ranks_before(all[j], all[j - 1]));
        assert(!all[j].confidence.is_nan() && !all[j - 1].confidence.is_nan());
    }
}

/// Merged estimates are sorted by confidence, the highest first, and none has a
/// confidence above one.
pub proof fn lemma_merged_highest_first(autocorr: Seq<BpmCandidate>, comb: Seq<BpmCandidate>, tolerance: F32)
    ensures
        forall|i: int, j: int|
            0 <= i < j < merged(autocorr, comb, tolerance).len() ==> #[trigger] merged(
                autocorr,
                comb,
                tolerance,
            )[i].confidence >= #[trigger] merged(autocorr, comb, tolerance)[j].confidence,
        forall|i: int|
            0 <= i < merged(autocorr, comb, tolerance).len() ==> #[trigger] merged(
                autocorr,
                comb,
                tolerance,
            )[i].confidence <= one(),
{
    let groups = groups_of(autocorr, comb, tolerance);
    let e = Seq::new(groups.len(), |i: int| estimate_of(groups[i]));
    let all = merged(autocorr, comb, tolerance);
    lemma_zero_and_one();
    lemma_ranking_is_in_order(e, e.len());
    assert forall|i: int| 0 <= i < all.len() implies (#[trigger] all[i]).confidence <= one() by {
        lemma_ranked_is_one_of(e, i);
    }
    assert forall|i: int, j: int| 0 <= i < j < all.len() implies (#[trigger] all[i]).confidence
        >= (#[trigger] all[j]).confidence by {
        lemma_falls(all, i, j);
    }
}

} // verus!
