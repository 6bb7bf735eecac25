//! What holds of every key that segments have voted for: each segment that is clear
//! enough counts, and their votes add up.
use crate::analysis::result::Key;
use crate::float::F32;
use crate::float::one;
use crate::float::ratio;
use crate::float::zero;
use crate::float_laws::lemma_zero_and_one;
use crate::float_order::lemma_signed_sums_keep_order;
use crate::float_sizes::lemma_running_sum_within;
use crate::float_sizes::lemma_small_within;
use crate::float_sizes::within;
use crate::sorting::lemma_sorted_order_finds;
use crate::sorting::lemma_sorted_order_lists_indices;
use crate::sorting::sorted_order;
use crate::sums::added;
use crate::sums::lemma_added_both;
use crate::sums::lemma_added_push;
use super::detector::chroma_error;
use super::detector::first_score;
use super::detector::key_at;
use super::detector::ranked;
use super::detector::ranks_hold;
use super::key_clarity::clarity_of;
use super::laws::lemma_first_detection;
use super::laws::lemma_optional_detection;
use super::laws::lemma_ranked_is_highest_first;
use super::laws::lists_every_key;
use super::laws::scores_key;
use super::result::scores_of;
use super::segments::ModeOptions;
use super::segments::SegmentSums;
use super::segments::first_detection;
use super::segments::multi_scale_detection;
use super::segments::no_segments;
use super::segments::optional_detection;
use super::segments::scale_sums;
use super::segments::segment_weights;
use super::segments::table_of;
use super::segments::with_segment;
use super::segments::with_segments;
use vstd::prelude::*;

verus! {

/// The score that a ranking gives a key.
pub open spec fn score_in(ranks: Seq<(Key, F32)>, key: Key) -> F32 {
    ranks[choose|i: int| 0 <= i < ranks.len() && (#[trigger] ranks[i]).0 == key].1
}

/// A vote of the segments of one length: `len` frames each, one every `hop` frames.
pub ghost struct Ballot {
    pub chroma: Seq<Vec<F32>>,
    pub templates: Seq<Seq<F32>>,
    pub weights: Option<Seq<F32>>,
    pub options: ModeOptions,
    pub min_clarity: F32,
    pub scale_weight: Option<F32>,
    pub len: int,
    pub hop: int,
}

impl Ballot {
    /// There is a weight for each frame, where there are any.
    pub open spec fn wf(self) -> bool {
        &&& self.len >= 1
        &&& self.hop >= 1
        &&& self.weights is Some ==> self.weights->Some_0.len() == self.chroma.len()
    }

    /// How many segments fit into the frames.
    pub open spec fn count(self) -> nat {
        if self.len <= self.chroma.len() {
            ((self.chroma.len() - self.len) / self.hop + 1) as nat
        } else {
            0
        }
    }

    /// The frames of segment `j`.
    pub open spec fn frames(self, j: int) -> Seq<Vec<F32>> {
        self.chroma.subrange(j * self.hop, j * self.hop + self.len)
    }

    /// The weights of the frames of segment `j`.
    pub open spec fn frame_weights(self, j: int) -> Option<Seq<F32>> {
        match self.weights {
            Some(w) => Some(w.subrange(j * self.hop, j * self.hop + self.len)),
            None => None,
        }
    }

    /// The scores of all keys in segment `j` alone.
    pub open spec fn scores(self, j: int) -> Seq<(Key, F32)> {
        optional_detection(
            self.frames(j),
            self.templates,
            self.frame_weights(j),
            self.options,
        ).all_scores
    }

    /// Segment `j` is clear enough to count.
    pub open spec fn counts(self, j: int) -> bool {
        clarity_of(self.scores(j)) >= self.min_clarity
    }

    /// What segment `j` weighs: how clear it is, as much as its length counts.
    pub open spec fn weight(self, j: int) -> F32 {
        match self.scale_weight {
            Some(w) => clarity_of(self.scores(j)) * w,
            None => clarity_of(self.scores(j)),
        }
    }

    /// What the first `n` segments give a key, one entry for each that counts.
    pub open spec fn votes(self, key: Key, n: nat) -> Seq<F32>
        decreases n,
    {
        if n == 0 {
            Seq::empty()
        } else if self.counts(n - 1) {
            self.votes(key, (n - 1) as nat).push(
                score_in(self.scores(n - 1), key) * self.weight(n - 1),
            )
        } else {
            self.votes(key, (n - 1) as nat)
        }
    }

    /// What the first `n` segments weigh, one entry for each that counts.
    pub open spec fn weighings(self, n: nat) -> Seq<F32>
        decreases n,
    {
        if n == 0 {
            Seq::empty()
        } else if self.counts(n - 1) {
            self.weighings((n - 1) as nat).push(self.weight(n - 1))
        } else {
            self.weighings((n - 1) as nat)
        }
    }

    /// What the segments add to what was there before.
    pub open spec fn tally(self, sums: SegmentSums) -> SegmentSums {
        with_segments(
            sums,
            self.chroma,
            self.templates,
            self.weights,
            self.options,
            self.min_clarity,
            self.scale_weight,
            self.len,
            self.hop,
            0,
        )
    }

    spec fn rest(self, sums: SegmentSums, j: int) -> SegmentSums {
        with_segments(
            sums,
            self.chroma,
            self.templates,
            self.weights,
            self.options,
            self.min_clarity,
            self.scale_weight,
            self.len,
            self.hop,
            j * self.hop,
        )
    }

    /// The sums after the first `n` segments.
    spec fn partial(self, sums: SegmentSums, n: nat) -> SegmentSums
        decreases n,
    {
        if n == 0 {
            sums
        } else {
            with_segment(
                self.partial(sums, (n - 1) as nat),
                optional_detection(
                    self.frames(n - 1),
                    self.templates,
                    self.frame_weights(n - 1),
                    self.options,
                ),
                self.min_clarity,
                self.scale_weight,
            )
        }
    }
}

proof fn lemma_segment_fits(b: Ballot, j: int)
    requires
        b.wf(),
        0 <= j,
    ensures
        j < b.count() <==> j * b.hop + b.len <= b.chroma.len(),
        0 <= j * b.hop,
        (j + 1) * b.hop == j * b.hop + b.hop,
{
    let room = b.chroma.len() - b.len;
    assert((j + 1) * b.hop == j * b.hop + b.hop) by (nonlinear_arith);
    assert(0 <= j * b.hop) by (nonlinear_arith)
        requires
            0 <= j,
            0 < b.hop,
    ;
    if room >= 0 {
        let q = room / b.hop;
        let r = room % b.hop;
        vstd::arithmetic::div_mod::lemma_fundamental_div_mod(room, b.hop);
        vstd::arithmetic::div_mod::lemma_div_pos_is_pos(room, b.hop);
        if j <= q {
            assert(j * b.hop <= b.hop * q) by (nonlinear_arith)
                requires
                    0 <= j <= q,
                    b.hop > 0,
            ;
        } else {
            assert(j * b.hop >= b.hop * q + b.hop) by (nonlinear_arith)
                requires
                    j >= q + 1,
                    b.hop > 0,
            ;
        }
    }
}

proof fn lemma_tally_in_parts(b: Ballot, sums: SegmentSums, n: nat)
    requires
        b.wf(),
        n <= b.count(),
        sums.error is None,
        b.tally(sums).error is None,
    ensures
        b.tally(sums) == b.rest(b.partial(sums, n), n as int),
        b.partial(sums, n).error is None,
    decreases n,
{
    if n > 0 {
        lemma_tally_in_parts(b, sums, (n - 1) as nat);
        lemma_segment_fits(b, n - 1);
        let before = b.partial(sums, (n - 1) as nat);
        let start = (n - 1) * b.hop;
        assert(segment_weights(b.weights, start, b.len) == b.frame_weights(n - 1));
        assert(chroma_error(b.frames(n - 1), b.frame_weights(n - 1)) is None);
        reveal(with_segment);
    } else {
        assert(0 * b.hop == 0) by (nonlinear_arith);
    }
}

proof fn lemma_tally_is_partial(b: Ballot, sums: SegmentSums)
    requires
        b.wf(),
        sums.error is None,
        b.tally(sums).error is None,
    ensures
        b.tally(sums) == b.partial(sums, b.count()),
{
    let n = b.count();
    lemma_tally_in_parts(b, sums, n);
    lemma_segment_fits(b, n as int);
}

/// A ranking of all keys gives each the score that is found first.
pub proof fn lemma_score_in(ranks: Seq<(Key, F32)>, k: usize)
    requires
        lists_every_key(ranks),
        k < 24,
    ensures
        ranks_hold(ranks, key_at(k)),
        first_score(ranks, key_at(k), false, 0, zero()) == score_in(ranks, key_at(k)),
{
    let key = key_at(k);
    assert(scores_key(ranks, k));
    let i = choose|i: int| 0 <= i < ranks.len() && (#[trigger] ranks[i]).0 == key;
    lemma_first_of(ranks, key, 0, i);
}

proof fn lemma_first_of(ranks: Seq<(Key, F32)>, key: Key, from: int, i: int)
    requires
        lists_every_key(ranks),
        0 <= from <= i < ranks.len(),
        ranks[i].0 == key,
    ensures
        first_score(ranks, key, false, from, zero()) == ranks[i].1,
    decreases i - from,
{
    if from < i {
        assert(ranks[from].0 != ranks[i].0);
        lemma_first_of(ranks, key, from + 1, i);
    }
}

proof fn lemma_partial_adds_up(b: Ballot, sums: SegmentSums, n: nat, k: usize)
    requires
        b.wf(),
        sums.scores.len() == 24,
        k < 24,
    ensures
        b.partial(sums, n).scores.len() == 24,
        b.partial(sums, n).scores[k as int] == added(
            sums.scores[k as int],
            b.votes(key_at(k), n),
        ),
        b.partial(sums, n).weight == added(sums.weight, b.weighings(n)),
        b.partial(sums, n).used <==> sums.used || exists|j: int|
            0 <= j < n && #[trigger] b.counts(j),
    decreases n,
{
    if n > 0 {
        lemma_partial_adds_up(b, sums, (n - 1) as nat, k);
        reveal(with_segment);
        lemma_optional_detection(b.frames(n - 1), b.templates, b.frame_weights(n - 1), b.options);
        lemma_score_in(b.scores(n - 1), k);
        lemma_added_push(
            sums.scores[k as int],
            b.votes(key_at(k), (n - 1) as nat),
            score_in(b.scores(n - 1), key_at(k)) * b.weight(n - 1),
        );
        lemma_added_push(sums.weight, b.weighings((n - 1) as nat), b.weight(n - 1));
        if exists|j: int| 0 <= j < n && #[trigger] b.counts(j) {
            let j = choose|j: int| 0 <= j < n && #[trigger] b.counts(j);
            if j < n - 1 {
                assert(b.counts(j));
            }
        }
        if b.counts(n - 1) {
            assert(b.counts((n - 1) as int));
        }
    }
}

/// The score of every key after the vote of segments is the sum, over all segments that
/// are clear enough, of its score in the segment times what the segment weighs; so is
/// the weight, and segments were used where one of them was clear enough.
pub proof fn lemma_votes_add_up(b: Ballot, sums: SegmentSums, k: usize)
    requires
        b.wf(),
        sums.scores.len() == 24,
        sums.error is None,
        k < 24,
    ensures
        b.tally(sums).error is None ==> {
            &&& b.tally(sums).scores.len() == 24
            &&& b.tally(sums).scores[k as int] == added(
                sums.scores[k as int],
                b.votes(key_at(k), b.count()),
            )
            &&& b.tally(sums).weight == added(sums.weight, b.weighings(b.count()))
            &&& b.tally(sums).used <==> sums.used || exists|j: int|
                0 <= j < b.count() && #[trigger] b.counts(j)
        },
{
    if b.tally(sums).error is None {
        lemma_tally_is_partial(b, sums);
        lemma_partial_adds_up(b, sums, b.count(), k);
    }
}

proof fn lemma_best_of_table(scores: Seq<F32>, k: usize) -> (best: usize)
    requires
        scores.len() == 24,
        forall|i: int| 0 <= i < 24 ==> !(#[trigger] scores[i]).is_nan(),
        k < 24,
    ensures
        best < 24,
        first_detection(ranked(table_of(scores))).key == key_at(best),
        scores[k as int] <= scores[best as int],
{
    let table = table_of(scores);
    let keys = scores_of(table);
    let order = sorted_order(keys, true, 24);
    lemma_first_detection(scores);
    assert forall|i: int| 0 <= i < table.len() implies !(#[trigger] table[i]).1.is_nan() by {
        assert(table[i].1 == scores[i]);
    }
    lemma_ranked_is_highest_first(table);
    lemma_sorted_order_lists_indices(keys, true, 24);
    let j = lemma_sorted_order_finds(keys, true, 24, k);
    let r = ranked(table);
    assert(r[j] == table[order[j] as int]);
    assert(r[0] == table[order[0] as int]);
    if j > 0 {
        assert(!(r[0].1 < r[j].1));
    }
    order[0]
}

/// The key that segments of one length vote for has a sum that no other key exceeds, as
/// long as all sums are numbers.
pub proof fn lemma_most_voted_key_is_detected(b: Ballot, k: usize) -> (best: usize)
    requires
        b.wf(),
        k < 24,
        b.tally(no_segments()).error is None,
        forall|i: usize|
            i < 24 ==> !added(zero(), #[trigger] b.votes(key_at(i), b.count())).is_nan(),
    ensures
        best < 24,
        first_detection(ranked(table_of(b.tally(no_segments()).scores))).key == key_at(best),
        added(zero(), b.votes(key_at(k), b.count())) <= added(
            zero(),
            b.votes(key_at(best), b.count()),
        ),
{
    let sums = b.tally(no_segments());
    lemma_votes_add_up(b, no_segments(), 0);
    assert forall|i: int| 0 <= i < 24 implies !(#[trigger] sums.scores[i]).is_nan() by {
        lemma_votes_add_up(b, no_segments(), i as usize);
        assert(!added(zero(), b.votes(key_at(i as usize), b.count())).is_nan());
    }
    let best = lemma_best_of_table(sums.scores, k);
    lemma_votes_add_up(b, no_segments(), k);
    lemma_votes_add_up(b, no_segments(), best);
    best
}

/// A key that no segment which counts puts behind another one is not behind it after
/// the vote.
pub proof fn lemma_key_ahead_everywhere_is_ahead(b: Ballot, behind: Key, ahead: Key, n: nat)
    requires
        forall|j: int|
            0 <= j < n && #[trigger] b.counts(j) ==> {
                let low = score_in(b.scores(j), behind) * b.weight(j);
                let high = score_in(b.scores(j), ahead) * b.weight(j);
                low <= high && within(low, 169) && within(high, 169)
            },
    ensures
        added(zero(), b.votes(behind, n)) <= added(zero(), b.votes(ahead, n)),
        within(added(zero(), b.votes(behind, n)), 194),
        within(added(zero(), b.votes(ahead, n)), 194),
    decreases n,
{
    lemma_zero_and_one();
    lemma_small_within();
    if n > 0 {
        lemma_key_ahead_everywhere_is_ahead(b, behind, ahead, (n - 1) as nat);
        if b.counts(n - 1) {
            assert(b.counts((n - 1) as int));
            let low = score_in(b.scores(n - 1), behind) * b.weight(n - 1);
            let high = score_in(b.scores(n - 1), ahead) * b.weight(n - 1);
            let s = b.votes(behind, (n - 1) as nat);
            let t = b.votes(ahead, (n - 1) as nat);
            lemma_added_push(zero(), s, low);
            lemma_added_push(zero(), t, high);
            lemma_signed_sums_keep_order(added(zero(), s), low, added(zero(), t), high);
            lemma_running_sum_within(added(zero(), s), low, 169);
            lemma_running_sum_within(added(zero(), t), high, 169);
        }
    }
}

/// The vote of the segments of the `i`-th length.
pub open spec fn ballot_of(b: Ballot, lengths: Seq<usize>, scale_weights: Option<Seq<F32>>, i: int) -> Ballot {
    Ballot {
        scale_weight: Some(
            if scale_weights is Some && i < scale_weights->Some_0.len() {
                scale_weights->Some_0[i]
            } else {
                one()
            },
        ),
        len: lengths[i] as int,
        ..b
    }
}

/// A length takes part in the vote: segments of it fit, and it counts for something.
pub open spec fn takes_part(b: Ballot) -> bool {
    1 <= b.len <= b.chroma.len() && !(b.scale_weight->Some_0 <= zero())
}

/// What the segments of the first `n` lengths give a key.
pub open spec fn votes_of_lengths(
    b: Ballot,
    lengths: Seq<usize>,
    scale_weights: Option<Seq<F32>>,
    key: Key,
    n: nat,
) -> Seq<F32>
    decreases n,
{
    if n == 0 {
        Seq::empty()
    } else {
        let last = ballot_of(b, lengths, scale_weights, n - 1);
        votes_of_lengths(b, lengths, scale_weights, key, (n - 1) as nat) + if takes_part(last) {
            last.votes(key, last.count())
        } else {
            Seq::empty()
        }
    }
}

/// What the segments of the first `n` lengths weigh.
pub open spec fn weighings_of_lengths(
    b: Ballot,
    lengths: Seq<usize>,
    scale_weights: Option<Seq<F32>>,
    n: nat,
) -> Seq<F32>
    decreases n,
{
    if n == 0 {
        Seq::empty()
    } else {
        let last = ballot_of(b, lengths, scale_weights, n - 1);
        weighings_of_lengths(b, lengths, scale_weights, (n - 1) as nat) + if takes_part(last) {
            last.weighings(last.count())
        } else {
            Seq::empty()
        }
    }
}

/// The score of every key after the vote of segments of several lengths is the sum of
/// what all segments of all lengths that are clear enough give it, each by its clarity
/// and the weight of its length; and so is their weight.
pub proof fn lemma_votes_of_lengths_add_up(
    b: Ballot,
    lengths: Seq<usize>,
    scale_weights: Option<Seq<F32>>,
    n: nat,
    k: usize,
)
    requires
        b.hop >= 1,
        b.weights is Some ==> b.weights->Some_0.len() == b.chroma.len(),
        n <= lengths.len(),
        k < 24,
    ensures
        ({
            let sums = scale_sums(
                b.chroma,
                b.templates,
                b.weights,
                b.options,
                b.min_clarity,
                lengths,
                scale_weights,
                b.hop,
                n,
            );
            sums.error is None ==> {
                &&& sums.scores.len() == 24
                &&& sums.scores[k as int] == added(
                    zero(),
                    votes_of_lengths(b, lengths, scale_weights, key_at(k), n),
                )
                &&& sums.weight == added(
                    zero(),
                    weighings_of_lengths(b, lengths, scale_weights, n),
                )
            }
        }),
    decreases n,
{
    if n > 0 {
        lemma_votes_of_lengths_add_up(b, lengths, scale_weights, (n - 1) as nat, k);
        let last = ballot_of(b, lengths, scale_weights, n - 1);
        let before = scale_sums(
            b.chroma,
            b.templates,
            b.weights,
            b.options,
            b.min_clarity,
            lengths,
            scale_weights,
            b.hop,
            (n - 1) as nat,
        );
        let votes = votes_of_lengths(b, lengths, scale_weights, key_at(k), (n - 1) as nat);
        let weighings = weighings_of_lengths(b, lengths, scale_weights, (n - 1) as nat);
        if takes_part(last) {
            if before.error is None {
                lemma_votes_add_up(last, before, k);
                lemma_added_both(zero(), votes, last.votes(key_at(k), last.count()));
                lemma_added_both(zero(), weighings, last.weighings(last.count()));
            } else {
                assert(last.tally(before) == before);
            }
        } else {
            assert(votes + Seq::<F32>::empty() =~= votes);
            assert(weighings + Seq::<F32>::empty() =~= weighings);
        }
    }
}

/// The key that segments of several lengths vote for has a share of their weight that no
/// other key exceeds, as long as all shares are numbers.
pub proof fn lemma_most_voted_key_of_lengths_is_detected(
    b: Ballot,
    lengths: Seq<usize>,
    scale_weights: Option<Seq<F32>>,
    k: usize,
) -> (best: usize)
    requires
        b.hop >= 1,
        b.weights is Some ==> b.weights->Some_0.len() == b.chroma.len(),
        k < 24,
        ({
            let sums = scale_sums(
                b.chroma,
                b.templates,
                b.weights,
                b.options,
                b.min_clarity,
                lengths,
                scale_weights,
                b.hop,
                lengths.len(),
            );
            sums.error is None && sums.used && sums.weight > ratio(1, 1_000_000_000_000)
        }),
        forall|i: usize|
            i < 24 ==> !share_of_votes(b, lengths, scale_weights, #[trigger] key_at(i)).is_nan(),
    ensures
        best < 24,
        multi_scale_detection(
            b.chroma,
            b.templates,
            b.weights,
            b.options,
            scale_sums(
                b.chroma,
                b.templates,
                b.weights,
                b.options,
                b.min_clarity,
                lengths,
                scale_weights,
                b.hop,
                lengths.len(),
            ),
        ).key == key_at(best),
        share_of_votes(b, lengths, scale_weights, key_at(k)) <= share_of_votes(
            b,
            lengths,
            scale_weights,
            key_at(best),
        ),
{
    let sums = scale_sums(
        b.chroma,
        b.templates,
        b.weights,
        b.options,
        b.min_clarity,
        lengths,
        scale_weights,
        b.hop,
        lengths.len(),
    );
    let shares = Seq::new(24, |i: int| sums.scores[i] / sums.weight);
    assert forall|i: int| 0 <= i < 24 implies (#[trigger] shares[i]) == share_of_votes(
        b,
        lengths,
        scale_weights,
        key_at(i as usize),
    ) && !shares[i].is_nan() by {
        lemma_votes_of_lengths_add_up(b, lengths, scale_weights, lengths.len(), i as usize);
        assert(!share_of_votes(b, lengths, scale_weights, key_at(i as usize)).is_nan());
    }
    let best = lemma_best_of_table(shares, k);
    assert(shares[k as int] <= shares[best as int]);
    best
}

/// The part that a key has of what all segments of all lengths weigh.
pub open spec fn share_of_votes(
    b: Ballot,
    lengths: Seq<usize>,
    scale_weights: Option<Seq<F32>>,
    key: Key,
) -> F32 {
    added(zero(), votes_of_lengths(b, lengths, scale_weights, key, lengths.len())) / added(
        zero(),
        weighings_of_lengths(b, lengths, scale_weights, lengths.len()),
    )
}

} // verus!
