//! What holds of the beats that a grid is made of and of its downbeats.
use super::grid::beat_grid_of;
use super::grid::beats_within;
use super::grid::by_time;
use super::grid::downbeats_of;
use super::grid::final_beats;
use super::grid::found;
use super::grid::grid_of;
use super::grid::plan_of;
use super::grid::refined_beats;
use super::grid::times_of;
use super::grid::varies;
use super::grid::BeatPosition;
use super::tempo_variation::TempoSegment;
use super::time_signature::TimeSignature;
use crate::error::Outcome;
use crate::float::ratio;
use crate::float::F32;
use crate::sorting::arranged;
use crate::sorting::lemma_arranged_from;
use crate::sorting::lemma_sorted_order_finds;
use crate::sorting::lemma_sorted_order_lists_indices;
use crate::sorting::sorted_order;
use crate::statistics::ascending;
use vstd::prelude::*;

verus! {

/// A beat lies within a stretch of time.
pub open spec fn lies_within(beat: BeatPosition, s: TempoSegment) -> bool {
    s.start_time <= beat.time_seconds && beat.time_seconds <= s.end_time
}

/// Everything is still there in sorted order.
proof fn lemma_arranged_holds<T>(s: Seq<T>, keys: Seq<F32>, k: int)
    requires
        keys.len() == s.len(),
        s.len() <= usize::MAX,
        0 <= k < s.len(),
    ensures
        arranged(s, sorted_order(keys, false, s.len())).len() == s.len(),
        arranged(s, sorted_order(keys, false, s.len())).contains(s[k]),
{
    let order = sorted_order(keys, false, s.len());
    lemma_sorted_order_lists_indices(keys, false, s.len());
    let i = lemma_sorted_order_finds(keys, false, s.len(), k as usize);
    assert(arranged(s, order)[i] == s[k]);
}

/// The beats of the grid of positions are exactly the times of these.
proof fn lemma_grid_holds_times(positions: Seq<BeatPosition>, x: F32)
    requires
        positions.len() <= usize::MAX,
    ensures
        ascending(times_of(positions)).len() == positions.len(),
        ascending(times_of(positions)).contains(x) <==> times_of(positions).contains(x),
{
    let times = times_of(positions);
    lemma_sorted_order_lists_indices(times, false, times.len());
    if times.contains(x) {
        let k = choose|k: int| 0 <= k < times.len() && times[k] == x;
        lemma_arranged_holds(times, times, k);
    }
    if ascending(times).contains(x) {
        let i = choose|i: int| 0 <= i < ascending(times).len() && ascending(times)[i] == x;
        let k = lemma_arranged_from(times, times, false, i);
        assert(times[k] == x);
    }
}

proof fn lemma_beats_within(positions: Seq<BeatPosition>, s: TempoSegment, n: nat, p: BeatPosition)
    requires
        n <= positions.len(),
    ensures
        beats_within(positions, s, n).contains(p) <==> positions.take(n as int).contains(p)
            && lies_within(p, s),
    decreases n,
{
    let taken = positions.take(n as int);
    if n > 0 {
        lemma_beats_within(positions, s, (n - 1) as nat, p);
        let before = beats_within(positions, s, (n - 1) as nat);
        let last = positions[n - 1];
        assert(taken =~= positions.take(n - 1).push(last));
        lemma_push_contains(positions.take(n - 1), last, p);
        lemma_push_contains(before, last, p);
    }
}

/// What a row holds with one more item.
pub proof fn lemma_push_contains<T>(s: Seq<T>, x: T, y: T)
    ensures
        s.push(x).contains(y) <==> s.contains(y) || x == y,
{
    if s.contains(y) {
        let i = choose|i: int| 0 <= i < s.len() && s[i] == y;
        assert(s.push(x)[i] == y);
    }
    assert(s.push(x)[s.len() as int] == x);
    if s.push(x).contains(y) && x != y {
        let i = choose|i: int| 0 <= i < s.len() + 1 && s.push(x)[i] == y;
        assert(s[i] == y);
    }
}

proof fn lemma_joined_contains<T>(a: Seq<T>, b: Seq<T>, y: T)
    ensures
        (a + b).contains(y) <==> a.contains(y) || b.contains(y),
{
    if a.contains(y) {
        let i = choose|i: int| 0 <= i < a.len() && a[i] == y;
        assert((a + b)[i] == y);
    }
    if b.contains(y) {
        let i = choose|i: int| 0 <= i < b.len() && b[i] == y;
        assert((a + b)[a.len() + i] == y);
    }
    if (a + b).contains(y) {
        let i = choose|i: int| 0 <= i < a.len() + b.len() && (a + b)[i] == y;
        if i < a.len() {
            assert(a[i] == y);
        } else {
            assert(b[i - a.len()] == y);
        }
    }
}

/// A beat belongs to stretch `k` of a plan: where the tempo varies it was found anew,
/// elsewhere it was there at first and lies within the stretch.
pub open spec fn belongs(
    positions: Seq<BeatPosition>,
    segments: Seq<TempoSegment>,
    retraced: Seq<Option<Vec<BeatPosition>>>,
    k: int,
    p: BeatPosition,
) -> bool {
    if segments[k].is_variable {
        k < retraced.len() && retraced[k] is Some && retraced[k]->Some_0@.contains(p)
    } else {
        positions.contains(p) && lies_within(p, segments[k])
    }
}

proof fn lemma_refined(
    positions: Seq<BeatPosition>,
    segments: Seq<TempoSegment>,
    retraced: Seq<Option<Vec<BeatPosition>>>,
    n: nat,
    p: BeatPosition,
)
    requires
        n <= segments.len(),
    ensures
        refined_beats(positions, segments, retraced, n).contains(p) <==> exists|k: int|
            0 <= k < n && #[trigger] belongs(positions, segments, retraced, k, p),
    decreases n,
{
    if n > 0 {
        lemma_refined(positions, segments, retraced, (n - 1) as nat, p);
        let before = refined_beats(positions, segments, retraced, (n - 1) as nat);
        let s = segments[n - 1];
        let more = if s.is_variable {
            found(retraced, n - 1)
        } else {
            beats_within(positions, s, positions.len())
        };
        lemma_joined_contains(before, more, p);
        lemma_beats_within(positions, s, positions.len(), p);
        assert(positions.take(positions.len() as int) =~= positions);
        assert(more.contains(p) <==> belongs(positions, segments, retraced, n - 1, p));
        if exists|k: int| 0 <= k < n && #[trigger] belongs(positions, segments, retraced, k, p) {
            let k = choose|k: int|
                0 <= k < n && #[trigger] belongs(positions, segments, retraced, k, p);
            if k < n - 1 {
                assert(before.contains(p));
            }
        }
    }
}

/// The beats of a grid are the beats of the stretches of its plan: every beat that was
/// found at first and lies within a stretch of constant tempo is there, every beat that
/// was found anew for a stretch of varying tempo is there, and no others. Where no tempo
/// varies, or no stretch has a beat left, all beats that were found at first make the
/// grid.
pub proof fn lemma_grid_is_made_of_its_stretches(
    bpm: F32,
    onsets: nat,
    positions: Seq<BeatPosition>,
    retraced: Seq<Option<Vec<BeatPosition>>>,
    segments: Seq<TempoSegment>,
)
    requires
        plan_of(positions, bpm) == Outcome::<Seq<TempoSegment>>::Value(segments),
        positions.len() <= usize::MAX,
        refined_beats(positions, segments, retraced, segments.len()).len() <= usize::MAX,
    ensures
        beat_grid_of(bpm, onsets, positions, retraced) matches Outcome::Value((grid, _)) ==> {
            let varying = exists|k: int| 0 <= k < segments.len() && (#[trigger] segments[k]).is_variable;
            let left = exists|k: int, p: BeatPosition|
                0 <= k < segments.len() && #[trigger] belongs(positions, segments, retraced, k, p);
            if varying && left {
                &&& forall|k: int, p: BeatPosition|
                    0 <= k < segments.len() && #[trigger] belongs(positions, segments, retraced, k, p)
                        ==> grid.beats.contains(p.time_seconds)
                &&& forall|x: F32| #[trigger]
                    grid.beats.contains(x) ==> exists|k: int, p: BeatPosition|
                        0 <= k < segments.len() && p.time_seconds == x && #[trigger] belongs(
                            positions,
                            segments,
                            retraced,
                            k,
                            p,
                        )
            } else {
                &&& grid.beats.len() == positions.len()
                &&& forall|x: F32| #[trigger]
                    grid.beats.contains(x) <==> exists|i: int|
                        0 <= i < positions.len() && (#[trigger] positions[i]).time_seconds == x
            }
        },
{
    let refined = refined_beats(positions, segments, retraced, segments.len());
    let beats = final_beats(positions, segments, retraced);
    if let Outcome::Value((grid, _)) = beat_grid_of(bpm, onsets, positions, retraced) {
        assert(grid.beats == ascending(times_of(beats)));
        let varying = exists|k: int| 0 <= k < segments.len() && (#[trigger] segments[k]).is_variable;
        let left = exists|k: int, p: BeatPosition|
            0 <= k < segments.len() && #[trigger] belongs(positions, segments, retraced, k, p);
        assert(varying == varies(segments));
        if left {
            let (k, p) = choose|k: int, p: BeatPosition|
                0 <= k < segments.len() && #[trigger] belongs(positions, segments, retraced, k, p);
            lemma_refined(positions, segments, retraced, segments.len(), p);
            assert(refined.contains(p));
        }
        if refined.len() > 0 {
            lemma_refined(positions, segments, retraced, segments.len(), refined[0]);
            assert(refined.contains(refined[0]));
        }
        assert(left == (refined.len() > 0));
        if varying && left {
            let times = times_of(refined);
            assert(beats == by_time(refined));
            lemma_sorted_order_lists_indices(times, false, times.len());
            assert forall|k: int, p: BeatPosition|
                0 <= k < segments.len() && #[trigger] belongs(
                    positions,
                    segments,
                    retraced,
                    k,
                    p,
                ) implies grid.beats.contains(p.time_seconds) by {
                lemma_refined(positions, segments, retraced, segments.len(), p);
                let i = choose|i: int| 0 <= i < refined.len() && refined[i] == p;
                lemma_arranged_holds(refined, times, i);
                let j = choose|j: int| 0 <= j < beats.len() && beats[j] == p;
                assert(times_of(beats)[j] == p.time_seconds);
                lemma_grid_holds_times(beats, p.time_seconds);
            }
            assert forall|x: F32| #[trigger] grid.beats.contains(x) implies exists|
                k: int,
                p: BeatPosition,
            |
                0 <= k < segments.len() && p.time_seconds == x && #[trigger] belongs(
                    positions,
                    segments,
                    retraced,
                    k,
                    p,
                ) by {
                lemma_grid_holds_times(beats, x);
                let j = choose|j: int| 0 <= j < beats.len() && times_of(beats)[j] == x;
                let i = lemma_arranged_from(refined, times, false, j);
                let p = refined[i];
                assert(beats[j] == p);
                assert(refined.contains(p));
                lemma_refined(positions, segments, retraced, segments.len(), p);
                let k = choose|k: int|
                    0 <= k < segments.len() && #[trigger] belongs(
                        positions,
                        segments,
                        retraced,
                        k,
                        p,
                    );
                assert(p.time_seconds == x && belongs(positions, segments, retraced, k, p));
            }
        } else {
            assert(beats == positions);
            lemma_grid_holds_times(positions, bpm);
            assert forall|x: F32| #[trigger] grid.beats.contains(x) <==> exists|i: int|
                0 <= i < positions.len() && (#[trigger] positions[i]).time_seconds == x by {
                lemma_grid_holds_times(positions, x);
                let times = times_of(positions);
                if times.contains(x) {
                    let i = choose|i: int| 0 <= i < times.len() && times[i] == x;
                    assert(positions[i].time_seconds == x);
                }
                if exists|i: int|
                    0 <= i < positions.len() && (#[trigger] positions[i]).time_seconds == x {
                    let i = choose|i: int|
                        0 <= i < positions.len() && (#[trigger] positions[i]).time_seconds == x;
                    assert(times[i] == x);
                }
            }
        }
    }
}

/// How many beats a bar of a time signature has.
pub open spec fn beats_in_bar(meter: TimeSignature) -> u32 {
    match meter {
        TimeSignature::FourFour => 4,
        TimeSignature::ThreeFour => 3,
        TimeSignature::SixEight => 6,
    }
}

/// A time is a bar behind another one, give or take a tenth of a bar.
pub open spec fn is_a_bar_later(time: F32, earlier: F32, bpm: F32, meter: TimeSignature) -> bool {
    let bar = ratio(60, 1) / bpm * F32::from_u32(beats_in_bar(meter));
    (time - (earlier + bar)).abs() <= bar * ratio(1, 10)
}

proof fn lemma_downbeats_grow(beats: Seq<F32>, bar: F32, n: nat, m: nat)
    requires
        1 <= n <= m <= beats.len(),
    ensures
        1 <= downbeats_of(beats, bar, n).len() <= downbeats_of(beats, bar, m).len(),
        downbeats_of(beats, bar, m).take(downbeats_of(beats, bar, n).len() as int) == downbeats_of(
            beats,
            bar,
            n,
        ),
    decreases m - n,
{
    let all = downbeats_of(beats, bar, m);
    let some = downbeats_of(beats, bar, n);
    if n < m {
        lemma_downbeats_grow(beats, bar, n, (m - 1) as nat);
        let before = downbeats_of(beats, bar, (m - 1) as nat);
        assert(all.take(some.len() as int) =~= before.take(some.len() as int));
    } else {
        super::grid::lemma_downbeats_are_beats(beats, bar, n);
        assert(all.take(some.len() as int) =~= some);
    }
}

/// The first beat of a grid is its first downbeat, each further downbeat is a beat about
/// a bar behind the one before it, and no beat that is about a bar behind the last
/// downbeat before it is passed over: beat `j` has such a downbeat, at place `m`.
pub proof fn lemma_downbeats_are_the_beats_a_bar_apart(
    positions: Seq<BeatPosition>,
    bpm: F32,
    meter: TimeSignature,
    j: int,
) -> (m: int)
    requires
        0 < j < positions.len() <= usize::MAX,
    ensures
        grid_of(positions, bpm, meter) matches Outcome::Value(grid) ==> {
            &&& grid.beats.len() == positions.len()
            &&& 0 <= m < grid.downbeats.len()
            &&& grid.downbeats[0] == grid.beats[0]
            &&& forall|i: int|
                0 < i < grid.downbeats.len() ==> is_a_bar_later(
                    #[trigger] grid.downbeats[i],
                    grid.downbeats[i - 1],
                    bpm,
                    meter,
                )
            &&& forall|i: int|
                0 <= i < grid.downbeats.len() ==> grid.beats.contains(
                    #[trigger] grid.downbeats[i],
                )
            &&& grid.beats.take(j).contains(grid.downbeats[m])
            &&& is_a_bar_later(grid.beats[j], grid.downbeats[m], bpm, meter) ==> m + 1
                < grid.downbeats.len() && grid.downbeats[m + 1] == grid.beats[j]
        },
{
    let beats = ascending(times_of(positions));
    lemma_grid_holds_times(positions, bpm);
    let bar = super::grid::bar_interval(bpm, meter);
    let n = beats.len();
    super::grid::lemma_downbeats_are_beats(beats, bar, n);
    super::grid::lemma_downbeats_are_beats(beats, bar, j as nat);
    let all = downbeats_of(beats, bar, n);
    let some = downbeats_of(beats, bar, j as nat);
    let next = downbeats_of(beats, bar, (j + 1) as nat);
    lemma_downbeats_grow(beats, bar, j as nat, n);
    lemma_downbeats_grow(beats, bar, (j + 1) as nat, n);
    assert(beats.take(n as int) =~= beats);
    let m = some.len() - 1;
    assert(some[m] == all.take(some.len() as int)[m]);
    assert forall|i: int| 0 < i < all.len() implies is_a_bar_later(
        #[trigger] all[i],
        all[i - 1],
        bpm,
        meter,
    ) by {
        super::grid::lemma_downbeats_are_bars_apart(beats, bar, n, i);
    }
    if is_a_bar_later(beats[j], some.last(), bpm, meter) {
        assert(next == some.push(beats[j]));
        assert(all.take(next.len() as int)[m + 1] == beats[j]);
    }
    m
}

} // verus!
