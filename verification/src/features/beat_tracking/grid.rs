//! The beat grid: beats, downbeats and bars, and how stable they are.
//!
//! The beats themselves come from a tracker outside this module: one run over all
//! onsets, and one for each stretch of time in which the tempo varies.
use super::tempo_variation::detect_tempo_variations;
use super::tempo_variation::find_times_within;
use super::tempo_variation::has_tempo_variation;
use super::tempo_variation::tempo_segments;
use super::tempo_variation::times_within;
use super::tempo_variation::TempoSegment;
use super::time_signature::detect_time_signature;
use super::time_signature::find_intervals;
use super::time_signature::intervals_of;
use super::time_signature::meter_of;
use super::time_signature::squared_distances;
use super::time_signature::sum_squared_distances;
use super::time_signature::TimeSignature;
use crate::analysis::result::BeatGrid;
use crate::error::gives;
use crate::error::gives_plain;
use crate::error::invalid_input;
use crate::error::AnalysisError;
use crate::error::Outcome;
use crate::float::one;
use crate::float::ratio;
use crate::float::zero;
use crate::float::F32;
use crate::number_text::fixed2;
use crate::number_text::fixed2_of;
use crate::sorting::arrange;
use crate::sorting::arranged;
use crate::sorting::sort_order;
use crate::sorting::sorted_order;
use crate::sorting::sum;
use crate::sorting::sum_of;
use crate::spectrogram::copy_row;
use crate::statistics::ascending;
use crate::statistics::sort_ascending;
use vstd::prelude::*;
use vstd::string::StringExecFns;

verus! {

/// A beat with its place in the bar.
#[derive(Debug, Clone, Copy)]
pub struct BeatPosition {
    /// Place within the bar, from zero
    pub beat_index: u32,
    /// Time in seconds
    pub time_seconds: F32,
    /// Confidence, from zero to one
    pub confidence: F32,
}

/// What a beat grid holds.
pub ghost struct GridView {
    pub downbeats: Seq<F32>,
    pub beats: Seq<F32>,
    pub bars: Seq<F32>,
}

impl View for BeatGrid {
    type V = GridView;

    open spec fn view(&self) -> GridView {
        GridView { downbeats: self.downbeats@, beats: self.beats@, bars: self.bars@ }
    }
}

/// The times of beats.
pub open spec fn times_of(positions: Seq<BeatPosition>) -> Seq<F32> {
    Seq::new(positions.len(), |i: int| positions[i].time_seconds)
}

fn find_times(positions: &[BeatPosition]) -> (r: Vec<F32>)
    ensures
        r@ == times_of(positions@),
{
    let mut r: Vec<F32> = Vec::new();
    let mut i: usize = 0;
    while i < positions.len()
        invariant
            i <= positions.len(),
            r@.len() == i,
            forall|k: int| 0 <= k < i ==> r@[k] == positions@[k].time_seconds,
        decreases positions.len() - i,
    {
        r.push(positions[i].time_seconds);
        i = i + 1;
    }
    assert(r@ =~= times_of(positions@));
    r
}

// -------------------------------------------------------------- downbeats

/// The time of a bar, in seconds.
#[verifier::allow_in_spec]
pub fn bar_interval(bpm: F32, time_sig: TimeSignature) -> F32
    returns
        ratio(60, 1) / bpm * F32::from_u32(time_sig.beats_per_bar()),
{
    ratio(60, 1) / bpm * F32::from_u32(time_sig.beats_per_bar())
}

/// A beat is about a bar behind the downbeat before it: within a tenth of a bar.
#[verifier::allow_in_spec]
pub fn is_next_downbeat(beat: F32, last: F32, bar: F32) -> bool
    returns
        (beat - (last + bar)).abs() <= bar * ratio(1, 10),
{
    (beat - (last + bar)).abs() <= bar * ratio(1, 10)
}

/// The downbeats among the first `n >= 1` beats: the first beat, and each that is
/// about a bar behind the downbeat before it.
pub open spec fn downbeats_of(beats: Seq<F32>, bar: F32, n: nat) -> Seq<F32>
    decreases n,
{
    if n <= 1 {
        seq![beats[0]]
    } else {
        let before = downbeats_of(beats, bar, (n - 1) as nat);
        if is_next_downbeat(beats[n - 1], before.last(), bar) {
            before.push(beats[n - 1])
        } else {
            before
        }
    }
}

/// What beats come to: their downbeats.
pub open spec fn downbeats_or_error(beats: Seq<F32>, bpm: F32, time_sig: TimeSignature) -> Outcome<Seq<F32>> {
    if beats.len() == 0 {
        Outcome::Value(Seq::empty())
    } else if bpm <= zero() {
        Outcome::Invalid("Invalid BPM for downbeat detection: "@ + fixed2_of(bpm))
    } else {
        Outcome::Value(downbeats_of(beats, bar_interval(bpm, time_sig), beats.len()))
    }
}

/// Every downbeat is a beat, and the first beat is a downbeat.
pub proof fn lemma_downbeats_are_beats(beats: Seq<F32>, bar: F32, n: nat)
    requires
        1 <= n <= beats.len(),
    ensures
        1 <= downbeats_of(beats, bar, n).len() <= n,
        downbeats_of(beats, bar, n)[0] == beats[0],
        forall|i: int|
            0 <= i < downbeats_of(beats, bar, n).len() ==> beats.take(n as int).contains(
                #[trigger] downbeats_of(beats, bar, n)[i],
            ),
    decreases n,
{
    let all = downbeats_of(beats, bar, n);
    if n == 1 {
        assert(beats.take(1)[0] == beats[0]);
    } else {
        lemma_downbeats_are_beats(beats, bar, (n - 1) as nat);
        let before = downbeats_of(beats, bar, (n - 1) as nat);
        assert forall|i: int| 0 <= i < all.len() implies beats.take(n as int).contains(
            #[trigger] all[i],
        ) by {
            if i < before.len() {
                assert(all[i] == before[i]);
                assert(beats.take(n - 1).contains(before[i]));
                let t = beats.take(n - 1);
                let k = choose|k: int| 0 <= k < t.len() && t[k] == before[i];
                assert(beats.take(n as int)[k] == all[i]);
            } else {
                assert(beats.take(n as int)[n - 1] == all[i]);
            }
        }
    }
}

/// Neighbouring downbeats are about a bar apart.
pub proof fn lemma_downbeats_are_bars_apart(beats: Seq<F32>, bar: F32, n: nat, i: int)
    requires
        1 <= n <= beats.len(),
        0 < i < downbeats_of(beats, bar, n).len(),
    ensures
        is_next_downbeat(downbeats_of(beats, bar, n)[i], downbeats_of(beats, bar, n)[i - 1], bar),
    decreases n,
{
    if n > 1 {
        let before = downbeats_of(beats, bar, (n - 1) as nat);
        if i < before.len() {
            lemma_downbeats_are_bars_apart(beats, bar, (n - 1) as nat, i);
        }
    }
}

/// Finds the downbeats of beats in order.
pub fn detect_downbeats_with_time_sig(beats: &[F32], bpm_estimate: F32, time_sig: TimeSignature) -> (r: Result<
    Vec<F32>,
    AnalysisError,
>)
    ensures
        gives(r, downbeats_or_error(beats@, bpm_estimate, time_sig)),
{
    if beats.len() == 0 {
        return Ok(Vec::new());
    }
    if bpm_estimate <= zero() {
        return Err(
            AnalysisError::InvalidInput(
                "Invalid BPM for downbeat detection: ".to_owned().concat(
                    fixed2(bpm_estimate).as_str(),
                ),
            ),
        );
    }
    let bar = bar_interval(bpm_estimate, time_sig);
    let mut r: Vec<F32> = Vec::new();
    r.push(beats[0]);
    assert(r@ =~= downbeats_of(beats@, bar, 1));
    let mut n: usize = 1;
    while n < beats.len()
        invariant
            1 <= n <= beats.len(),
            r@.len() > 0,
            r@ == downbeats_of(beats@, bar, n as nat),
        decreases beats.len() - n,
    {
        if is_next_downbeat(beats[n], r[r.len() - 1], bar) {
            r.push(beats[n]);
        }
        n = n + 1;
    }
    Ok(r)
}

/// Finds the downbeats of beats in order, four beats to the bar.
pub fn detect_downbeats(beats: &[F32], bpm_estimate: F32) -> (r: Result<Vec<F32>, AnalysisError>)
    ensures
        gives(r, downbeats_or_error(beats@, bpm_estimate, TimeSignature::FourFour)),
{
    detect_downbeats_with_time_sig(beats, bpm_estimate, TimeSignature::FourFour)
}

// ------------------------------------------------------------------- grid

/// The grid of beats; bars start at downbeats.
pub open spec fn grid_of(positions: Seq<BeatPosition>, bpm: F32, time_sig: TimeSignature) -> Outcome<GridView> {
    let beats = ascending(times_of(positions));
    if positions.len() == 0 {
        Outcome::Invalid("Cannot generate grid: no beat positions"@)
    } else {
        match downbeats_or_error(beats, bpm, time_sig) {
            Outcome::Value(downbeats) => Outcome::Value(
                GridView { downbeats, beats, bars: downbeats },
            ),
            Outcome::Invalid(m) => Outcome::Invalid(m),
            Outcome::Failed(m) => Outcome::Failed(m),
            Outcome::Numerical(m) => Outcome::Numerical(m),
        }
    }
}

/// Makes the grid of beats with a time signature.
pub fn generate_beat_grid_from_positions_with_time_sig(
    beat_positions: &[BeatPosition],
    bpm_estimate: F32,
    time_sig: TimeSignature,
) -> (r: Result<BeatGrid, AnalysisError>)
    ensures
        gives(r, grid_of(beat_positions@, bpm_estimate, time_sig)),
{
    if beat_positions.len() == 0 {
        return Err(invalid_input("Cannot generate grid: no beat positions"));
    }
    let times: Vec<F32> = find_times(beat_positions);
    let beats: Vec<F32> = sort_ascending(times.as_slice());
    match detect_downbeats_with_time_sig(beats.as_slice(), bpm_estimate, time_sig) {
        Err(e) => Err(e),
        Ok(downbeats) => {
            let bars: Vec<F32> = copy_row(downbeats.as_slice());
            Ok(BeatGrid { downbeats, beats, bars })
        },
    }
}

/// Makes the grid of beats, four beats to the bar.
pub fn generate_beat_grid_from_positions(beat_positions: &[BeatPosition], bpm_estimate: F32) -> (r: Result<
    BeatGrid,
    AnalysisError,
>)
    ensures
        gives(r, grid_of(beat_positions@, bpm_estimate, TimeSignature::FourFour)),
{
    generate_beat_grid_from_positions_with_time_sig(
        beat_positions,
        bpm_estimate,
        TimeSignature::FourFour,
    )
}

// -------------------------------------------------------------- stability

/// How even intervals are: one for all the same, less the more they deviate.
pub open spec fn evenness(s: Seq<F32>) -> F32 {
    let n = F32::from_usize(s.len() as usize);
    let mean = sum_of(s) / n;
    if s.len() == 0 || mean <= ratio(1, 10_000_000_000) {
        zero()
    } else {
        one() / (one() + (squared_distances(s, mean, s.len()) / n).sqrt() / mean)
    }
}

/// What beats come to: how stable their grid is.
pub open spec fn stability_of(positions: Seq<BeatPosition>, bpm: F32) -> Outcome<F32> {
    if positions.len() < 2 {
        Outcome::Value(zero())
    } else if bpm <= zero() {
        Outcome::Invalid("Invalid BPM for stability calculation: "@ + fixed2_of(bpm))
    } else {
        Outcome::Value(evenness(intervals_of(times_of(positions), positions.len())))
    }
}

/// How stable a grid is, from zero to one.
pub fn calculate_grid_stability(beat_positions: &[BeatPosition], bpm_estimate: F32) -> (r: Result<
    F32,
    AnalysisError,
>)
    ensures
        gives_plain(r, stability_of(beat_positions@, bpm_estimate)),
{
    if beat_positions.len() < 2 {
        return Ok(zero());
    }
    if bpm_estimate <= zero() {
        return Err(
            AnalysisError::InvalidInput(
                "Invalid BPM for stability calculation: ".to_owned().concat(
                    fixed2(bpm_estimate).as_str(),
                ),
            ),
        );
    }
    let times: Vec<F32> = find_times(beat_positions);
    let s: Vec<F32> = find_intervals(times.as_slice());
    if s.len() == 0 {
        return Ok(zero());
    }
    let n = F32::from_usize(s.len());
    let mean = sum(s.as_slice()) / n;
    if mean <= ratio(1, 10_000_000_000) {
        return Ok(zero());
    }
    let deviation = (sum_squared_distances(s.as_slice(), mean) / n).sqrt();
    Ok(one() / (one() + deviation / mean))
}

// ------------------------------------------------------------- refinement

/// Those of the first `n` beats that are within a stretch of time.
pub open spec fn beats_within(positions: Seq<BeatPosition>, s: TempoSegment, n: nat) -> Seq<BeatPosition>
    decreases n,
{
    if n == 0 {
        Seq::empty()
    } else {
        let before = beats_within(positions, s, (n - 1) as nat);
        let time = positions[n - 1].time_seconds;
        if time >= s.start_time && time <= s.end_time {
            before.push(positions[n - 1])
        } else {
            before
        }
    }
}

/// The beats that a further run of the tracker found, if it did.
pub open spec fn found(retraced: Seq<Option<Vec<BeatPosition>>>, i: int) -> Seq<BeatPosition> {
    if 0 <= i < retraced.len() {
        match retraced[i] {
            Some(beats) => beats@,
            None => Seq::empty(),
        }
    } else {
        Seq::empty()
    }
}

/// The beats of the first `n` stretches: those found anew where the tempo
/// varies, the ones there were elsewhere.
pub open spec fn refined_beats(
    positions: Seq<BeatPosition>,
    segments: Seq<TempoSegment>,
    retraced: Seq<Option<Vec<BeatPosition>>>,
    n: nat,
) -> Seq<BeatPosition>
    decreases n,
{
    if n == 0 {
        Seq::empty()
    } else {
        refined_beats(positions, segments, retraced, (n - 1) as nat) + if segments[n - 1].is_variable {
            found(retraced, n - 1)
        } else {
            beats_within(positions, segments[n - 1], positions.len())
        }
    }
}

/// Some stretch has a tempo that varies.
pub open spec fn varies(segments: Seq<TempoSegment>) -> bool {
    exists|i: int| 0 <= i < segments.len() && (#[trigger] segments[i]).is_variable
}

/// The beats in the order of their times.
pub open spec fn by_time(positions: Seq<BeatPosition>) -> Seq<BeatPosition> {
    arranged(positions, sorted_order(times_of(positions), false, positions.len()))
}

/// The beats that the grid is made of.
pub open spec fn final_beats(
    positions: Seq<BeatPosition>,
    segments: Seq<TempoSegment>,
    retraced: Seq<Option<Vec<BeatPosition>>>,
) -> Seq<BeatPosition> {
    let refined = refined_beats(positions, segments, retraced, segments.len());
    if varies(segments) && refined.len() > 0 {
        by_time(refined)
    } else {
        positions
    }
}

fn push_within(r: &mut Vec<BeatPosition>, positions: &[BeatPosition], s: TempoSegment)
    ensures
        final(r)@ == old(r)@ + beats_within(positions@, s, positions@.len()),
{
    let ghost before: Seq<BeatPosition> = r@;
    let mut n: usize = 0;
    while n < positions.len()
        invariant
            n <= positions.len(),
            r@ == before + beats_within(positions@, s, n as nat),
        decreases positions.len() - n,
    {
        let ghost sofar: Seq<BeatPosition> = beats_within(positions@, s, n as nat);
        let p = positions[n];
        if p.time_seconds >= s.start_time && p.time_seconds <= s.end_time {
            r.push(p);
            assert(r@ =~= before + sofar.push(p));
        }
        n = n + 1;
    }
}

fn push_all(r: &mut Vec<BeatPosition>, beats: &[BeatPosition])
    ensures
        final(r)@ == old(r)@ + beats@,
{
    let ghost before: Seq<BeatPosition> = r@;
    let mut n: usize = 0;
    while n < beats.len()
        invariant
            n <= beats.len(),
            r@ == before + beats@.take(n as int),
        decreases beats.len() - n,
    {
        r.push(beats[n]);
        assert(r@ =~= before + beats@.take(n + 1));
        n = n + 1;
    }
    assert(r@ =~= before + beats@);
}

fn refine_beats(
    positions: &[BeatPosition],
    segments: &[TempoSegment],
    retraced: &[Option<Vec<BeatPosition>>],
) -> (r: Vec<BeatPosition>)
    ensures
        r@ == final_beats(positions@, segments@, retraced@),
{
    let mut refined: Vec<BeatPosition> = Vec::new();
    let mut n: usize = 0;
    while n < segments.len()
        invariant
            n <= segments.len(),
            refined@ == refined_beats(positions@, segments@, retraced@, n as nat),
        decreases segments.len() - n,
    {
        let ghost before: Seq<BeatPosition> = refined@;
        if segments[n].is_variable {
            if n < retraced.len() {
                match &retraced[n] {
                    Some(beats) => {
                        push_all(&mut refined, beats.as_slice());
                    },
                    None => {},
                }
            }
            assert(refined@ =~= before + found(retraced@, n as int));
        } else {
            push_within(&mut refined, positions, segments[n]);
        }
        n = n + 1;
    }
    if has_tempo_variation(segments) && refined.len() > 0 {
        let times: Vec<F32> = find_times(refined.as_slice());
        let order: Vec<usize> = sort_order(times.as_slice(), false);
        arrange(refined.as_slice(), order.as_slice())
    } else {
        let mut r: Vec<BeatPosition> = Vec::new();
        push_all(&mut r, positions);
        assert(r@ =~= positions@);
        r
    }
}

// -------------------------------------------------------------- in phases

/// What is wrong with the arguments of a beat grid.
pub open spec fn grid_error(bpm: F32, onsets: nat) -> Option<Seq<char>> {
    if bpm <= zero() || bpm > ratio(300, 1) {
        Some("Invalid BPM estimate: "@ + fixed2_of(bpm))
    } else if onsets == 0 {
        Some("Cannot generate beat grid: no onsets provided"@)
    } else {
        None
    }
}

/// Checks the arguments of a beat grid and puts its onsets in order: what the
/// tracker is given.
pub fn prepare_onsets(bpm_estimate: F32, onsets: &[F32]) -> (r: Result<Vec<F32>, AnalysisError>)
    ensures
        gives(
            r,
            match grid_error(bpm_estimate, onsets@.len()) {
                Some(msg) => Outcome::Invalid(msg),
                None => Outcome::Value(ascending(onsets@)),
            },
        ),
{
    if bpm_estimate <= zero() || bpm_estimate > ratio(300, 1) {
        return Err(
            AnalysisError::InvalidInput(
                "Invalid BPM estimate: ".to_owned().concat(fixed2(bpm_estimate).as_str()),
            ),
        );
    }
    if onsets.len() == 0 {
        return Err(invalid_input("Cannot generate beat grid: no onsets provided"));
    }
    Ok(sort_ascending(onsets))
}

/// The stretches of time that beats come to.
pub open spec fn plan_of(positions: Seq<BeatPosition>, bpm: F32) -> Outcome<Seq<TempoSegment>> {
    if positions.len() == 0 {
        Outcome::Failed("HMM beat tracking produced no beats"@)
    } else {
        tempo_segments(times_of(positions), bpm)
    }
}

/// Finds the stretches of time that beats come to: where the tempo varies, the
/// beats are to be looked for anew.
pub fn plan_segments(beat_positions: &[BeatPosition], bpm_estimate: F32) -> (r: Result<
    Vec<TempoSegment>,
    AnalysisError,
>)
    ensures
        gives(r, plan_of(beat_positions@, bpm_estimate)),
{
    if beat_positions.len() == 0 {
        return Err(
            AnalysisError::ProcessingError("HMM beat tracking produced no beats".to_owned()),
        );
    }
    let times: Vec<F32> = find_times(beat_positions);
    detect_tempo_variations(times.as_slice(), bpm_estimate)
}

/// The onsets by which the beats of a stretch are looked for anew: those within it,
/// where its tempo varies and it has any.
pub open spec fn onsets_to_retrace(onsets: Seq<F32>, segment: TempoSegment) -> Option<Seq<F32>> {
    let within = times_within(onsets, segment.start_time, segment.end_time, onsets.len());
    if segment.is_variable && within.len() > 0 {
        Some(within)
    } else {
        None
    }
}

/// Finds the onsets by which the beats of each stretch are looked for anew.
pub fn find_onsets_to_retrace(onsets: &[F32], segments: &[TempoSegment]) -> (r: Vec<
    Option<Vec<F32>>,
>)
    ensures
        r@.len() == segments@.len(),
        forall|i: int|
            0 <= i < r@.len() ==> match onsets_to_retrace(onsets@, segments@[i]) {
                Some(within) => (#[trigger] r@[i]) is Some && r@[i]->Some_0@ == within,
                None => r@[i] is None,
            },
{
    let mut r: Vec<Option<Vec<F32>>> = Vec::new();
    let mut n: usize = 0;
    while n < segments.len()
        invariant
            n <= segments.len(),
            r@.len() == n,
            forall|i: int|
                0 <= i < n ==> match onsets_to_retrace(onsets@, segments@[i]) {
                    Some(within) => (#[trigger] r@[i]) is Some && r@[i]->Some_0@ == within,
                    None => r@[i] is None,
                },
        decreases segments.len() - n,
    {
        let within: Vec<F32> = find_times_within(onsets, segments[n].start_time, segments[n].end_time);
        if segments[n].is_variable && within.len() > 0 {
            r.push(Some(within));
        } else {
            r.push(None);
        }
        n = n + 1;
    }
    r
}

/// The grid and its stability that final beats come to.
pub open spec fn finished(beats: Seq<BeatPosition>, bpm: F32) -> Outcome<(GridView, F32)> {
    match meter_of(times_of(beats), bpm) {
        Outcome::Value((meter, _)) => match grid_of(beats, bpm, meter) {
            Outcome::Value(grid) => match stability_of(beats, bpm) {
                Outcome::Value(stability) => Outcome::Value((grid, stability)),
                Outcome::Invalid(m) => Outcome::Invalid(m),
                Outcome::Failed(m) => Outcome::Failed(m),
                Outcome::Numerical(m) => Outcome::Numerical(m),
            },
            Outcome::Invalid(m) => Outcome::Invalid(m),
            Outcome::Failed(m) => Outcome::Failed(m),
            Outcome::Numerical(m) => Outcome::Numerical(m),
        },
        Outcome::Invalid(m) => Outcome::Invalid(m),
        Outcome::Failed(m) => Outcome::Failed(m),
        Outcome::Numerical(m) => Outcome::Numerical(m),
    }
}

/// The grid and its stability that onsets and beats come to.
pub open spec fn beat_grid_of(
    bpm: F32,
    onsets: nat,
    positions: Seq<BeatPosition>,
    retraced: Seq<Option<Vec<BeatPosition>>>,
) -> Outcome<(GridView, F32)> {
    match grid_error(bpm, onsets) {
        Some(msg) => Outcome::Invalid(msg),
        None => match plan_of(positions, bpm) {
            Outcome::Value(segments) => finished(final_beats(positions, segments, retraced), bpm),
            Outcome::Invalid(m) => Outcome::Invalid(m),
            Outcome::Failed(m) => Outcome::Failed(m),
            Outcome::Numerical(m) => Outcome::Numerical(m),
        },
    }
}

/// `r` is what a grid comes to.
pub open spec fn gives_grid(
    r: Result<(BeatGrid, F32), AnalysisError>,
    outcome: Outcome<(GridView, F32)>,
) -> bool {
    match outcome {
        Outcome::Value((grid, stability)) => r is Ok && r->Ok_0.0@ == grid && r->Ok_0.1 == stability,
        Outcome::Invalid(msg) => crate::error::is_invalid_input(r, msg),
        Outcome::Failed(msg) => crate::error::is_processing_error(r, msg),
        Outcome::Numerical(msg) => crate::error::is_numerical_error(r, msg),
    }
}

fn finish_grid(beats: &[BeatPosition], bpm: F32) -> (r: Result<(BeatGrid, F32), AnalysisError>)
    ensures
        gives_grid(r, finished(beats@, bpm)),
{
    let times: Vec<F32> = find_times(beats);
    let time_sig = match detect_time_signature(times.as_slice(), bpm) {
        Err(e) => {
            return Err(e);
        },
        Ok((time_sig, _)) => time_sig,
    };
    let grid = match generate_beat_grid_from_positions_with_time_sig(beats, bpm, time_sig) {
        Err(e) => {
            return Err(e);
        },
        Ok(grid) => grid,
    };
    match calculate_grid_stability(beats, bpm) {
        Err(e) => Err(e),
        Ok(stability) => Ok((grid, stability)),
    }
}

/// Makes the beat grid of onsets (in seconds), with its stability.
/// `beat_positions` are the beats found for all onsets, `retraced` those that were
/// looked for anew, one entry for each stretch of time of the plan.
pub fn generate_beat_grid(
    bpm_estimate: F32,
    onsets: &[F32],
    beat_positions: &[BeatPosition],
    retraced: &[Option<Vec<BeatPosition>>],
) -> (r: Result<(BeatGrid, F32), AnalysisError>)
    ensures
        gives_grid(
            r,
            beat_grid_of(bpm_estimate, onsets@.len(), beat_positions@, retraced@),
        ),
{
    match prepare_onsets(bpm_estimate, onsets) {
        Err(e) => {
            return Err(e);
        },
        Ok(_) => {},
    }
    let segments: Vec<TempoSegment> = match plan_segments(beat_positions, bpm_estimate) {
        Err(e) => {
            return Err(e);
        },
        Ok(s) => s,
    };
    let beats: Vec<BeatPosition> = refine_beats(beat_positions, segments.as_slice(), retraced);
    finish_grid(beats.as_slice(), bpm_estimate)
}

} // verus!
