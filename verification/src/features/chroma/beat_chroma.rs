//! Chroma vectors for beats: the mean over the frames of each beat.
use super::extractor::chroma_of;
use super::extractor::frame_to_chroma_tuned;
use super::extractor::table_covers;
use super::extractor::ChromaOptions;
use super::extractor::PitchTable;
use super::pitch::no_classes;
use crate::error::invalid_input;
use crate::error::AnalysisError;
use crate::float::ratio;
use crate::float::zero;
use crate::float::F32;
use crate::spectrogram::rows;
use crate::spectrogram::same_shape;
use crate::vector::dot_product;
use crate::vector::energy;
use crate::vector::normalize;
use crate::vector::normalized;
use vstd::prelude::*;

verus! {

/// The time of a frame in seconds.
#[verifier::allow_in_spec]
pub fn frame_time(frame: usize, hop_size: usize, sample_rate: u32) -> F32
    returns
        F32::from_usize(frame) * (F32::from_usize(hop_size) / F32::from_u32(sample_rate)),
{
    F32::from_usize(frame) * (F32::from_usize(hop_size) / F32::from_u32(sample_rate))
}

/// A beat: from one beat time up to the next.
#[derive(Debug, Clone, Copy)]
pub struct BeatSpan {
    /// Start time in seconds
    pub start: F32,
    /// End time in seconds
    pub end: F32,
    /// Samples per frame
    pub hop_size: usize,
    /// Sample rate in Hz
    pub sample_rate: u32,
}

/// A frame starts within a beat.
#[verifier::allow_in_spec]
pub fn in_beat(beat: BeatSpan, frame: usize) -> bool
    returns
        frame_time(frame, beat.hop_size, beat.sample_rate) >= beat.start && frame_time(
            frame,
            beat.hop_size,
            beat.sample_rate,
        ) < beat.end,
{
    frame_time(frame, beat.hop_size, beat.sample_rate) >= beat.start && frame_time(
        frame,
        beat.hop_size,
        beat.sample_rate,
    ) < beat.end
}

/// How many of the first `n` frames start within a beat.
pub open spec fn frames_in(beat: BeatSpan, n: nat) -> nat
    decreases n,
{
    if n == 0 {
        0
    } else {
        frames_in(beat, (n - 1) as nat) + if in_beat(beat, (n - 1) as usize) {
            1nat
        } else {
            0nat
        }
    }
}

/// The sum of a pitch class over those of the first `n` frames that start within a
/// beat.
pub open spec fn beat_class_sum(
    powers: Seq<Vec<F32>>,
    table: PitchTable,
    o: ChromaOptions,
    beat: BeatSpan,
    class: int,
    n: nat,
) -> F32
    decreases n,
{
    if n == 0 {
        zero()
    } else {
        let before = beat_class_sum(powers, table, o, beat, class, (n - 1) as nat);
        if in_beat(beat, (n - 1) as usize) {
            before + chroma_of(powers[n - 1]@, table, o)[class]
        } else {
            before
        }
    }
}

/// The sum of the energies of those of the first `n` frames that start within a beat.
pub open spec fn beat_energy(frames: Seq<Vec<F32>>, beat: BeatSpan, n: nat) -> F32
    decreases n,
{
    if n == 0 {
        zero()
    } else {
        let before = beat_energy(frames, beat, (n - 1) as nat);
        if in_beat(beat, (n - 1) as usize) {
            before + energy(frames[n - 1]@)
        } else {
            before
        }
    }
}

/// The chroma vector of a beat: the mean over its frames, brought to length one;
/// zeros for a beat without frames.
pub open spec fn beat_chroma(
    powers: Seq<Vec<F32>>,
    table: PitchTable,
    o: ChromaOptions,
    beat: BeatSpan,
) -> Seq<F32> {
    let n = frames_in(beat, powers.len());
    if n == 0 {
        Seq::new(12, |c: int| zero())
    } else {
        normalized(
            Seq::new(
                12,
                |c: int|
                    beat_class_sum(powers, table, o, beat, c, powers.len()) / F32::from_usize(
                        n as usize,
                    ),
            ),
            ratio(1, 10_000_000_000),
        )
    }
}

/// The beat from beat time `i` on.
pub open spec fn span_of(times: Seq<F32>, i: int, hop_size: usize, sample_rate: u32) -> BeatSpan {
    BeatSpan { start: times[i], end: times[i + 1], hop_size, sample_rate }
}

/// The number of beats between beat times.
pub open spec fn span_count(times: Seq<F32>) -> nat {
    if times.len() == 0 {
        0
    } else {
        (times.len() - 1) as nat
    }
}

fn make_beat_chroma(
    frames: &[Vec<F32>],
    powers: &[Vec<F32>],
    table: &PitchTable,
    o: ChromaOptions,
    beat: BeatSpan,
) -> (r: (Vec<F32>, F32))
    requires
        table_covers(*table, powers@),
        frames@.len() == powers@.len(),
    ensures
        r.0@ == beat_chroma(powers@, *table, o, beat),
        r.1 == beat_energy(frames@, beat, frames@.len()),
{
    let mut sums: Vec<F32> = no_classes();
    let mut total = zero();
    let mut count: usize = 0;
    let mut n: usize = 0;
    while n < powers.len()
        invariant
            n <= powers.len(),
            table_covers(*table, powers@),
            frames@.len() == powers@.len(),
            count <= n,
            count == frames_in(beat, n as nat),
            total == beat_energy(frames@, beat, n as nat),
            sums@.len() == 12,
            forall|c: int|
                0 <= c < 12 ==> (#[trigger] sums@[c]) == beat_class_sum(
                    powers@,
                    *table,
                    o,
                    beat,
                    c,
                    n as nat,
                ),
        decreases powers.len() - n,
    {
        if in_beat(beat, n) {
            let chroma: Vec<F32> = frame_to_chroma_tuned(powers[n].as_slice(), table, o);
            let row = frames[n].as_slice();
            total = total + dot_product(row, row);
            count = count + 1;
            let ghost before: Seq<F32> = sums@;
            let mut c: usize = 0;
            while c < 12
                invariant
                    c <= 12,
                    chroma@.len() == 12,
                    before.len() == 12,
                    sums@.len() == 12,
                    forall|k: int| 0 <= k < c ==> sums@[k] == before[k] + chroma@[k],
                    forall|k: int| c <= k < 12 ==> sums@[k] == before[k],
                decreases 12 - c,
            {
                let v = sums[c] + chroma[c];
                sums.set(c, v);
                c = c + 1;
            }
        }
        n = n + 1;
    }
    if count == 0 {
        return (no_classes(), total);
    }
    let ghost before: Seq<F32> = sums@;
    let mut c: usize = 0;
    while c < 12
        invariant
            c <= 12,
            before.len() == 12,
            sums@.len() == 12,
            forall|k: int| 0 <= k < c ==> sums@[k] == before[k] / F32::from_usize(count),
            forall|k: int| c <= k < 12 ==> sums@[k] == before[k],
        decreases 12 - c,
    {
        let v = sums[c] / F32::from_usize(count);
        sums.set(c, v);
        c = c + 1;
    }
    assert(sums@ =~= Seq::new(
        12,
        |c: int|
            beat_class_sum(powers@, *table, o, beat, c, powers@.len()) / F32::from_usize(count),
    ));
    normalize(&mut sums, ratio(1, 10_000_000_000));
    (sums, total)
}

/// A beat without frames has no energy.
proof fn lemma_no_frames_no_energy(frames: Seq<Vec<F32>>, beat: BeatSpan, n: nat)
    requires
        frames_in(beat, n) == 0,
    ensures
        beat_energy(frames, beat, n) == zero(),
    decreases n,
{
    if n > 0 {
        lemma_no_frames_no_energy(frames, beat, (n - 1) as nat);
    }
}

/// A beat without frames has a chroma vector of zeros and no energy.
pub proof fn lemma_empty_beat(
    frames: Seq<Vec<F32>>,
    powers: Seq<Vec<F32>>,
    table: PitchTable,
    o: ChromaOptions,
    beat: BeatSpan,
)
    requires
        frames.len() == powers.len(),
        frames_in(beat, powers.len()) == 0,
    ensures
        beat_chroma(powers, table, o, beat) == Seq::new(12, |c: int| zero()),
        beat_energy(frames, beat, frames.len()) == zero(),
{
    lemma_no_frames_no_energy(frames, beat, frames.len());
}

/// The chroma vectors of the beats between beat times (in seconds, in order), with
/// the energy of each beat.
pub fn extract_beat_synchronous_chroma(
    magnitude_spec_frames: &[Vec<F32>],
    powers: &[Vec<F32>],
    table: &PitchTable,
    o: ChromaOptions,
    hop_size: usize,
    beat_times: &[F32],
) -> (r: Result<(Vec<Vec<F32>>, Vec<F32>), AnalysisError>)
    requires
        table_covers(*table, powers@),
        same_shape(rows(magnitude_spec_frames@), rows(powers@)),
    ensures
        if magnitude_spec_frames@.len() == 0 {
            r is Ok && r->Ok_0.0@.len() == 0 && r->Ok_0.1@.len() == 0
        } else if beat_times@.len() == 0 {
            crate::error::is_invalid_input(
                r,
                "Beat-synchronous chroma requires at least one beat time"@,
            )
        } else {
            &&& r is Ok
            &&& rows(r->Ok_0.0@) == Seq::new(
                span_count(beat_times@),
                |i: int|
                    beat_chroma(
                        powers@,
                        *table,
                        o,
                        span_of(beat_times@, i, hop_size, o.sample_rate),
                    ),
            )
            &&& r->Ok_0.1@ == Seq::new(
                span_count(beat_times@),
                |i: int|
                    beat_energy(
                        magnitude_spec_frames@,
                        span_of(beat_times@, i, hop_size, o.sample_rate),
                        magnitude_spec_frames@.len(),
                    ),
            )
        },
{
    let mut chromas: Vec<Vec<F32>> = Vec::new();
    let mut energies: Vec<F32> = Vec::new();
    if magnitude_spec_frames.len() == 0 {
        return Ok((chromas, energies));
    }
    if beat_times.len() == 0 {
        return Err(invalid_input("Beat-synchronous chroma requires at least one beat time"));
    }
    let n: usize = beat_times.len() - 1;
    let mut i: usize = 0;
    while i < n
        invariant
            i <= n,
            n == beat_times@.len() - 1,
            table_covers(*table, powers@),
            magnitude_spec_frames@.len() == powers@.len(),
            chromas@.len() == i,
            energies@.len() == i,
            forall|k: int|
                0 <= k < i ==> (#[trigger] chromas@[k])@ == beat_chroma(
                    powers@,
                    *table,
                    o,
                    span_of(beat_times@, k, hop_size, o.sample_rate),
                ),
            forall|k: int|
                0 <= k < i ==> (#[trigger] energies@[k]) == beat_energy(
                    magnitude_spec_frames@,
                    span_of(beat_times@, k, hop_size, o.sample_rate),
                    magnitude_spec_frames@.len(),
                ),
        decreases n - i,
    {
        let beat = BeatSpan {
            start: beat_times[i],
            end: beat_times[i + 1],
            hop_size,
            sample_rate: o.sample_rate,
        };
        let (chroma, total) = make_beat_chroma(magnitude_spec_frames, powers, table, o, beat);
        chromas.push(chroma);
        energies.push(total);
        i = i + 1;
    }
    assert(rows(chromas@) =~= Seq::new(
        span_count(beat_times@),
        |i: int|
            beat_chroma(powers@, *table, o, span_of(beat_times@, i, hop_size, o.sample_rate)),
    ));
    assert(energies@ =~= Seq::new(
        span_count(beat_times@),
        |i: int|
            beat_energy(
                magnitude_spec_frames@,
                span_of(beat_times@, i, hop_size, o.sample_rate),
                magnitude_spec_frames@.len(),
            ),
    ));
    Ok((chromas, energies))
}

} // verus!
