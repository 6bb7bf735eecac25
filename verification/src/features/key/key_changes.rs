//! Key changes: where the segments of a track change from one key to another.
use super::detector::chroma_error;
use super::detector::detect_key;
use super::detector::key_at;
use super::detector::mean_detection;
use super::templates::KeyTemplates;
use crate::analysis::result::Key;
use crate::error::invalid_input;
use crate::error::is_invalid_input;
use crate::error::AnalysisError;
use crate::float::ratio;
use crate::float::zero;
use crate::float::F32;
use vstd::prelude::*;
use vstd::slice::slice_subrange;

verus! {

/// A change of key.
#[derive(Debug, Clone, Copy)]
pub struct KeyChange {
    /// When, in seconds
    pub timestamp: F32,
    /// Key before the change
    pub from_key: Key,
    /// Key after the change
    pub to_key: Key,
    /// Confidence, from zero to one
    pub confidence: F32,
}

/// The keys of a track.
#[derive(Debug, Clone)]
pub struct KeyChangeResult {
    /// The key that most segments are in
    pub primary_key: Key,
    /// Its confidence
    pub primary_confidence: F32,
    /// The changes, in order
    pub key_changes: Vec<KeyChange>,
    /// When each segment starts, its key, and the confidence of that
    pub segment_keys: Vec<(F32, Key, F32)>,
}

/// `found`, and after it the start, key and confidence of all segments of one
/// length that start at `start` or at a multiple of `hop` frames later, without
/// those that cannot be used.
pub open spec fn with_segment_keys(
    found: Seq<(F32, Key, F32)>,
    chroma: Seq<Vec<F32>>,
    templates: Seq<Seq<F32>>,
    rate: F32,
    len: int,
    hop: int,
    start: int,
) -> Seq<(F32, Key, F32)>
    decreases
        (if start < chroma.len() {
            chroma.len() - start
        } else {
            0
        }),
{
    let seg = chroma.subrange(start, start + len);
    let d = mean_detection(seg, templates);
    if hop < 1 || len < 1 || start + len > chroma.len() {
        found
    } else {
        with_segment_keys(
            if chroma_error(seg, None) is Some {
                found
            } else {
                found.push((F32::from_usize(start as usize) / rate, d.key, d.confidence))
            },
            chroma,
            templates,
            rate,
            len,
            hop,
            start + hop,
        )
    }
}

/// How many of the first `n` segments are in `key`.
pub open spec fn segments_in(segments: Seq<(F32, Key, F32)>, key: Key, n: nat) -> nat
    decreases n,
{
    if n == 0 {
        0
    } else if segments[n - 1].1 == key {
        segments_in(segments, key, (n - 1) as nat) + 1
    } else {
        segments_in(segments, key, (n - 1) as nat)
    }
}

/// The confidences of those of the first `n` segments that are in `key`, added up.
pub open spec fn trust_in(segments: Seq<(F32, Key, F32)>, key: Key, n: nat) -> F32
    decreases n,
{
    if n == 0 {
        zero()
    } else if segments[n - 1].1 == key {
        trust_in(segments, key, (n - 1) as nat) + segments[n - 1].2
    } else {
        trust_in(segments, key, (n - 1) as nat)
    }
}

/// The place, among the first `n >= 1`, of the key that most segments are in;
/// of those that tie, the first.
pub open spec fn primary_place(segments: Seq<(F32, Key, F32)>, n: nat) -> int
    decreases n,
{
    if n <= 1 {
        0
    } else {
        let p = primary_place(segments, (n - 1) as nat);
        if segments_in(segments, key_at((n - 1) as usize), segments.len()) > segments_in(
            segments,
            key_at(p as usize),
            segments.len(),
        ) {
            n - 1
        } else {
            p
        }
    }
}

/// The change from segment `i - 1` to segment `i`.
pub open spec fn change_at(segments: Seq<(F32, Key, F32)>, i: int) -> KeyChange {
    KeyChange {
        timestamp: segments[i].0,
        from_key: segments[i - 1].1,
        to_key: segments[i].1,
        confidence: (segments[i - 1].2 + segments[i].2) / ratio(2, 1),
    }
}

/// Segment `i` is in another key than the one before it.
pub open spec fn changes_at(segments: Seq<(F32, Key, F32)>, i: int) -> bool {
    segments[i - 1].1 != segments[i].1
}

/// The changes among the first `n` segments.
pub open spec fn changes_of(segments: Seq<(F32, Key, F32)>, n: nat) -> Seq<KeyChange>
    decreases n,
{
    if n <= 1 {
        Seq::empty()
    } else if changes_at(segments, n - 1) {
        changes_of(segments, (n - 1) as nat).push(change_at(segments, n - 1))
    } else {
        changes_of(segments, (n - 1) as nat)
    }
}

/// A duration in frames.
pub open spec fn frames_in(seconds: F32, rate: F32) -> int {
    (seconds * rate).to_usize() as int
}

fn find_segment_keys(
    chroma_vectors: &[Vec<F32>],
    templates: &KeyTemplates,
    rate: F32,
    len: usize,
    hop: usize,
) -> (r: Vec<(F32, Key, F32)>)
    requires
        len >= 1,
        hop >= 1,
    ensures
        r@ == with_segment_keys(
            Seq::empty(),
            chroma_vectors@,
            templates.profiles(),
            rate,
            len as int,
            hop as int,
            0,
        ),
        r@.len() <= chroma_vectors@.len(),
{
    let n: usize = chroma_vectors.len();
    let mut found: Vec<(F32, Key, F32)> = Vec::new();
    let mut start: usize = 0;
    let ghost all: Seq<(F32, Key, F32)> = with_segment_keys(
        Seq::empty(),
        chroma_vectors@,
        templates.profiles(),
        rate,
        len as int,
        hop as int,
        0,
    );
    assert(found@ =~= Seq::empty());
    while len <= n && start <= n - len
        invariant
            n == chroma_vectors@.len(),
            len >= 1,
            hop >= 1,
            start <= n,
            found@.len() <= start,
            all == with_segment_keys(
                found@,
                chroma_vectors@,
                templates.profiles(),
                rate,
                len as int,
                hop as int,
                start as int,
            ),
        decreases n - start,
    {
        let seg = slice_subrange(chroma_vectors, start, start + len);
        match detect_key(seg, templates) {
            Ok(d) => {
                found.push((F32::from_usize(start) / rate, d.key, d.confidence));
            },
            Err(_) => {},
        }
        let ghost next: int = start + hop;
        assert(all == with_segment_keys(
            found@,
            chroma_vectors@,
            templates.profiles(),
            rate,
            len as int,
            hop as int,
            next,
        ));
        start = if hop > n - start {
            n
        } else {
            start + hop
        };
    }
    found
}

fn count_segments(segments: &Vec<(F32, Key, F32)>, key: Key) -> (r: (usize, F32))
    ensures
        r.0 == segments_in(segments@, key, segments@.len()),
        r.1 == trust_in(segments@, key, segments@.len()),
{
    let mut count: usize = 0;
    let mut trust = zero();
    let mut n: usize = 0;
    while n < segments.len()
        invariant
            n <= segments.len(),
            count <= n,
            count == segments_in(segments@, key, n as nat),
            trust == trust_in(segments@, key, n as nat),
        decreases segments.len() - n,
    {
        if segments[n].1 == key {
            count = count + 1;
            trust = trust + segments[n].2;
        }
        n = n + 1;
    }
    (count, trust)
}

/// Summarises the keys of segments: the key of most of them, and the changes.
pub fn summarize_segments(segments: Vec<(F32, Key, F32)>) -> (r: KeyChangeResult)
    ensures
        r.segment_keys@ == segments@,
        r.primary_key == key_at(primary_place(segments@, 24) as usize),
        r.primary_confidence == trust_in(segments@, r.primary_key, segments@.len())
            / F32::from_usize(segments_in(segments@, r.primary_key, segments@.len()) as usize),
        r.key_changes@ == changes_of(segments@, segments@.len()),
{
    let mut p: usize = 0;
    let mut best = count_segments(&segments, key_at(0));
    let mut n: usize = 1;
    while n < 24
        invariant
            1 <= n <= 24,
            p < n,
            p == primary_place(segments@, n as nat),
            best.0 == segments_in(segments@, key_at(p), segments@.len()),
            best.1 == trust_in(segments@, key_at(p), segments@.len()),
        decreases 24 - n,
    {
        let c = count_segments(&segments, key_at(n));
        if c.0 > best.0 {
            p = n;
            best = c;
        }
        n = n + 1;
    }
    let mut changes: Vec<KeyChange> = Vec::new();
    let mut i: usize = 1;
    while i < segments.len()
        invariant
            1 <= i,
            i <= segments.len() || (segments@.len() == 0 && i == 1),
            changes@ == changes_of(segments@, i as nat),
        decreases segments.len() - i,
    {
        if segments[i - 1].1 != segments[i].1 {
            changes.push(
                KeyChange {
                    timestamp: segments[i].0,
                    from_key: segments[i - 1].1,
                    to_key: segments[i].1,
                    confidence: (segments[i - 1].2 + segments[i].2) / ratio(2, 1),
                },
            );
        }
        i = i + 1;
    }
    assert(changes_of(segments@, 0) == changes_of(segments@, 1));
    KeyChangeResult {
        primary_key: key_at(p),
        primary_confidence: best.1 / F32::from_usize(best.0),
        key_changes: changes,
        segment_keys: segments,
    }
}

/// Detects key changes.
///
/// The segments overlap by `segment_overlap` seconds; an overlap that leaves
/// nothing of a segment is refused.
pub fn detect_key_changes(
    chroma_vectors: &[Vec<F32>],
    sample_rate: u32,
    hop_size: usize,
    templates: &KeyTemplates,
    segment_duration: F32,
    segment_overlap: F32,
) -> (r: Result<KeyChangeResult, AnalysisError>)
    ensures
        ({
            let rate = F32::from_u32(sample_rate) / F32::from_usize(hop_size);
            let len = frames_in(segment_duration, rate);
            let overlap = frames_in(segment_overlap, rate);
            let segments = with_segment_keys(
                Seq::empty(),
                chroma_vectors@,
                templates.profiles(),
                rate,
                len,
                len - overlap,
                0,
            );
            if chroma_vectors@.len() == 0 {
                is_invalid_input(r, "Empty chroma vectors"@)
            } else if len == 0 || len <= overlap {
                is_invalid_input(r, "Invalid segment parameters"@)
            } else if segments.len() == 0 {
                is_invalid_input(r, "No valid segments found"@)
            } else {
                &&& r matches Ok(c)
                &&& c.segment_keys@ == segments
                &&& c.primary_key == key_at(primary_place(segments, 24) as usize)
                &&& c.primary_confidence == trust_in(segments, c.primary_key, segments.len())
                    / F32::from_usize(segments_in(segments, c.primary_key, segments.len()) as usize)
                &&& c.key_changes@ == changes_of(segments, segments.len())
            }
        }),
{
    if chroma_vectors.len() == 0 {
        return Err(invalid_input("Empty chroma vectors"));
    }
    let rate = F32::from_u32(sample_rate) / F32::from_usize(hop_size);
    let len: usize = (segment_duration * rate).to_usize();
    let overlap: usize = (segment_overlap * rate).to_usize();
    if len == 0 || len <= overlap {
        return Err(invalid_input("Invalid segment parameters"));
    }
    let segments: Vec<(F32, Key, F32)> = find_segment_keys(
        chroma_vectors,
        templates,
        rate,
        len,
        len - overlap,
    );
    if segments.len() == 0 {
        return Err(invalid_input("No valid segments found"));
    }
    Ok(summarize_segments(segments))
}

} // verus!
