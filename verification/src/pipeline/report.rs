//! What an analysis reports.
use super::key::TrackKey;
use super::tempo::TempogramChoice;
use crate::analysis::result::AnalysisFlag;
use crate::analysis::result::AnalysisMetadata;
use crate::analysis::result::AnalysisResult;
use crate::analysis::result::BeatGrid;
use crate::error::AnalysisError;
use crate::float::one;
use crate::float::ratio;
use crate::float::zero;
use crate::float::F32;
use crate::number_text::fixed2;
use crate::number_text::fixed2_of;
use crate::text::join;
use vstd::prelude::*;

verus! {

/// Beats are looked for: there is a tempo, and there are two onsets.
#[verifier::allow_in_spec]
pub fn wants_beats(bpm: F32, n_onsets: usize) -> bool
    returns
        bpm > zero() && n_onsets >= 2,
{
    bpm > zero() && n_onsets >= 2
}

/// Onset times in seconds.
pub open spec fn onset_times(onsets: Seq<usize>, sample_rate: u32) -> Seq<F32> {
    Seq::new(onsets.len(), |i: int| F32::from_usize(onsets[i]) / F32::from_u32(sample_rate))
}

pub fn onset_seconds(onsets: &[usize], sample_rate: u32) -> (r: Vec<F32>)
    ensures
        r@ == onset_times(onsets@, sample_rate),
{
    let mut r: Vec<F32> = Vec::new();
    let mut i: usize = 0;
    while i < onsets.len()
        invariant
            i <= onsets.len(),
            r@.len() == i,
            forall|k: int|
                0 <= k < i ==> r@[k] == F32::from_usize(onsets@[k]) / F32::from_u32(sample_rate),
        decreases onsets.len() - i,
    {
        r.push(F32::from_usize(onsets[i]) / F32::from_u32(sample_rate));
        i = i + 1;
    }
    assert(r@ =~= onset_times(onsets@, sample_rate));
    r
}

/// The grid found and its stability; an empty one where none was looked for or
/// the search failed.
pub fn grid_or_empty(found: Option<Result<(BeatGrid, F32), AnalysisError>>) -> (r: (BeatGrid, F32))
    ensures
        match found {
            Some(Ok(g)) => r == g,
            _ => r.0.downbeats@.len() == 0 && r.0.beats@.len() == 0 && r.0.bars@.len() == 0 && r.1
                == zero(),
        },
{
    match found {
        Some(Ok(g)) => g,
        _ => (BeatGrid { downbeats: Vec::new(), beats: Vec::new(), bars: Vec::new() }, zero()),
    }
}

/// The texts of messages.
pub open spec fn texts(v: Seq<String>) -> Seq<Seq<char>> {
    Seq::new(v.len(), |i: int| v[i]@)
}

/// `s` with `text` behind it, where it is to be said.
pub open spec fn said(s: Seq<Seq<char>>, condition: bool, text: Seq<char>) -> Seq<Seq<char>> {
    if condition {
        s.push(text)
    } else {
        s
    }
}

fn say(v: &mut Vec<String>, condition: bool, text: String)
    ensures
        texts(final(v)@) == said(texts(old(v)@), condition, text@),
{
    if condition {
        v.push(text);
        assert(texts(v@) =~= texts(old(v)@).push(text@));
    }
}

fn number_message(before: &str, x: F32, behind: &str) -> (r: String)
    ensures
        r@ == before@ + fixed2_of(x) + behind@,
{
    join(join(before, fixed2(x).as_str()).as_str(), behind)
}

/// The warnings that go with a tempo, a beat grid and a key.
pub open spec fn warnings_for(bpm: F32, grid_stability: F32, key_confidence: F32, key_clarity: F32) -> Seq<
    Seq<char>,
> {
    let no_tempo = said(
        Seq::empty(),
        bpm.same_number(zero()),
        "BPM detection failed: insufficient onsets or estimation error"@,
    );
    let loose_grid = said(
        no_tempo,
        grid_stability < ratio(5, 10),
        "Low beat grid stability: "@ + fixed2_of(grid_stability)
            + " (may indicate tempo variation)"@,
    );
    let unsure_key = said(
        loose_grid,
        key_confidence < ratio(3, 10),
        "Low key detection confidence: "@ + fixed2_of(key_confidence)
            + " (may indicate ambiguous or atonal music)"@,
    );
    said(
        unsure_key,
        key_clarity < ratio(2, 10),
        "Low key clarity: "@ + fixed2_of(key_clarity)
            + " (track may be atonal or have weak tonality)"@,
    )
}

pub fn confidence_warnings(bpm: F32, grid_stability: F32, key_confidence: F32, key_clarity: F32) -> (r: Vec<
    String,
>)
    ensures
        texts(r@) == warnings_for(bpm, grid_stability, key_confidence, key_clarity),
{
    let mut r: Vec<String> = Vec::new();
    assert(texts(r@) =~= Seq::<Seq<char>>::empty());
    say(
        &mut r,
        bpm == zero(),
        "BPM detection failed: insufficient onsets or estimation error".to_owned(),
    );
    say(
        &mut r,
        grid_stability < ratio(5, 10),
        number_message(
            "Low beat grid stability: ",
            grid_stability,
            " (may indicate tempo variation)",
        ),
    );
    say(
        &mut r,
        key_confidence < ratio(3, 10),
        number_message(
            "Low key detection confidence: ",
            key_confidence,
            " (may indicate ambiguous or atonal music)",
        ),
    );
    say(
        &mut r,
        key_clarity < ratio(2, 10),
        number_message(
            "Low key clarity: ",
            key_clarity,
            " (track may be atonal or have weak tonality)",
        ),
    );
    r
}

/// What a result is made from.
#[derive(Debug, Clone)]
pub struct Findings {
    /// Tempo in BPM
    pub bpm: F32,
    /// Confidence of the tempo
    pub bpm_confidence: F32,
    /// The key
    pub key: TrackKey,
    /// The beat grid
    pub beat_grid: BeatGrid,
    /// Its stability
    pub grid_stability: F32,
    /// What the tempograms came to
    pub tempogram: TempogramChoice,
    /// Samples that were looked at
    pub n_samples: usize,
    /// Sample rate in Hz
    pub sample_rate: u32,
    /// Onsets of the energy flux
    pub n_energy_onsets: usize,
    /// Processing time in milliseconds
    pub processing_time_ms: F32,
}

/// The metadata that goes with findings.
pub open spec fn is_metadata_of(m: AnalysisMetadata, f: Findings) -> bool {
    &&& m.duration_seconds == F32::from_usize(f.n_samples) / F32::from_u32(f.sample_rate)
    &&& m.sample_rate == f.sample_rate
    &&& m.processing_time_ms == f.processing_time_ms
    &&& m.algorithm_version@ == "0.1.0-alpha"@
    &&& m.onset_method_consensus == if f.n_energy_onsets == 0 {
        zero()
    } else {
        one()
    }
    &&& texts(m.methods_used@) == seq![
        "energy_flux"@,
        "chroma_extraction"@,
        "key_detection"@,
    ]
    &&& m.flags@ == if f.key.clarity < ratio(2, 10) {
        seq![AnalysisFlag::WeakTonality]
    } else {
        seq![]
    }
    &&& texts(m.confidence_warnings@) == warnings_for(
        f.bpm,
        f.grid_stability,
        f.key.confidence,
        f.key.clarity,
    )
    &&& m.tempogram_candidates == f.tempogram.candidates
    &&& m.tempogram_multi_res_triggered == f.tempogram.multi_res_triggered
    &&& m.tempogram_multi_res_used == f.tempogram.multi_res_used
    &&& m.tempogram_percussive_triggered == f.tempogram.percussive_triggered
    &&& m.tempogram_percussive_used == f.tempogram.percussive_used
}

fn methods_used() -> (r: Vec<String>)
    ensures
        texts(r@) == seq!["energy_flux"@, "chroma_extraction"@, "key_detection"@],
{
    let mut r: Vec<String> = Vec::new();
    r.push("energy_flux".to_owned());
    r.push("chroma_extraction".to_owned());
    r.push("key_detection".to_owned());
    assert(texts(r@) =~= seq!["energy_flux"@, "chroma_extraction"@, "key_detection"@]);
    r
}

/// Puts the result of an analysis together.
pub fn build_result(f: Findings) -> (r: AnalysisResult)
    ensures
        r.bpm == f.bpm,
        r.bpm_confidence == f.bpm_confidence,
        r.key == f.key.key,
        r.key_confidence == f.key.confidence,
        r.key_clarity == f.key.clarity,
        r.beat_grid == f.beat_grid,
        r.grid_stability == f.grid_stability,
        is_metadata_of(r.metadata, f),
{
    let mut flags: Vec<AnalysisFlag> = Vec::new();
    if f.key.clarity < ratio(2, 10) {
        flags.push(AnalysisFlag::WeakTonality);
    }
    assert(flags@ =~= if f.key.clarity < ratio(2, 10) {
        seq![AnalysisFlag::WeakTonality]
    } else {
        seq![]
    });
    let warnings: Vec<String> = confidence_warnings(
        f.bpm,
        f.grid_stability,
        f.key.confidence,
        f.key.clarity,
    );
    AnalysisResult {
        bpm: f.bpm,
        bpm_confidence: f.bpm_confidence,
        key: f.key.key,
        key_confidence: f.key.confidence,
        key_clarity: f.key.clarity,
        beat_grid: f.beat_grid,
        grid_stability: f.grid_stability,
        metadata: AnalysisMetadata {
            duration_seconds: F32::from_usize(f.n_samples) / F32::from_u32(f.sample_rate),
            sample_rate: f.sample_rate,
            processing_time_ms: f.processing_time_ms,
            algorithm_version: "0.1.0-alpha".to_owned(),
            onset_method_consensus: if f.n_energy_onsets == 0 {
                zero()
            } else {
                one()
            },
            methods_used: methods_used(),
            flags,
            confidence_warnings: warnings,
            tempogram_candidates: f.tempogram.candidates,
            tempogram_multi_res_triggered: f.tempogram.multi_res_triggered,
            tempogram_multi_res_used: f.tempogram.multi_res_used,
            tempogram_percussive_triggered: f.tempogram.percussive_triggered,
            tempogram_percussive_used: f.tempogram.percussive_used,
        },
    }
}

} // verus!
