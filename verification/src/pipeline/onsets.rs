//! Input checks, and the onsets that tempo and beats are found from.
use crate::config::AnalysisConfig;
use crate::error::gives;
use crate::error::invalid_input;
use crate::error::is_invalid_input;
use crate::error::is_processing_error;
use crate::error::AnalysisError;
use crate::error::Outcome;
use crate::features::onset::consensus::consensus_of;
use crate::features::onset::consensus::vote_error;
use crate::features::onset::consensus::vote_onsets;
use crate::features::onset::consensus::OnsetCandidate;
use crate::features::onset::consensus::OnsetConsensus;
use crate::features::onset::flux_peaks::is_percentile;
use crate::features::onset::hfc::detect_hfc_onsets;
use crate::features::onset::hpss::detect_hpss_onsets;
use crate::features::onset::hpss::hpss_decompose;
use crate::features::onset::hpss::hpss_error;
use crate::features::onset::hpss::row_energies;
use crate::features::onset::hpss::settled;
use crate::features::onset::spectral_flux::detect_spectral_flux_onsets;
use crate::features::onset::spectral_flux::frame_distances;
use crate::features::onset::spectral_flux::onsets_or_error;
use crate::features::onset::spectral_flux::percentile_onsets;
use crate::features::period::novelty::contents_of;
use crate::features::period::novelty::rises;
use crate::float::ratio;
use crate::float::F32;
use crate::sorting::sort_dedup;
use crate::sorting::sorted_set;
use crate::spectrogram::rows;
use crate::vector::energy;
use vstd::prelude::*;

verus! {

/// Checks what an analysis is given.
pub fn check_audio(samples: &[F32], sample_rate: u32) -> (r: Result<(), AnalysisError>)
    ensures
        if samples@.len() == 0 {
            is_invalid_input(r, "Empty audio samples"@)
        } else if sample_rate == 0 {
            is_invalid_input(r, "Invalid sample rate"@)
        } else {
            r is Ok
        },
{
    if samples.len() == 0 {
        return Err(invalid_input("Empty audio samples"));
    }
    if sample_rate == 0 {
        return Err(invalid_input("Invalid sample rate"));
    }
    Ok(())
}

/// Checks that something is left once silence has been cut off.
pub fn check_sounds(trimmed: &[F32]) -> (r: Result<(), AnalysisError>)
    ensures
        if trimmed@.len() == 0 {
            is_processing_error(r, "Audio is entirely silent after trimming"@)
        } else {
            r is Ok
        },
{
    if trimmed.len() == 0 {
        return Err(
            AnalysisError::ProcessingError("Audio is entirely silent after trimming".to_owned()),
        );
    }
    Ok(())
}

/// The first samples of the first `n` frames, without those past the end.
pub open spec fn starts_within(frames: Seq<usize>, hop_size: usize, n_samples: usize, n: nat) -> Seq<usize>
    decreases n,
{
    if n == 0 {
        Seq::empty()
    } else {
        let before = starts_within(frames, hop_size, n_samples, (n - 1) as nat);
        if frames[n - 1] * hop_size < n_samples {
            before.push((frames[n - 1] * hop_size) as usize)
        } else {
            before
        }
    }
}

/// Turns onset frames into onset samples: sorted, each once, none past the end.
pub fn frames_to_samples(frames: &[usize], hop_size: usize, n_samples: usize) -> (r: Vec<usize>)
    ensures
        r@ == sorted_set(starts_within(frames@, hop_size, n_samples, frames@.len())),
        r@.len() <= n_samples,
{
    let mut starts: Vec<usize> = Vec::new();
    let mut i: usize = 0;
    while i < frames.len()
        invariant
            i <= frames.len(),
            starts@ == starts_within(frames@, hop_size, n_samples, i as nat),
            forall|k: int| 0 <= k < starts@.len() ==> starts@[k] < n_samples,
        decreases frames.len() - i,
    {
        match frames[i].checked_mul(hop_size) {
            Some(s) => if s < n_samples {
                starts.push(s);
            },
            None => {},
        }
        i = i + 1;
    }
    let r: Vec<usize> = sort_dedup(starts.as_slice());
    proof {
        assert forall|k: int| 0 <= k < r@.len() implies r@[k] < n_samples by {
            assert(r@.contains(r@[k]));
            assert(starts@.contains(r@[k]));
        }
        lemma_increasing_fits(r@, n_samples as int);
    }
    r
}

proof fn lemma_increasing_fits(s: Seq<usize>, limit: int)
    requires
        limit >= 0,
        forall|i: int, j: int| 0 <= i < j < s.len() ==> s[i] < s[j],
        forall|k: int| 0 <= k < s.len() ==> s[k] < limit,
    ensures
        s.len() <= limit,
    decreases s.len(),
{
    if s.len() > 0 {
        assert forall|k: int| 0 <= k < s.drop_last().len() implies s.drop_last()[k] < s.last() by {
            assert(s[k] < s[s.len() - 1]);
        }
        lemma_increasing_fits(s.drop_last(), s.last() as int);
    }
}

/// The onsets found, or none where a detector failed.
pub open spec fn onsets_or_none(outcome: Outcome<Seq<usize>>) -> Seq<usize> {
    match outcome {
        Outcome::Value(onsets) => onsets,
        _ => Seq::empty(),
    }
}

fn take_onsets(r: Result<Vec<usize>, AnalysisError>, Ghost(outcome): Ghost<Outcome<Seq<usize>>>) -> (onsets: Vec<
    usize,
>)
    requires
        gives(r, outcome),
    ensures
        onsets@ == onsets_or_none(outcome),
{
    match r {
        Ok(onsets) => onsets,
        Err(_) => Vec::new(),
    }
}

/// Onset frames in the percussive part of a spectrogram; none where it cannot be told apart.
pub open spec fn percussive_frames(frames: Seq<Vec<F32>>, margin: usize, percentile: F32) -> Seq<usize> {
    let p = settled(rows(frames), rows(frames), rows(frames), margin as int, 0).1;
    if hpss_error(frames) is Some || !is_percentile(percentile) || p.len() < 2 {
        Seq::empty()
    } else {
        percentile_onsets(rises(Seq::new(p.len(), |i: int| energy(p[i]))), percentile)
    }
}

fn find_percussive_frames(frames: &[Vec<F32>], margin: usize, percentile: F32) -> (r: Vec<usize>)
    ensures
        r@ == percussive_frames(frames@, margin, percentile),
{
    match hpss_decompose(frames, margin) {
        Ok((_harmonic, percussive)) => {
            let ghost p: Seq<Seq<F32>> = settled(
                rows(frames@),
                rows(frames@),
                rows(frames@),
                margin as int,
                0,
            ).1;
            assert(rows(percussive@) == p);
            assert(p.len() == percussive@.len());
            assert(row_energies(percussive@) =~= Seq::new(p.len(), |i: int| energy(p[i]))) by {
                assert forall|i: int| 0 <= i < p.len() implies row_energies(percussive@)[i] == energy(
                    #[trigger] p[i],
                ) by {
                    assert(rows(percussive@)[i] == percussive@[i]@);
                }
            }
            match detect_hpss_onsets(percussive.as_slice(), percentile) {
                Ok(onsets) => onsets,
                Err(_) => Vec::new(),
            }
        },
        Err(_) => Vec::new(),
    }
}

/// The onsets of four detectors, in samples.
pub open spec fn votes_are(
    c: OnsetConsensus,
    energy_onsets: Seq<usize>,
    frames: Seq<Vec<F32>>,
    n_samples: usize,
    sample_rate: u32,
    config: AnalysisConfig,
) -> bool {
    let percentile = config.onset_threshold_percentile;
    let spectral = onsets_or_none(onsets_or_error(frames, percentile, frame_distances(frames)));
    let content = if frames.len() > 0 && sample_rate == 0 {
        Seq::empty()
    } else {
        onsets_or_none(
            onsets_or_error(
                frames,
                percentile,
                rises(contents_of(frames, 0, frames[0]@.len() as int)),
            ),
        )
    };
    let percussive = if config.enable_hpss_onsets {
        percussive_frames(frames, config.hpss_margin, percentile)
    } else {
        Seq::empty()
    };
    &&& c.energy_flux@ == energy_onsets
    &&& c.spectral_flux@ == sorted_set(
        starts_within(spectral, config.hop_size, n_samples, spectral.len()),
    )
    &&& c.hfc@ == sorted_set(starts_within(content, config.hop_size, n_samples, content.len()))
    &&& c.hpss@ == sorted_set(
        starts_within(percussive, config.hop_size, n_samples, percussive.len()),
    )
}

fn collect_votes(
    energy_onsets: &[usize],
    frames: &[Vec<F32>],
    n_samples: usize,
    sample_rate: u32,
    config: &AnalysisConfig,
) -> (c: OnsetConsensus)
    ensures
        votes_are(c, energy_onsets@, frames@, n_samples, sample_rate, *config),
        c.spectral_flux@.len() <= n_samples,
        c.hfc@.len() <= n_samples,
        c.hpss@.len() <= n_samples,
{
    let percentile = config.onset_threshold_percentile;
    let spectral: Vec<usize> = take_onsets(
        detect_spectral_flux_onsets(frames, percentile),
        Ghost(onsets_or_error(frames@, percentile, frame_distances(frames@))),
    );
    let ghost content_outcome: Outcome<Seq<usize>> = if frames@.len() > 0 && sample_rate == 0 {
        Outcome::Invalid("Sample rate must be > 0"@)
    } else {
        onsets_or_error(
            frames@,
            percentile,
            rises(contents_of(frames@, 0, frames@[0]@.len() as int)),
        )
    };
    let content: Vec<usize> = take_onsets(
        detect_hfc_onsets(frames, sample_rate, percentile),
        Ghost(content_outcome),
    );
    let percussive: Vec<usize> = if config.enable_hpss_onsets {
        find_percussive_frames(frames, config.hpss_margin, percentile)
    } else {
        Vec::new()
    };
    OnsetConsensus {
        energy_flux: copy_onsets(energy_onsets),
        spectral_flux: frames_to_samples(spectral.as_slice(), config.hop_size, n_samples),
        hfc: frames_to_samples(content.as_slice(), config.hop_size, n_samples),
        hpss: frames_to_samples(percussive.as_slice(), config.hop_size, n_samples),
    }
}

fn copy_onsets(onsets: &[usize]) -> (r: Vec<usize>)
    ensures
        r@ == onsets@,
{
    let mut r: Vec<usize> = Vec::new();
    let mut i: usize = 0;
    while i < onsets.len()
        invariant
            i <= onsets.len(),
            r@ == onsets@.take(i as int),
        decreases onsets.len() - i,
    {
        r.push(onsets[i]);
        i = i + 1;
        assert(r@ =~= onsets@.take(i as int));
    }
    assert(onsets@.take(onsets@.len() as int) =~= onsets@);
    r
}

/// Times of those among the first `n` candidates that `least` methods voted for.
pub open spec fn voted_times(c: Seq<OnsetCandidate>, least: u32, n: nat) -> Seq<usize>
    decreases n,
{
    if n == 0 {
        Seq::empty()
    } else {
        let before = voted_times(c, least, (n - 1) as nat);
        if c[n - 1].voted_by >= least {
            before.push(c[n - 1].time_samples)
        } else {
            before
        }
    }
}

fn list_voted_times(c: &[OnsetCandidate], least: u32) -> (r: Vec<usize>)
    ensures
        r@ == voted_times(c@, least, c@.len()),
{
    let mut r: Vec<usize> = Vec::new();
    let mut i: usize = 0;
    while i < c.len()
        invariant
            i <= c.len(),
            r@ == voted_times(c@, least, i as nat),
        decreases c.len() - i,
    {
        if c[i].voted_by >= least {
            r.push(c[i].time_samples);
        }
        i = i + 1;
    }
    r
}

/// The onsets that two methods agree on; all of them where no two agree; those
/// of the energy flux where there are none.
pub open spec fn agreed_onsets(c: Seq<OnsetCandidate>, energy_onsets: Seq<usize>) -> Seq<usize> {
    let strong = sorted_set(voted_times(c, 2, c.len()));
    let any = sorted_set(voted_times(c, 0, c.len()));
    if strong.len() > 0 {
        strong
    } else if any.len() > 0 {
        any
    } else {
        energy_onsets
    }
}

/// Picks the onsets that most methods stand behind.
pub fn agree_onsets(candidates: &[OnsetCandidate], energy_onsets: &[usize]) -> (r: Vec<usize>)
    ensures
        r@ == agreed_onsets(candidates@, energy_onsets@),
{
    let strong: Vec<usize> = sort_dedup(list_voted_times(candidates, 2).as_slice());
    if strong.len() > 0 {
        return strong;
    }
    let any: Vec<usize> = sort_dedup(list_voted_times(candidates, 0).as_slice());
    if any.len() > 0 {
        return any;
    }
    copy_onsets(energy_onsets)
}

/// `r` holds the onsets for tempo and beats.
pub open spec fn are_tempo_onsets(
    r: Seq<usize>,
    energy_onsets: Seq<usize>,
    frames: Seq<Vec<F32>>,
    n_samples: usize,
    sample_rate: u32,
    config: AnalysisConfig,
) -> bool {
    let weights = config.onset_consensus_weights@;
    let tolerance = config.onset_consensus_tolerance_ms;
    if config.enable_onset_consensus && frames.len() > 0 && vote_error(
        weights,
        tolerance,
        sample_rate,
    ) is None {
        exists|c: OnsetConsensus|
            votes_are(c, energy_onsets, frames, n_samples, sample_rate, config) && r
                == agreed_onsets(
                #[trigger] consensus_of(c, weights, tolerance, sample_rate),
                energy_onsets,
            )
    } else {
        r == energy_onsets
    }
}

/// Only one list of onsets can be that for tempo and beats.
pub proof fn lemma_tempo_onsets_are_unique(
    a: Seq<usize>,
    b: Seq<usize>,
    energy_onsets: Seq<usize>,
    frames: Seq<Vec<F32>>,
    n_samples: usize,
    sample_rate: u32,
    config: AnalysisConfig,
)
    requires
        are_tempo_onsets(a, energy_onsets, frames, n_samples, sample_rate, config),
        are_tempo_onsets(b, energy_onsets, frames, n_samples, sample_rate, config),
    ensures
        a == b,
{
}

/// The onsets for tempo and beats: what the detectors agree on where they are
/// asked and can vote, else those of the energy flux.
pub fn tempo_onsets(
    energy_onsets: &[usize],
    frames: &[Vec<F32>],
    n_samples: usize,
    sample_rate: u32,
    config: &AnalysisConfig,
) -> (r: Vec<usize>)
    requires
        energy_onsets@.len() + 3 * n_samples <= usize::MAX,
    ensures
        are_tempo_onsets(r@, energy_onsets@, frames@, n_samples, sample_rate, *config),
{
    if config.enable_onset_consensus && frames.len() > 0 {
        let votes = collect_votes(energy_onsets, frames, n_samples, sample_rate, config);
        let ghost c: OnsetConsensus = votes;
        match vote_onsets(
            votes,
            config.onset_consensus_weights,
            config.onset_consensus_tolerance_ms,
            sample_rate,
        ) {
            Ok(candidates) => {
                let r: Vec<usize> = agree_onsets(candidates.as_slice(), energy_onsets);
                assert(r@ == agreed_onsets(
                    consensus_of(
                        c,
                        config.onset_consensus_weights@,
                        config.onset_consensus_tolerance_ms,
                        sample_rate,
                    ),
                    energy_onsets@,
                ));
                r
            },
            Err(_) => copy_onsets(energy_onsets),
        }
    } else {
        copy_onsets(energy_onsets)
    }
}

/// The loudness that samples are brought to, in LUFS.
#[verifier::allow_in_spec]
pub fn target_loudness_lufs() -> F32
    returns
        ratio(14, 1).neg(),
{
    ratio(14, 1).neg()
}

/// The headroom that is left above samples, in dB.
#[verifier::allow_in_spec]
pub fn headroom_db() -> F32
    returns
        ratio(1, 1),
{
    ratio(1, 1)
}

/// The shortest silence that is cut off, in milliseconds.
#[verifier::allow_in_spec]
pub fn shortest_silence_ms() -> u32
    returns
        500u32,
{
    500
}

/// The level, relative to the greatest rise in energy, above which there is an onset,
/// in dB.
#[verifier::allow_in_spec]
pub fn energy_onset_level_db() -> F32
    returns
        ratio(20, 1).neg(),
{
    ratio(20, 1).neg()
}

} // verus!
