//! The autocorrelation tempogram: how much the novelty curve resembles itself one
//! beat later, for each tempo.
use super::comb_filter::tempos;
use super::tempo_table::by_strength;
use super::tempo_table::check_parameters;
use super::tempo_table::find_confidence;
use super::tempo_table::frame_rate;
use super::tempo_table::parameter_error;
use super::tempo_table::sort_by_strength;
use super::tempo_table::table_confidence;
use crate::error::gives;
use crate::error::AnalysisError;
use crate::error::Outcome;
use crate::float::ratio;
use crate::float::zero;
use crate::float::F32;
use crate::number_text::shortest;
use crate::number_text::shortest_of;
use vstd::prelude::*;
use vstd::string::StringExecFns;

verus! {

/// The best tempo of an autocorrelation tempogram.
#[derive(Debug, Clone, Copy)]
pub struct AutocorrTempogramResult {
    /// BPM estimate
    pub bpm: F32,
    /// How the peak stands out
    pub confidence: F32,
    /// Autocorrelation strength at this BPM
    pub strength: F32,
}

/// The number of frames from one beat to the next, in whole frames.
#[verifier::allow_in_spec]
pub fn lag_of(rate: F32, bpm: F32) -> usize
    returns
        (rate / (bpm / ratio(60, 1))).to_usize(),
{
    (rate / (bpm / ratio(60, 1))).to_usize()
}

/// The sum of the first `n` products of a value and the one `lag` frames later.
pub open spec fn lag_sum(curve: Seq<F32>, lag: int, n: nat) -> F32
    decreases n,
{
    if n == 0 {
        zero()
    } else {
        lag_sum(curve, lag, (n - 1) as nat) + curve[n - 1] * curve[n - 1 + lag]
    }
}

/// The mean of the products of a value and the one `lag` frames later.
pub open spec fn lag_strength(curve: Seq<F32>, lag: usize) -> F32 {
    if lag < curve.len() {
        let n = (curve.len() - lag) as nat;
        lag_sum(curve, lag as int, n) / F32::from_usize(n as usize)
    } else {
        zero()
    }
}

/// The tempos with their strengths.
pub open spec fn autocorr_table(curve: Seq<F32>, rate: F32, bpms: Seq<F32>) -> Seq<(F32, F32)> {
    Seq::new(bpms.len(), |i: int| (bpms[i], lag_strength(curve, lag_of(rate, bpms[i]))))
}

/// What is wrong with the parameters of an autocorrelation tempogram.
pub open spec fn autocorr_error(
    curve_len: nat,
    sample_rate: u32,
    hop_size: u32,
    min_bpm: F32,
    max_bpm: F32,
    step: F32,
) -> Option<Seq<char>> {
    match parameter_error(curve_len, sample_rate, hop_size, min_bpm, max_bpm) {
        Some(msg) => Some(msg),
        None => if step <= zero() {
            Some("BPM resolution must be > 0, got "@ + shortest_of(step))
        } else {
            None
        },
    }
}

/// The autocorrelation tempogram of a novelty curve.
pub open spec fn autocorr_tempogram_of(
    curve: Seq<F32>,
    sample_rate: u32,
    hop_size: u32,
    min_bpm: F32,
    max_bpm: F32,
    step: F32,
) -> Seq<(F32, F32)> {
    by_strength(
        autocorr_table(curve, frame_rate(sample_rate, hop_size), tempos(min_bpm, max_bpm, step)),
    )
}

fn compute_lag_strength(curve: &[F32], lag: usize) -> (r: F32)
    ensures
        r == lag_strength(curve@, lag),
{
    if lag >= curve.len() {
        return zero();
    }
    let n: usize = curve.len() - lag;
    let mut acc = zero();
    let mut i: usize = 0;
    while i < n
        invariant
            i <= n,
            n + lag == curve@.len(),
            acc == lag_sum(curve@, lag as int, i as nat),
        decreases n - i,
    {
        acc = acc + curve[i] * curve[i + lag];
        i = i + 1;
    }
    acc / F32::from_usize(n)
}

/// The tempos from `min_bpm` up to `limit`, in steps.
pub fn list_tempos(min_bpm: F32, limit: F32, step: F32) -> (r: Vec<F32>)
    ensures
        r@ == tempos(min_bpm, limit, step),
{
    let mut bpms: Vec<F32> = Vec::new();
    let ghost all: Seq<F32> = tempos(min_bpm, limit, step);
    let mut bpm = min_bpm;
    let mut more: bool = bpm <= limit;
    assert(all =~= bpms@ + tempos(bpm, limit, step));
    while more
        invariant
            all == tempos(min_bpm, limit, step),
            all == bpms@ + (if more {
                tempos(bpm, limit, step)
            } else {
                Seq::empty()
            }),
            more ==> bpm <= limit,
        decreases
            (if more {
                limit.units() - bpm.units() + 1
            } else {
                0
            }),
    {
        let ghost before: Seq<F32> = bpms@;
        let ghost tail: Seq<F32> = tempos(bpm, limit, step);
        bpms.push(bpm);
        assert(bpms@ =~= before + seq![bpm]);
        let next = bpm + step;
        if next > bpm {
            assert(before + tail =~= bpms@ + tempos(next, limit, step));
            bpm = next;
            more = bpm <= limit;
            assert(all =~= bpms@ + (if more {
                tempos(bpm, limit, step)
            } else {
                Seq::empty()
            }));
        } else {
            more = false;
            assert(all =~= bpms@ + Seq::<F32>::empty());
        }
    }
    assert(all =~= bpms@);
    bpms
}

/// Computes the autocorrelation tempogram of a novelty curve: pairs of a tempo
/// and its strength, the strongest first.
pub fn autocorrelation_tempogram(
    novelty_curve: &[F32],
    sample_rate: u32,
    hop_size: u32,
    min_bpm: F32,
    max_bpm: F32,
    bpm_resolution: F32,
) -> (r: Result<Vec<(F32, F32)>, AnalysisError>)
    ensures
        gives(
            r,
            match autocorr_error(
                novelty_curve@.len(),
                sample_rate,
                hop_size,
                min_bpm,
                max_bpm,
                bpm_resolution,
            ) {
                Some(msg) => Outcome::Invalid(msg),
                None => Outcome::Value(
                    autocorr_tempogram_of(
                        novelty_curve@,
                        sample_rate,
                        hop_size,
                        min_bpm,
                        max_bpm,
                        bpm_resolution,
                    ),
                ),
            },
        ),
{
    match check_parameters(novelty_curve.len(), sample_rate, hop_size, min_bpm, max_bpm) {
        Err(e) => {
            return Err(e);
        },
        Ok(_) => {},
    }
    if bpm_resolution <= zero() {
        return Err(
            AnalysisError::InvalidInput(
                "BPM resolution must be > 0, got ".to_owned().concat(
                    shortest(bpm_resolution).as_str(),
                ),
            ),
        );
    }
    let rate = frame_rate(sample_rate, hop_size);
    let bpms: Vec<F32> = list_tempos(min_bpm, max_bpm, bpm_resolution);
    let mut table: Vec<(F32, F32)> = Vec::new();
    let mut i: usize = 0;
    while i < bpms.len()
        invariant
            i <= bpms.len(),
            table@.len() == i,
            forall|k: int|
                0 <= k < i ==> table@[k] == (
                    bpms@[k],
                    lag_strength(novelty_curve@, lag_of(rate, bpms@[k])),
                ),
        decreases bpms.len() - i,
    {
        let strength = compute_lag_strength(novelty_curve, lag_of(rate, bpms[i]));
        table.push((bpms[i], strength));
        i = i + 1;
    }
    assert(table@ =~= autocorr_table(novelty_curve@, rate, bpms@));
    Ok(sort_by_strength(table.as_slice()))
}

/// The first tempo of a tempogram, with a confidence.
pub fn find_best_bpm_autocorr(tempogram: &[(F32, F32)]) -> (r: Option<AutocorrTempogramResult>)
    ensures
        r == if tempogram@.len() == 0 {
            None
        } else {
            Some(
                AutocorrTempogramResult {
                    bpm: tempogram@[0].0,
                    confidence: table_confidence(tempogram@),
                    strength: tempogram@[0].1,
                },
            )
        },
{
    if tempogram.len() == 0 {
        return None;
    }
    Some(
        AutocorrTempogramResult {
            bpm: tempogram[0].0,
            confidence: find_confidence(tempogram),
            strength: tempogram[0].1,
        },
    )
}

} // verus!
