//! Tables of tempos: pairs of a tempo and its strength, the strongest first.
use crate::error::invalid_input;
use crate::error::AnalysisError;
use crate::float::clamp_unit;
use crate::float::ratio;
use crate::float::zero;
use crate::float::F32;
use crate::number_text::shortest;
use crate::number_text::shortest_of;
use crate::sorting::arrange;
use crate::sorting::arranged;
use crate::sorting::sort_order;
use crate::sorting::sorted_order;
use vstd::prelude::*;
use vstd::string::StringExecFns;

verus! {

/// The strengths of a table.
pub open spec fn strengths(table: Seq<(F32, F32)>) -> Seq<F32> {
    Seq::new(table.len(), |i: int| table[i].1)
}

/// The table with the strongest tempo first; tempos that tie keep their order.
pub open spec fn by_strength(table: Seq<(F32, F32)>) -> Seq<(F32, F32)> {
    arranged(table, sorted_order(strengths(table), true, table.len()))
}

/// Sorts a table, the strongest tempo first.
pub fn sort_by_strength(table: &[(F32, F32)]) -> (r: Vec<(F32, F32)>)
    ensures
        r@ == by_strength(table@),
        r@.len() == table@.len(),
{
    let mut keys: Vec<F32> = Vec::new();
    let mut i: usize = 0;
    while i < table.len()
        invariant
            i <= table.len(),
            keys@.len() == i,
            forall|k: int| 0 <= k < i ==> keys@[k] == table@[k].1,
        decreases table.len() - i,
    {
        keys.push(table[i].1);
        i = i + 1;
    }
    assert(keys@ =~= strengths(table@));
    let order: Vec<usize> = sort_order(keys.as_slice(), true);
    arrange(table, order.as_slice())
}

/// How much of the best strength is above the second best one.
#[verifier::allow_in_spec]
pub fn prominence(best: F32, second: F32) -> F32
    returns
        (if best > ratio(1, 10_000_000_000) {
            clamp_unit((best - second).max(zero()) / best)
        } else {
            zero()
        }),
{
    if best > ratio(1, 10_000_000_000) {
        clamp_unit((best - second).max(zero()) / best)
    } else {
        zero()
    }
}

/// The confidence in the first tempo of a table that is not empty: how it stands
/// out from the second one, and moderate where there is none.
pub open spec fn table_confidence(table: Seq<(F32, F32)>) -> F32 {
    if table.len() > 1 {
        prominence(table[0].1, table[1].1)
    } else {
        ratio(5, 10)
    }
}

pub(crate) fn find_confidence(table: &[(F32, F32)]) -> (r: F32)
    requires
        table@.len() > 0,
    ensures
        r == table_confidence(table@),
{
    if table.len() > 1 {
        prominence(table[0].1, table[1].1)
    } else {
        ratio(5, 10)
    }
}

pub open spec fn range_text(min_bpm: F32, max_bpm: F32) -> Seq<char> {
    "Invalid BPM range: min="@ + shortest_of(min_bpm) + ", max="@ + shortest_of(max_bpm)
}

/// What is wrong with the parameters of a tempogram.
pub open spec fn parameter_error(
    curve_len: nat,
    sample_rate: u32,
    hop_size: u32,
    min_bpm: F32,
    max_bpm: F32,
) -> Option<Seq<char>> {
    if curve_len == 0 {
        Some("Novelty curve is empty"@)
    } else if sample_rate == 0 {
        Some("Sample rate must be > 0"@)
    } else if hop_size == 0 {
        Some("Hop size must be > 0"@)
    } else if min_bpm <= zero() || max_bpm <= min_bpm {
        Some(range_text(min_bpm, max_bpm))
    } else {
        None
    }
}

/// Checks the parameters of a tempogram.
pub fn check_parameters(
    curve_len: usize,
    sample_rate: u32,
    hop_size: u32,
    min_bpm: F32,
    max_bpm: F32,
) -> (r: Result<(), AnalysisError>)
    ensures
        match parameter_error(curve_len as nat, sample_rate, hop_size, min_bpm, max_bpm) {
            Some(msg) => crate::error::is_invalid_input(r, msg),
            None => r is Ok,
        },
{
    if curve_len == 0 {
        return Err(invalid_input("Novelty curve is empty"));
    }
    if sample_rate == 0 {
        return Err(invalid_input("Sample rate must be > 0"));
    }
    if hop_size == 0 {
        return Err(invalid_input("Hop size must be > 0"));
    }
    if min_bpm <= zero() || max_bpm <= min_bpm {
        return Err(
            AnalysisError::InvalidInput(
                "Invalid BPM range: min=".to_owned().concat(shortest(min_bpm).as_str()).concat(
                    ", max=",
                ).concat(shortest(max_bpm).as_str()),
            ),
        );
    }
    Ok(())
}

/// Frames per second.
#[verifier::allow_in_spec]
pub fn frame_rate(sample_rate: u32, hop_size: u32) -> F32
    returns
        F32::from_u32(sample_rate) / F32::from_u32(hop_size),
{
    F32::from_u32(sample_rate) / F32::from_u32(hop_size)
}

} // verus!
