//! What holds of every tempo that an analysis settles on.
use crate::features::period::fusion_laws::has_candidate_near;
use crate::features::period::tempogram::TempogramCandidateDebug;
use crate::features::period::types::BpmEstimate;
use crate::float::F32;
use crate::float::clamp_unit;
use crate::float::one;
use crate::float::ratio;
use crate::float::zero;
use crate::float_laws::in_unit;
use crate::float_laws::lemma_clamp_unit;
use crate::float_laws::lemma_ratio_above_zero;
use crate::float_laws::lemma_ratio_in_unit;
use crate::float_laws::lemma_ratio_order;
use crate::float_laws::lemma_scaled_down;
use crate::float_laws::lemma_sum_grows;
use crate::float_laws::lemma_unit_is_finite;
use crate::float_laws::lemma_unit_product;
use crate::float_laws::lemma_zero_and_one;
use crate::float_order::lemma_no_distance;
use crate::float_order::lemma_products_keep_order;
use crate::float_order::lemma_sums_keep_order;
use super::tempo::TempogramRun;
use super::tempo::ambiguous;
use super::tempo::heard_confidence;
use super::tempo::percussive_replaces;
use super::tempo::replaces_base;
use super::tempo::settled_run;
use super::tempo::support_near;
use super::tempo::tempo_of;
use super::tempo::tempo_ratio;
use vstd::prelude::*;

verus! {

/// What is settled on is what one of the tempograms found; that of the main hop where
/// the others are not looked at or did not come to anything.
pub proof fn lemma_settled_tempo_was_found(
    base: Option<TempogramRun>,
    multi: Option<TempogramRun>,
    percussive: Option<TempogramRun>,
    resolutions: bool,
    fallback: bool,
    resolution: F32,
)
    ensures
        ({
            let settled = settled_run(base, multi, percussive, resolutions, fallback, resolution);
            &&& settled is Some <==> base is Some
            &&& settled matches Some(e) ==> e == base->Some_0.estimate || (multi is Some && e
                == multi->Some_0.estimate) || (percussive is Some && e
                == percussive->Some_0.estimate)
            &&& base is Some && (!resolutions || (multi is None && percussive is None))
                ==> settled == Some(base->Some_0.estimate)
            &&& base is Some && (!fallback || percussive is None) ==> settled == Some(
                base->Some_0.estimate,
            ) || (multi is Some && settled == Some(multi->Some_0.estimate))
        }),
{
}

proof fn lemma_no_support(c: Seq<TempogramCandidateDebug>, bpm: F32, tolerance: F32, n: nat)
    requires
        n <= c.len(),
        !has_candidate_near(c, bpm, tolerance),
    ensures
        support_near(c, bpm, tolerance, n) == zero(),
    decreases n,
{
    if n > 0 {
        lemma_no_support(c, bpm, tolerance, (n - 1) as nat);
        assert(!((c[n - 1].bpm - bpm).abs() <= tolerance));
    }
}

/// A tempo that is not in doubt stands, whatever the other tempograms found: it is
/// neither from 55 to 80 nor from 170 to 200, no candidate stands for its double or its
/// half, and its own tempograms agree on it with some confidence.
pub proof fn lemma_tempo_beyond_doubt_stands(
    base: TempogramRun,
    multi: Option<TempogramRun>,
    percussive: Option<TempogramRun>,
    resolutions: bool,
    fallback: bool,
    resolution: F32,
)
    requires
        base.estimate.bpm < ratio(55, 1) || (ratio(80, 1) < base.estimate.bpm && base.estimate.bpm
            < ratio(170, 1)) || ratio(200, 1) < base.estimate.bpm,
        !has_candidate_near(
            base.candidates@,
            base.estimate.bpm * ratio(2, 1),
            ratio(2, 1).max(resolution),
        ),
        !has_candidate_near(
            base.candidates@,
            base.estimate.bpm * ratio(5, 10),
            ratio(2, 1).max(resolution),
        ),
        base.estimate.method_agreement > 0,
        base.estimate.confidence >= ratio(6, 100),
    ensures
        settled_run(Some(base), multi, percussive, resolutions, fallback, resolution) == Some(
            base.estimate,
        ),
{
    lemma_zero_and_one();
    lemma_ratio_order(55, 1, 80, 1);
    lemma_ratio_order(80, 1, 170, 1);
    lemma_ratio_order(170, 1, 200, 1);
    lemma_ratio_order(55, 1, 170, 1);
    let c = base.candidates@;
    let tolerance = ratio(2, 1).max(resolution);
    lemma_no_support(c, base.estimate.bpm * ratio(2, 1), tolerance, c.len());
    lemma_no_support(c, base.estimate.bpm * ratio(5, 10), tolerance, c.len());
    assert(!ambiguous(base.estimate, c, resolution));
}

/// A tempo never gives way to one that is much less sure: what several resolutions put
/// in its place has 0.88 of its confidence at least, and what the percussive part puts
/// in the place of that has 0.85 of it at least.
pub proof fn lemma_settled_tempo_is_sure_enough(
    base: TempogramRun,
    multi: Option<TempogramRun>,
    percussive: Option<TempogramRun>,
    resolutions: bool,
    fallback: bool,
    resolution: F32,
)
    requires
        in_unit(base.estimate.confidence),
        multi is Some ==> in_unit(multi->Some_0.estimate.confidence),
        percussive is Some ==> in_unit(percussive->Some_0.estimate.confidence),
    ensures
        ({
            let first = settled_run(Some(base), multi, None, resolutions, fallback, resolution);
            let last = settled_run(Some(base), multi, percussive, resolutions, fallback, resolution);
            &&& base.estimate.confidence * ratio(88, 100) <= first->Some_0.confidence
            &&& first->Some_0.confidence * ratio(85, 100) <= last->Some_0.confidence
        }),
{
    lemma_zero_and_one();
    let x = base.estimate.confidence;
    lemma_shares_of(x);
    if multi is Some {
        lemma_shares_of(multi->Some_0.estimate.confidence);
    }
}

proof fn lemma_shares_of(x: F32)
    requires
        in_unit(x),
    ensures
        x * ratio(85, 100) <= x,
        x * ratio(88, 100) <= x,
        x * ratio(85, 100) <= x * ratio(88, 100),
        x * ratio(88, 100) <= x * ratio(90, 100),
        x * ratio(85, 100) <= x * ratio(92, 100),
        x <= x + ratio(5, 100),
        x <= x + ratio(4, 100),
{
    lemma_unit_is_finite(x);
    lemma_ratio_in_unit(85, 100);
    lemma_ratio_in_unit(88, 100);
    lemma_ratio_in_unit(90, 100);
    lemma_ratio_in_unit(92, 100);
    lemma_ratio_in_unit(5, 100);
    lemma_ratio_in_unit(4, 100);
    lemma_unit_is_finite(ratio(88, 100));
    lemma_unit_is_finite(ratio(90, 100));
    lemma_unit_is_finite(ratio(92, 100));
    lemma_ratio_order(85, 100, 88, 100);
    lemma_ratio_order(88, 100, 90, 100);
    lemma_ratio_order(85, 100, 92, 100);
    lemma_scaled_down(x, ratio(85, 100));
    lemma_scaled_down(x, ratio(88, 100));
    lemma_products_keep_order(x, ratio(85, 100), x, ratio(88, 100));
    lemma_products_keep_order(x, ratio(88, 100), x, ratio(90, 100));
    lemma_products_keep_order(x, ratio(85, 100), x, ratio(92, 100));
    lemma_sum_grows(x, ratio(5, 100));
    lemma_sum_grows(x, ratio(4, 100));
}

/// Where the tempo of the main hop is slow or fast enough to be half or twice the true
/// one, a surer one from several resolutions takes its place, unless it would turn a
/// moderate tempo into a fast one.
pub proof fn lemma_surer_tempo_takes_over(
    base: TempogramRun,
    multi: TempogramRun,
    fallback: bool,
    resolution: F32,
)
    requires
        (ratio(55, 1) <= base.estimate.bpm && base.estimate.bpm <= ratio(80, 1)) || (ratio(170, 1)
            <= base.estimate.bpm && base.estimate.bpm <= ratio(200, 1)),
        multi.estimate.bpm <= ratio(180, 1),
        base.estimate.confidence + ratio(5, 100) <= multi.estimate.confidence,
    ensures
        settled_run(Some(base), Some(multi), None, true, fallback, resolution) == Some(
            multi.estimate,
        ),
{
}

/// The onsets are heard: where their tempo is that of the tempogram its confidence does
/// not fall, where they know another one it does not rise, and where they know none it
/// stays. It rises with theirs, by 0.12 at most.
pub proof fn lemma_onsets_are_heard(confidence: F32, bpm: F32, from_onsets: (F32, F32))
    requires
        !confidence.is_nan(),
        !from_onsets.1.is_nan(),
        bpm.is_finite(),
    ensures
        ({
            let heard = heard_confidence(confidence, bpm, from_onsets);
            let before = clamp_unit(confidence);
            let same = (from_onsets.0 - bpm).abs() <= ratio(2, 1);
            &&& in_unit(heard)
            &&& from_onsets.0 > zero() && same ==> before <= heard
            &&& heard <= before + ratio(12, 100)
            &&& from_onsets.0 > zero() ==> before * ratio(90, 100) <= heard
            &&& !(from_onsets.0 > zero()) ==> heard.same_number(before)
            &&& from_onsets.0 > zero() && !same && !((from_onsets.0 - bpm * ratio(5, 10)).abs()
                <= ratio(2, 1)) && !((from_onsets.0 - bpm * ratio(2, 1)).abs() <= ratio(2, 1)) && !((
            from_onsets.0 - bpm * ratio(2, 3)).abs() <= ratio(2, 1)) && !((from_onsets.0 - bpm * ratio(
                15,
                10,
            )).abs() <= ratio(2, 1)) ==> heard <= before * ratio(90, 100)
            &&& heard_confidence(confidence, bpm, (bpm, from_onsets.1)) >= before || bpm <= zero()
        }),
{
    lemma_zero_and_one();
    lemma_clamp_unit(confidence);
    lemma_clamp_unit(from_onsets.1);
    let x = clamp_unit(confidence);
    let y = clamp_unit(from_onsets.1);
    lemma_unit_is_finite(x);
    lemma_unit_is_finite(y);
    lemma_ratio_in_unit(12, 100);
    lemma_ratio_in_unit(90, 100);
    lemma_unit_is_finite(ratio(12, 100));
    lemma_unit_is_finite(ratio(90, 100));
    lemma_unit_is_finite(one());
    lemma_unit_product(ratio(12, 100), y);
    lemma_unit_product(x, ratio(90, 100));
    lemma_scaled_down(ratio(12, 100), y);
    lemma_scaled_down(x, ratio(90, 100));
    lemma_sum_grows(x, ratio(12, 100) * y);
    lemma_sum_grows(x, ratio(12, 100));
    lemma_sums_keep_order(x, ratio(12, 100) * y, x, ratio(12, 100));
    lemma_no_distance(bpm);
    lemma_ratio_order(0, 1, 2, 1);
}

/// Where only the onsets are asked for the tempo, it is theirs; where they are not heard
/// and the tempogram found one, it is that of the tempogram with its confidence; and
/// where the tempogram found none, it is theirs again.
pub proof fn lemma_tempo_is_of_what_was_asked(
    from_onsets: BpmEstimate,
    tempogram: BpmEstimate,
    legacy: bool,
    fused: bool,
)
    ensures
        tempo_of(Some(from_onsets), Some(tempogram), true, fused) == (
            from_onsets.bpm,
            from_onsets.confidence,
        ),
        tempo_of(Some(from_onsets), Some(tempogram), false, false) == (
            tempogram.bpm,
            tempogram.confidence,
        ),
        tempo_of(Some(from_onsets), None, legacy, fused) == (
            from_onsets.bpm,
            from_onsets.confidence,
        ),
        zero() < tempogram.bpm ==> tempo_of(Some(from_onsets), Some(tempogram), false, true).0
            == tempogram.bpm,
        tempo_of(None, None, legacy, fused) == (zero(), zero()),
{
    lemma_zero_and_one();
}

/// How far two tempos are apart is the same from either of them, and never less than
/// once: the greater is so many times the smaller.
pub proof fn lemma_ratio_of_tempos(a: F32, b: F32)
    requires
        ratio(1, 1_000_000) < a,
        a <= b,
        b.is_finite(),
    ensures
        tempo_ratio(a, b).same_number(tempo_ratio(b, a)),
        one() <= tempo_ratio(a, b),
        tempo_ratio(a, b).same_number(b / a),
{
    lemma_zero_and_one();
    lemma_ratio_above_zero(1, 1_000_000);
    crate::float_order::lemma_finite_below(a, b);
    crate::float_order::lemma_quotient_is_number(a, b);
    crate::float_order::lemma_quotient_is_number(b, a);
    crate::float_laws::lemma_part_of_whole(a, b);
    crate::float_laws::lemma_itself_once(a);
    crate::float_laws::lemma_quotient_keeps_order(a, b, a);
}

/// No second look turns a tempo of up to 180 into a faster one than that.
pub proof fn lemma_no_tempo_turns_fast(base: BpmEstimate, chosen: BpmEstimate, other: BpmEstimate)
    requires
        ratio(180, 1) < other.bpm,
    ensures
        base.bpm <= ratio(180, 1) ==> !replaces_base(base, other),
        chosen.bpm <= ratio(180, 1) ==> !percussive_replaces(base, chosen, other),
{
}

} // verus!
