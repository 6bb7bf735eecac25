//! What holds of every confidence of an analysis.
use crate::float::F32;
use crate::float::clamp_unit;
use crate::float::one;
use crate::float::ratio;
use crate::float::zero;
use crate::float_laws::in_unit;
use crate::float_laws::lemma_clamp_unit;
use crate::float_laws::lemma_nonnegative;
use crate::float_laws::lemma_product_error;
use crate::float_laws::lemma_ratio_in_unit;
use crate::float_laws::lemma_ratio_is_finite;
use crate::float_laws::lemma_ratio_order;
use crate::float_laws::lemma_scaled_down;
use crate::float_laws::lemma_sum_error;
use crate::float_laws::lemma_sum_grows;
use crate::float_laws::lemma_unit_is_finite;
use crate::float_laws::lemma_unit_product;
use crate::float_laws::lemma_zero_and_one;
use crate::float_order::lemma_products_keep_order;
use crate::float_order::lemma_sums_keep_order;
use crate::float_order::lemma_tenths;
use crate::float_order::lemma_times_one;
use crate::float_order::lemma_unit_within;
use crate::float_sizes::lemma_sum_within;
use crate::float_sizes::lemma_within_more;
use crate::text::occurs_in;
use super::confidence::AnalysisConfidence;
use super::confidence::bpm_confidence_of;
use super::confidence::flags_of;
use super::confidence::key_confidence_of;
use super::confidence::overall_confidence_of;
use super::result::AnalysisFlag;
use super::result::AnalysisResult;
use vstd::arithmetic::power2::lemma2_to64;
use vstd::arithmetic::power2::lemma_pow2_adds;
use vstd::arithmetic::power2::lemma_pow2_pos;
use vstd::arithmetic::power2::pow2;
use vstd::prelude::*;

verus! {

/// One of the warnings is about the key: it holds "key", "Key" or "tonality".
pub open spec fn doubts_key(result: AnalysisResult) -> bool {
    exists|i: int|
        0 <= i < result.metadata.confidence_warnings@.len() && {
            let text = (#[trigger] result.metadata.confidence_warnings@[i])@;
            occurs_in("key"@, text) || occurs_in("Key"@, text) || occurs_in("tonality"@, text)
        }
}

/// One of the warnings is about the tempo: it holds "BPM".
pub open spec fn doubts_tempo(result: AnalysisResult) -> bool {
    exists|i: int|
        0 <= i < result.metadata.confidence_warnings@.len() && occurs_in(
            "BPM"@,
            (#[trigger] result.metadata.confidence_warnings@[i])@,
        )
}

proof fn lemma_words_of_doubt(result: AnalysisResult)
    ensures
        doubts_key(result) == super::confidence::warned_of_key(
            result.metadata.confidence_warnings@,
        ),
        doubts_tempo(result) == super::confidence::warned_of(
            result.metadata.confidence_warnings@,
            "BPM"@,
        ),
{
    let w = result.metadata.confidence_warnings@;
    if super::confidence::warned_of(w, "key"@) {
        let i = choose|i: int| 0 <= i < w.len() && occurs_in("key"@, #[trigger] w[i]@);
        assert(doubts_key(result));
    }
    if super::confidence::warned_of(w, "Key"@) {
        let i = choose|i: int| 0 <= i < w.len() && occurs_in("Key"@, #[trigger] w[i]@);
        assert(doubts_key(result));
    }
    if super::confidence::warned_of(w, "tonality"@) {
        let i = choose|i: int| 0 <= i < w.len() && occurs_in("tonality"@, #[trigger] w[i]@);
        assert(doubts_key(result));
    }
}

/// A key that was detected keeps at least six tenths of its confidence, and at least
/// 0.85 of it where its clarity is 0.2 or more; a key with a clarity of 0.5 or more
/// keeps all of it, and no key without that clarity does. A warning about the key
/// leaves seven tenths of what is kept. A key that was not detected has no confidence.
pub proof fn lemma_key_keeps_its_confidence(result: AnalysisResult)
    requires
        !result.key_confidence.is_nan(),
        !result.key_clarity.is_nan(),
    ensures
        ({
            let detected = clamp_unit(result.key_confidence);
            let key = key_confidence_of(result);
            let left = if doubts_key(result) {
                ratio(7, 10)
            } else {
                one()
            };
            if result.key_confidence <= zero() {
                key == zero()
            } else {
                &&& detected * ratio(6, 10) * left <= key
                &&& result.key_clarity >= ratio(2, 10) ==> detected * ratio(85, 100) * left <= key
                &&& result.key_clarity >= ratio(5, 10) ==> detected * one() * left <= key
                &&& result.key_clarity < ratio(2, 10) ==> key <= detected * ratio(6, 10) * left
                &&& result.key_clarity < ratio(5, 10) ==> key <= detected * ratio(85, 100) * left
                &&& key <= detected * left
                &&& result.key_clarity >= ratio(5, 10) && !doubts_key(result)
                    ==> key.same_number(detected)
            }
        }),
{
    lemma_words_of_doubt(result);
    lemma_zero_and_one();
    lemma_clamp_unit(result.key_confidence);
    let x = clamp_unit(result.key_confidence);
    lemma_unit_is_finite(x);
    lemma_ratio_in_unit(7, 10);
    lemma_ratio_in_unit(6, 10);
    lemma_ratio_in_unit(85, 100);
    lemma_unit_is_finite(ratio(7, 10));
    lemma_unit_is_finite(ratio(6, 10));
    lemma_unit_is_finite(ratio(85, 100));
    lemma_unit_is_finite(one());
    lemma_ratio_order(6, 10, 85, 100);
    lemma_ratio_order(2, 10, 5, 10);
    let left = if doubts_key(result) {
        ratio(7, 10)
    } else {
        one()
    };
    lemma_products_keep_order(x, ratio(6, 10), x, ratio(85, 100));
    lemma_products_keep_order(x, ratio(85, 100), x, one());
    lemma_products_keep_order(x, ratio(6, 10), x, ratio(6, 10));
    lemma_unit_product(x, ratio(6, 10));
    lemma_unit_product(x, ratio(85, 100));
    lemma_unit_product(x, one());
    lemma_unit_is_finite(x * ratio(85, 100));
    lemma_unit_is_finite(x * one());
    lemma_unit_is_finite(x * ratio(6, 10));
    lemma_products_keep_order(x * ratio(6, 10), left, x * ratio(6, 10), left);
    lemma_products_keep_order(x * ratio(6, 10), left, x * ratio(85, 100), left);
    lemma_products_keep_order(x * ratio(85, 100), left, x * ratio(85, 100), left);
    lemma_products_keep_order(x * ratio(85, 100), left, x * one(), left);
    lemma_products_keep_order(x * one(), left, x * one(), left);
    lemma_times_one(x);
    lemma_products_keep_order(x * one(), left, x, left);
    lemma_times_one(x * one());
}

/// All else equal, the confidence of a key does not fall as its clarity or the
/// confidence that it was detected with rises.
pub proof fn lemma_clearer_key_is_surer(a: AnalysisResult, b: AnalysisResult)
    requires
        a.key_confidence <= b.key_confidence,
        a.key_clarity <= b.key_clarity,
        doubts_key(b) ==> doubts_key(a),
    ensures
        key_confidence_of(a) <= key_confidence_of(b),
{
    lemma_words_of_doubt(a);
    lemma_words_of_doubt(b);
    lemma_zero_and_one();
    super::confidence::lemma_confidences_in_unit(
        AnalysisResult { bpm_confidence: zero(), grid_stability: zero(), ..b },
    );
    lemma_clamp_unit(a.key_confidence);
    lemma_clamp_unit(b.key_confidence);
    let x = clamp_unit(a.key_confidence);
    let y = clamp_unit(b.key_confidence);
    lemma_unit_is_finite(x);
    lemma_unit_is_finite(y);
    lemma_ratio_in_unit(7, 10);
    lemma_ratio_in_unit(6, 10);
    lemma_ratio_in_unit(85, 100);
    lemma_ratio_order(6, 10, 85, 100);
    lemma_ratio_order(2, 10, 5, 10);
    lemma_unit_is_finite(one());
    let p = super::confidence::clarity_adjustment(a.key_clarity);
    let q = super::confidence::clarity_adjustment(b.key_clarity);
    lemma_unit_is_finite(q);
    let left = if doubts_key(a) {
        ratio(7, 10)
    } else {
        one()
    };
    let right = if doubts_key(b) {
        ratio(7, 10)
    } else {
        one()
    };
    lemma_unit_is_finite(right);
    assert(p <= q);
    assert(x <= y);
    if !(a.key_confidence <= zero()) {
        lemma_products_keep_order(x, p, y, q);
        lemma_unit_product(y, q);
        lemma_unit_is_finite(y * q);
        lemma_products_keep_order(x * p, left, y * q, right);
    }
}

/// A tempo that was found keeps all of its confidence without a warning about it and
/// seven tenths with one; a tempo that was not found has no confidence.
pub proof fn lemma_tempo_keeps_its_confidence(result: AnalysisResult)
    requires
        !result.bpm_confidence.is_nan(),
        !result.bpm.is_nan(),
    ensures
        ({
            let detected = clamp_unit(result.bpm_confidence);
            let tempo = bpm_confidence_of(result);
            if result.bpm > zero() {
                &&& !doubts_tempo(result) ==> tempo.same_number(detected)
                &&& detected * ratio(7, 10) <= tempo
                &&& doubts_tempo(result) ==> tempo <= detected * ratio(7, 10)
            } else {
                tempo == zero()
            }
        }),
{
    lemma_words_of_doubt(result);
    lemma_zero_and_one();
    lemma_clamp_unit(result.bpm_confidence);
    let x = clamp_unit(result.bpm_confidence);
    lemma_unit_is_finite(x);
    lemma_ratio_in_unit(7, 10);
    lemma_scaled_down(x, ratio(7, 10));
}

/// All else equal, the overall confidence does not fall as that of the tempo, of the
/// key or of the grid rises, where both tempo and key were found.
pub proof fn lemma_surer_parts_make_a_surer_whole(a: (F32, F32, F32), b: (F32, F32, F32))
    requires
        in_unit(a.0) && in_unit(a.1) && in_unit(a.2),
        in_unit(b.0) && in_unit(b.1) && in_unit(b.2),
        zero() < a.0 && a.0 <= b.0,
        zero() < a.1 && a.1 <= b.1,
        a.2 <= b.2,
    ensures
        overall_confidence_of(a.0, a.1, a.2) <= overall_confidence_of(b.0, b.1, b.2),
{
    lemma_zero_and_one();
    lemma_ratio_in_unit(4, 10);
    lemma_ratio_in_unit(3, 10);
    lemma_unit_is_finite(ratio(4, 10));
    lemma_unit_is_finite(ratio(3, 10));
    lemma_unit_is_finite(b.0);
    lemma_unit_is_finite(b.1);
    lemma_unit_is_finite(b.2);
    lemma_products_keep_order(a.0, ratio(4, 10), b.0, ratio(4, 10));
    lemma_products_keep_order(a.1, ratio(3, 10), b.1, ratio(3, 10));
    lemma_products_keep_order(a.2, ratio(3, 10), b.2, ratio(3, 10));
    lemma_sums_keep_order(
        a.0 * ratio(4, 10),
        a.1 * ratio(3, 10),
        b.0 * ratio(4, 10),
        b.1 * ratio(3, 10),
    );
    lemma_sums_keep_order(
        a.0 * ratio(4, 10) + a.1 * ratio(3, 10),
        a.2 * ratio(3, 10),
        b.0 * ratio(4, 10) + b.1 * ratio(3, 10),
        b.2 * ratio(3, 10),
    );
}

/// `n` tenths of the unit is what `u` of it comes to, within one part in a million of
/// the unit.
pub open spec fn about_tenths(u: int, n: int) -> bool {
    &&& (10 * u - n) * 0x10_0000 <= 10 * pow2(149)
    &&& (n - 10 * u) * 0x10_0000 <= 10 * pow2(149)
}

proof fn lemma_tenths_of(x: F32, n: u32)
    requires
        in_unit(x),
        n <= 10,
    ensures
        in_unit(x * ratio(n, 10)),
        (10 * (x * ratio(n, 10)).units() - n * x.units()) * 0x40_0000 <= 10 * pow2(149),
        (n * x.units() - 10 * (x * ratio(n, 10)).units()) * 0x40_0000 <= 10 * pow2(149),
{
    lemma_zero_and_one();
    lemma_tenths(n);
    lemma_ratio_in_unit(n, 10);
    lemma_ratio_is_finite(n, 10);
    lemma_unit_is_finite(x);
    lemma_unit_product(x, ratio(n, 10));
    lemma_unit_is_finite(x * ratio(n, 10));
    lemma_product_error(x, ratio(n, 10));
    lemma_nonnegative(x);
    lemma_nonnegative(x * ratio(n, 10));
    let u = x.units();
    let r = ratio(n, 10).units();
    let y = (x * ratio(n, 10)).units();
    let p = pow2(149) as int;
    lemma_pow2_pos(149);
    lemma_pow2_adds(24, 125);
    lemma_pow2_pos(125);
    lemma2_to64();
    assert(0x80_0000 <= p);
    // y is off from u * r / p, and r from n * p / 10
    assert(0x100_0000 * (u * r - p * y) <= 2 * (p * p) && 0x100_0000 * (p * y - u * r) <= 2 * (p * p))
        by (nonlinear_arith)
        requires
            0x100_0000 * (u * r - p * y) <= p * (y + 0x80_0000),
            0x100_0000 * (p * y - u * r) <= p * (y + 0x80_0000),
            0 <= y <= p,
            0x80_0000 <= p,
    ;
    assert(0x80_0000 * (10 * (u * r) - n * (u * p)) <= 10 * (p * p) && 0x80_0000 * (n * (u * p) - 10 * (u
        * r)) <= 10 * (p * p)) by (nonlinear_arith)
        requires
            (10 * r - n * p) * 0x80_0000 <= 10 * p,
            (n * p - 10 * r) * 0x80_0000 <= 10 * p,
            0 <= u <= p,
            p > 0,
    ;
    assert(p * ((10 * y - n * u) * 0x40_0000) <= p * (10 * p)) by (nonlinear_arith)
        requires
            0x100_0000 * (p * y - u * r) <= 2 * (p * p),
            0x80_0000 * (10 * (u * r) - n * (u * p)) <= 10 * (p * p),
            p > 0,
    ;
    assert(p * ((n * u - 10 * y) * 0x40_0000) <= p * (10 * p)) by (nonlinear_arith)
        requires
            0x100_0000 * (u * r - p * y) <= 2 * (p * p),
            0x80_0000 * (n * (u * p) - 10 * (u * r)) <= 10 * (p * p),
            p > 0,
    ;
    assert((10 * y - n * u) * 0x40_0000 <= 10 * p) by (nonlinear_arith)
        requires
            p * ((10 * y - n * u) * 0x40_0000) <= p * (10 * p),
            p > 0,
    ;
    assert((n * u - 10 * y) * 0x40_0000 <= 10 * p) by (nonlinear_arith)
        requires
            p * ((n * u - 10 * y) * 0x40_0000) <= p * (10 * p),
            p > 0,
    ;
}

/// Where tempo and key were both found, the overall confidence is made of four tenths
/// of the first and three tenths each of the second and of that of the grid. Where only
/// one was found it is six tenths of that one, and without either there is none.
pub proof fn lemma_overall_confidence_is_shared(bpm: F32, key: F32, grid: F32)
    requires
        in_unit(bpm),
        in_unit(key),
        in_unit(grid),
    ensures
        ({
            let overall = overall_confidence_of(bpm, key, grid).units();
            &&& zero() < bpm && zero() < key ==> about_tenths(
                overall,
                4 * bpm.units() + 3 * key.units() + 3 * grid.units(),
            )
            &&& zero() < bpm && !(zero() < key) ==> about_tenths(overall, 6 * bpm.units())
            &&& !(zero() < bpm) && zero() < key ==> about_tenths(overall, 6 * key.units())
            &&& !(zero() < bpm) && !(zero() < key) ==> overall == 0
        }),
{
    lemma_zero_and_one();
    lemma_tenths_of(bpm, 4);
    lemma_tenths_of(key, 3);
    lemma_tenths_of(grid, 3);
    lemma_tenths_of(bpm, 6);
    lemma_tenths_of(key, 6);
    lemma_nonnegative(bpm);
    lemma_nonnegative(key);
    lemma_nonnegative(grid);
    let p = pow2(149) as int;
    lemma_pow2_pos(149);
    lemma_pow2_adds(24, 125);
    lemma_pow2_pos(125);
    lemma2_to64();
    let a = bpm * ratio(4, 10);
    let b = key * ratio(3, 10);
    let c = grid * ratio(3, 10);
    lemma_unit_is_finite(a);
    lemma_unit_is_finite(b);
    lemma_unit_is_finite(c);
    lemma_unit_within(a);
    lemma_unit_within(b);
    lemma_unit_within(c);
    lemma_sum_within(a, b, 149);
    lemma_within_more(c, 149, 150);
    lemma_sum_within(a + b, c, 150);
    lemma_sum_grows(a, b);
    lemma_sum_grows(a + b, c);
    lemma_sum_error(a, b);
    lemma_sum_error(a + b, c);
    lemma_nonnegative(a);
    lemma_nonnegative(b);
    lemma_nonnegative(c);
    lemma_nonnegative(a + b);
    lemma_nonnegative(a + b + c);
}

/// The issues that were found before stay, and what is added to them are at most the
/// three that low confidences stand for: each is added exactly where its confidence
/// is low.
pub proof fn lemma_low_confidences_are_flagged(found: Seq<AnalysisFlag>, bpm: F32, key: F32, grid: F32)
    ensures
        ({
            let flags = flags_of(found, bpm, key, grid);
            let added = flags.skip(found.len() as int);
            &&& found.len() <= flags.len()
            &&& flags.take(found.len() as int) == found
            &&& added.no_duplicates()
            &&& forall|f: AnalysisFlag|
                added.contains(f) <==> (f == AnalysisFlag::MultimodalBpm && bpm < ratio(3, 10)) || (f
                    == AnalysisFlag::WeakTonality && key < ratio(2, 10)) || (f
                    == AnalysisFlag::TempoVariation && grid < ratio(3, 10))
        }),
{
    let flags = flags_of(found, bpm, key, grid);
    let added = flags.skip(found.len() as int);
    assert(flags.take(found.len() as int) =~= found);
    let f1 = if bpm < ratio(3, 10) {
        seq![AnalysisFlag::MultimodalBpm]
    } else {
        Seq::empty()
    };
    let f2 = if key < ratio(2, 10) {
        f1.push(AnalysisFlag::WeakTonality)
    } else {
        f1
    };
    let f3 = if grid < ratio(3, 10) {
        f2.push(AnalysisFlag::TempoVariation)
    } else {
        f2
    };
    assert(added =~= f3);
    assert forall|f: AnalysisFlag|
        (f == AnalysisFlag::MultimodalBpm && bpm < ratio(3, 10)) || (f == AnalysisFlag::WeakTonality
            && key < ratio(2, 10)) || (f == AnalysisFlag::TempoVariation && grid < ratio(
            3,
            10,
        )) implies added.contains(f) by {
        if f == AnalysisFlag::MultimodalBpm {
            assert(f3[0] == f);
        } else if f == AnalysisFlag::WeakTonality {
            assert(f3[f1.len() as int] == f);
        } else {
            assert(f3[f2.len() as int] == f);
        }
    }
}

/// Every overall confidence has one level: from seven tenths on it is high, from one half
/// on medium, and below that low.
pub proof fn lemma_levels_by_confidence(c: AnalysisConfidence)
    requires
        !c.overall_confidence.is_nan(),
    ensures
        c.is_high_confidence() <==> ratio(7, 10) <= c.overall_confidence,
        c.is_medium_confidence() <==> ratio(5, 10) <= c.overall_confidence && !(ratio(7, 10)
            <= c.overall_confidence),
        c.is_low_confidence() <==> c.overall_confidence < ratio(5, 10),
{
    lemma_ratio_order(5, 10, 7, 10);
}

} // verus!
