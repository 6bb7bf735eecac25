//! Laws of the numbers: how arithmetic keeps them in order and in range.
use crate::float::abs_int;
use crate::float::clamp_unit;
use crate::float::one;
use crate::float::ratio;
use crate::float::zero;
use crate::float::F32;
use crate::rounding::lemma_mag_units_increases;
use crate::rounding::lemma_mag_units_monotone;
use crate::rounding::lemma_mag_units_nonnegative;
use crate::rounding::lemma_mag_units_scaled;
use crate::rounding::lemma_rounded_exact;
use crate::rounding::lemma_rounded_monotone;
use crate::rounding::mag_units;
use crate::rounding::rounded;
use crate::rounding::INF_BITS;
use vstd::arithmetic::power2::lemma_pow2_adds;
use vstd::arithmetic::power2::lemma_pow2_pos;
use vstd::arithmetic::power2::pow2;
use vstd::prelude::*;

verus! {

/// A number from zero to one.
pub open spec fn in_unit(x: F32) -> bool {
    zero() <= x && x <= one()
}

/// Zero and one are what they are called.
pub proof fn lemma_zero_and_one()
    ensures
        zero().units() == 0,
        one().units() == pow2(149),
        mag_units(one().mag()) == pow2(149),
        !zero().is_nan(),
        !one().is_nan(),
        zero() < one(),
        in_unit(zero()),
        in_unit(one()),
{
    reveal(F32::units);
    lemma_mag_units_scaled(0, 0);
    lemma_mag_units_scaled(126, 0x80_0000);
    lemma_pow2_adds(23, 126);
    lemma_pow2_pos(149);
    vstd::arithmetic::power2::lemma2_to64();
}

/// The value of a number that is not below zero.
pub proof fn lemma_nonnegative(x: F32)
    requires
        zero() <= x,
    ensures
        x.units() == mag_units(x.mag()),
        x.units() >= 0,
        x.negative() ==> x.mag() == 0,
        0 <= x.mag() <= INF_BITS,
{
    lemma_zero_and_one();
    reveal(F32::units);
    lemma_mag_units_nonnegative(x.mag());
    if x.negative() && x.mag() > 0 {
        lemma_mag_units_increases(0, x.mag());
        lemma_mag_units_nonnegative(0);
    }
    lemma_mag_units_scaled(0, 0);
}

/// A magnitude pattern, with or without a sign where it is zero, is not below zero
/// and has the value of the pattern.
pub proof fn lemma_from_pattern(negative: bool, mag: int)
    requires
        0 <= mag <= INF_BITS,
        negative ==> mag == 0,
    ensures
        crate::float::signed(negative, mag).units() == mag_units(mag),
        crate::float::signed(negative, mag).mag() == mag,
        zero() <= crate::float::signed(negative, mag),
{
    lemma_zero_and_one();
    reveal(F32::units);
    lemma_mag_units_nonnegative(mag);
    lemma_mag_units_scaled(0, 0);
}

/// A number brought into the range from zero to one is there, unless it is a NaN.
pub proof fn lemma_clamp_unit(x: F32)
    requires
        !x.is_nan(),
    ensures
        in_unit(clamp_unit(x)),
{
    lemma_zero_and_one();
}

/// A number times one from zero to one stays between zero and itself.
pub proof fn lemma_scaled_down(x: F32, c: F32)
    requires
        zero() <= x,
        x.is_finite(),
        in_unit(c),
    ensures
        zero() <= x * c,
        x * c <= x,
        (x * c).is_finite(),
{
    lemma_zero_and_one();
    lemma_nonnegative(x);
    lemma_nonnegative(c);
    reveal(F32::spec_mul);
    let ux = mag_units(x.mag());
    let uc = mag_units(c.mag());
    let p = pow2(149) as int;
    lemma_pow2_pos(149);
    if c.mag() == INF_BITS {
        lemma_mag_units_increases(one().mag(), c.mag());
    }
    assert(ux * uc >= 0 && (ux * uc) * p <= (ux * p) * p) by (nonlinear_arith)
        requires
            ux >= 0,
            0 <= uc <= p,
    ;
    assert(ux * p >= 0) by (nonlinear_arith)
        requires
            ux >= 0,
            p > 0,
    ;
    lemma_rounded_monotone(ux * uc, p, ux * p, p);
    lemma_rounded_exact(x.mag(), p);
    let m = rounded(ux * uc, p);
    let negative = x.negative() != c.negative();
    if negative {
        assert(ux * uc == 0) by (nonlinear_arith)
            requires
                ux == 0 || uc == 0,
        ;
        lemma_mag_units_scaled(0, 0);
        lemma_rounded_exact(0, p);
    }
    lemma_from_pattern(negative, m);
    lemma_mag_units_monotone(m, x.mag());
}

/// A number from zero to one is finite.
pub proof fn lemma_unit_is_finite(a: F32)
    requires
        in_unit(a),
    ensures
        a.is_finite(),
{
    lemma_zero_and_one();
    lemma_nonnegative(a);
    if a.mag() == INF_BITS {
        lemma_mag_units_increases(one().mag(), a.mag());
    }
}

/// The product of numbers from zero to one is from zero to one.
pub proof fn lemma_unit_product(a: F32, b: F32)
    requires
        in_unit(a),
        in_unit(b),
    ensures
        in_unit(a * b),
{
    lemma_zero_and_one();
    lemma_nonnegative(a);
    if a.mag() == INF_BITS {
        lemma_mag_units_increases(one().mag(), a.mag());
    }
    lemma_scaled_down(a, b);
}

/// A number divided by one that is not smaller is from zero to one.
pub proof fn lemma_part_of_whole(a: F32, b: F32)
    requires
        zero() <= a,
        a <= b,
        zero() < b,
        b.is_finite(),
    ensures
        in_unit(a / b),
{
    lemma_zero_and_one();
    lemma_nonnegative(a);
    lemma_nonnegative(b);
    reveal(F32::spec_euclidean_or_real_div);
    let ua = mag_units(a.mag());
    let ub = mag_units(b.mag());
    let p = pow2(149) as int;
    lemma_pow2_pos(149);
    lemma_mag_units_scaled(0, 0);
    if a.mag() == INF_BITS {
        lemma_mag_units_increases(b.mag(), a.mag());
    }
    assert(ub > 0);
    assert(ua * p >= 0 && (ua * p) * ub <= (p * ub) * ub) by (nonlinear_arith)
        requires
            0 <= ua <= ub,
            p > 0,
    ;
    assert(p * ub >= 0) by (nonlinear_arith)
        requires
            ub > 0,
            p > 0,
    ;
    lemma_rounded_monotone(ua * p, ub, p * ub, ub);
    lemma_rounded_exact(one().mag(), ub);
    let negative = a.negative() != b.negative();
    if a.mag() == 0 {
        lemma_from_pattern(negative, 0);
    } else {
        let m = rounded(ua * p, ub);
        assert(!negative);
        lemma_from_pattern(false, m);
        lemma_mag_units_monotone(m, one().mag());
    }
}

/// A sum of numbers that are not below zero is not below either of them.
pub proof fn lemma_sum_grows(a: F32, b: F32)
    requires
        zero() <= a,
        zero() <= b,
    ensures
        a <= a + b,
        b <= a + b,
        zero() <= a + b,
{
    lemma_zero_and_one();
    lemma_nonnegative(a);
    lemma_nonnegative(b);
    reveal(F32::spec_add);
    let ua = mag_units(a.mag());
    let ub = mag_units(b.mag());
    let sum = ua + ub;
    lemma_mag_units_monotone(a.mag(), INF_BITS as int);
    lemma_mag_units_monotone(b.mag(), INF_BITS as int);
    if sum == 0 {
        lemma_from_pattern(a.negative() && b.negative(), 0);
    } else if !a.infinite() && !b.infinite() {
        lemma_rounded_monotone(ua, 1, sum, 1);
        lemma_rounded_monotone(ub, 1, sum, 1);
        lemma_rounded_exact(a.mag(), 1);
        lemma_rounded_exact(b.mag(), 1);
        let m = rounded(sum, 1);
        lemma_from_pattern(false, m);
        lemma_mag_units_monotone(a.mag(), m);
        lemma_mag_units_monotone(b.mag(), m);
    }
}

/// A ratio that is not greater is not a greater number.
pub proof fn lemma_ratio_order(n1: u32, d1: u64, n2: u32, d2: u64)
    requires
        d1 > 0,
        d2 > 0,
        n1 * d2 <= n2 * d1,
    ensures
        zero() <= ratio(n1, d1),
        ratio(n1, d1) <= ratio(n2, d2),
{
    let p = pow2(149) as int;
    lemma_pow2_pos(149);
    assert(n1 * p >= 0 && n2 * p >= 0 && (n1 * p) * d2 <= (n2 * p) * d1) by (nonlinear_arith)
        requires
            p > 0,
            n1 * d2 <= n2 * d1,
            n1 >= 0,
            n2 >= 0,
    ;
    lemma_rounded_monotone(n1 * p, d1 as int, n2 * p, d2 as int);
    lemma_from_pattern(false, rounded(n1 * p, d1 as int));
    lemma_from_pattern(false, rounded(n2 * p, d2 as int));
    lemma_mag_units_monotone(rounded(n1 * p, d1 as int), rounded(n2 * p, d2 as int));
}

/// A ratio of a number above zero is a number above zero.
pub proof fn lemma_ratio_above_zero(n: u32, d: u64)
    requires
        n > 0,
        d > 0,
    ensures
        zero() < ratio(n, d),
{
    let p = pow2(149) as int;
    let q = pow2(64) as int;
    lemma_zero_and_one();
    lemma_pow2_pos(85);
    lemma_pow2_adds(64, 85);
    vstd::arithmetic::power2::lemma2_to64();
    lemma_mag_units_scaled(0, 1);
    lemma_mag_units_scaled(0, 0);
    lemma_rounded_exact(1, 1);
    assert(n * p >= 0 && 1 * d <= (n * p) * 1) by (nonlinear_arith)
        requires
            n >= 1,
            p == q * pow2(85),
            pow2(85) >= 1,
            d <= q,
            q > 0,
    ;
    assert(mag_units(1) == 1);
    lemma_rounded_monotone(1, 1, n * p, d as int);
    let m = rounded(n * p, d as int);
    lemma_from_pattern(false, m);
    lemma_mag_units_monotone(1, m);
}

/// A ratio that is no greater than one is a number from zero to one.
pub proof fn lemma_ratio_in_unit(n: u32, d: u64)
    requires
        d > 0,
        n <= d,
    ensures
        in_unit(ratio(n, d)),
{
    lemma_zero_and_one();
    lemma_rounded_exact(one().mag(), 1);
    assert(n * 1 <= 1 * d);
    lemma_ratio_order(n, d, 1, 1);
}

/// A number brought into the range from zero to one is not outside it, whatever it was.
pub proof fn lemma_clamp_never_outside(x: F32)
    ensures
        !(clamp_unit(x) < zero()),
        !(one() < clamp_unit(x)),
{
    lemma_zero_and_one();
}

/// The number is not outside the range from zero to one.
pub open spec fn never_outside(x: F32) -> bool {
    !(x < zero()) && !(one() < x)
}

proof fn lemma_unsigned(x: F32)
    requires
        x.negative() ==> x.mag() == 0,
    ensures
        !(x < zero()),
{
    reveal(F32::units);
    lemma_zero_and_one();
    lemma_mag_units_nonnegative(x.mag());
    lemma_mag_units_scaled(0, 0);
}

/// A square root is not below zero.
pub proof fn lemma_root_never_negative(x: F32)
    ensures
        !(x.sqrt() < zero()),
{
    reveal(crate::float::sqrt_of);
    let n = mag_units(x.mag()) * pow2(149);
    lemma_mag_units_nonnegative(x.mag());
    lemma_pow2_pos(149);
    assert(n >= 0) by (nonlinear_arith)
        requires
            n == mag_units(x.mag()) * pow2(149),
            mag_units(x.mag()) >= 0,
            pow2(149) > 0,
    ;
    crate::rounding::lemma_sqrt_exists(n);
    if x.is_nan() || (x.negative() && !x.zero_valued()) {
    } else {
        lemma_unsigned(x.sqrt());
    }
}

/// A number that is not below zero, divided by one above zero, is not below zero.
pub proof fn lemma_quotient_never_negative(a: F32, b: F32)
    requires
        !(a < zero()),
        zero() < b,
    ensures
        !(a / b < zero()),
{
    lemma_zero_and_one();
    lemma_nonnegative(b);
    reveal(F32::spec_euclidean_or_real_div);
    if !a.is_nan() {
        lemma_nonnegative(a);
        let ua = mag_units(a.mag());
        let ub = mag_units(b.mag());
        let p = pow2(149) as int;
        lemma_pow2_pos(149);
        lemma_mag_units_scaled(0, 0);
        if a.is_finite() && !a.zero_valued() && b.is_finite() {
            assert(ua * p >= 0) by (nonlinear_arith)
                requires
                    ua >= 0,
                    p > 0,
            ;
            crate::rounding::lemma_rounding_exists(ua * p, ub);
        }
        if !((a.infinite() && b.infinite()) || (a.zero_valued() && b.zero_valued())) {
            lemma_unsigned(a / b);
        }
    }
}

/// A product of numbers none of which is below zero is not below zero.
pub proof fn lemma_product_never_negative(a: F32, b: F32)
    requires
        !(a < zero()),
        !(b < zero()),
    ensures
        !(a * b < zero()),
{
    lemma_zero_and_one();
    reveal(F32::spec_mul);
    if !a.is_nan() && !b.is_nan() {
        lemma_nonnegative(a);
        lemma_nonnegative(b);
        let ua = mag_units(a.mag());
        let ub = mag_units(b.mag());
        let p = pow2(149) as int;
        lemma_pow2_pos(149);
        lemma_mag_units_scaled(0, 0);
        lemma_rounded_exact(0, p);
        assert(ua * ub >= 0 && (ua == 0 || ub == 0 ==> ua * ub == 0)) by (nonlinear_arith)
            requires
                ua >= 0,
                ub >= 0,
        ;
        crate::rounding::lemma_rounding_exists(ua * ub, p);
        if !((a.infinite() && b.zero_valued()) || (a.zero_valued() && b.infinite())) {
            if a.negative() != b.negative() {
                assert(mag_units(0) * p == 0) by (nonlinear_arith)
                    requires
                        mag_units(0) == 0,
                ;
                assert(ua * ub == 0);
            }
            lemma_unsigned(a * b);
        }
    }
}

/// A sum of numbers none of which is below zero is not below zero.
pub proof fn lemma_sum_never_negative(a: F32, b: F32)
    requires
        !(a < zero()),
        !(b < zero()),
    ensures
        !(a + b < zero()),
{
    lemma_zero_and_one();
    if a.is_nan() || b.is_nan() {
        reveal(F32::spec_add);
    } else {
        lemma_sum_grows(a, b);
    }
}

/// A part, divided by the whole, is not outside the range from zero to one.
pub proof fn lemma_part_never_outside(a: F32, b: F32)
    requires
        a.is_nan() || (zero() <= a && a <= b),
        zero() < b,
    ensures
        never_outside(a / b),
{
    lemma_zero_and_one();
    if a.is_nan() {
        reveal(F32::spec_euclidean_or_real_div);
    } else if b.is_finite() {
        lemma_part_of_whole(a, b);
    } else {
        lemma_nonnegative(a);
        lemma_nonnegative(b);
        reveal(F32::spec_euclidean_or_real_div);
        if !a.infinite() {
            let negative = a.negative() != b.negative();
            if negative {
                lemma_unsigned(a / b);
                lemma_mag_units_scaled(0, 0);
                assert((a / b).units() == 0) by {
                    reveal(F32::units);
                }
            } else {
                lemma_from_pattern(false, 0);
                lemma_mag_units_scaled(0, 0);
            }
        }
    }
}

/// Counts keep their order as numbers, and a count above zero is a number above zero.
pub proof fn lemma_count_order(m: usize, n: usize)
    requires
        m <= n,
    ensures
        zero() <= F32::from_usize(m),
        F32::from_usize(m) <= F32::from_usize(n),
        n > 0 ==> one() <= F32::from_usize(n),
{
    let p = pow2(149) as int;
    lemma_zero_and_one();
    lemma_pow2_pos(149);
    assert(m * p >= 0 && n * p >= 0 && (m * p) * 1 <= (n * p) * 1) by (nonlinear_arith)
        requires
            p > 0,
            0 <= m <= n,
    ;
    lemma_rounded_monotone(m * p, 1, n * p, 1);
    lemma_from_pattern(false, rounded(m * p, 1));
    lemma_from_pattern(false, rounded(n * p, 1));
    lemma_mag_units_monotone(rounded(m * p, 1), rounded(n * p, 1));
    if n > 0 {
        assert(p * 1 <= (n * p) * 1) by (nonlinear_arith)
            requires
                p > 0,
                n >= 1,
        ;
        lemma_rounded_monotone(p, 1, n * p, 1);
        lemma_rounded_exact(one().mag(), 1);
        lemma_mag_units_monotone(one().mag(), rounded(n * p, 1));
    }
}

/// One divided by one and something that is not below zero is from zero to one.
pub proof fn lemma_inverse_never_outside(d: F32)
    requires
        !(d < zero()),
    ensures
        never_outside(one() / (one() + d)),
{
    lemma_zero_and_one();
    let whole = one() + d;
    if d.is_nan() {
        reveal(F32::spec_add);
        reveal(F32::spec_euclidean_or_real_div);
    } else {
        lemma_sum_grows(one(), d);
        lemma_nonnegative(whole);
        if whole.is_finite() {
            lemma_part_of_whole(one(), whole);
        } else {
            reveal(F32::spec_euclidean_or_real_div);
            lemma_from_pattern(false, 0);
            lemma_mag_units_scaled(0, 0);
        }
    }
}

/// One less a number from zero to one is from zero to one.
pub proof fn lemma_complement_in_unit(y: F32)
    requires
        in_unit(y),
    ensures
        in_unit(one() - y),
{
    lemma_zero_and_one();
    lemma_nonnegative(y);
    lemma_unit_is_finite(y);
    reveal(F32::spec_add);
    let uy = mag_units(y.mag());
    let p = pow2(149) as int;
    assert(y.neg().units() == -uy) by {
        reveal(F32::units);
        lemma_mag_units_scaled(0, 0);
    }
    let sum = p - uy;
    assert(0 <= sum <= p);
    lemma_rounded_monotone(sum, 1, p, 1);
    lemma_rounded_exact(one().mag(), 1);
    if sum == 0 {
        lemma_from_pattern(false, 0);
        lemma_mag_units_scaled(0, 0);
    } else {
        let m = rounded(sum, 1);
        lemma_from_pattern(false, m);
        lemma_mag_units_monotone(m, one().mag());
    }
}

/// Dividing by a number above zero keeps the order.
pub proof fn lemma_quotient_keeps_order(a: F32, b: F32, d: F32)
    requires
        zero() <= a,
        a <= b,
        zero() < d,
    ensures
        !(b / d < a / d),
{
    lemma_zero_and_one();
    lemma_nonnegative(a);
    lemma_nonnegative(b);
    lemma_nonnegative(d);
    reveal(F32::spec_euclidean_or_real_div);
    reveal(F32::units);
    let ua = mag_units(a.mag());
    let ub = mag_units(b.mag());
    let ud = mag_units(d.mag());
    let p = pow2(149) as int;
    lemma_pow2_pos(149);
    lemma_mag_units_scaled(0, 0);
    lemma_mag_units_nonnegative(INF_BITS as int);
    if a.mag() > b.mag() {
        lemma_mag_units_increases(b.mag(), a.mag());
    }
    if b.is_finite() && d.is_finite() && !b.zero_valued() {
        assert(ua * p >= 0 && ub * p >= 0 && (ua * p) * ud <= (ub * p) * ud) by (nonlinear_arith)
            requires
                0 <= ua <= ub,
                p > 0,
                ud > 0,
        ;
        lemma_rounded_monotone(ua * p, ud, ub * p, ud);
        lemma_from_pattern(false, rounded(ub * p, ud));
        if !a.zero_valued() {
            lemma_from_pattern(false, rounded(ua * p, ud));
            lemma_mag_units_monotone(rounded(ua * p, ud), rounded(ub * p, ud));
        }
    } else if a.is_finite() && d.is_finite() && !a.zero_valued() {
        assert(ua * p >= 0) by (nonlinear_arith)
            requires
                0 <= ua,
                p > 0,
        ;
        crate::rounding::lemma_rounding_exists(ua * p, ud);
        lemma_from_pattern(false, rounded(ua * p, ud));
        lemma_mag_units_monotone(rounded(ua * p, ud), INF_BITS as int);
    }
}

/// A number with its sign turned has the same size.
pub proof fn lemma_negated(x: F32)
    ensures
        x.neg().mag() == x.mag(),
        x.neg().negative() == !x.negative(),
        x.neg().units() == -x.units(),
{
    reveal(F32::units);
}

/// Adding to zero changes no number.
pub proof fn lemma_zero_plus(x: F32)
    requires
        !x.is_nan(),
    ensures
        !(zero() + x).is_nan(),
        (zero() + x).units() == x.units(),
{
    lemma_zero_and_one();
    reveal(F32::spec_add);
    reveal(F32::units);
    lemma_mag_units_nonnegative(x.mag());
    lemma_mag_units_scaled(0, 0);
    if !x.infinite() && x.units() != 0 {
        lemma_rounded_exact(x.mag(), 1);
    }
}

/// One times a number that is not below zero has the value of that number.
pub proof fn lemma_one_times(x: F32)
    requires
        zero() <= x,
        x.is_finite(),
    ensures
        !(one() * x).is_nan(),
        (one() * x).units() == x.units(),
{
    lemma_zero_and_one();
    lemma_nonnegative(x);
    reveal(F32::spec_mul);
    let u = mag_units(x.mag());
    let p = pow2(149) as int;
    lemma_pow2_pos(149);
    lemma_rounded_exact(x.mag(), p);
    assert(p * u == u * p) by (nonlinear_arith);
    lemma_from_pattern(x.negative(), x.mag());
}

/// A number above zero, divided by itself, is one.
pub proof fn lemma_itself_once(x: F32)
    requires
        zero() < x,
        x.is_finite(),
    ensures
        (x / x).units() == one().units(),
        !(x / x).is_nan(),
{
    lemma_zero_and_one();
    lemma_nonnegative(x);
    reveal(F32::spec_euclidean_or_real_div);
    lemma_mag_units_scaled(0, 0);
    let u = mag_units(x.mag());
    let p = pow2(149) as int;
    lemma_rounded_exact(one().mag(), u);
    assert(u * p == p * u) by (nonlinear_arith);
    lemma_from_pattern(false, one().mag());
}

/// Nothing up to a number above zero is more than once that number.
pub proof fn lemma_never_more_than_once(a: F32, b: F32)
    requires
        a <= b,
        zero() < b,
        b.is_finite(),
    ensures
        !(one() < a / b),
{
    lemma_zero_and_one();
    if zero() <= a {
        lemma_part_of_whole(a, b);
    } else {
        lemma_nonnegative(b);
        reveal(F32::spec_euclidean_or_real_div);
        reveal(F32::units);
        lemma_mag_units_nonnegative(a.mag());
        lemma_mag_units_scaled(0, 0);
        let u = mag_units(a.mag());
        let v = mag_units(b.mag());
        let p = pow2(149) as int;
        lemma_pow2_pos(149);
        assert(u * p >= 0) by (nonlinear_arith)
            requires
                u >= 0,
                p > 0,
        ;
        crate::rounding::lemma_rounding_exists(u * p, v);
        lemma_mag_units_nonnegative((a / b).mag());
    }
}

/// A number neither below nor above zero is a zero.
pub proof fn lemma_number_of_no_size(x: F32)
    requires
        zero() <= x,
        !(zero() < x),
    ensures
        x.zero_valued(),
{
    lemma_zero_and_one();
    lemma_nonnegative(x);
    lemma_mag_units_scaled(0, 0);
    if x.mag() > 0 {
        lemma_mag_units_increases(0, x.mag());
    }
}

proof fn lemma_signed_not_positive(x: F32)
    requires
        x.is_nan() || x.negative() || x.mag() == 0,
    ensures
        !(zero() < x),
{
    reveal(F32::units);
    lemma_zero_and_one();
    lemma_mag_units_nonnegative(x.mag());
    lemma_mag_units_scaled(0, 0);
}

proof fn lemma_nonpositive(x: F32)
    requires
        !x.is_nan(),
        !(zero() < x),
    ensures
        x.negative() || x.mag() == 0,
        x.units() <= 0,
{
    lemma_zero_and_one();
    reveal(F32::units);
    lemma_mag_units_scaled(0, 0);
    if !x.negative() && x.mag() > 0 {
        lemma_mag_units_increases(0, x.mag());
    }
}

/// What is not below zero is not above zero once its sign is turned.
pub proof fn lemma_negated_not_positive(x: F32)
    requires
        !(x < zero()),
    ensures
        !(zero() < x.neg()),
{
    if !x.is_nan() {
        lemma_zero_and_one();
        lemma_nonnegative(x);
        lemma_negated(x);
        lemma_signed_not_positive(x.neg());
    }
}

/// A number that is not above zero, divided by one above zero, is not above zero.
pub proof fn lemma_quotient_not_positive(a: F32, b: F32)
    requires
        !(zero() < a),
        zero() < b,
    ensures
        !(zero() < a / b),
{
    lemma_zero_and_one();
    lemma_nonnegative(b);
    reveal(F32::spec_euclidean_or_real_div);
    if !a.is_nan() {
        lemma_nonpositive(a);
        let u = mag_units(a.mag());
        let v = mag_units(b.mag());
        let p = pow2(149) as int;
        lemma_pow2_pos(149);
        lemma_mag_units_nonnegative(a.mag());
        lemma_mag_units_scaled(0, 0);
        assert(u * p >= 0) by (nonlinear_arith)
            requires
                u >= 0,
                p > 0,
        ;
        if v > 0 {
            crate::rounding::lemma_rounding_exists(u * p, v);
        }
        lemma_signed_not_positive(a / b);
    }
}

/// A sum of numbers none of which is above zero is not above zero.
pub proof fn lemma_sum_not_positive(a: F32, b: F32)
    requires
        !(zero() < a),
        !(zero() < b),
    ensures
        !(zero() < a + b),
{
    lemma_zero_and_one();
    reveal(F32::spec_add);
    if !a.is_nan() && !b.is_nan() {
        lemma_nonpositive(a);
        lemma_nonpositive(b);
        let sum = abs_int(a.units() + b.units());
        crate::rounding::lemma_rounding_exists(sum, 1);
        lemma_signed_not_positive(a + b);
    }
}

/// A square is not below zero.
pub proof fn lemma_square_never_negative(x: F32)
    ensures
        !(x * x < zero()),
{
    lemma_zero_and_one();
    reveal(F32::spec_mul);
    if !x.is_nan() {
        let u = mag_units(x.mag());
        let p = pow2(149) as int;
        lemma_pow2_pos(149);
        lemma_mag_units_nonnegative(x.mag());
        assert(u * u >= 0) by (nonlinear_arith)
            requires
                u >= 0,
        ;
        crate::rounding::lemma_rounding_exists(u * u, p);
        if !x.infinite() || !x.zero_valued() {
            lemma_unsigned(x * x);
        }
    }
}

proof fn lemma_power_pattern(k: nat) -> (b: int)
    requires
        23 <= k <= 250,
    ensures
        0 < b < INF_BITS,
        mag_units(b) == pow2(k),
{
    let s = (k - 23) as nat;
    lemma_mag_units_scaled(s, 0x80_0000);
    lemma_pow2_adds(23, s);
    vstd::arithmetic::power2::lemma2_to64();
    (0x80_0000 + s * 0x80_0000) as int
}

/// A product of numbers from powers of two on is one from the product of the powers on.
pub proof fn lemma_product_at_least(a: F32, b: F32, i: nat, j: nat)
    requires
        a.is_finite(),
        b.is_finite(),
        pow2(i) <= a.units(),
        pow2(j) <= b.units(),
        172 <= i + j <= 398,
    ensures
        !(a * b).is_nan(),
        pow2((i + j - 149) as nat) <= (a * b).units(),
{
    lemma_zero_and_one();
    lemma_pow2_pos(i);
    lemma_pow2_pos(j);
    lemma_nonnegative(a);
    lemma_nonnegative(b);
    reveal(F32::spec_mul);
    lemma_mag_units_scaled(0, 0);
    let k = (i + j - 149) as nat;
    let p = pow2(149) as int;
    let pattern = lemma_power_pattern(k);
    let n = mag_units(a.mag()) * mag_units(b.mag());
    lemma_pow2_pos(149);
    lemma_pow2_pos(k);
    lemma_pow2_adds(i, j);
    lemma_pow2_adds(k, 149);
    assert(pow2(i) * pow2(j) <= n && 0 <= n) by (nonlinear_arith)
        requires
            0 < pow2(i) <= mag_units(a.mag()),
            0 < pow2(j) <= mag_units(b.mag()),
            n == mag_units(a.mag()) * mag_units(b.mag()),
    ;
    lemma_rounded_exact(pattern, p);
    assert((mag_units(pattern) * p) * p <= n * p && mag_units(pattern) * p >= 0)
        by (nonlinear_arith)
        requires
            mag_units(pattern) * p <= n,
            p > 0,
            mag_units(pattern) > 0,
    ;
    lemma_rounded_monotone(mag_units(pattern) * p, p, n, p);
    lemma_from_pattern(false, rounded(n, p));
    lemma_mag_units_monotone(pattern, rounded(n, p));
}

/// A ratio of at least one to a power of two is a number from that on.
pub proof fn lemma_ratio_at_least(n: u32, d: u64, k: nat)
    requires
        d > 0,
        k <= 60,
        d <= n * pow2(k),
    ensures
        !ratio(n, d).is_nan(),
        pow2((149 - k) as nat) <= ratio(n, d).units(),
{
    let pattern = lemma_power_pattern((149 - k) as nat);
    let p = pow2(149) as int;
    let q = pow2((149 - k) as nat) as int;
    lemma_pow2_pos(149);
    lemma_pow2_pos((149 - k) as nat);
    lemma_pow2_adds((149 - k) as nat, k);
    lemma_rounded_exact(pattern, 1);
    assert(n * p >= 0 && q * d <= (n * p) * 1) by (nonlinear_arith)
        requires
            p == q * pow2(k),
            d <= n * pow2(k),
            q > 0,
            n >= 0,
            pow2(k) >= 0,
    ;
    lemma_rounded_monotone(q, 1, n * p, d as int);
    lemma_from_pattern(false, rounded(n * p, d as int));
    lemma_mag_units_monotone(pattern, rounded(n * p, d as int));
}

/// A ratio is a finite number.
pub proof fn lemma_ratio_is_finite(n: u32, d: u64)
    requires
        d > 0,
    ensures
        ratio(n, d).is_finite(),
{
    let pattern = lemma_power_pattern(181);
    let p = pow2(149) as int;
    lemma_pow2_pos(149);
    lemma_pow2_adds(149, 32);
    vstd::arithmetic::power2::lemma2_to64();
    lemma_rounded_exact(pattern, 1);
    assert(n * p >= 0 && (n * p) * 1 <= pow2(181) * d) by (nonlinear_arith)
        requires
            pow2(181) == p * pow2(32),
            0 <= n <= pow2(32),
            p > 0,
            d >= 1,
    ;
    lemma_rounded_monotone(n * p, d as int, pow2(181) as int, 1);
}

/// A product of numbers from powers of two on, one of them perhaps infinite, is
/// above zero.
pub proof fn lemma_product_above_zero(a: F32, b: F32, i: nat, j: nat)
    requires
        a.is_finite(),
        !b.is_nan(),
        pow2(i) <= a.units(),
        pow2(j) <= b.units(),
        172 <= i + j <= 398,
    ensures
        zero() < a * b,
{
    lemma_zero_and_one();
    lemma_pow2_pos(i);
    lemma_pow2_pos(j);
    lemma_pow2_pos((i + j - 149) as nat);
    if b.is_finite() {
        lemma_product_at_least(a, b, i, j);
    } else {
        lemma_nonnegative(a);
        lemma_nonnegative(b);
        lemma_mag_units_scaled(0, 0);
        reveal(F32::spec_mul);
        lemma_from_pattern(false, INF_BITS as int);
        lemma_mag_units_increases(0, INF_BITS as int);
    }
}

/// A number less itself is nothing, squared and shared out or not.
pub proof fn lemma_nothing_left(x: F32, d: F32)
    requires
        x.is_finite(),
        zero() < d,
    ensures
        ((x - x).abs() * (x - x).abs()).neg() / d == zero().neg(),
{
    lemma_zero_and_one();
    lemma_negated(x);
    assert((x - x).abs() == zero()) by {
        reveal(F32::spec_add);
    }
    let p = pow2(149) as int;
    lemma_pow2_pos(149);
    lemma_mag_units_scaled(0, 0);
    assert(zero() * zero() == zero()) by {
        reveal(F32::spec_mul);
        lemma_rounded_exact(0, p);
        assert(mag_units(0) * p == 0 && mag_units(0) * mag_units(0) == 0) by (nonlinear_arith)
            requires
                mag_units(0) == 0,
        ;
    }
    lemma_nonnegative(d);
    reveal(F32::spec_euclidean_or_real_div);
}

/// Multiplying by a number that is not below zero keeps the order.
pub proof fn lemma_product_keeps_order(a: F32, low: F32, high: F32)
    requires
        zero() <= a,
        a.is_finite(),
        zero() <= low,
        low <= high,
        high.is_finite(),
    ensures
        a * low <= a * high,
{
    lemma_zero_and_one();
    lemma_nonnegative(a);
    lemma_nonnegative(low);
    lemma_nonnegative(high);
    reveal(F32::spec_mul);
    reveal(F32::units);
    let ua = mag_units(a.mag());
    let ul = mag_units(low.mag());
    let uh = mag_units(high.mag());
    let p = pow2(149) as int;
    lemma_pow2_pos(149);
    lemma_mag_units_scaled(0, 0);
    lemma_rounded_exact(0, p);
    if low.mag() > high.mag() {
        lemma_mag_units_increases(high.mag(), low.mag());
    }
    assert(0 <= ua * ul && (ua * ul) * p <= (ua * uh) * p) by (nonlinear_arith)
        requires
            0 <= ua,
            0 <= ul <= uh,
            p > 0,
    ;
    assert(ua == 0 || ul == 0 ==> ua * ul == 0) by (nonlinear_arith);
    assert(ua == 0 || uh == 0 ==> ua * uh == 0) by (nonlinear_arith);
    lemma_rounded_monotone(ua * ul, p, ua * uh, p);
    lemma_from_pattern(a.negative() != low.negative(), rounded(ua * ul, p));
    lemma_from_pattern(a.negative() != high.negative(), rounded(ua * uh, p));
    lemma_mag_units_monotone(rounded(ua * ul, p), rounded(ua * uh, p));
}

/// Zero times a finite number, times that number again, is zero.
pub proof fn lemma_no_times_a_square(x: F32)
    requires
        x.is_finite(),
    ensures
        zero() * x * x == zero(),
{
    lemma_zero_and_one();
    reveal(F32::spec_mul);
    let p = pow2(149) as int;
    lemma_pow2_pos(149);
    lemma_mag_units_scaled(0, 0);
    lemma_rounded_exact(0, p);
    let u = mag_units(x.mag());
    assert(0 * u == 0) by (nonlinear_arith);
    assert(0 * p == 0) by (nonlinear_arith);
}

/// Nothing is above a product with infinity that is not below zero.
pub proof fn lemma_nothing_above_infinity(x: F32, a: F32, b: F32)
    requires
        zero() <= a,
        zero() <= b,
        !a.is_finite() || !b.is_finite(),
    ensures
        !(x > a * b),
{
    lemma_zero_and_one();
    lemma_nonnegative(a);
    lemma_nonnegative(b);
    reveal(F32::spec_mul);
    reveal(F32::units);
    if !x.is_nan() {
        lemma_mag_units_nonnegative(x.mag());
        lemma_mag_units_monotone(x.mag(), INF_BITS as int);
    }
    lemma_mag_units_nonnegative(INF_BITS as int);
}

/// No things are zero of them.
pub proof fn lemma_from_none()
    ensures
        F32::from_usize(0) == zero(),
{
    lemma_rounded_exact(0, 1);
    lemma_mag_units_scaled(0, 0);
    assert(0 * pow2(149) == 0) by (nonlinear_arith);
    assert(0 * 1 == 0);
}

/// A finite number above zero plus zero is itself, once itself is one, and zero is no
/// part of it.
pub proof fn lemma_whole_and_no_part(w: F32)
    requires
        zero() < w,
        w.is_finite(),
    ensures
        w + zero() == w,
        zero() + w == w,
        w / w == one(),
        zero() / w == zero(),
{
    lemma_zero_and_one();
    lemma_nonnegative(w);
    reveal(F32::spec_add);
    reveal(F32::spec_euclidean_or_real_div);
    reveal(F32::units);
    lemma_mag_units_scaled(0, 0);
    let u = mag_units(w.mag());
    let p = pow2(149) as int;
    lemma_pow2_pos(149);
    lemma_rounded_exact(w.mag(), 1);
    lemma_rounded_exact(one().mag(), u);
    lemma_rounded_exact(0, u);
    assert(u * p == p * u) by (nonlinear_arith);
    assert(0 * p == 0 && 0 * u == 0) by (nonlinear_arith);
}

/// Once a number plus no part of another is the number, as long as both are finite.
pub proof fn lemma_once_and_no_part(x: F32, y: F32)
    requires
        x.is_finite(),
        y.is_finite(),
    ensures
        (one() * x + zero() * y).same_number(x),
        (zero() * y + one() * x).same_number(x),
{
    lemma_zero_and_one();
    reveal(F32::spec_add);
    reveal(F32::spec_mul);
    reveal(F32::units);
    lemma_mag_units_scaled(0, 0);
    let u = mag_units(x.mag());
    let v = mag_units(y.mag());
    let p = pow2(149) as int;
    lemma_pow2_pos(149);
    lemma_mag_units_nonnegative(x.mag());
    lemma_rounded_exact(x.mag(), p);
    lemma_rounded_exact(x.mag(), 1);
    lemma_rounded_exact(0, p);
    assert(p * u == u * p) by (nonlinear_arith);
    assert(0 * v == 0 && 0 * p == 0) by (nonlinear_arith);
    if x.mag() > 0 {
        lemma_mag_units_increases(0, x.mag());
    }
    let whole = one() * x;
    let nothing = zero() * y;
    assert(whole == x);
    assert(nothing.mag() == 0 && nothing.units() == 0);
}

/// Some pattern has twice the value of another one.
proof fn lemma_doubled_pattern(b: int) -> (r: int)
    requires
        0 <= b,
    ensures
        b <= r,
        mag_units(r) == 2 * mag_units(b),
{
    if b < 0x80_0000 {
        lemma_mag_units_scaled(0, b);
        lemma_mag_units_scaled(0, 2 * b);
        vstd::arithmetic::power2::lemma2_to64();
        2 * b
    } else {
        let s = (b / 0x80_0000 - 1) as nat;
        let m = b - s * 0x80_0000;
        assert(0x80_0000 <= m < 0x100_0000) by (nonlinear_arith)
            requires
                m == b - (b / 0x80_0000 - 1) * 0x80_0000,
                b >= 0x80_0000,
        ;
        lemma_mag_units_scaled(s, m);
        lemma_mag_units_scaled(s + 1, m);
        vstd::arithmetic::power2::lemma_pow2_unfold(s + 1);
        assert(m * pow2(s + 1) == 2 * (m * pow2(s))) by (nonlinear_arith)
            requires
                pow2(s + 1) == 2 * pow2(s),
        ;
        assert((s + 1) * 0x80_0000 + m == b + 0x80_0000) by (nonlinear_arith)
            requires
                m == b - s * 0x80_0000,
        ;
        b + 0x80_0000
    }
}

/// The mean of two numbers not below zero lies where they lie, as long as twice the
/// upper bound is finite.
pub proof fn lemma_mean_between(low: F32, high: F32, x: F32, y: F32)
    requires
        zero() <= low,
        low <= x,
        x <= high,
        low <= y,
        y <= high,
        (high + high).is_finite(),
    ensures
        low <= (x + y) / ratio(2, 1),
        (x + y) / ratio(2, 1) <= high,
{
    lemma_zero_and_one();
    lemma_nonnegative(low);
    lemma_nonnegative(high);
    lemma_nonnegative(x);
    lemma_nonnegative(y);
    reveal(F32::spec_add);
    reveal(F32::spec_euclidean_or_real_div);
    reveal(F32::units);
    let ul = mag_units(low.mag());
    let uh = mag_units(high.mag());
    let ux = mag_units(x.mag());
    let uy = mag_units(y.mag());
    let p = pow2(149) as int;
    lemma_pow2_pos(149);
    lemma_mag_units_scaled(0, 0);
    if x.mag() > high.mag() {
        lemma_mag_units_increases(high.mag(), x.mag());
    }
    if y.mag() > high.mag() {
        lemma_mag_units_increases(high.mag(), y.mag());
    }
    if low.mag() > high.mag() {
        lemma_mag_units_increases(high.mag(), low.mag());
    }
    assert(high.is_finite());
    let l2 = lemma_doubled_pattern(low.mag());
    let h2 = lemma_doubled_pattern(high.mag());
    lemma_two();
    let two = ratio(2, 1);
    let hh = rounded(abs_int(uh + uh), 1);
    if uh == 0 && h2 > 0 {
        lemma_mag_units_increases(0, h2);
    }
    crate::rounding::lemma_rounding_exists(2 * uh, 1);
    if uh > 0 {
        assert(high + high == crate::float::signed(false, hh));
        lemma_from_pattern(false, hh);
    }
    if h2 > INF_BITS {
        lemma_mag_units_increases(INF_BITS as int, h2);
        lemma_rounded_exact(INF_BITS as int, 1);
        lemma_rounded_monotone(mag_units(INF_BITS as int), 1, 2 * uh, 1);
        lemma_mag_units_nonnegative(INF_BITS as int);
    }
    if h2 == INF_BITS {
        lemma_rounded_exact(INF_BITS as int, 1);
    }
    assert(h2 < INF_BITS);
    if l2 > h2 {
        lemma_mag_units_increases(h2, l2);
    }
    lemma_rounded_exact(l2, 1);
    lemma_rounded_exact(h2, 1);
    lemma_rounded_monotone(2 * ul, 1, ux + uy, 1);
    lemma_rounded_monotone(ux + uy, 1, 2 * uh, 1);
    let m = rounded(ux + uy, 1);
    let um = mag_units(m);
    lemma_mag_units_monotone(l2, m);
    lemma_mag_units_monotone(m, h2);
    lemma_from_pattern(false, m);
    assert((x + y).units() == um && !(x + y).is_nan() && (x + y).is_finite()) by {
        if ux + uy == 0 {
            lemma_rounded_exact(0, 1);
        }
    }
    assert(0 <= um * p && (ul * (2 * p)) * (2 * p) <= (um * p) * (2 * p) && (um * p) * (2 * p) <= (uh * (2
        * p)) * (2 * p)) by (nonlinear_arith)
        requires
            0 <= 2 * ul <= um <= 2 * uh,
            0 < p,
    ;
    assert(ul * (2 * p) >= 0 && uh * (2 * p) >= 0) by (nonlinear_arith)
        requires
            0 <= ul,
            0 <= uh,
            0 < p,
    ;
    lemma_rounded_exact(low.mag(), 2 * p);
    lemma_rounded_exact(high.mag(), 2 * p);
    lemma_rounded_monotone(ul * (2 * p), 2 * p, um * p, 2 * p);
    lemma_rounded_monotone(um * p, 2 * p, uh * (2 * p), 2 * p);
    let q = rounded(um * p, 2 * p);
    assert(((x + y) / two).mag() == q || um == 0);
    lemma_from_pattern(false, q);
    lemma_mag_units_monotone(low.mag(), q);
    lemma_mag_units_monotone(q, high.mag());
    if um == 0 {
        lemma_rounded_exact(0, 2 * p);
    }
}

/// A number `u` units great is off from the ratio `n / d` by rounding at most: by half
/// a unit or one part in `2^24`.
pub open spec fn off_by_rounding(u: int, n: int, d: int) -> bool {
    &&& 0x100_0000 * (n - d * u) <= d * (u + 0x80_0000)
    &&& 0x100_0000 * (d * u - n) <= d * (u + 0x80_0000)
}

/// A finite sum of numbers not below zero is off by rounding at most.
pub proof fn lemma_sum_error(a: F32, b: F32)
    requires
        zero() <= a,
        zero() <= b,
        (a + b).is_finite(),
    ensures
        a.is_finite(),
        b.is_finite(),
        off_by_rounding((a + b).units(), a.units() + b.units(), 1),
{
    lemma_zero_and_one();
    lemma_nonnegative(a);
    lemma_nonnegative(b);
    lemma_sum_grows(a, b);
    lemma_nonnegative(a + b);
    if a.mag() == INF_BITS {
        lemma_mag_units_increases((a + b).mag(), a.mag());
    }
    if b.mag() == INF_BITS {
        lemma_mag_units_increases((a + b).mag(), b.mag());
    }
    reveal(F32::spec_add);
    let sum = a.units() + b.units();
    if sum > 0 {
        crate::rounding::lemma_rounding_exists(sum, 1);
        lemma_from_pattern(false, rounded(sum, 1));
        crate::rounding::lemma_rounding_error(sum, 1);
    } else {
        lemma_from_pattern(a.negative() && b.negative(), 0);
        lemma_mag_units_scaled(0, 0);
    }
}

/// A finite product of finite numbers not below zero is off by rounding at most.
pub proof fn lemma_product_error(a: F32, b: F32)
    requires
        zero() <= a,
        a.is_finite(),
        zero() <= b,
        b.is_finite(),
        (a * b).is_finite(),
    ensures
        off_by_rounding((a * b).units(), a.units() * b.units(), pow2(149) as int),
{
    lemma_zero_and_one();
    lemma_nonnegative(a);
    lemma_nonnegative(b);
    lemma_pow2_pos(149);
    reveal(F32::spec_mul);
    let n = a.units() * b.units();
    let p = pow2(149) as int;
    assert(n >= 0) by (nonlinear_arith)
        requires
            a.units() >= 0,
            b.units() >= 0,
            n == a.units() * b.units(),
    ;
    crate::rounding::lemma_rounding_exists(n, p);
    let negative = a.negative() != b.negative();
    if negative {
        assert(n == 0) by (nonlinear_arith)
            requires
                n == a.units() * b.units(),
                a.units() == 0 || b.units() == 0,
        ;
        lemma_mag_units_scaled(0, 0);
        lemma_rounded_exact(0, p);
    }
    lemma_from_pattern(negative, rounded(n, p));
    crate::rounding::lemma_rounding_error(n, p);
}

/// A finite quotient of finite numbers not below zero is off by rounding at most.
pub proof fn lemma_quotient_error(a: F32, b: F32)
    requires
        zero() <= a,
        a.is_finite(),
        zero() < b,
        b.is_finite(),
        (a / b).is_finite(),
    ensures
        off_by_rounding((a / b).units(), a.units() * pow2(149), b.units()),
{
    lemma_zero_and_one();
    lemma_nonnegative(a);
    lemma_nonnegative(b);
    lemma_pow2_pos(149);
    reveal(F32::spec_euclidean_or_real_div);
    let p = pow2(149) as int;
    let n = a.units() * p;
    let d = b.units();
    lemma_mag_units_scaled(0, 0);
    if a.mag() == 0 {
        lemma_from_pattern(a.negative() != b.negative(), 0);
        assert(n == 0) by (nonlinear_arith)
            requires
                n == a.units() * p,
                a.units() == 0,
        ;
        let u = (a / b).units();
        assert(d * u == 0 && d * (u + 0x80_0000) >= 0) by (nonlinear_arith)
            requires
                u == 0,
                d > 0,
        ;
    } else {
        assert(n >= 0) by (nonlinear_arith)
            requires
                a.units() >= 0,
                p > 0,
                n == a.units() * p,
        ;
        crate::rounding::lemma_rounding_exists(n, d);
        lemma_from_pattern(false, rounded(n, d));
        crate::rounding::lemma_rounding_error(n, d);
    }
}

/// Half the sum of two numbers from zero to a bound lies there too, as long as twice
/// the bound is finite.
pub proof fn lemma_halved_sum_between(high: F32, x: F32, y: F32)
    requires
        zero() <= x,
        x <= high,
        zero() <= y,
        y <= high,
        (high + high).is_finite(),
    ensures
        (x + y).is_finite(),
        zero() <= (x + y) * ratio(5, 10),
        (x + y) * ratio(5, 10) <= high,
{
    lemma_zero_and_one();
    lemma_nonnegative(high);
    lemma_nonnegative(x);
    lemma_nonnegative(y);
    lemma_sum_grows(x, y);
    lemma_sum_grows(high, high);
    lemma_nonnegative(high + high);
    lemma_half();
    let ux = x.units();
    let uy = y.units();
    let uh = high.units();
    let p = pow2(149) as int;
    lemma_pow2_pos(149);
    lemma_pow2_pos(148);
    vstd::arithmetic::power2::lemma_pow2_unfold(149);
    reveal(F32::spec_add);
    lemma_mag_units_scaled(0, 0);
    lemma_sum_error(high, high);
    if x.mag() == INF_BITS {
        lemma_mag_units_increases(high.mag(), x.mag());
    }
    if y.mag() == INF_BITS {
        lemma_mag_units_increases(high.mag(), y.mag());
    }
    let h2 = lemma_doubled_pattern(high.mag());
    crate::rounding::lemma_rounding_exists(2 * uh, 1);
    if uh > 0 {
        assert(high + high == crate::float::signed(false, rounded(2 * uh, 1)));
        lemma_from_pattern(false, rounded(2 * uh, 1));
        if h2 > INF_BITS {
            lemma_mag_units_increases(INF_BITS as int, h2);
            lemma_rounded_exact(INF_BITS as int, 1);
            lemma_mag_units_nonnegative(INF_BITS as int);
            lemma_rounded_monotone(mag_units(INF_BITS as int), 1, 2 * uh, 1);
        } else {
            lemma_rounded_exact(h2, 1);
        }
    } else {
        assert(h2 <= INF_BITS) by {
            if h2 > INF_BITS {
                lemma_mag_units_increases(0, h2);
            }
        }
        lemma_rounded_exact(h2, 1);
    }
    assert(h2 <= INF_BITS);
    lemma_rounded_monotone(ux + uy, 1, 2 * uh, 1);
    let m = rounded(ux + uy, 1);
    lemma_mag_units_monotone(m, h2);
    let um = mag_units(m);
    lemma_mag_units_nonnegative(m);
    assert((x + y).units() == um && (x + y).is_finite()) by {
        if ux + uy == 0 {
            lemma_rounded_exact(0, 1);
            lemma_from_pattern(x.negative() && y.negative(), 0);
        } else {
            lemma_from_pattern(false, m);
        }
    }
    lemma_nonnegative(x + y);
    let half = ratio(5, 10);
    lemma_ratio_in_unit(5, 10);
    lemma_scaled_down(x + y, half);
    reveal(F32::spec_mul);
    let n = um * pow2(148);
    assert(0 <= n && n * p <= (uh * p) * p && 0 <= uh * p) by (nonlinear_arith)
        requires
            n == um * pow2(148),
            0 <= um <= 2 * uh,
            p == 2 * pow2(148),
            pow2(148) > 0,
    ;
    lemma_rounded_exact(high.mag(), p);
    lemma_rounded_monotone(n, p, uh * p, p);
    let negative = (x + y).negative() != half.negative();
    if negative {
        assert(um == 0);
        assert(n == 0) by (nonlinear_arith)
            requires
                n == um * pow2(148),
                um == 0,
        ;
        lemma_rounded_exact(0, p);
        assert(mag_units(0) * p == 0);
    }
    lemma_from_pattern(negative, rounded(n, p));
    lemma_mag_units_monotone(rounded(n, p), high.mag());
}

/// Half of twice a number is the number.
pub proof fn lemma_twice_halved(x: F32)
    requires
        zero() <= x,
        (x + x).is_finite(),
    ensures
        zero() <= (x + x) * ratio(5, 10),
        ((x + x) * ratio(5, 10)).units() == x.units(),
{
    lemma_halved_sum_between(x, x, x);
    lemma_zero_and_one();
    lemma_nonnegative(x);
    lemma_sum_grows(x, x);
    lemma_nonnegative(x + x);
    lemma_half();
    lemma_sum_error(x, x);
    let u = x.units();
    let p = pow2(149) as int;
    lemma_pow2_pos(149);
    lemma_pow2_pos(148);
    vstd::arithmetic::power2::lemma_pow2_unfold(149);
    let h2 = lemma_doubled_pattern(x.mag());
    assert((x + x).units() == 2 * u) by {
        reveal(F32::spec_add);
        lemma_mag_units_scaled(0, 0);
        crate::rounding::lemma_rounding_exists(2 * u, 1);
        if u > 0 {
            assert(x + x == crate::float::signed(false, rounded(2 * u, 1)));
            lemma_from_pattern(false, rounded(2 * u, 1));
            if h2 > INF_BITS {
                lemma_mag_units_increases(INF_BITS as int, h2);
                lemma_rounded_exact(INF_BITS as int, 1);
                lemma_mag_units_nonnegative(INF_BITS as int);
                lemma_rounded_monotone(mag_units(INF_BITS as int), 1, 2 * u, 1);
            } else {
                lemma_rounded_exact(h2, 1);
            }
        } else {
            lemma_from_pattern(x.negative() && x.negative(), 0);
        }
    }
    reveal(F32::spec_mul);
    let n = (2 * u) * pow2(148);
    assert(n == u * p) by (nonlinear_arith)
        requires
            n == (2 * u) * pow2(148),
            p == 2 * pow2(148),
    ;
    lemma_rounded_exact(x.mag(), p);
    if (x + x).negative() && x.mag() > 0 {
        lemma_mag_units_scaled(0, 0);
        lemma_mag_units_increases(0, x.mag());
    }
    lemma_from_pattern((x + x).negative() != ratio(5, 10).negative(), rounded(n, p));
}

/// One half is what it is called.
pub proof fn lemma_half()
    ensures
        mag_units(ratio(5, 10).mag()) == pow2(148),
        ratio(5, 10).units() == pow2(148),
        ratio(5, 10).is_finite(),
        !ratio(5, 10).negative(),
        zero() <= ratio(5, 10),
{
    lemma_mag_units_scaled(125, 0x80_0000);
    vstd::arithmetic::power2::lemma_pow2_adds(23, 125);
    vstd::arithmetic::power2::lemma2_to64();
    vstd::arithmetic::power2::lemma_pow2_unfold(149);
    let b: int = 0x3f00_0000;
    assert(mag_units(b) == pow2(148));
    lemma_rounded_exact(b, 10);
    assert(5 * pow2(149) == mag_units(b) * 10);
    lemma_from_pattern(false, b);
}

/// The mean of two numbers above zero is above zero.
pub proof fn lemma_mean_above_zero(x: F32, y: F32)
    requires
        zero() < x,
        zero() < y,
    ensures
        zero() < (x + y) / ratio(2, 1),
{
    lemma_zero_and_one();
    lemma_nonnegative(x);
    lemma_nonnegative(y);
    lemma_two();
    reveal(F32::spec_add);
    reveal(F32::spec_euclidean_or_real_div);
    reveal(F32::units);
    let ux = mag_units(x.mag());
    let uy = mag_units(y.mag());
    let p = pow2(149) as int;
    lemma_pow2_pos(149);
    lemma_mag_units_scaled(0, 0);
    lemma_mag_units_scaled(0, 1);
    lemma_mag_units_scaled(0, 2);
    vstd::arithmetic::power2::lemma2_to64();
    lemma_rounded_exact(2, 1);
    lemma_rounded_monotone(2, 1, ux + uy, 1);
    let m = rounded(ux + uy, 1);
    let um = mag_units(m);
    lemma_mag_units_monotone(2, m);
    lemma_from_pattern(false, m);
    lemma_rounded_exact(1, 2 * p);
    assert((1 * (2 * p)) * (2 * p) <= (um * p) * (2 * p) && 0 <= um * p) by (nonlinear_arith)
        requires
            um >= 2,
            p > 0,
    ;
    lemma_rounded_monotone(1 * (2 * p), 2 * p, um * p, 2 * p);
    let q = rounded(um * p, 2 * p);
    lemma_mag_units_monotone(1, q);
    lemma_from_pattern(false, q);
    lemma_mag_units_increases(0, INF_BITS as int);
}

/// Two is what it is called.
proof fn lemma_two()
    ensures
        mag_units(ratio(2, 1).mag()) == 2 * pow2(149),
        ratio(2, 1).is_finite(),
        !ratio(2, 1).is_nan(),
        !ratio(2, 1).negative(),
        !ratio(2, 1).zero_valued(),
        zero() < ratio(2, 1),
{
    let r = lemma_doubled_pattern(one().mag());
    lemma_zero_and_one();
    lemma_ratio_is_finite(2, 1);
    lemma_ratio_above_zero(2, 1);
    lemma_nonnegative(ratio(2, 1));
    assert(r == 0x4000_0000) by {
        lemma_mag_units_scaled(127, 0x80_0000);
        lemma_mag_units_scaled(126, 0x80_0000);
        vstd::arithmetic::power2::lemma_pow2_unfold(127);
        assert(0x80_0000 * pow2(127) == 2 * (0x80_0000 * pow2(126)));
        if r < 0x4000_0000 {
            lemma_mag_units_increases(r, 0x4000_0000);
        }
        if r > 0x4000_0000 {
            lemma_mag_units_increases(0x4000_0000, r);
        }
    }
    lemma_rounded_exact(r, 1);
}

} // verus!
