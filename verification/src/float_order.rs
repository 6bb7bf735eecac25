//! How sums, products and quotients of numbers keep the order of their parts.
use crate::float::F32;
use crate::float::abs_int;
use crate::float::of_int;
use crate::float::one;
use crate::float::ratio;
use crate::float::signed;
use crate::float::zero;
use crate::float_laws::in_unit;
use crate::float_laws::lemma_from_pattern;
use crate::float_laws::lemma_negated;
use crate::float_laws::lemma_nonnegative;
use crate::float_laws::lemma_one_times;
use crate::float_laws::lemma_part_of_whole;
use crate::float_laws::lemma_product_keeps_order;
use crate::float_laws::lemma_ratio_above_zero;
use crate::float_laws::lemma_ratio_in_unit;
use crate::float_laws::lemma_ratio_is_finite;
use crate::float_laws::lemma_unit_is_finite;
use crate::float_laws::lemma_zero_and_one;
use crate::float_sizes::within;
use crate::rounding::INF_BITS;
use crate::rounding::lemma_mag_units_increases;
use crate::rounding::lemma_mag_units_monotone;
use crate::rounding::lemma_mag_units_nonnegative;
use crate::rounding::lemma_mag_units_scaled;
use crate::rounding::lemma_rounded_exact;
use crate::rounding::lemma_rounded_monotone;
use crate::rounding::lemma_rounding_error;
use crate::rounding::lemma_rounding_exists;
use crate::rounding::lemma_sqrt_exists;
use crate::rounding::mag_units;
use crate::rounding::rounded;
use crate::rounding::sqrt_rounded;
use vstd::arithmetic::power2::lemma2_to64;
use vstd::arithmetic::power2::lemma_pow2_adds;
use vstd::arithmetic::power2::lemma_pow2_pos;
use vstd::arithmetic::power2::lemma_pow2_unfold;
use vstd::arithmetic::power2::pow2;
use vstd::prelude::*;

verus! {

/// Greater parts have no smaller sum.
pub proof fn lemma_sums_keep_order(a: F32, b: F32, c: F32, d: F32)
    requires
        zero() <= a,
        a <= c,
        zero() <= b,
        b <= d,
    ensures
        a + b <= c + d,
        zero() <= a + b,
{
    lemma_zero_and_one();
    lemma_nonnegative(a);
    lemma_nonnegative(b);
    lemma_nonnegative(c);
    lemma_nonnegative(d);
    reveal(F32::spec_add);
    let low = a.units() + b.units();
    let high = c.units() + d.units();
    if a.mag() > c.mag() {
        lemma_mag_units_increases(c.mag(), a.mag());
    }
    if b.mag() > d.mag() {
        lemma_mag_units_increases(d.mag(), b.mag());
    }
    lemma_mag_units_scaled(0, 0);
    lemma_rounded_monotone(low, 1, high, 1);
    lemma_from_pattern(a.negative() && b.negative(), 0);
    lemma_from_pattern(c.negative() && d.negative(), 0);
    lemma_from_pattern(false, rounded(low, 1));
    lemma_from_pattern(false, rounded(high, 1));
    lemma_mag_units_monotone(rounded(low, 1), rounded(high, 1));
    lemma_mag_units_monotone(rounded(low, 1), INF_BITS as int);
    if high > 0 {
        lemma_mag_units_monotone(0, rounded(high, 1));
    }
}

/// Factors can be swapped.
pub proof fn lemma_product_commutes(a: F32, b: F32)
    ensures
        a * b == b * a,
{
    reveal(F32::spec_mul);
    let x = mag_units(a.mag());
    let y = mag_units(b.mag());
    assert(x * y == y * x) by (nonlinear_arith);
}

/// Greater factors have no smaller product.
pub proof fn lemma_products_keep_order(a: F32, b: F32, c: F32, d: F32)
    requires
        zero() <= a,
        a <= c,
        c.is_finite(),
        zero() <= b,
        b <= d,
        d.is_finite(),
    ensures
        a * b <= c * d,
        zero() <= a * b,
{
    lemma_zero_and_one();
    lemma_finite_below(a, c);
    lemma_finite_below(b, d);
    lemma_product_keeps_order(a, b, d);
    lemma_product_keeps_order(d, a, c);
    lemma_product_commutes(a, d);
    lemma_product_commutes(c, d);
    lemma_product_keeps_order(a, zero(), b);
    crate::float_laws::lemma_product_never_negative(a, b);
}

/// A number from zero to a finite one is finite.
pub proof fn lemma_finite_below(a: F32, c: F32)
    requires
        zero() <= a,
        a <= c,
        c.is_finite(),
    ensures
        a.is_finite(),
{
    lemma_nonnegative(a);
    lemma_nonnegative(c);
    if a.mag() == INF_BITS {
        lemma_mag_units_increases(c.mag(), a.mag());
    }
}

/// A number times one is that number.
pub proof fn lemma_times_one(x: F32)
    requires
        zero() <= x,
        x.is_finite(),
    ensures
        (x * one()).same_number(x),
{
    lemma_one_times(x);
    lemma_product_commutes(x, one());
}

/// A number plus zero is that number.
pub proof fn lemma_plus_zero(x: F32)
    requires
        !x.is_nan(),
    ensures
        (x + zero()).same_number(x),
{
    lemma_zero_and_one();
    reveal(F32::spec_add);
    reveal(F32::units);
    lemma_mag_units_nonnegative(x.mag());
    lemma_mag_units_scaled(0, 0);
    if !x.infinite() && x.units() != 0 {
        lemma_rounded_exact(x.mag(), 1);
    }
}

/// A number from zero to one is within one.
pub proof fn lemma_unit_within(x: F32)
    requires
        in_unit(x),
    ensures
        within(x, 149),
{
    lemma_zero_and_one();
    lemma_unit_is_finite(x);
    lemma_nonnegative(x);
}

/// A finite number is at no distance from itself.
pub proof fn lemma_no_distance(x: F32)
    requires
        x.is_finite(),
    ensures
        (x - x).abs() == zero(),
{
    lemma_zero_and_one();
    lemma_negated(x);
    reveal(F32::spec_add);
}

/// Eleven tenths are more than one.
pub proof fn lemma_above_one()
    ensures
        one() < ratio(110, 100),
{
    lemma_zero_and_one();
    lemma_ratio_above_zero(110, 100);
    lemma_ratio_is_finite(110, 100);
    lemma_nonnegative(ratio(110, 100));
    let p = pow2(149) as int;
    lemma_pow2_pos(149);
    lemma_pow2_adds(24, 125);
    lemma_pow2_pos(125);
    lemma2_to64();
    let n = 110 * p;
    lemma_rounding_exists(n, 100);
    lemma_from_pattern(false, rounded(n, 100));
    lemma_rounding_error(n, 100);
    let u = ratio(110, 100).units();
    if u <= p {
        assert(0x100_0000 * (n - 100 * u) <= 100 * (u + 0x80_0000));
        assert(0x80_0000 <= p);
        assert(false);
    }
}

/// The pattern of a small whole number of great units.
pub proof fn lemma_whole_pattern(m: int, s: nat, top: nat) -> (b: int)
    requires
        0 < m < 0x100_0000,
        24 <= top <= 200,
        s <= top,
        pow2((top - s) as nat) <= m,
    ensures
        0 <= b < INF_BITS,
        mag_units(b) == m * pow2(s),
    decreases 0x100_0000 - m,
{
    if m >= 0x80_0000 {
        lemma_mag_units_scaled(s, m);
        s * 0x80_0000 + m
    } else {
        if s + 23 <= top {
            lemma2_to64();
            lemma_pow2_adds(23, (top - 23 - s) as nat);
            lemma_pow2_pos((top - 23 - s) as nat);
            assert(0x80_0000 * pow2((top - 23 - s) as nat) >= 0x80_0000) by (nonlinear_arith)
                requires
                    pow2((top - 23 - s) as nat) > 0,
            ;
        }
        lemma_pow2_unfold(s);
        lemma_pow2_unfold((top + 1 - s) as nat);
        let half = pow2((s - 1) as nat) as int;
        assert(m * (2 * half) == (2 * m) * half) by (nonlinear_arith);
        lemma_whole_pattern(2 * m, (s - 1) as nat, top)
    }
}

/// A small whole number is what it is called.
pub proof fn lemma_whole(n: u32)
    requires
        n < 0x100_0000,
    ensures
        ratio(n, 1).units() == n * pow2(149),
        ratio(n, 1).is_finite(),
        zero() <= ratio(n, 1),
{
    lemma2_to64();
    lemma_mag_units_scaled(0, 0);
    let b = if n > 0 {
        lemma_whole_pattern(n as int, 149, 149)
    } else {
        0
    };
    lemma_rounded_exact(b, 1);
    lemma_from_pattern(false, b);
}

/// Tenths are what they are called, but for rounding.
pub proof fn lemma_tenths(n: u32)
    requires
        n <= 10,
    ensures
        0 <= ratio(n, 10).units() <= pow2(149),
        (10 * ratio(n, 10).units() - n * pow2(149)) * 0x80_0000 <= 10 * pow2(149),
        (n * pow2(149) - 10 * ratio(n, 10).units()) * 0x80_0000 <= 10 * pow2(149),
{
    lemma_zero_and_one();
    lemma_ratio_in_unit(n, 10);
    lemma_ratio_is_finite(n, 10);
    lemma_nonnegative(ratio(n, 10));
    let r = ratio(n, 10).units();
    let m = n * pow2(149);
    lemma_pow2_pos(149);
    lemma_pow2_adds(24, 125);
    lemma_pow2_pos(125);
    lemma2_to64();
    assert(m >= 0) by (nonlinear_arith)
        requires
            m == n * pow2(149),
            n >= 0,
            pow2(149) > 0,
    ;
    lemma_rounding_exists(m, 10);
    lemma_from_pattern(false, rounded(m, 10));
    lemma_rounding_error(m, 10);
    assert(0x80_0000 <= pow2(149));
    assert(r <= pow2(149));
}

/// A sum that is at most a small whole number of great units is not rounded above it.
pub proof fn lemma_sum_at_most(a: F32, b: F32, m: int, s: nat)
    requires
        zero() <= a,
        a.is_finite(),
        zero() <= b,
        b.is_finite(),
        0 < m < 0x100_0000,
        24 <= s <= 200,
        a.units() + b.units() <= m * pow2(s),
    ensures
        zero() <= a + b,
        (a + b).is_finite(),
        (a + b).units() <= m * pow2(s),
        a.units() + b.units() == m * pow2(s) ==> (a + b).units() == m * pow2(s),
{
    lemma_zero_and_one();
    lemma_nonnegative(a);
    lemma_nonnegative(b);
    lemma2_to64();
    lemma_pow2_pos(s);
    let n = a.units() + b.units();
    let pattern = lemma_whole_pattern(m, s, s);
    lemma_rounded_exact(pattern, 1);
    assert(m * pow2(s) >= 0) by (nonlinear_arith)
        requires
            m > 0,
            pow2(s) > 0,
    ;
    lemma_rounded_monotone(n, 1, m * pow2(s), 1);
    reveal(F32::spec_add);
    lemma_mag_units_scaled(0, 0);
    lemma_from_pattern(false, rounded(n, 1));
    lemma_from_pattern(a.negative() && b.negative(), 0);
    lemma_mag_units_monotone(rounded(n, 1), pattern);
}

/// A count is what it is called.
pub proof fn lemma_count(n: int)
    requires
        0 <= n < 0x100_0000,
    ensures
        of_int(n).units() == n * pow2(149),
        of_int(n).is_finite(),
        zero() <= of_int(n),
{
    lemma_whole(n as u32);
    assert(of_int(n) == ratio(n as u32, 1));
}

/// The product of small whole numbers is what it is called.
pub proof fn lemma_whole_product(a: F32, b: F32, m: int, n: int)
    requires
        zero() <= a,
        zero() <= b,
        a.is_finite(),
        b.is_finite(),
        0 <= m,
        0 <= n,
        m * n < 0x100_0000,
        a.units() == m * pow2(149),
        b.units() == n * pow2(149),
    ensures
        zero() <= a * b,
        (a * b).is_finite(),
        (a * b).units() == (m * n) * pow2(149),
{
    lemma_zero_and_one();
    lemma_nonnegative(a);
    lemma_nonnegative(b);
    lemma2_to64();
    lemma_pow2_pos(149);
    lemma_mag_units_scaled(0, 0);
    let p = pow2(149) as int;
    assert(m * n >= 0) by (nonlinear_arith)
        requires
            m >= 0,
            n >= 0,
    ;
    let pattern = if m * n > 0 {
        lemma_whole_pattern(m * n, 149, 149)
    } else {
        0
    };
    assert((m * p) * (n * p) == ((m * n) * p) * p) by (nonlinear_arith);
    assert((m * n) * p == mag_units(pattern)) by {
        if m * n == 0 {
            assert((m * n) * p == 0) by (nonlinear_arith)
                requires
                    m * n == 0,
            ;
        }
    }
    lemma_rounded_exact(pattern, p);
    reveal(F32::spec_mul);
    let negative = a.negative() != b.negative();
    if negative && pattern > 0 {
        assert(a.mag() == 0 || b.mag() == 0);
        assert(m == 0 || n == 0) by (nonlinear_arith)
            requires
                m * p == 0 || n * p == 0,
                p > 0,
        ;
        assert(m * n == 0) by (nonlinear_arith)
            requires
                m == 0 || n == 0,
        ;
    }
    lemma_from_pattern(negative, pattern);
}

/// A whole number is nearest to itself.
pub proof fn lemma_whole_rounds(x: F32, n: int)
    requires
        zero() <= x,
        x.is_finite(),
        0 <= n < 0x100_0000,
        x.units() == n * pow2(149),
    ensures
        x.round().to_i32() == n,
{
    lemma_zero_and_one();
    lemma_nonnegative(x);
    lemma_pow2_pos(149);
    let p = pow2(149) as int;
    let k = crate::float::round_int(x);
    assert(2 * (n * p) + p == n * (2 * p) + p) by (nonlinear_arith);
    vstd::arithmetic::div_mod::lemma_fundamental_div_mod_converse(2 * (n * p) + p, 2 * p, n, p);
    vstd::arithmetic::div_mod::lemma_fundamental_div_mod_converse(n * p, p, n, 0);
    assert(k == if x.negative() {
        -n
    } else {
        n
    });
    if x.negative() {
        assert(x.mag() == 0);
        lemma_mag_units_scaled(0, 0);
        assert(n == 0) by (nonlinear_arith)
            requires
                n * p == 0,
                p > 0,
        ;
    }
    lemma_rounded_exact(x.mag(), 1);
    assert(x.round() == crate::float::signed(x.negative(), x.mag()));
    lemma_from_pattern(x.negative(), x.mag());
}

/// A whole number has no part behind the point.
pub proof fn lemma_whole_parts(x: F32, n: int)
    requires
        zero() <= x,
        x.is_finite(),
        0 <= n < 0x100_0000,
        x.units() == n * pow2(149),
    ensures
        x.floor().to_usize() == n,
        x.ceil().to_usize() == n,
{
    lemma_zero_and_one();
    lemma_nonnegative(x);
    lemma_pow2_pos(149);
    let p = pow2(149) as int;
    vstd::arithmetic::div_mod::lemma_fundamental_div_mod_converse(n * p, p, n, 0);
    assert(-(n * p) == (-n) * p) by (nonlinear_arith);
    vstd::arithmetic::div_mod::lemma_fundamental_div_mod_converse(-(n * p), p, -n, 0);
    if x.negative() {
        assert(x.mag() == 0);
        lemma_mag_units_scaled(0, 0);
        assert(n == 0) by (nonlinear_arith)
            requires
                n * p == 0,
                p > 0,
        ;
    }
    lemma_rounded_exact(x.mag(), 1);
    assert(x.floor() == signed(x.negative(), x.mag()));
    assert(x.ceil() == signed(x.negative(), x.mag()));
    lemma_from_pattern(x.negative(), x.mag());
}

/// Numbers not below zero that are the same are equal where they are above zero.
pub proof fn lemma_same_above_zero(a: F32, b: F32)
    requires
        zero() < a,
        a.same_number(b),
    ensures
        a == b,
{
    lemma_zero_and_one();
    lemma_nonnegative(a);
    lemma_nonnegative(b);
    if a.mag() < b.mag() {
        lemma_mag_units_increases(a.mag(), b.mag());
    }
    if b.mag() < a.mag() {
        lemma_mag_units_increases(b.mag(), a.mag());
    }
    lemma_mag_units_scaled(0, 0);
    assert(!a.negative() && !b.negative());
}

/// A quotient by a finite number above zero is a number.
pub proof fn lemma_quotient_is_number(a: F32, b: F32)
    requires
        !a.is_nan(),
        zero() < b,
        b.is_finite(),
    ensures
        !(a / b).is_nan(),
{
    lemma_zero_and_one();
    lemma_nonnegative(b);
    reveal(F32::spec_euclidean_or_real_div);
    lemma_mag_units_scaled(0, 0);
    lemma_mag_units_nonnegative(a.mag());
    let n = mag_units(a.mag()) * pow2(149);
    lemma_pow2_pos(149);
    assert(n >= 0) by (nonlinear_arith)
        requires
            n == mag_units(a.mag()) * pow2(149),
            mag_units(a.mag()) >= 0,
            pow2(149) > 0,
    ;
    if b.mag() > 0 {
        lemma_rounding_exists(n, mag_units(b.mag()));
        lemma_rounded_monotone(n, mag_units(b.mag()), n, mag_units(b.mag()));
    }
}

/// The difference of finite numbers is a number.
pub proof fn lemma_difference_is_number(a: F32, b: F32)
    requires
        a.is_finite(),
        b.is_finite(),
    ensures
        !(a - b).is_nan(),
        zero() <= (a - b).abs(),
{
    lemma_zero_and_one();
    lemma_negated(b);
    reveal(F32::spec_add);
    reveal(F32::units);
    let n = abs_int(a.units() - b.units());
    lemma_rounded_monotone(n, 1, n, 1);
    lemma_mag_units_scaled(0, 0);
    lemma_from_pattern(false, (a - b).mag());
}

proof fn lemma_signed_sum(a: F32, b: F32)
    requires
        a.is_finite(),
        b.is_finite(),
    ensures
        ({
            let sum = a.units() + b.units();
            let size = mag_units(rounded(abs_int(sum), 1));
            &&& !(a + b).is_nan()
            &&& 0 <= size
            &&& (a + b).units() == if sum < 0 {
                -size
            } else {
                size
            }
        }),
{
    let sum = a.units() + b.units();
    let m = rounded(abs_int(sum), 1);
    lemma_rounded_monotone(abs_int(sum), 1, abs_int(sum), 1);
    lemma_mag_units_nonnegative(m);
    lemma_mag_units_scaled(0, 0);
    lemma_rounded_exact(0, 1);
    assert(a + b == if sum == 0 {
        signed(a.negative() && b.negative(), 0)
    } else {
        signed(sum < 0, m)
    }) by {
        reveal(F32::spec_add);
    }
    reveal(F32::units);
}

/// Greater finite numbers of any sign have no smaller sum.
pub proof fn lemma_signed_sums_keep_order(a: F32, b: F32, c: F32, d: F32)
    requires
        a <= c,
        b <= d,
        a.is_finite(),
        b.is_finite(),
        c.is_finite(),
        d.is_finite(),
    ensures
        a + b <= c + d,
{
    let low = a.units() + b.units();
    let high = c.units() + d.units();
    lemma_signed_sum(a, b);
    lemma_signed_sum(c, d);
    if low >= 0 {
        lemma_rounded_monotone(low, 1, high, 1);
        lemma_mag_units_monotone(rounded(low, 1), rounded(high, 1));
    } else if high < 0 {
        lemma_rounded_monotone(-high, 1, -low, 1);
        lemma_mag_units_monotone(rounded(-high, 1), rounded(-low, 1));
    }
}

/// Neighbouring patterns are apart by one part in `2^24` at least.
proof fn lemma_gap(b: int)
    requires
        0 < b,
    ensures
        (mag_units(b) - mag_units(b - 1)) * 0x100_0000 >= mag_units(b),
{
    let s: nat = if b < 0x80_0000 {
        0
    } else {
        (b / 0x80_0000 - 1) as nat
    };
    let m = b - s * 0x80_0000;
    lemma_mag_units_scaled(s, m);
    lemma_pow2_pos(s);
    let gap = pow2(s) as int;
    if s == 0 || m > 0x80_0000 {
        lemma_mag_units_scaled(s, m - 1);
        assert(s * 0x80_0000 + (m - 1) == b - 1);
        assert((m - 1) * gap == m * gap - gap) by (nonlinear_arith);
        assert(gap * 0x100_0000 >= m * gap) by (nonlinear_arith)
            requires
                m <= 0x100_0000,
                gap > 0,
        ;
    } else {
        let t = (s - 1) as nat;
        lemma_mag_units_scaled(t, 0xff_ffff);
        assert(t * 0x80_0000 + 0xff_ffff == b - 1);
        lemma_pow2_unfold(s);
        assert(gap == 2 * pow2(t));
        assert(m == 0x80_0000);
        assert(s * 0x80_0000 + m == b);
        assert(mag_units(b) == m * gap);
        assert(m * gap == 0x100_0000 * pow2(t)) by (nonlinear_arith)
            requires
                m == 0x80_0000,
                gap == 2 * pow2(t),
        ;
        assert(mag_units(b - 1) == 0xff_ffff * pow2(t));
    }
}

/// The lesser of two finite numbers above zero is less than once the greater.
pub proof fn lemma_less_than_once(a: F32, b: F32)
    requires
        zero() <= a,
        a < b,
        b.is_finite(),
    ensures
        a / b < one(),
        zero() <= a / b,
{
    lemma_zero_and_one();
    lemma_nonnegative(a);
    lemma_nonnegative(b);
    lemma_part_of_whole(a, b);
    let q = a / b;
    if !(q < one()) {
        let p = pow2(149) as int;
        lemma_pow2_pos(149);
        let ua = mag_units(a.mag());
        let ub = mag_units(b.mag());
        reveal(F32::spec_euclidean_or_real_div);
        lemma_nonnegative(q);
        lemma_same_above_zero(one(), q);
        let top = one().mag();
        let n = ua * p;
        assert(n >= 0) by (nonlinear_arith)
            requires
                ua >= 0,
                p > 0,
                n == ua * p,
        ;
        lemma_rounding_exists(n, ub);
        if a.mag() >= b.mag() {
            lemma_mag_units_monotone(b.mag(), a.mag());
        }
        lemma_mag_units_monotone(a.mag(), b.mag() - 1);
        lemma_gap(b.mag());
        lemma_mag_units_scaled(125, 0xff_ffff);
        lemma_pow2_adds(24, 125);
        lemma2_to64();
        assert(top - 1 == 125 * 0x80_0000 + 0xff_ffff);
        let g = pow2(125) as int;
        assert(mag_units(top - 1) == p - g);
        assert(2 * n >= ub * (mag_units(top - 1) + mag_units(top)));
        assert((2 * ub - 2 * ua) * p <= ub * g) by (nonlinear_arith)
            requires
                2 * (ua * p) >= ub * (p - g + p),
        ;
        assert((2 * ub - 2 * ua) * 0x100_0000 <= ub) by (nonlinear_arith)
            requires
                (2 * ub - 2 * ua) * p <= ub * g,
                p == 0x100_0000 * g,
                g > 0,
        ;
        assert(false);
    }
}

/// Taking nothing away from a number leaves it.
pub proof fn lemma_no_subtraction(x: F32, z: F32)
    requires
        zero() <= x,
        x.is_finite(),
        !z.is_nan(),
        z.units() == 0,
        zero() <= z,
    ensures
        (x - z).same_number(x),
{
    lemma_zero_and_one();
    lemma_nonnegative(x);
    lemma_negated(z);
    lemma_nonnegative(z);
    reveal(F32::spec_add);
    reveal(F32::units);
    lemma_mag_units_nonnegative(x.mag());
    lemma_mag_units_scaled(0, 0);
    if z.mag() > 0 {
        lemma_mag_units_increases(0, z.mag());
    }
    if x.units() != 0 {
        lemma_rounded_exact(x.mag(), 1);
    }
}

/// The more is taken away, the less is left.
pub proof fn lemma_less_left(score: F32, low: F32, high: F32)
    requires
        score.is_finite(),
        low.is_finite(),
        high.is_finite(),
        low <= high,
    ensures
        score - high <= score - low,
{
    lemma_negated(low);
    lemma_negated(high);
    lemma_signed_sums_keep_order(score, high.neg(), score, low.neg());
}

/// A number less one that is not greater is not below zero.
pub proof fn lemma_difference(a: F32, b: F32)
    requires
        zero() <= b,
        b <= a,
        a.is_finite(),
    ensures
        zero() <= a - b,
{
    lemma_zero_and_one();
    lemma_finite_below(b, a);
    lemma_less_left(a, b, a);
    reveal(F32::spec_add);
    lemma_negated(a);
    lemma_nonnegative(a);
    lemma_from_pattern(false, 0);
}

/// A square root grows with its number.
pub proof fn lemma_root_keeps_order(a: F32, b: F32)
    requires
        zero() <= a,
        a <= b,
    ensures
        zero() <= a.sqrt(),
        a.sqrt() <= b.sqrt(),
{
    lemma_zero_and_one();
    lemma_nonnegative(a);
    lemma_nonnegative(b);
    reveal(crate::float::sqrt_of);
    let p = pow2(149) as int;
    lemma_pow2_pos(149);
    let m = mag_units(a.mag()) * p;
    let n = mag_units(b.mag()) * p;
    assert(0 <= m <= n) by (nonlinear_arith)
        requires
            m == mag_units(a.mag()) * p,
            n == mag_units(b.mag()) * p,
            0 <= mag_units(a.mag()) <= mag_units(b.mag()),
            p > 0,
    ;
    lemma_sqrt_exists(m);
    lemma_sqrt_exists(n);
    let x = sqrt_rounded(m);
    let y = sqrt_rounded(n);
    if y < x {
        let high = mag_units(y) + mag_units(y + 1);
        let low = mag_units(x - 1) + mag_units(x);
        lemma_mag_units_nonnegative(y);
        lemma_mag_units_nonnegative(y + 1);
        lemma_mag_units_monotone(y, x - 1);
        lemma_mag_units_monotone(y + 1, x);
        assert(high * high <= low * low) by (nonlinear_arith)
            requires
                0 <= high <= low,
        ;
        assert(high == low) by (nonlinear_arith)
            requires
                0 <= high <= low,
                high * high == low * low,
        ;
        if y + 1 < x {
            lemma_mag_units_increases(y, x - 1);
        }
    }
    lemma_mag_units_monotone(x, y);
    lemma_mag_units_scaled(0, 0);
    lemma_from_pattern(false, x);
    lemma_from_pattern(false, y);
    lemma_mag_units_monotone(y, INF_BITS as int);
    if a.mag() > 0 && b.mag() == 0 {
        lemma_mag_units_increases(0, a.mag());
    }
    if a.mag() == INF_BITS && b.mag() < INF_BITS {
        lemma_mag_units_increases(b.mag(), a.mag());
    }
    assert(x <= y);
    lemma_mag_units_monotone(x, INF_BITS as int);
    if a.mag() == 0 {
        assert(a.sqrt() == a);
    } else if a.infinite() {
        assert(b.infinite());
    } else if b.infinite() {
        assert(a.sqrt().units() == mag_units(x));
    } else {
        assert(a.sqrt().units() == mag_units(x));
        assert(b.sqrt().units() == mag_units(y));
    }
}

/// One over a number of one or more falls as the number rises.
pub proof fn lemma_inverse_falls(a: F32, b: F32)
    requires
        one() <= a,
        a <= b,
    ensures
        one() / b <= one() / a,
        zero() <= one() / b,
        one() / a <= one(),
{
    lemma_zero_and_one();
    lemma_nonnegative(a);
    lemma_nonnegative(b);
    reveal(F32::spec_euclidean_or_real_div);
    let p = pow2(149) as int;
    lemma_pow2_pos(149);
    let ua = mag_units(a.mag());
    let ub = mag_units(b.mag());
    lemma_mag_units_scaled(0, 0);
    lemma_from_pattern(false, 0);
    assert(p * p >= 0 && (p * p) * ua <= (p * p) * ub) by (nonlinear_arith)
        requires
            0 <= ua <= ub,
    ;
    if a.mag() > b.mag() {
        lemma_mag_units_increases(b.mag(), a.mag());
    }
    lemma_rounded_monotone(p * p, ub, p * p, ua);
    lemma_from_pattern(false, rounded(p * p, ua));
    lemma_from_pattern(false, rounded(p * p, ub));
    lemma_mag_units_monotone(rounded(p * p, ub), rounded(p * p, ua));
    lemma_mag_units_nonnegative(rounded(p * p, ua));
    assert((p * p) * p <= (p * ua) * p) by (nonlinear_arith)
        requires
            p <= ua,
            p > 0,
    ;
    if a.is_finite() {
        lemma_part_of_whole(one(), a);
    }
}

/// The quotient of a negated number is the quotient, negated.
pub proof fn lemma_negated_quotient(a: F32, d: F32)
    requires
        zero() <= a,
        a.is_finite(),
        zero() < d,
        d.is_finite(),
    ensures
        a.neg() / d == (a / d).neg(),
        !(a / d).is_nan(),
        zero() <= a / d || (a / d).zero_valued(),
{
    lemma_zero_and_one();
    lemma_nonnegative(a);
    lemma_nonnegative(d);
    lemma_negated(a);
    lemma_quotient_is_number(a, d);
    crate::float_laws::lemma_quotient_never_negative(a, d);
    lemma_pow2_pos(149);
    let n = mag_units(a.mag()) * pow2(149);
    assert(n >= 0) by (nonlinear_arith)
        requires
            n == mag_units(a.mag()) * pow2(149),
            mag_units(a.mag()) >= 0,
            pow2(149) > 0,
    ;
    lemma_mag_units_scaled(0, 0);
    assert(mag_units(d.mag()) > 0);
    assert(d.mag() > 0);
    lemma_rounding_exists(n, mag_units(d.mag()));
    reveal(F32::spec_euclidean_or_real_div);
}

/// The more is negated, the less is left.
pub proof fn lemma_negated_quotient_falls(a: F32, b: F32, d: F32)
    requires
        zero() <= a,
        a <= b,
        b.is_finite(),
        zero() < d,
        d.is_finite(),
    ensures
        b.neg() / d <= a.neg() / d,
{
    lemma_finite_below(a, b);
    lemma_negated_quotient(a, d);
    lemma_negated_quotient(b, d);
    lemma_negated(a / d);
    lemma_negated(b / d);
    crate::float_laws::lemma_quotient_keeps_order(a, b, d);
}

/// The quotient of whole numbers that divide evenly is what it is called.
pub proof fn lemma_whole_quotient(a: F32, b: F32, m: int, n: int)
    requires
        zero() <= a,
        zero() <= b,
        a.is_finite(),
        b.is_finite(),
        0 <= m < 0x100_0000,
        0 < n,
        a.units() == (m * n) * pow2(149),
        b.units() == n * pow2(149),
    ensures
        zero() <= a / b,
        (a / b).is_finite(),
        (a / b).units() == m * pow2(149),
{
    lemma_zero_and_one();
    lemma_nonnegative(a);
    lemma_nonnegative(b);
    lemma2_to64();
    lemma_pow2_pos(149);
    lemma_mag_units_scaled(0, 0);
    let p = pow2(149) as int;
    let pattern = if m > 0 {
        lemma_whole_pattern(m, 149, 149)
    } else {
        0
    };
    assert(m * p == mag_units(pattern)) by {
        if m == 0 {
            assert(m * p == 0) by (nonlinear_arith)
                requires
                    m == 0,
            ;
        }
    }
    assert(((m * n) * p) * p == (m * p) * (n * p)) by (nonlinear_arith);
    assert(n * p > 0) by (nonlinear_arith)
        requires
            n > 0,
            p > 0,
    ;
    assert(b.mag() > 0 && !b.negative());
    lemma_rounded_exact(pattern, n * p);
    assert(mag_units(a.mag()) * p == mag_units(pattern) * (n * p));
    assert(mag_units(b.mag()) == n * p);
    reveal(F32::spec_euclidean_or_real_div);
    if a.mag() == 0 {
        assert(m == 0) by (nonlinear_arith)
            requires
                (m * n) * p == 0,
                m >= 0,
                n > 0,
                p > 0,
        ;
    }
    assert(a / b == signed(a.negative(), pattern));
    lemma_from_pattern(a.negative(), pattern);
}

/// A quotient is no greater where more is divided by.
pub proof fn lemma_quotient_falls(a: F32, c: F32, d: F32)
    requires
        zero() <= a,
        a.is_finite(),
        zero() < c,
        c <= d,
        d.is_finite(),
    ensures
        a / d <= a / c,
        zero() <= a / d,
{
    lemma_zero_and_one();
    lemma_nonnegative(a);
    lemma_nonnegative(c);
    lemma_nonnegative(d);
    lemma_finite_below(c, d);
    lemma_pow2_pos(149);
    lemma_mag_units_scaled(0, 0);
    let n = mag_units(a.mag()) * pow2(149);
    let x = mag_units(c.mag());
    let y = mag_units(d.mag());
    assert(0 <= n) by (nonlinear_arith)
        requires
            n == mag_units(a.mag()) * pow2(149),
            mag_units(a.mag()) >= 0,
            pow2(149) > 0,
    ;
    assert(n * x <= n * y) by (nonlinear_arith)
        requires
            0 <= n,
            x <= y,
    ;
    assert(c.mag() > 0 && d.mag() > 0);
    lemma_rounded_monotone(n, y, n, x);
    lemma_rounding_exists(n, x);
    lemma_rounding_exists(n, y);
    reveal(F32::spec_euclidean_or_real_div);
    if a.negative() {
        assert(mag_units(a.mag()) == 0);
        assert(n == 0) by (nonlinear_arith)
            requires
                n == mag_units(a.mag()) * pow2(149),
                mag_units(a.mag()) == 0,
        ;
        lemma_rounded_exact(0, x);
        lemma_rounded_exact(0, y);
        assert(mag_units(0) * x == 0 && mag_units(0) * y == 0) by (nonlinear_arith)
            requires
                mag_units(0) == 0,
        ;
    }
    lemma_from_pattern(a.negative(), rounded(n, x));
    lemma_from_pattern(a.negative(), rounded(n, y));
    lemma_mag_units_monotone(rounded(n, y), rounded(n, x));
}

} // verus!
