//! How great sums, products and quotients of bounded numbers can get.
use crate::float::F32;
use crate::float::abs_int;
use crate::float::of_int;
use crate::float::one;
use crate::float::ratio;
use crate::float::signed;
use crate::float::zero;
use crate::float_laws::lemma_nonnegative;
use crate::float_laws::lemma_zero_and_one;
use crate::rounding::INF_BITS;
use crate::rounding::lemma_mag_units_increases;
use crate::rounding::lemma_mag_units_monotone;
use crate::rounding::lemma_mag_units_nonnegative;
use crate::rounding::lemma_mag_units_scaled;
use crate::rounding::lemma_rounded;
use crate::rounding::lemma_rounded_exact;
use crate::rounding::lemma_rounded_monotone;
use crate::rounding::lemma_sqrt_exists;
use crate::rounding::mag_units;
use crate::rounding::rounded;
use crate::rounding::sqrt_rounded;
use crate::sorting::empty_sum;
use crate::vector::dot_of;
use vstd::arithmetic::power2::lemma_pow2_adds;
use vstd::arithmetic::power2::lemma_pow2_pos;
use vstd::arithmetic::power2::lemma_pow2_strictly_increases;
use vstd::arithmetic::power2::lemma_pow2_unfold;
use vstd::arithmetic::power2::pow2;
use vstd::prelude::*;

verus! {

/// A finite number of up to `2^k` units in size, of which `2^149` make one.
pub open spec fn within(x: F32, k: nat) -> bool {
    x.is_finite() && mag_units(x.mag()) <= pow2(k)
}

/// The pattern of `2^k` units.
spec fn power_pattern(k: nat) -> int {
    (k - 23 + 1) * 0x80_0000
}

proof fn lemma_power_pattern(k: nat)
    requires
        23 <= k <= 276,
    ensures
        0 < power_pattern(k) < INF_BITS,
        mag_units(power_pattern(k)) == pow2(k),
        mag_units(power_pattern(k) + 1) == pow2(k) + pow2((k - 23) as nat),
        mag_units(power_pattern(k) - 1) < pow2(k),
{
    let s = (k - 23) as nat;
    lemma_mag_units_scaled(s, 0x80_0000);
    lemma_mag_units_scaled(s, 0x80_0001);
    lemma_pow2_adds(23, s);
    vstd::arithmetic::power2::lemma2_to64();
    assert(power_pattern(k) == s * 0x80_0000 + 0x80_0000);
    assert(0x80_0001 * pow2(s) == 0x80_0000 * pow2(s) + pow2(s)) by (nonlinear_arith);
    lemma_mag_units_increases(power_pattern(k) - 1, power_pattern(k));
}

proof fn lemma_pow2_order(i: nat, j: nat)
    requires
        i <= j,
    ensures
        pow2(i) <= pow2(j),
{
    if i < j {
        lemma_pow2_strictly_increases(i, j);
    }
}

/// What is within a bound is within a greater one.
pub proof fn lemma_within_more(x: F32, i: nat, j: nat)
    requires
        within(x, i),
        i <= j,
    ensures
        within(x, j),
{
    lemma_pow2_order(i, j);
}

/// A ratio of up to `2^k` units rounds to no more.
proof fn lemma_rounded_within(n: int, d: int, k: nat)
    requires
        n >= 0,
        d > 0,
        n <= d * pow2(k),
        23 <= k <= 276,
    ensures
        0 <= rounded(n, d) < INF_BITS,
        mag_units(rounded(n, d)) <= pow2(k),
{
    let b = power_pattern(k);
    lemma_power_pattern(k);
    lemma_rounded_exact(b, d);
    lemma_pow2_pos(k);
    assert(n * d <= (mag_units(b) * d) * d && mag_units(b) * d >= 0) by (nonlinear_arith)
        requires
            n <= d * pow2(k),
            mag_units(b) == pow2(k),
            pow2(k) > 0,
            d > 0,
    ;
    lemma_rounded_monotone(n, d, mag_units(b) * d, d);
    lemma_mag_units_monotone(rounded(n, d), b);
}

proof fn lemma_signed_within(negative: bool, b: int, k: nat)
    requires
        0 <= b < INF_BITS,
        mag_units(b) <= pow2(k),
    ensures
        within(signed(negative, b), k),
{
}

/// The size of a finite number, and its units.
proof fn lemma_size(x: F32)
    requires
        x.is_finite(),
    ensures
        abs_int(x.units()) == mag_units(x.mag()),
        mag_units(x.mag()) >= 0,
        0 <= x.mag() < INF_BITS,
{
    reveal(F32::units);
    lemma_mag_units_nonnegative(x.mag());
}

/// A sum of numbers within a bound is within twice the bound.
pub proof fn lemma_sum_within(a: F32, b: F32, k: nat)
    requires
        within(a, k),
        within(b, k),
        23 <= k < 276,
    ensures
        within(a + b, k + 1),
{
    lemma_size(a);
    lemma_size(b);
    reveal(F32::spec_add);
    let n = abs_int(a.units() + b.units());
    lemma_pow2_unfold(k + 1);
    lemma_rounded_within(n, 1, k + 1);
    lemma_mag_units_scaled(0, 0);
    lemma_pow2_pos(k + 1);
}

/// However many numbers within a bound are added up one by one, the sum never gets
/// above `2^25` times the bound: there, adding one more changes nothing.
pub proof fn lemma_running_sum_within(sum: F32, x: F32, k: nat)
    requires
        within(sum, k + 25),
        within(x, k),
        k + 25 <= 276,
    ensures
        within(sum + x, k + 25),
{
    lemma_size(sum);
    lemma_size(x);
    reveal(F32::spec_add);
    let top = k + 25;
    let b = power_pattern(top);
    let n = abs_int(sum.units() + x.units());
    let most = pow2(top) + pow2(k);
    lemma_power_pattern(top);
    lemma_pow2_pos(k);
    lemma_pow2_pos(top);
    lemma_pow2_unfold(k + 1);
    lemma_pow2_unfold(k + 2);
    assert(1 * (mag_units(b - 1) + mag_units(b)) < 2 * most);
    assert(2 * most < 1 * (mag_units(b) + mag_units(b + 1)));
    lemma_rounded(most as int, 1, b);
    lemma_rounded_monotone(n, 1, most as int, 1);
    lemma_mag_units_monotone(rounded(n, 1), b);
    lemma_mag_units_scaled(0, 0);
}

/// A product of bounded numbers is within the product of the bounds.
pub proof fn lemma_product_within(a: F32, b: F32, i: nat, j: nat, k: nat)
    requires
        within(a, i),
        within(b, j),
        i + j == k + 149,
        23 <= k <= 276,
    ensures
        within(a * b, k),
{
    lemma_size(a);
    lemma_size(b);
    reveal(F32::spec_mul);
    let n = mag_units(a.mag()) * mag_units(b.mag());
    lemma_pow2_adds(i, j);
    lemma_pow2_adds(149, k);
    lemma_pow2_pos(149);
    assert(0 <= n <= pow2(i) * pow2(j)) by (nonlinear_arith)
        requires
            n == mag_units(a.mag()) * mag_units(b.mag()),
            0 <= mag_units(a.mag()) <= pow2(i),
            0 <= mag_units(b.mag()) <= pow2(j),
    ;
    lemma_rounded_within(n, pow2(149) as int, k);
    lemma_signed_within(a.negative() != b.negative(), rounded(n, pow2(149) as int), k);
}

/// A bounded number by one of `2^j` units at least is within the quotient.
pub proof fn lemma_quotient_within(a: F32, b: F32, i: nat, j: nat, k: nat)
    requires
        within(a, i),
        !b.is_nan(),
        pow2(j) <= b.units(),
        i + 149 == j + k,
        23 <= k <= 276,
    ensures
        within(a / b, k),
{
    lemma_size(a);
    lemma_zero_and_one();
    lemma_pow2_pos(j);
    lemma_pow2_pos(k);
    lemma_nonnegative(b);
    reveal(F32::spec_euclidean_or_real_div);
    let d = mag_units(b.mag());
    let n = mag_units(a.mag()) * pow2(149);
    lemma_pow2_adds(i, 149);
    lemma_pow2_adds(j, k);
    lemma_pow2_pos(149);
    assert(0 <= n <= d * pow2(k)) by (nonlinear_arith)
        requires
            n == mag_units(a.mag()) * pow2(149),
            0 <= mag_units(a.mag()) <= pow2(i),
            pow2(i) * pow2(149) == pow2(j) * pow2(k),
            pow2(j) <= d,
            pow2(149) > 0,
            pow2(k) > 0,
    ;
    lemma_rounded_within(n, d, k);
    lemma_mag_units_scaled(0, 0);
    lemma_signed_within(a.negative() != b.negative(), rounded(n, d), k);
    lemma_signed_within(a.negative() != b.negative(), 0, k);
}

/// A ratio up to `2^k` is within it.
pub proof fn lemma_ratio_within(n: u32, d: u64, k: nat)
    requires
        d > 0,
        n <= d * pow2(k),
        k <= 127,
    ensures
        within(ratio(n, d), k + 149),
{
    let m = n * pow2(149);
    lemma_pow2_adds(k, 149);
    lemma_pow2_pos(149);
    assert(0 <= m <= d * pow2(k + 149)) by (nonlinear_arith)
        requires
            m == n * pow2(149),
            0 <= n <= d * pow2(k),
            pow2(k + 149) == pow2(k) * pow2(149),
            pow2(149) > 0,
    ;
    lemma_rounded_within(m, d as int, k + 149);
    lemma_signed_within(false, rounded(m, d as int), k + 149);
}

/// A whole number up to `2^k` is within it.
pub proof fn lemma_count_within(n: int, k: nat)
    requires
        0 <= n <= pow2(k),
        k <= 127,
    ensures
        within(of_int(n), k + 149),
{
    let m = n * pow2(149);
    lemma_pow2_adds(k, 149);
    lemma_pow2_pos(149);
    assert(0 <= m <= 1 * pow2(k + 149)) by (nonlinear_arith)
        requires
            m == n * pow2(149),
            0 <= n <= pow2(k),
            pow2(k + 149) == pow2(k) * pow2(149),
            pow2(149) > 0,
    ;
    lemma_rounded_within(m, 1, k + 149);
    lemma_signed_within(false, rounded(m, 1), k + 149);
}

/// The number with the other sign is within the same bound.
pub proof fn lemma_negated_within(x: F32, k: nat)
    requires
        within(x, k),
    ensures
        within(x.neg(), k),
{
}

/// Zeros of both signs and one are within one.
pub proof fn lemma_small_within()
    ensures
        forall|k: nat| #[trigger] within(zero(), k),
        forall|k: nat| #[trigger] within(empty_sum(), k),
        within(one(), 149),
{
    lemma_zero_and_one();
    lemma_mag_units_scaled(0, 0);
    assert forall|k: nat| #[trigger] within(zero(), k) by {
        lemma_pow2_pos(k);
    }
    assert forall|k: nat| #[trigger] within(empty_sum(), k) by {
        lemma_pow2_pos(k);
    }
}

/// A dot product of bounded vectors is bounded, however long they are.
pub proof fn lemma_dot_within(a: Seq<F32>, b: Seq<F32>, i: nat, j: nat, k: nat, n: nat)
    requires
        n <= a.len(),
        n <= b.len(),
        forall|m: int| 0 <= m < n ==> within(#[trigger] a[m], i),
        forall|m: int| 0 <= m < n ==> within(#[trigger] b[m], j),
        i + j == k + 149,
        23 <= k <= 251,
    ensures
        within(dot_of(a, b, n), k + 25),
    decreases n,
{
    lemma_small_within();
    if n > 0 {
        lemma_dot_within(a, b, i, j, k, (n - 1) as nat);
        assert(within(a[n - 1], i) && within(b[n - 1], j));
        lemma_product_within(a[n - 1], b[n - 1], i, j, k);
        lemma_running_sum_within(dot_of(a, b, (n - 1) as nat), a[n - 1] * b[n - 1], k);
    }
}

/// A number whose size is not above a bounded one is within its bound.
pub proof fn lemma_within_bound(x: F32, bound: F32, k: nat)
    requires
        x.abs() <= bound,
        zero() <= bound,
        within(bound, k),
    ensures
        within(x, k),
{
    lemma_zero_and_one();
    lemma_nonnegative(bound);
    reveal(F32::units);
    lemma_mag_units_nonnegative(x.mag());
    if x.mag() == INF_BITS {
        lemma_mag_units_increases(bound.mag(), x.mag());
    }
}

/// The square root of a finite number from one on is one or more.
pub proof fn lemma_root_at_least_one(x: F32)
    requires
        one() <= x,
        x.is_finite(),
    ensures
        one() <= x.sqrt(),
{
    lemma_zero_and_one();
    lemma_nonnegative(x);
    lemma_pow2_pos(149);
    let k = pow2(149) as int;
    let n = mag_units(x.mag()) * k;
    assert(n >= k * k) by (nonlinear_arith)
        requires
            n == mag_units(x.mag()) * k,
            mag_units(x.mag()) >= k,
            k > 0,
    ;
    assert(n >= 0) by (nonlinear_arith)
        requires
            n >= k * k,
    ;
    lemma_sqrt_exists(n);
    let b = sqrt_rounded(n);
    if b < one().mag() {
        lemma_mag_units_monotone(b + 1, one().mag());
        lemma_mag_units_increases(b, one().mag());
        lemma_mag_units_nonnegative(b);
        let high = mag_units(b) + mag_units(b + 1);
        assert(high * high < 4 * (k * k)) by (nonlinear_arith)
            requires
                0 <= high < 2 * k,
        ;
    } else {
        lemma_mag_units_monotone(one().mag(), b);
    }
    reveal(crate::float::sqrt_of);
    reveal(F32::units);
    lemma_mag_units_scaled(0, 0);
}

} // verus!
