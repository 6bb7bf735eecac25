//! The shortest decimal number that reads back as a given binary32 number.
use crate::float::abs_int;
use crate::float::parts;
use crate::rounding::lemma_mag_units_increases;
use crate::rounding::lemma_mag_units_monotone;
use crate::rounding::lemma_mag_units_scaled;
use crate::rounding::mag_units;
use crate::rounding::rounds_to;
use crate::rounding::INF_BITS;
use crate::wide_nat::lemma_power_of_ten_pos;
use crate::wide_nat::power_of_ten;
use crate::wide_nat::Wide;
use vstd::arithmetic::power2::lemma_pow2_adds;
use vstd::arithmetic::power2::lemma_pow2_pos;
use vstd::arithmetic::power2::lemma_pow2_unfold;
use vstd::arithmetic::power2::pow2;
use vstd::prelude::*;

verus! {

/// The whole power of ten in `10^k`: one where `k` is below zero.
pub open spec fn tens_above(k: int) -> int {
    if k > 0 {
        power_of_ten(k as nat)
    } else {
        1
    }
}

/// What `10^k` is divided by: one where `k` is not below zero.
pub open spec fn tens_below(k: int) -> int {
    if k < 0 {
        power_of_ten((-k) as nat)
    } else {
        1
    }
}

/// The decimal number `m * 10^k` reads as the magnitude pattern `b`: that one is
/// the nearest to it.
pub open spec fn reads_as(m: int, k: int, b: int) -> bool {
    m >= 0 && rounds_to(m * (tens_above(k) * pow2(149)), tens_below(k), b)
}

/// How far `m * 10^k` is from the number with the magnitude pattern `b`; the
/// measure is the same for one `k` and one `b`.
pub open spec fn distance(m: int, k: int, b: int) -> int {
    abs_int(m * (tens_above(k) * pow2(149)) - tens_below(k) * mag_units(b))
}

/// `m * 10^k` is the shortest decimal that reads as `b`: none with a higher last
/// place does, and of those with the same last place it is the nearest one, the
/// greater of two that are equally near.
pub open spec fn is_shortest(b: int, m: int, k: int) -> bool {
    &&& reads_as(m, k, b)
    &&& forall|m2: int, k2: int| k2 > k ==> !#[trigger] reads_as(m2, k2, b)
    &&& forall|m2: int|
        m2 != m && #[trigger] reads_as(m2, k, b) ==> distance(m, k, b) < distance(m2, k, b) || (
        distance(m, k, b) == distance(m2, k, b) && m > m2)
}

/// There is one shortest decimal only.
pub proof fn lemma_shortest_is_unique(b: int, m: int, k: int, m2: int, k2: int)
    requires
        is_shortest(b, m, k),
        is_shortest(b, m2, k2),
    ensures
        m == m2,
        k == k2,
{
    assert(reads_as(m, k, b));
    assert(reads_as(m2, k2, b));
}

/// A step of the last place, in halves of the measure.
spec fn step(k: int) -> int {
    tens_above(k) * pow2(150)
}

/// The number itself, in halves of the measure.
spec fn place(k: int, b: int) -> int {
    2 * (tens_below(k) * mag_units(b))
}

/// The middle between the number with pattern `b` and the next one.
spec fn middle(k: int, b: int) -> int {
    tens_below(k) * (mag_units(b) + mag_units(b + 1))
}

/// `m` is the number of whole steps of the last place.
spec fn whole_steps(m: int, k: int, b: int) -> bool {
    m >= 0 && m * step(k) <= place(k, b) < (m + 1) * step(k)
}

spec fn between(m: int, k: int, b: int) -> bool {
    &&& middle(k, b - 1) < m * step(k) || (middle(k, b - 1) == m * step(k) && b % 2 == 0)
    &&& m * step(k) < middle(k, b) || (m * step(k) == middle(k, b) && b % 2 == 0)
}

proof fn lemma_measure(k: int, b: int)
    requires
        0 < b < INF_BITS,
    ensures
        tens_above(k) > 0,
        tens_below(k) > 0,
        step(k) > 0,
        step(k) == 2 * (tens_above(k) * pow2(149)),
        middle(k, b - 1) < place(k, b) < middle(k, b),
{
    lemma_power_of_ten_pos(if k < 0 { (-k) as nat } else { k as nat });
    lemma_pow2_pos(149);
    lemma_pow2_unfold(150);
    let q = tens_above(k);
    let p = tens_below(k);
    let h = pow2(149) as int;
    assert(q * (2 * h) == 2 * (q * h) && q * h > 0) by (nonlinear_arith)
        requires
            q > 0,
            h > 0,
    ;
    lemma_mag_units_increases(b - 1, b);
    lemma_mag_units_increases(b, b + 1);
    let u = mag_units(b);
    let v = mag_units(b - 1);
    let w = mag_units(b + 1);
    assert(p * (v + u) < 2 * (p * u) < p * (u + w)) by (nonlinear_arith)
        requires
            p > 0,
            v < u < w,
    ;
}

proof fn lemma_reads(m: int, k: int, b: int)
    requires
        m >= 0,
        0 < b < INF_BITS,
    ensures
        reads_as(m, k, b) == between(m, k, b),
        2 * distance(m, k, b) == abs_int(m * step(k) - place(k, b)),
{
    lemma_measure(k, b);
    let h = tens_above(k) * pow2(149);
    assert(m * (2 * h) == 2 * (m * h)) by (nonlinear_arith);
}

/// A decimal without digits reads as zero only.
pub proof fn lemma_nothing_reads_as(k: int, b: int)
    requires
        0 < b < INF_BITS,
    ensures
        !reads_as(0, k, b),
{
    lemma_reads(0, k, b);
    lemma_measure(k, b);
    lemma_mag_units_monotone(0, b - 1);
    lemma_mag_units_increases(0, b);
    let p = tens_below(k);
    let low = mag_units(b - 1) + mag_units(b);
    assert(p * low > 0) by (nonlinear_arith)
        requires
            p > 0,
            low > 0,
    ;
    assert(0 * step(k) == 0);
}

/// Where some number of steps reads as `b`, the whole steps do or one more.
proof fn lemma_neighbours(m: int, k: int, b: int)
    requires
        0 < b < INF_BITS,
        whole_steps(m, k, b),
    ensures
        forall|m2: int| m2 <= m && #[trigger] reads_as(m2, k, b) ==> between(m, k, b),
        forall|m2: int| m2 > m && #[trigger] reads_as(m2, k, b) ==> between(m + 1, k, b),
{
    lemma_measure(k, b);
    let a = step(k);
    assert forall|m2: int| #[trigger] reads_as(m2, k, b) implies (m2 <= m ==> between(m, k, b)) && (
    m2 > m ==> between(m + 1, k, b)) by {
        lemma_reads(m2, k, b);
        assert(m2 <= m ==> m2 * a <= m * a) by (nonlinear_arith)
            requires
                a > 0,
        ;
        assert(m2 >= m + 1 ==> m2 * a >= (m + 1) * a) by (nonlinear_arith)
            requires
                a > 0,
        ;
    }
}

/// A decimal that reads as `b` does so with one more zero.
proof fn lemma_one_more_zero(m: int, k: int, b: int)
    requires
        0 < b < INF_BITS,
        reads_as(m, k, b),
    ensures
        reads_as(10 * m, k - 1, b),
{
    let h = pow2(149) as int;
    let q = tens_above(k);
    let q2 = tens_above(k - 1);
    let p = tens_below(k);
    let p2 = tens_below(k - 1);
    if k > 0 {
        assert(q == 10 * q2 && p == p2);
        assert((10 * m) * (q2 * h) == m * (10 * q2 * h)) by (nonlinear_arith);
    } else {
        assert(p2 == 10 * p && q == q2);
        assert((10 * m) * (q * h) == 10 * (m * (q * h))) by (nonlinear_arith);
        let low = mag_units(b - 1) + mag_units(b);
        let high = mag_units(b) + mag_units(b + 1);
        assert((10 * p) * low == 10 * (p * low)) by (nonlinear_arith);
        assert((10 * p) * high == 10 * (p * high)) by (nonlinear_arith);
    }
}

/// Where no decimal with last place `k` reads as `b`, none with a higher one does.
proof fn lemma_none_above(m: int, k: int, j: int, b: int)
    requires
        0 < b < INF_BITS,
        j >= k,
        forall|m2: int| !#[trigger] reads_as(m2, k, b),
    ensures
        !reads_as(m, j, b),
    decreases j - k,
{
    if j > k && reads_as(m, j, b) {
        lemma_one_more_zero(m, j, b);
        lemma_none_above(10 * m, k, j - 1, b);
    }
}

/// Where no decimal with last place `k` reads as `b`, the steps are too wide,
/// and the number has few of them.
proof fn lemma_steps_too_wide(m: int, k: int, b: int)
    requires
        0 < b < INF_BITS,
        whole_steps(m, k, b),
        forall|m2: int| !#[trigger] reads_as(m2, k, b),
    ensures
        m < 0x200_0000,
        k > -46,
{
    lemma_measure(k, b);
    lemma_reads(m, k, b);
    lemma_reads(m + 1, k, b);
    assert(!reads_as(m, k, b) && !reads_as(m + 1, k, b));
    let a = step(k);
    let p = tens_below(k);
    let width = middle(k, b) - middle(k, b - 1);
    assert((m + 1) * a == m * a + a) by (nonlinear_arith);
    assert(width <= a);
    let s: nat = if b < 0x80_0000 { 0 } else { (b / 0x80_0000 - 1) as nat };
    let t = b - s * 0x80_0000;
    lemma_mag_units_scaled(s, t);
    lemma_mag_units_scaled(s, t + 1);
    lemma_mag_units_increases(b - 1, b);
    lemma_pow2_pos(s);
    let ps = pow2(s) as int;
    let u = mag_units(b);
    let v = mag_units(b - 1);
    let w = mag_units(b + 1);
    assert(w == u + ps) by (nonlinear_arith)
        requires
            u == t * ps,
            w == (t + 1) * ps,
    ;
    assert(width >= p * ps && place(k, b) < 0x200_0000 * (p * ps)) by (nonlinear_arith)
        requires
            width == p * (u + w) - p * (v + u),
            place(k, b) == 2 * (p * u),
            w == u + ps,
            v < u,
            u == t * ps,
            0 <= t < 0x100_0000,
            p > 0,
            ps > 0,
    ;
    assert(m < 0x200_0000) by (nonlinear_arith)
        requires
            m * a <= place(k, b) < 0x200_0000 * (p * ps),
            p * ps <= a,
            a > 0,
            m >= 0,
    ;
    if k <= -46 {
        lemma_tens_and_twos(((-k) - 46) as nat);
        assert(p * ps >= p) by (nonlinear_arith)
            requires
                p > 0,
                ps >= 1,
        ;
        assert(p == power_of_ten(46 + ((-k) - 46) as nat));
        assert(a == pow2(150)) by (nonlinear_arith)
            requires
                a == tens_above(k) * pow2(150),
                tens_above(k) == 1,
        ;
    }
}

proof fn lemma_tens_and_twos(more: nat)
    ensures
        power_of_ten(46 + more) > pow2(150),
        power_of_ten(39) >= pow2(129),
    decreases more,
{
    if more > 0 {
        lemma_tens_and_twos((more - 1) as nat);
    } else {
        reveal_with_fuel(power_of_ten, 47);
        lemma_pow2_adds(64, 64);
        lemma_pow2_adds(128, 22);
        lemma_pow2_adds(128, 1);
        vstd::arithmetic::power2::lemma2_to64();
        vstd::arithmetic::power2::lemma2_to64_rest();
    }
}

/// Every number is below `10^39`, and no decimal with that last place reads as one.
proof fn lemma_top(b: int)
    requires
        0 < b < INF_BITS,
    ensures
        whole_steps(0, 39, b),
        forall|m: int| !#[trigger] reads_as(m, 39, b),
{
    lemma_measure(39, b);
    lemma_tens_and_twos(0);
    lemma_mag_units_monotone(b + 1, INF_BITS as int);
    lemma_mag_units_monotone(b, INF_BITS as int);
    lemma_mag_units_scaled(254, 0x80_0000);
    lemma_mag_units_monotone(0, b - 1);
    lemma_mag_units_monotone(0, b);
    lemma_pow2_adds(254, 23);
    lemma_pow2_adds(129, 148);
    lemma_pow2_adds(148, 2);
    lemma_pow2_pos(148);
    lemma_pow2_pos(129);
    vstd::arithmetic::power2::lemma2_to64();
    let h = pow2(148) as int;
    let t = power_of_ten(39);
    assert(mag_units(INF_BITS as int) == pow2(129) * h);
    assert(pow2(129) * h <= t * h && t * (h * 4) == 4 * (t * h) && t * h > 0) by (nonlinear_arith)
        requires
            pow2(129) <= t,
            pow2(129) > 0,
            h > 0,
    ;
    assert(step(39) == 4 * (t * h));
    assert(place(39, b) == 2 * mag_units(b));
    assert(middle(39, b) == mag_units(b) + mag_units(b + 1));
    assert forall|m: int| !#[trigger] reads_as(m, 39, b) by {
        if m >= 0 {
            lemma_reads(m, 39, b);
            let a = step(39);
            assert(m == 0 || m * a >= a) by (nonlinear_arith)
                requires
                    m >= 0,
                    a > 0,
            ;
        }
    }
}

/// One place further down the whole steps are ten times as many and up to nine more.
proof fn lemma_next_place(m: int, k: int, b: int)
    requires
        0 < b < INF_BITS,
        whole_steps(m, k, b),
    ensures
        (10 * m) * step(k - 1) <= place(k - 1, b) < (10 * m + 10) * step(k - 1),
{
    lemma_measure(k, b);
    lemma_measure(k - 1, b);
    let a = step(k);
    let a2 = step(k - 1);
    let x = place(k, b);
    let x2 = place(k - 1, b);
    if k > 0 {
        let q2 = tens_above(k - 1);
        let h = pow2(150) as int;
        assert(tens_above(k) == 10 * q2);
        assert(a == 10 * a2) by (nonlinear_arith)
            requires
                a == (10 * q2) * h,
                a2 == q2 * h,
        ;
        assert(x == x2);
    } else {
        let p = tens_below(k);
        let u = mag_units(b);
        assert(tens_below(k - 1) == 10 * p);
        assert(x2 == 10 * x) by (nonlinear_arith)
            requires
                x2 == 2 * ((10 * p) * u),
                x == 2 * (p * u),
        ;
        assert(a == a2);
    }
    assert((10 * m) * a2 == 10 * (m * a2) && (10 * m + 10) * a2 == 10 * ((m + 1) * a2))
        by (nonlinear_arith);
    assert(m * (10 * a2) == 10 * (m * a2) && (m + 1) * (10 * a2) == 10 * ((m + 1) * a2))
        by (nonlinear_arith);
}

/// The sum of the sizes of the pattern `b` and the next one, as a factor and a
/// power of two.
fn sum_with_next(b: u32) -> (r: (u32, u32))
    requires
        b < INF_BITS,
    ensures
        mag_units(b as int) + mag_units(b + 1) == r.0 * pow2(r.1 as nat),
{
    let (m, s) = parts(b);
    let (m2, s2) = parts(b + 1);
    if s2 == s {
        proof {
            let p = pow2(s as nat) as int;
            assert(m * p + m2 * p == (m + m2) * p) by (nonlinear_arith);
        }
        (m + m2, s)
    } else {
        proof {
            assert(s2 == s + 1);
            lemma_pow2_unfold(s2 as nat);
            let p = pow2(s as nat) as int;
            assert(m * p + m2 * (2 * p) == (m + 2 * m2) * p) by (nonlinear_arith);
        }
        (m + 2 * m2, s)
    }
}

/// A factor times a power of two times what `10^k` is divided by.
fn sized(part: (u32, u32), k: i32) -> (r: Wide)
    requires
        -46 <= k <= 38,
    ensures
        r.value() == tens_below(k as int) * (part.0 * pow2(part.1 as nat)),
{
    let w: Wide = Wide::from_u32(part.0).doubled(part.1);
    proof {
        let v = w.value();
        let p = tens_below(k as int);
        assert(v * p == p * v) by (nonlinear_arith);
        assert(v * 1 == v);
    }
    if k < 0 {
        w.tenfold((-k) as u32)
    } else {
        w
    }
}

/// Whether the size `at` lies between the two middles; on one only where `even`.
fn lies_between(low: &Wide, at: &Wide, high: &Wide, even: bool) -> (r: bool)
    ensures
        r == ((low.value() < at.value() || (low.value() == at.value() && even)) && (at.value()
            < high.value() || (at.value() == high.value() && even))),
{
    (low.below(at) || (even && !at.below(low))) && (at.below(high) || (even && !high.below(at)))
}

/// The chosen one of the two neighbours is the shortest decimal.
proof fn lemma_chosen(m: int, k: int, b: int, up: bool)
    requires
        0 < b < INF_BITS,
        whole_steps(m, k, b),
        forall|m2: int| !#[trigger] reads_as(m2, k + 1, b),
        up ==> between(m + 1, k, b) && (!between(m, k, b) || 2 * place(k, b) >= (2 * m + 1) * step(
            k,
        )),
        !up ==> between(m, k, b) && (!between(m + 1, k, b) || 2 * place(k, b) < (2 * m + 1) * step(
            k,
        )),
    ensures
        is_shortest(b, if up { m + 1 } else { m }, k),
{
    let r = if up { m + 1 } else { m };
    let a = step(k);
    let x = place(k, b);
    lemma_measure(k, b);
    lemma_reads(m, k, b);
    lemma_reads(m + 1, k, b);
    lemma_neighbours(m, k, b);
    assert((m + 1) * a == m * a + a && (2 * m + 1) * a == 2 * (m * a) + a) by (nonlinear_arith);
    assert forall|m2: int, k2: int| k2 > k implies !#[trigger] reads_as(m2, k2, b) by {
        lemma_none_above(m2, k + 1, k2, b);
    }
    assert forall|m2: int| m2 != r && #[trigger] reads_as(m2, k, b) implies distance(r, k, b)
        < distance(m2, k, b) || (distance(r, k, b) == distance(m2, k, b) && r > m2) by {
        lemma_reads(m2, k, b);
        assert(m2 < m ==> m2 * a <= m * a - a) by (nonlinear_arith)
            requires
                a > 0,
        ;
        assert(m2 > m + 1 ==> m2 * a >= (m + 1) * a + a) by (nonlinear_arith)
            requires
                a > 0,
        ;
    }
}

/// The shortest decimal that reads as the magnitude pattern `b`: its digits and
/// the place of the last one.
pub fn shortest_decimal(b: u32) -> (r: (u32, i32))
    requires
        0 < b < INF_BITS,
    ensures
        is_shortest(b as int, r.0 as int, r.1 as int),
        -46 <= r.1 <= 38,
{
    let size: (u32, u32) = parts(b);
    let below: (u32, u32) = sum_with_next(b - 1);
    let above: (u32, u32) = sum_with_next(b);
    let even: bool = b % 2 == 0;
    let mut k: i32 = 38;
    let mut m: u32 = 0;
    proof {
        lemma_top(b as int);
    }
    while k >= -46
        invariant
            -47 <= k <= 38,
            0 < b < INF_BITS,
            even == (b % 2 == 0),
            mag_units(b as int) == size.0 * pow2(size.1 as nat),
            mag_units(b - 1) + mag_units(b as int) == below.0 * pow2(below.1 as nat),
            mag_units(b as int) + mag_units(b + 1) == above.0 * pow2(above.1 as nat),
            whole_steps(m as int, k + 1, b as int),
            forall|m2: int| !#[trigger] reads_as(m2, k + 1, b as int),
        decreases k + 47,
    {
        proof {
            lemma_steps_too_wide(m as int, k + 1, b as int);
            lemma_next_place(m as int, k + 1, b as int);
            lemma_measure(k as int, b as int);
        }
        let one_step: Wide = Wide::from_u32(1).doubled(150).tenfold(
            if k > 0 {
                k as u32
            } else {
                0
            },
        );
        let here: Wide = sized(size, k).times(2);
        proof {
            let q = tens_above(k as int);
            let p = pow2(150) as int;
            assert(1 * p * q == q * p) by (nonlinear_arith);
            assert(one_step.value() == step(k as int));
            assert(here.value() == place(k as int, b as int));
        }
        let ghost most: int = 10 * m + 10;
        m = 10 * m;
        while !here.below(&one_step.times(m + 1))
            invariant
                most <= 10 * 0x200_0000,
                m < most,
                one_step.value() == step(k as int),
                here.value() == place(k as int, b as int),
                step(k as int) > 0,
                m * step(k as int) <= place(k as int, b as int) < most * step(k as int),
            ensures
                m < most,
                m * step(k as int) <= place(k as int, b as int) < (m + 1) * step(k as int),
            decreases most - m,
        {
            proof {
                let a = step(k as int);
                assert(a * (m + 1) == (m + 1) * a) by (nonlinear_arith);
                assert(m + 1 < most) by (nonlinear_arith)
                    requires
                        (m + 1) * a < most * a,
                        a > 0,
                ;
            }
            m = m + 1;
        }
        proof {
            let a = step(k as int);
            assert(a * m == m * a && a * (m + 1) == (m + 1) * a && a * (2 * m + 1) == (2 * m + 1) * a)
                by (nonlinear_arith);
        }
        let low: Wide = sized(below, k);
        let high: Wide = sized(above, k);
        let first: bool = lies_between(&low, &one_step.times(m), &high, even);
        let second: bool = lies_between(&low, &one_step.times(m + 1), &high, even);
        assert(first == between(m as int, k as int, b as int));
        assert(second == between(m + 1, k as int, b as int));
        if first || second {
            let up: bool = second && (!first || !here.times(2).below(&one_step.times(2 * m + 1)));
            proof {
                lemma_chosen(m as int, k as int, b as int, up);
            }
            return (
                if up {
                    m + 1
                } else {
                    m
                },
                k,
            );
        }
        proof {
            lemma_neighbours(m as int, k as int, b as int);
        }
        k = k - 1;
    }
    proof {
        lemma_steps_too_wide(m as int, k + 1, b as int);
    }
    (0, 0)
}

} // verus!
