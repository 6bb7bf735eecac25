//! Rounding of exact values to binary32 magnitude patterns: to the nearest
//! pattern, ties to the even one.
use vstd::arithmetic::power2::lemma_pow2_adds;
use vstd::arithmetic::power2::lemma_pow2_pos;
use vstd::arithmetic::power2::lemma_pow2_unfold;
use vstd::arithmetic::power2::pow2;
use vstd::prelude::*;

verus! {

/// Bit pattern of positive infinity; every magnitude pattern above it is a NaN.
pub const INF_BITS: u32 = 0x7f80_0000;

/// The size of the number with magnitude pattern `b`, in units of `2^-149`
/// (the smallest positive binary32 number). Infinity counts as `2^128`.
pub open spec fn mag_units(b: int) -> int {
    if b < 0x80_0000 {
        b
    } else {
        (b % 0x80_0000 + 0x80_0000) * pow2((b / 0x80_0000 - 1) as nat)
    }
}

/// `n / d` units round to the magnitude pattern `b`: they lie between the
/// midpoints to the neighbouring patterns, and a midpoint goes to the even one.
pub open spec fn rounds_to(n: int, d: int, b: int) -> bool {
    &&& 0 <= b <= INF_BITS
    &&& b > 0 ==> {
        let low = d * (mag_units(b - 1) + mag_units(b));
        2 * n > low || (2 * n == low && b % 2 == 0)
    }
    &&& b < INF_BITS ==> {
        let high = d * (mag_units(b) + mag_units(b + 1));
        2 * n < high || (2 * n == high && b % 2 == 0)
    }
}

/// `(sig + f) * 2^s` half units, where `0 <= f < 1` and `f` is zero unless
/// `sticky`, round to the magnitude pattern `b`.
spec fn half_units_round_to(sig: int, s: nat, sticky: bool, b: int) -> bool {
    let x = sig * pow2(s);
    &&& 0 <= b <= INF_BITS
    &&& b > 0 ==> {
        let low = mag_units(b - 1) + mag_units(b);
        low < x || (low == x && (sticky || b % 2 == 0))
    }
    &&& b < INF_BITS ==> {
        let high = mag_units(b) + mag_units(b + 1);
        x + pow2(s) <= high || (!sticky && (x < high || (x == high && b % 2 == 0)))
    }
}

pub(crate) proof fn lemma_mag_units_scaled(s: nat, m: int)
    requires
        0 <= m <= 0x100_0000,
        s == 0 || m >= 0x80_0000,
    ensures
        mag_units(s * 0x80_0000 + m) == m * pow2(s),
{
    let b = s * 0x80_0000 + m;
    lemma_pow2_pos(s);
    lemma_pow2_unfold((s + 1) as nat);
    assert(pow2(0) == 1) by {
        vstd::arithmetic::power2::lemma2_to64();
    }
    if m < 0x80_0000 {
        assert(b == m);
    } else if m < 0x100_0000 {
        assert(b / 0x80_0000 == s + 1);
        assert(b % 0x80_0000 == m - 0x80_0000);
    } else {
        assert(b / 0x80_0000 == s + 2);
        assert(b % 0x80_0000 == 0);
        assert(0x80_0000 * pow2((s + 1) as nat) == m * pow2(s)) by (nonlinear_arith)
            requires
                pow2((s + 1) as nat) == 2 * pow2(s),
                m == 0x100_0000,
        ;
    }
}

proof fn lemma_half_units_round(q: int, t: nat, lost: bool, q0: int, up: bool, b: int)
    requires
        0 <= q < 0x200_0000,
        t == 0 || q >= 0x100_0000,
        q0 == q / 2,
        up == (q % 2 == 1 && (lost || q0 % 2 == 1)),
        b == if t <= 253 { t * 0x80_0000 + q0 + (if up { 1int } else { 0 }) } else { INF_BITS as int },
    ensures
        half_units_round_to(q, t, lost, b),
{
    let p = pow2(t) as int;
    let m = q0 + (if up { 1int } else { 0 });
    lemma_pow2_pos(t);
    assert(0x7f80_0000int == 253 * 0x80_0000 + 0x100_0000);
    if t <= 253 {
        lemma_mag_units_scaled(t, m);
        assert(mag_units(b) == m * p);
        assert(b <= INF_BITS);
        if b < INF_BITS {
            if m < 0x100_0000 {
                lemma_mag_units_scaled(t, m + 1);
                assert(mag_units(b + 1) == (m + 1) * p);
                assert(m * p + (m + 1) * p == (2 * m + 1) * p) by (nonlinear_arith);
                if up {
                    assert((2 * m + 1) * p >= q * p + p) by (nonlinear_arith)
                        requires
                            2 * m + 1 >= q + 1,
                            p > 0,
                    ;
                } else if q % 2 == 0 {
                    assert((2 * m + 1) * p == q * p + p) by (nonlinear_arith)
                        requires
                            2 * m == q,
                    ;
                } else {
                    assert(2 * m + 1 == q);
                    assert(b % 2 == 0);
                }
            } else {
                lemma_mag_units_scaled((t + 1) as nat, 0x80_0001);
                lemma_pow2_unfold((t + 1) as nat);
                assert(b + 1 == (t + 1) * 0x80_0000 + 0x80_0001);
                assert(m * p + 0x80_0001 * (2 * p) >= q * p + p) by (nonlinear_arith)
                    requires
                        m == 0x100_0000,
                        q < 0x200_0000,
                        p > 0,
                ;
                assert(0x80_0001 * pow2((t + 1) as nat) == 0x80_0001 * (2 * p));
            }
        }
        if b > 0 {
            if t == 0 || m > 0x80_0000 {
                lemma_mag_units_scaled(t, m - 1);
                assert(mag_units(b - 1) == (m - 1) * p);
                assert(m * p + (m - 1) * p == (2 * m - 1) * p) by (nonlinear_arith);
                if up {
                    assert(2 * m - 1 == q);
                    assert(lost || b % 2 == 0);
                } else {
                    assert((2 * m - 1) * p < q * p) by (nonlinear_arith)
                        requires
                            2 * m - 1 < q,
                            p > 0,
                    ;
                }
            } else {
                lemma_mag_units_scaled((t - 1) as nat, 0xff_ffff);
                lemma_pow2_unfold(t);
                let h = pow2((t - 1) as nat) as int;
                lemma_pow2_pos((t - 1) as nat);
                assert(m * p + 0xff_ffff * h < q * p) by (nonlinear_arith)
                    requires
                        m == 0x80_0000,
                        q >= 0x100_0000,
                        p == 2 * h,
                        h > 0,
                ;
            }
        }
    } else {
        lemma_mag_units_scaled(253, 0x100_0000);
        lemma_mag_units_scaled(253, 0xff_ffff);
        let h = pow2(253) as int;
        lemma_pow2_pos(253);
        if t > 254 {
            vstd::arithmetic::power2::lemma_pow2_strictly_increases(254, t);
        }
        lemma_pow2_unfold(254);
        assert(p >= 2 * h);
        assert(0x100_0000 * h + 0xff_ffff * h < q * p) by (nonlinear_arith)
            requires
                q >= 0x100_0000,
                p >= 2 * h,
                h > 0,
        ;
    }
}

/// Rounds `(sig + f) * 2^s` half units to a magnitude pattern.
#[verifier::loop_isolation(false)]
fn round_half_units(sig: u128, s: u32, sticky: bool) -> (b: u32)
    requires
        s <= 1000,
        sticky ==> s == 0 || sig >= 0x200_0000,
    ensures
        half_units_round_to(sig as int, s as nat, sticky, b as int),
{
    if sig == 0 && !sticky {
        proof {
            lemma_pow2_pos(s as nat);
            lemma_mag_units_scaled(0, 0);
            lemma_mag_units_scaled(0, 1);
        }
        return 0;
    }
    let mut q: u128 = sig;
    let mut t: u32 = s;
    let mut lost: bool = sticky;
    let ghost mut k: nat = 0;
    let ghost mut r: int = 0;
    assert(pow2(0) == 1) by {
        vstd::arithmetic::power2::lemma2_to64();
    }
    while q >= 0x200_0000
        invariant
            sig == q * pow2(k) + r,
            0 <= r < pow2(k),
            lost == (sticky || r != 0),
            t == s + k,
            t <= 1000 + k,
            k <= 110,
            pow2(k) * q <= sig,
            k > 0 ==> q >= 0x100_0000,
            sticky ==> s == 0 || q >= 0x100_0000,
        decreases q,
    {
        let low: u128 = q % 2;
        let half: u128 = q / 2;
        let ghost q_old: int = q as int;
        let ghost k_old: nat = k;
        let ghost r_old: int = r;
        if low != 0 {
            lost = true;
        }
        q = half;
        t = t + 1;
        proof {
            k = k + 1;
            r = r + low * pow2(k_old);
            lemma_pow2_unfold(k);
            lemma_pow2_pos(k_old);
            assert(q_old * pow2(k_old) + r_old == half * pow2(k) + r) by (nonlinear_arith)
                requires
                    q_old == 2 * half + low,
                    pow2(k) == 2 * pow2(k_old),
                    r == r_old + low * pow2(k_old),
            ;
            assert(0 <= r < pow2(k)) by (nonlinear_arith)
                requires
                    0 <= r_old < pow2(k_old),
                    pow2(k) == 2 * pow2(k_old),
                    r == r_old + low * pow2(k_old),
                    0 <= low <= 1,
            ;
            assert(r != 0 <==> (r_old != 0 || low != 0)) by (nonlinear_arith)
                requires
                    0 <= r_old < pow2(k_old),
                    r == r_old + low * pow2(k_old),
                    0 <= low <= 1,
            ;
            assert(pow2(k) * half == half * pow2(k)) by (nonlinear_arith);
            if k > 110 {
                lemma_pow2_adds(32, 15);
                lemma_pow2_adds(64, 47);
                vstd::arithmetic::power2::lemma2_to64();
                assert(pow2(111) * half > 0xffff_ffff_ffff_ffff_ffff_ffff_ffff_ffffint) by (nonlinear_arith)
                    requires
                        half >= 0x100_0000,
                        pow2(111) == 0x1_0000_0000_0000_0000 * 0x8000_0000_0000,
                ;
            }
        }
    }
    let ghost x: int = q * pow2(t as nat);
    proof {
        lemma_pow2_adds(k, s as nat);
        assert((q * pow2(k) + r) * pow2(s as nat) == q * pow2(t as nat) + r * pow2(s as nat)) by (nonlinear_arith)
            requires
                pow2(t as nat) == pow2(k) * pow2(s as nat),
        ;
    }
    assert(q == 0 ==> sig == 0) by {
        assert(q == 0 ==> q * pow2(k) == 0) by (nonlinear_arith);
    }
    let ghost t_top: nat = t as nat;
    let ghost q_top: int = q as int;
    while q < 0x100_0000 && t > 0
        invariant
            q < 0x200_0000,
            q > 0 || t == 0,
            t <= 1110,
            x == q * pow2(t as nat),
            (t == t_top && q == q_top) || !lost,
        decreases t,
    {
        let ghost q_old: int = q as int;
        proof {
            lemma_pow2_unfold(t as nat);
            assert(q_old * (2 * pow2((t - 1) as nat)) == (2 * q_old) * pow2((t - 1) as nat)) by (nonlinear_arith);
        }
        q = q * 2;
        t = t - 1;
    }
    let q0: u32 = (q / 2) as u32;
    let up: bool = q % 2 == 1 && (lost || q0 % 2 == 1);
    let b: u32 = if t > 253 {
        INF_BITS
    } else if up {
        t * 0x80_0000 + q0 + 1
    } else {
        t * 0x80_0000 + q0
    };
    proof {
        lemma_half_units_round(q as int, t as nat, lost, q0 as int, up, b as int);
        let ps = pow2(s as nat) as int;
        lemma_pow2_pos(s as nat);
        let y = sig * pow2(s as nat);
        assert(y == x + r * ps);
        assert(r * ps >= 0) by (nonlinear_arith)
            requires
                r >= 0,
                ps > 0,
        ;
        if lost {
            assert(r != 0 ==> r * ps > 0) by (nonlinear_arith)
                requires
                    r >= 0,
                    ps > 0,
            ;
            assert(r * ps + ps <= pow2(k) * ps) by (nonlinear_arith)
                requires
                    r + 1 <= pow2(k),
                    ps > 0,
            ;
            lemma_pow2_adds(k, s as nat);
        } else {
            assert(r * ps == 0) by (nonlinear_arith)
                requires
                    r == 0,
            ;
            lemma_pow2_pos(t as nat);
        }
    }
    b
}

/// Magnitude patterns are ordered as the sizes they stand for.
pub proof fn lemma_mag_units_increases(a: int, b: int)
    requires
        0 <= a < b,
    ensures
        mag_units(a) < mag_units(b),
    decreases b - a,
{
    if a + 1 < b {
        lemma_mag_units_increases(a, b - 1);
        lemma_mag_units_increases(b - 1, b);
    } else {
        let s: nat = if a < 0x80_0000 { 0 } else { (a / 0x80_0000 - 1) as nat };
        let m = a - s * 0x80_0000;
        lemma_mag_units_scaled(s, m);
        lemma_mag_units_scaled(s, m + 1);
        lemma_pow2_pos(s);
        assert(m * pow2(s) < (m + 1) * pow2(s)) by (nonlinear_arith)
            requires
                pow2(s) > 0,
        ;
    }
}

pub proof fn lemma_mag_units_monotone(a: int, b: int)
    requires
        0 <= a <= b,
    ensures
        mag_units(a) <= mag_units(b),
{
    if a < b {
        lemma_mag_units_increases(a, b);
    }
}

/// Rounding keeps the order: a ratio that is not greater does not round to a
/// greater pattern.
pub proof fn lemma_rounding_is_monotone(n1: int, d1: int, b1: int, n2: int, d2: int, b2: int)
    requires
        d1 > 0,
        d2 > 0,
        n1 * d2 <= n2 * d1,
        rounds_to(n1, d1, b1),
        rounds_to(n2, d2, b2),
    ensures
        b1 <= b2,
{
    if b2 < b1 {
        let high = mag_units(b2) + mag_units(b2 + 1);
        let low = mag_units(b1 - 1) + mag_units(b1);
        lemma_mag_units_monotone(b2, b1 - 1);
        lemma_mag_units_monotone(b2 + 1, b1);
        assert(high <= low);
        assert(2 * n2 * d1 <= d2 * high * d1) by (nonlinear_arith)
            requires
                2 * n2 <= d2 * high,
                d1 > 0,
        ;
        assert(2 * n1 * d2 >= d1 * low * d2) by (nonlinear_arith)
            requires
                2 * n1 >= d1 * low,
                d2 > 0,
        ;
        assert(d2 * high * d1 <= d1 * low * d2) by (nonlinear_arith)
            requires
                high <= low,
                d1 > 0,
                d2 > 0,
        ;
        assert(2 * n2 * d1 == 2 * (n2 * d1)) by (nonlinear_arith);
        assert(2 * n1 * d2 == 2 * (n1 * d2)) by (nonlinear_arith);
        assert(d2 * high * d1 == d1 * low * d2);
        assert(high == low) by (nonlinear_arith)
            requires
                d2 * high * d1 == d1 * low * d2,
                d1 > 0,
                d2 > 0,
                high <= low,
        ;
        if b2 + 1 < b1 {
            lemma_mag_units_increases(b2, b1 - 1);
            assert(false);
        }
        assert(2 * n2 == d2 * high) by (nonlinear_arith)
            requires
                2 * n2 <= d2 * high,
                2 * n2 * d1 >= d2 * high * d1,
                d1 > 0,
        ;
        assert(2 * n1 == d1 * low) by (nonlinear_arith)
            requires
                2 * n1 >= d1 * low,
                2 * n1 * d2 <= d1 * low * d2,
                d2 > 0,
        ;
        assert(b2 % 2 == 0 && b1 % 2 == 0);
    }
}

proof fn lemma_rounding_exists_below(n: int, d: int, b: int)
    requires
        n >= 0,
        d > 0,
        0 <= b <= INF_BITS,
        b < INF_BITS ==> {
            let high = d * (mag_units(b) + mag_units(b + 1));
            2 * n < high || (2 * n == high && b % 2 == 0)
        },
    ensures
        exists|c: int| rounds_to(n, d, c),
    decreases b,
{
    let low = d * (mag_units(b - 1) + mag_units(b));
    if b == 0 || 2 * n > low || (2 * n == low && b % 2 == 0) {
        assert(rounds_to(n, d, b));
    } else {
        lemma_rounding_exists_below(n, d, b - 1);
    }
}

/// Every ratio that is not below zero rounds to some pattern.
pub proof fn lemma_rounding_exists(n: int, d: int)
    requires
        n >= 0,
        d > 0,
    ensures
        rounds_to(n, d, rounded(n, d)),
{
    lemma_rounding_exists_below(n, d, INF_BITS as int);
}

/// A ratio that is not greater does not round to a greater pattern.
pub proof fn lemma_rounded_monotone(n1: int, d1: int, n2: int, d2: int)
    requires
        n1 >= 0,
        d1 > 0,
        n2 >= 0,
        d2 > 0,
        n1 * d2 <= n2 * d1,
    ensures
        0 <= rounded(n1, d1) <= rounded(n2, d2) <= INF_BITS,
{
    lemma_rounding_exists(n1, d1);
    lemma_rounding_exists(n2, d2);
    lemma_rounding_is_monotone(n1, d1, rounded(n1, d1), n2, d2, rounded(n2, d2));
}

/// The magnitude pattern nearest to `n / d` units.
pub open spec fn rounded(n: int, d: int) -> int {
    choose|b: int| rounds_to(n, d, b)
}

/// A ratio rounds to one pattern only.
pub proof fn lemma_rounded(n: int, d: int, b: int)
    requires
        d > 0,
        rounds_to(n, d, b),
    ensures
        rounded(n, d) == b,
{
    let c = rounded(n, d);
    lemma_rounding_is_monotone(n, d, b, n, d, c);
    lemma_rounding_is_monotone(n, d, c, n, d, b);
}

/// A size that a pattern stands for rounds to that pattern.
pub proof fn lemma_rounded_exact(b: int, d: int)
    requires
        d > 0,
        0 <= b <= INF_BITS,
    ensures
        rounded(mag_units(b) * d, d) == b,
{
    let u = mag_units(b);
    if b > 0 {
        lemma_mag_units_increases(b - 1, b);
        assert(2 * (u * d) > d * (mag_units(b - 1) + u)) by (nonlinear_arith)
            requires
                d > 0,
                mag_units(b - 1) < u,
        ;
    }
    if b < INF_BITS {
        lemma_mag_units_increases(b, b + 1);
        assert(2 * (u * d) < d * (u + mag_units(b + 1))) by (nonlinear_arith)
            requires
                d > 0,
                mag_units(b + 1) > u,
        ;
    }
    lemma_rounded(u * d, d, b);
}

/// A ratio that does not round to infinity is off by half a unit or one part in
/// `2^24` of the result at most, whichever is more.
pub proof fn lemma_rounding_error(n: int, d: int)
    requires
        n >= 0,
        d > 0,
        rounded(n, d) < INF_BITS,
    ensures
        ({
            let u = mag_units(rounded(n, d));
            &&& 0x100_0000 * (n - d * u) <= d * (u + 0x80_0000)
            &&& 0x100_0000 * (d * u - n) <= d * (u + 0x80_0000)
        }),
{
    let b = rounded(n, d);
    let u = mag_units(b);
    lemma_rounding_exists(n, d);
    let s: nat = if b < 0x80_0000 { 0 } else { (b / 0x80_0000 - 1) as nat };
    let m = b - s * 0x80_0000;
    lemma_mag_units_scaled(s, m);
    lemma_mag_units_scaled(s, m + 1);
    lemma_pow2_pos(s);
    vstd::arithmetic::power2::lemma2_to64();
    let gap = pow2(s) as int;
    let above = mag_units(b + 1);
    assert(above == u + gap) by (nonlinear_arith)
        requires
            u == m * gap,
            above == (m + 1) * gap,
    ;
    assert(0x80_0000 * gap <= u + 0x80_0000) by (nonlinear_arith)
        requires
            u == m * gap,
            gap == 1 || m >= 0x80_0000,
            m >= 0,
            gap >= 1,
    ;
    assert(0x100_0000 * (n - d * u) <= d * (u + 0x80_0000)) by (nonlinear_arith)
        requires
            2 * n <= d * (u + above),
            above == u + gap,
            0x80_0000 * gap <= u + 0x80_0000,
            d > 0,
    ;
    if b > 0 {
        let below = mag_units(b - 1);
        lemma_gap_below(b);
        assert(0x100_0000 * (d * u - n) <= d * (u + 0x80_0000)) by (nonlinear_arith)
            requires
                2 * n >= d * (below + u),
                below >= u - gap,
                0x80_0000 * gap <= u + 0x80_0000,
                d > 0,
        ;
    } else {
        lemma_mag_units_scaled(0, 0);
        assert(0x100_0000 * (d * u - n) <= d * (u + 0x80_0000)) by (nonlinear_arith)
            requires
                u == 0,
                n >= 0,
                d > 0,
        ;
    }
}

/// The next pattern below is no further off than the next above.
proof fn lemma_gap_below(b: int)
    requires
        0 < b,
    ensures
        ({
            let s: nat = if b < 0x80_0000 { 0 } else { (b / 0x80_0000 - 1) as nat };
            mag_units(b - 1) >= mag_units(b) - pow2(s)
        }),
{
    let s: nat = if b < 0x80_0000 { 0 } else { (b / 0x80_0000 - 1) as nat };
    let m = b - s * 0x80_0000;
    lemma_mag_units_scaled(s, m);
    lemma_pow2_pos(s);
    let gap = pow2(s) as int;
    if s == 0 || m > 0x80_0000 {
        lemma_mag_units_scaled(s, m - 1);
        assert((m - 1) * gap == m * gap - gap) by (nonlinear_arith);
    } else {
        let t = (s - 1) as nat;
        lemma_mag_units_scaled(t, 0xff_ffff);
        assert(t * 0x80_0000 + 0xff_ffff == b - 1);
        lemma_pow2_unfold(s);
        lemma_pow2_pos(t);
        let half = pow2(t) as int;
        assert(m * gap == 0x100_0000 * half) by (nonlinear_arith)
            requires
                m == 0x80_0000,
                gap == 2 * half,
        ;
    }
}

/// Rounds `n / d` units, given as `(sig + f) * 2^s` half units with
/// `0 <= f < 1`, where `f` is zero unless `sticky`.
pub(crate) fn round_to_magnitude(
    sig: u128,
    s: u32,
    sticky: bool,
    Ghost(n): Ghost<int>,
    Ghost(d): Ghost<int>,
) -> (b: u32)
    requires
        s <= 1000,
        sticky ==> s == 0 || sig >= 0x200_0000,
        d > 0,
        d * (sig * pow2(s as nat)) <= 2 * n < d * ((sig + 1) * pow2(s as nat)),
        sticky == (2 * n != d * (sig * pow2(s as nat))),
    ensures
        b == rounded(n, d),
        rounds_to(n, d, b as int),
        b <= INF_BITS,
{
    let b: u32 = round_half_units(sig, s, sticky);
    proof {
        let x = sig * pow2(s as nat);
        assert((sig + 1) * pow2(s as nat) == x + pow2(s as nat)) by (nonlinear_arith)
            requires
                x == sig * pow2(s as nat),
        ;
        if b > 0 {
            let low = mag_units(b - 1) + mag_units(b as int);
            assert(low < x ==> d * low < d * x) by (nonlinear_arith)
                requires
                    d > 0,
            ;
        }
        if b < INF_BITS {
            let high = mag_units(b as int) + mag_units(b + 1);
            assert(x + pow2(s as nat) <= high ==> d * (x + pow2(s as nat)) <= d * high) by (nonlinear_arith)
                requires
                    d > 0,
            ;
            assert(x < high ==> d * x < d * high) by (nonlinear_arith)
                requires
                    d > 0,
            ;
        }
        lemma_rounded(n, d, b as int);
    }
    b
}

/// The square root of `n` (a number of units) rounds to the magnitude pattern `b`.
pub open spec fn sqrt_rounds_to(n: int, b: int) -> bool {
    &&& 0 <= b <= INF_BITS
    &&& b > 0 ==> {
        let low = mag_units(b - 1) + mag_units(b);
        4 * n > low * low || (4 * n == low * low && b % 2 == 0)
    }
    &&& b < INF_BITS ==> {
        let high = mag_units(b) + mag_units(b + 1);
        4 * n < high * high || (4 * n == high * high && b % 2 == 0)
    }
}

/// The magnitude pattern nearest to the square root of `n`.
pub open spec fn sqrt_rounded(n: int) -> int {
    choose|b: int| sqrt_rounds_to(n, b)
}

pub proof fn lemma_mag_units_nonnegative(b: int)
    requires
        0 <= b,
    ensures
        mag_units(b) >= b,
    decreases b,
{
    if b > 0 {
        lemma_mag_units_nonnegative(b - 1);
        lemma_mag_units_increases(b - 1, b);
    } else {
        lemma_mag_units_scaled(0, 0);
    }
}

proof fn lemma_sqrt_rounds_not_above(n: int, b: int, c: int)
    requires
        sqrt_rounds_to(n, b),
        sqrt_rounds_to(n, c),
    ensures
        c <= b,
{
    if b < c {
        let high = mag_units(b) + mag_units(b + 1);
        let low = mag_units(c - 1) + mag_units(c);
        lemma_mag_units_nonnegative(b);
        lemma_mag_units_nonnegative(b + 1);
        lemma_mag_units_monotone(b, c - 1);
        lemma_mag_units_monotone(b + 1, c);
        assert(high * high <= low * low) by (nonlinear_arith)
            requires
                0 <= high <= low,
        ;
        assert(high == low) by (nonlinear_arith)
            requires
                0 <= high <= low,
                high * high == low * low,
        ;
        if b + 1 < c {
            lemma_mag_units_increases(b, c - 1);
        }
    }
}

/// A size has one square root pattern only.
pub proof fn lemma_sqrt_rounded(n: int, b: int)
    requires
        sqrt_rounds_to(n, b),
    ensures
        sqrt_rounded(n) == b,
{
    let c = sqrt_rounded(n);
    lemma_sqrt_rounds_not_above(n, b, c);
    lemma_sqrt_rounds_not_above(n, c, b);
}

proof fn lemma_sqrt_exists_below(n: int, b: int)
    requires
        n >= 0,
        0 <= b <= INF_BITS,
        b < INF_BITS ==> {
            let high = mag_units(b) + mag_units(b + 1);
            4 * n < high * high || (4 * n == high * high && b % 2 == 0)
        },
    ensures
        exists|c: int| sqrt_rounds_to(n, c),
    decreases b,
{
    let low = mag_units(b - 1) + mag_units(b);
    if b == 0 || 4 * n > low * low || (4 * n == low * low && b % 2 == 0) {
        assert(sqrt_rounds_to(n, b));
    } else {
        lemma_sqrt_exists_below(n, b - 1);
    }
}

/// Every size that is not below zero has a square root pattern.
pub proof fn lemma_sqrt_exists(n: int)
    requires
        n >= 0,
    ensures
        sqrt_rounds_to(n, sqrt_rounded(n)),
{
    lemma_sqrt_exists_below(n, INF_BITS as int);
}

/// The integer square root.
fn integer_sqrt(m: u128) -> (r: u128)
    requires
        m < 0x1000_0000_0000_0000_0000_0000_0000,
    ensures
        r * r <= m < (r + 1) * (r + 1),
        r < 0x80_0000_0000_0000,
{
    let mut r: u128 = 0;
    let mut bit: u128 = 0x80_0000_0000_0000;
    let ghost mut k: nat = 55;
    proof {
        vstd::arithmetic::power2::lemma2_to64();
        lemma_pow2_adds(32, 23);
    }
    while bit > 1
        invariant
            1 <= bit <= 0x80_0000_0000_0000,
            r * r <= m < (r + bit) * (r + bit),
            r + bit <= 0x80_0000_0000_0000,
            bit == pow2(k),
        decreases bit,
    {
        let half: u128 = bit / 2;
        proof {
            vstd::arithmetic::power2::lemma2_to64();
            lemma_pow2_unfold(k);
            k = (k - 1) as nat;
        }
        let c: u128 = r + half;
        proof {
            assert(c * c <= 0x80_0000_0000_0000 * 0x80_0000_0000_0000) by (nonlinear_arith)
                requires
                    0 <= c <= 0x80_0000_0000_0000,
            ;
        }
        if c * c <= m {
            r = c;
        }
        bit = half;
    }
    r
}

/// Rounds the square root of `n`, given as `m * 4^t`.
pub(crate) fn round_sqrt_to_magnitude(m: u32, t: u32, Ghost(n): Ghost<int>) -> (b: u32)
    requires
        m < 0x200_0000,
        m > 0,
        40 <= t <= 1000,
        n == m * (pow2(t as nat) * pow2(t as nat)),
    ensures
        b == sqrt_rounded(n),
        b <= INF_BITS,
{
    let wide: u128 = m as u128 * 0x1_0000_0000_0000_0000_0000;
    let r: u128 = integer_sqrt(wide);
    let s: u32 = t - 39;
    proof {
        if r < 0x200_0000 {
            assert((r + 1) * (r + 1) <= 0x200_0000 * 0x200_0000) by (nonlinear_arith)
                requires
                    0 <= r < 0x200_0000,
            ;
        }
        assert(r * r < 0x80_0000_0000_0000 * 0x80_0000_0000_0000) by (nonlinear_arith)
            requires
                0 <= r < 0x80_0000_0000_0000,
        ;
    }
    let sticky: bool = r * r != wide;
    let b: u32 = round_half_units(r, s, sticky);
    proof {
        let ps = pow2(s as nat) as int;
        let x = r * ps;
        lemma_pow2_pos(s as nat);
        lemma_pow2_adds(39, s as nat);
        vstd::arithmetic::power2::lemma2_to64();
        vstd::arithmetic::power2::lemma2_to64_rest();
        let half = 0x80_0000_0000int;
        assert(4 * n == wide * (ps * ps)) by (nonlinear_arith)
            requires
                n == m * (pow2(t as nat) * pow2(t as nat)),
                pow2(t as nat) == 0x80_0000_0000 * ps,
                wide == m * 0x1_0000_0000_0000_0000_0000,
        ;
        assert(x * x == (r * r) * (ps * ps)) by (nonlinear_arith)
            requires
                x == r * ps,
        ;
        assert((x + ps) * (x + ps) == ((r + 1) * (r + 1)) * (ps * ps)) by (nonlinear_arith)
            requires
                x == r * ps,
        ;
        assert(ps * ps > 0) by (nonlinear_arith)
            requires
                ps > 0,
        ;
        assert((r * r) * (ps * ps) <= wide * (ps * ps)) by (nonlinear_arith)
            requires
                r * r <= wide,
                ps * ps > 0,
        ;
        assert(r * r < wide ==> (r * r) * (ps * ps) < wide * (ps * ps)) by (nonlinear_arith)
            requires
                ps * ps > 0,
        ;
        assert(wide * (ps * ps) < ((r + 1) * (r + 1)) * (ps * ps)) by (nonlinear_arith)
            requires
                wide < (r + 1) * (r + 1),
                ps * ps > 0,
        ;
        assert(x >= 0) by (nonlinear_arith)
            requires
                x == r * ps,
                r >= 0,
                ps > 0,
        ;
        if b > 0 {
            let low = mag_units(b - 1) + mag_units(b as int);
            lemma_mag_units_nonnegative(b - 1);
            lemma_mag_units_nonnegative(b as int);
            assert(low < x ==> low * low < x * x) by (nonlinear_arith)
                requires
                    low >= 0,
            ;
        }
        if b < INF_BITS {
            let high = mag_units(b as int) + mag_units(b + 1);
            assert(x + ps <= high ==> (x + ps) * (x + ps) <= high * high) by (nonlinear_arith)
                requires
                    x >= 0,
                    ps > 0,
            ;
            assert(x < high ==> x * x < high * high) by (nonlinear_arith)
                requires
                    x >= 0,
            ;
        }
        lemma_sqrt_rounded(n, b as int);
    }
    b
}

} // verus!
