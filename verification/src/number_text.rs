//! Numbers in messages: with a fixed number of decimals, or as few as will do.
use crate::float::parts;
use crate::float::times_pow2;
use crate::float::F32;
use crate::rounding::mag_units;
use crate::rounding::INF_BITS;
use crate::shortest_decimal::is_shortest;
use crate::shortest_decimal::lemma_nothing_reads_as;
use crate::shortest_decimal::lemma_shortest_is_unique;
use crate::shortest_decimal::shortest_decimal;
use crate::text::decimal_of;
use crate::text::digit;
use crate::text::digit_text;
use crate::wide_nat::lemma_power_of_ten_pos;
use crate::wide_nat::power_of_ten;
use vstd::arithmetic::power2::lemma_pow2_adds;
use vstd::arithmetic::power2::lemma_pow2_pos;
use vstd::arithmetic::power2::pow2;
use vstd::prelude::*;
use vstd::string::StringExecFns;

verus! {

/// The integer nearest to `n / d`; a half goes to the even one.
pub open spec fn nearest_even(n: int, d: int) -> int {
    let q = n / d;
    let r = n % d;
    if 2 * r > d || (2 * r == d && q % 2 == 1) {
        q + 1
    } else {
        q
    }
}

/// The size of a finite number times `scale`, as an integer.
pub open spec fn scaled(x: F32, scale: int) -> int {
    nearest_even(mag_units(x.mag()) * scale, pow2(149) as int)
}

pub open spec fn sign_text(x: F32) -> Seq<char> {
    if x.negative() {
        "-"@
    } else {
        ""@
    }
}

/// The text of a number with one decimal.
pub open spec fn fixed1_of(x: F32) -> Seq<char> {
    let q = scaled(x, 10);
    if x.is_nan() {
        "NaN"@
    } else if x.infinite() {
        sign_text(x) + "inf"@
    } else {
        sign_text(x) + decimal_of((q / 10) as nat) + "."@ + digit(q % 10)
    }
}

/// The text of a number with two decimals.
pub open spec fn fixed2_of(x: F32) -> Seq<char> {
    let q = scaled(x, 100);
    if x.is_nan() {
        "NaN"@
    } else if x.infinite() {
        sign_text(x) + "inf"@
    } else {
        sign_text(x) + decimal_of((q / 100) as nat) + "."@ + digit((q / 10) % 10) + digit(q % 10)
    }
}

/// `n` in decimal.
fn wide_decimal(n: u128) -> (r: String)
    ensures
        r@ == decimal_of(n as nat),
    decreases n,
{
    if n < 10 {
        digit_text(n as usize).to_owned()
    } else {
        wide_decimal(n / 10).concat(digit_text((n % 10) as usize))
    }
}

/// The whole part and the part behind the point of a finite magnitude times `scale`.
fn split_scaled(b: u32, scale: u128) -> (r: (u128, u128))
    requires
        b < INF_BITS,
        0 < scale <= 1_000_000_000,
    ensures
        r.0 * scale + r.1 == nearest_even(mag_units(b as int) * scale, pow2(149) as int),
        r.1 < scale,
{
    let (m, s) = parts(b);
    let ghost u: int = mag_units(b as int);
    let ghost unit: int = pow2(149) as int;
    proof {
        lemma_pow2_pos(149);
        lemma_pow2_pos(s as nat);
        vstd::arithmetic::power2::lemma2_to64();
        vstd::arithmetic::power2::lemma2_to64_rest();
    }
    if s >= 149 {
        let k: u32 = s - 149;
        proof {
            lemma_pow2_adds(k as nat, 149);
            lemma_pow2_adds(64, 40);
            if k < 104 {
                vstd::arithmetic::power2::lemma_pow2_strictly_increases(k as nat, 104);
            }
            assert(m * pow2(k as nat) <= u128::MAX) by (nonlinear_arith)
                requires
                    0 <= m < 0x100_0000,
                    0 <= pow2(k as nat) <= 0x1_0000_0000_0000_0000 * 0x100_0000_0000,
            ;
        }
        let whole: u128 = times_pow2(m as u128, k);
        proof {
            assert(u * scale == (whole * scale) * unit) by (nonlinear_arith)
                requires
                    u == m * pow2(s as nat),
                    pow2(s as nat) == pow2(k as nat) * unit,
                    whole == m * pow2(k as nat),
            ;
            vstd::arithmetic::div_mod::lemma_fundamental_div_mod_converse(
                u * scale,
                unit,
                whole * scale,
                0,
            );
        }
        (whole, 0)
    } else {
        let k: u32 = 149 - s;
        let ghost ps: int = pow2(s as nat) as int;
        let ghost pk: int = pow2(k as nat) as int;
        proof {
            lemma_pow2_adds(k as nat, s as nat);
            lemma_pow2_pos(k as nat);
            assert(unit == pk * ps);
        }
        if k >= 60 {
            proof {
                if k > 60 {
                    vstd::arithmetic::power2::lemma_pow2_strictly_increases(60, k as nat);
                }
                assert(0 <= u * scale && 2 * (u * scale) < unit) by (nonlinear_arith)
                    requires
                        u == m * ps,
                        unit == pk * ps,
                        pk >= 0x1000_0000_0000_0000,
                        0 <= m < 0x100_0000,
                        0 < scale <= 1_000_000_000,
                        ps > 0,
                ;
                vstd::arithmetic::div_mod::lemma_fundamental_div_mod_converse(
                    u * scale,
                    unit,
                    0,
                    u * scale,
                );
            }
            (0, 0)
        } else {
            let p64: u64 = 1u64 << k;
            proof {
                vstd::bits::lemma_u64_pow2_no_overflow(k as nat);
                vstd::bits::lemma_u64_shl_is_mul(1, k as u64);
            }
            let p: u128 = p64 as u128;
            proof {
                assert(m * scale <= 0x100_0000 * 1_000_000_000) by (nonlinear_arith)
                    requires
                        0 <= m < 0x100_0000,
                        0 < scale <= 1_000_000_000,
                ;
            }
            let n: u128 = m as u128 * scale;
            let q: u128 = n / p;
            let r: u128 = n % p;
            let up: bool = r > p - r || (r == p - r && q % 2 == 1);
            proof {
                assert(n == q * pk + r && 0 <= r < pk) by (nonlinear_arith)
                    requires
                        p == pk,
                        pk > 0,
                        q == n / p,
                        r == n % p,
                ;
                assert(u * scale == q * unit + r * ps) by (nonlinear_arith)
                    requires
                        u == m * ps,
                        n == m * scale,
                        n == q * pk + r,
                        unit == pk * ps,
                ;
                assert(0 <= r * ps < unit) by (nonlinear_arith)
                    requires
                        0 <= r < pk,
                        unit == pk * ps,
                        ps > 0,
                ;
                assert((2 * (r * ps) > unit <==> 2 * r > pk) && (2 * (r * ps) == unit <==> 2 * r == pk))
                    by (nonlinear_arith)
                    requires
                        unit == pk * ps,
                        ps > 0,
                ;
                vstd::arithmetic::div_mod::lemma_fundamental_div_mod_converse(
                    u * scale,
                    unit,
                    q as int,
                    r * ps,
                );
                assert(q <= n) by (nonlinear_arith)
                    requires
                        n == q * pk + r,
                        pk >= 1,
                        q >= 0,
                        r >= 0,
                ;
            }
            let v: u128 = if up {
                q + 1
            } else {
                q
            };
            proof {
                vstd::arithmetic::div_mod::lemma_fundamental_div_mod(v as int, scale as int);
                assert((v as int / scale as int) * scale == scale * (v as int / scale as int))
                    by (nonlinear_arith);
            }
            (v / scale, v % scale)
        }
    }
}

fn sign_of(x: F32) -> (r: String)
    ensures
        r@ == sign_text(x),
{
    if x.bits >= 0x8000_0000 {
        "-".to_owned()
    } else {
        "".to_owned()
    }
}

proof fn lemma_digits(whole: int, part: int, scale: int)
    requires
        whole >= 0,
        0 <= part < scale,
        scale == 10 || scale == 100,
    ensures
        (whole * scale + part) / scale == whole,
        (whole * scale + part) % 10 == part % 10,
        scale == 100 ==> ((whole * scale + part) / 10) % 10 == part / 10,
{
    if scale == 10 {
        assert((whole * 10 + part) / 10 == whole);
    } else {
        assert((whole * 100 + part) / 100 == whole);
        assert((whole * 100 + part) / 10 == whole * 10 + part / 10);
    }
}

/// The text of a number with one decimal.
pub fn fixed1(x: F32) -> (r: String)
    ensures
        r@ == fixed1_of(x),
{
    let b: u32 = x.bits % 0x8000_0000;
    if b > INF_BITS {
        return "NaN".to_owned();
    }
    if b == INF_BITS {
        return sign_of(x).concat("inf");
    }
    let (whole, part) = split_scaled(b, 10);
    proof {
        lemma_digits(whole as int, part as int, 10);
    }
    sign_of(x).concat(wide_decimal(whole).as_str()).concat(".").concat(digit_text(part as usize))
}

/// The text of a number with two decimals.
pub fn fixed2(x: F32) -> (r: String)
    ensures
        r@ == fixed2_of(x),
{
    let b: u32 = x.bits % 0x8000_0000;
    if b > INF_BITS {
        return "NaN".to_owned();
    }
    if b == INF_BITS {
        return sign_of(x).concat("inf");
    }
    let (whole, part) = split_scaled(b, 100);
    proof {
        lemma_digits(whole as int, part as int, 100);
    }
    sign_of(x).concat(wide_decimal(whole).as_str()).concat(".").concat(
        digit_text((part / 10) as usize),
    ).concat(digit_text((part % 10) as usize))
}

/// The last `k` digits of a number, leading zeros too.
pub open spec fn last_digits(n: int, k: nat) -> Seq<char>
    decreases k,
{
    if k == 0 {
        ""@
    } else {
        last_digits(n / 10, (k - 1) as nat) + digit(n % 10)
    }
}

/// The decimal `m * 10^k` written out, with as many decimals as it has.
pub open spec fn plain_of(m: int, k: int) -> Seq<char> {
    if k >= 0 {
        decimal_of((m * power_of_ten(k as nat)) as nat)
    } else {
        decimal_of((m / power_of_ten((-k) as nat)) as nat) + "."@ + last_digits(m, (-k) as nat)
    }
}

/// The digits of the shortest decimal that reads back as a number, and the
/// place of the last one.
pub open spec fn shortest_parts(x: F32) -> (int, int) {
    choose|p: (int, int)| #[trigger] is_shortest(x.mag(), p.0, p.1)
}

/// The text of a number: the shortest decimal that reads back as the number.
pub open spec fn shortest_of(x: F32) -> Seq<char> {
    if x.is_nan() {
        "NaN"@
    } else if x.infinite() {
        sign_text(x) + "inf"@
    } else if x.mag() == 0 {
        sign_text(x) + "0"@
    } else {
        sign_text(x) + plain_of(shortest_parts(x).0, shortest_parts(x).1)
    }
}

/// The text of a number is that of any decimal that is its shortest.
pub proof fn lemma_shortest_text(x: F32, m: int, k: int)
    requires
        x.is_finite(),
        x.mag() > 0,
        is_shortest(x.mag(), m, k),
    ensures
        shortest_of(x) == sign_text(x) + plain_of(m, k),
{
    let p = shortest_parts(x);
    assert(is_shortest(x.mag(), (m, k).0, (m, k).1));
    lemma_shortest_is_unique(x.mag(), m, k, p.0, p.1);
}

fn tail_digits(n: u32, k: u32) -> (r: String)
    ensures
        r@ == last_digits(n as int, k as nat),
    decreases k,
{
    if k == 0 {
        "".to_owned()
    } else {
        tail_digits(n / 10, k - 1).concat(digit_text((n % 10) as usize))
    }
}

/// `n` without its last `k` digits.
fn without_digits(n: u32, k: u32) -> (r: u32)
    ensures
        r == n as int / power_of_ten(k as nat),
    decreases k,
{
    if k == 0 {
        n
    } else {
        proof {
            lemma_power_of_ten_pos((k - 1) as nat);
            vstd::arithmetic::div_mod::lemma_div_denominator(
                n as int,
                10,
                power_of_ten((k - 1) as nat),
            );
        }
        without_digits(n / 10, k - 1)
    }
}

/// `n` with `k` zeros behind it, in decimal.
fn with_zeros(n: u32, k: u32) -> (r: String)
    requires
        n > 0,
    ensures
        r@ == decimal_of((n * power_of_ten(k as nat)) as nat),
    decreases k,
{
    if k == 0 {
        wide_decimal(n as u128)
    } else {
        proof {
            let p = power_of_ten((k - 1) as nat);
            lemma_power_of_ten_pos((k - 1) as nat);
            assert(n * (10 * p) == 10 * (n * p) && n * p >= 1) by (nonlinear_arith)
                requires
                    n >= 1,
                    p >= 1,
            ;
        }
        with_zeros(n, k - 1).concat("0")
    }
}

/// The text of a number: the shortest decimal that reads back as the number.
pub fn shortest(x: F32) -> (r: String)
    ensures
        r@ == shortest_of(x),
{
    let b: u32 = x.bits % 0x8000_0000;
    if b > INF_BITS {
        return "NaN".to_owned();
    }
    if b == INF_BITS {
        return sign_of(x).concat("inf");
    }
    if b == 0 {
        return sign_of(x).concat("0");
    }
    let (m, k) = shortest_decimal(b);
    proof {
        lemma_shortest_text(x, m as int, k as int);
        lemma_nothing_reads_as(k as int, b as int);
    }
    if k >= 0 {
        sign_of(x).concat(with_zeros(m, k as u32).as_str())
    } else {
        let j: u32 = (-k) as u32;
        let head: String = sign_of(x).concat(wide_decimal(without_digits(m, j) as u128).as_str());
        let r: String = head.concat(".").concat(tail_digits(m, j).as_str());
        assert(r@ =~= sign_text(x) + plain_of(m as int, k as int));
        r
    }
}

} // verus!
