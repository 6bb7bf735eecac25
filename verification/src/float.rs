//! IEEE 754 binary32 numbers and their arithmetic, on bit patterns.
use crate::rounding::lemma_mag_units_increases;
use crate::rounding::lemma_mag_units_monotone;
use crate::rounding::lemma_mag_units_scaled;
use crate::rounding::lemma_rounded_exact;
use crate::rounding::mag_units;
use crate::rounding::round_to_magnitude;
use crate::rounding::rounded;
use crate::rounding::INF_BITS;
use std::cmp::Ordering;
use vstd::arithmetic::power2::lemma_pow2_adds;
use vstd::arithmetic::power2::lemma_pow2_pos;
use vstd::arithmetic::power2::pow2;
use vstd::prelude::*;

verus! {

/// Bit pattern of the NaN that every invalid operation gives.
pub const NAN_BITS: u32 = 0x7fc0_0000;

/// An IEEE 754 binary32 number, held as its bit pattern.
#[derive(Clone, Copy, Debug)]
pub struct F32 {
    pub bits: u32,
}

/// The number with this sign and this magnitude pattern.
pub open spec fn signed(negative: bool, mag: int) -> F32 {
    F32 { bits: (if negative { mag + 0x8000_0000 } else { mag }) as u32 }
}

/// The canonical NaN.
pub open spec fn nan() -> F32 {
    F32 { bits: NAN_BITS }
}

pub open spec fn abs_int(n: int) -> int {
    if n < 0 {
        -n
    } else {
        n
    }
}

impl F32 {
    /// The sign bit.
    pub open spec fn negative(self) -> bool {
        self.bits >= 0x8000_0000
    }

    /// The bits below the sign bit.
    pub open spec fn mag(self) -> int {
        self.bits as int % 0x8000_0000
    }

    /// The value in units of `2^-149`; infinity counts as `2^128`.
    #[verifier::opaque]
    pub open spec fn units(self) -> int {
        if self.negative() {
            -mag_units(self.mag())
        } else {
            mag_units(self.mag())
        }
    }

    /// Zero, of either sign.
    pub open spec fn zero_valued(self) -> bool {
        self.mag() == 0
    }

    pub open spec fn infinite(self) -> bool {
        self.mag() == INF_BITS
    }

    #[verifier::allow_in_spec]
    pub fn is_nan(self) -> bool
        returns
            self.mag() > INF_BITS,
    {
        self.bits % 0x8000_0000 > INF_BITS
    }

    #[verifier::allow_in_spec]
    pub fn is_finite(self) -> bool
        returns
            self.mag() < INF_BITS,
    {
        self.bits % 0x8000_0000 < INF_BITS
    }

    /// The number without its sign.
    #[verifier::allow_in_spec]
    pub fn abs(self) -> F32
        returns
            (F32 { bits: self.bits % 0x8000_0000 }),
    {
        F32 { bits: self.bits % 0x8000_0000 }
    }

    /// The number with the other sign.
    #[verifier::allow_in_spec]
    pub fn neg(self) -> F32
        returns
            signed(!self.negative(), self.mag()),
    {
        with_sign(self.bits < 0x8000_0000, self.bits % 0x8000_0000)
    }

    /// `self < rhs` as numbers; false where one is a NaN.
    pub open spec fn spec_lt(self, rhs: F32) -> bool {
        !self.is_nan() && !rhs.is_nan() && self.units() < rhs.units()
    }

    pub open spec fn spec_le(self, rhs: F32) -> bool {
        !self.is_nan() && !rhs.is_nan() && self.units() <= rhs.units()
    }

    pub open spec fn spec_gt(self, rhs: F32) -> bool {
        rhs.spec_lt(self)
    }

    pub open spec fn spec_ge(self, rhs: F32) -> bool {
        rhs.spec_le(self)
    }

    /// Equality as numbers: zeros are equal, a NaN equals nothing.
    pub open spec fn same_number(self, rhs: F32) -> bool {
        !self.is_nan() && !rhs.is_nan() && self.units() == rhs.units()
    }

    /// The nearest number to the sum.
    #[verifier::opaque]
    pub open spec fn spec_add(self, rhs: F32) -> F32 {
        let sum = self.units() + rhs.units();
        if self.is_nan() || rhs.is_nan() {
            nan()
        } else if self.infinite() && rhs.infinite() && self.negative() != rhs.negative() {
            nan()
        } else if self.infinite() {
            self
        } else if rhs.infinite() {
            rhs
        } else if sum == 0 {
            signed(self.negative() && rhs.negative(), 0)
        } else {
            signed(sum < 0, rounded(abs_int(sum), 1))
        }
    }

    pub open spec fn spec_sub(self, rhs: F32) -> F32 {
        self.spec_add(rhs.neg())
    }

    /// The nearest number to the product.
    #[verifier::opaque]
    pub open spec fn spec_mul(self, rhs: F32) -> F32 {
        let negative = self.negative() != rhs.negative();
        if self.is_nan() || rhs.is_nan() {
            nan()
        } else if (self.infinite() && rhs.zero_valued()) || (self.zero_valued() && rhs.infinite()) {
            nan()
        } else if self.infinite() || rhs.infinite() {
            signed(negative, INF_BITS as int)
        } else {
            signed(negative, rounded(mag_units(self.mag()) * mag_units(rhs.mag()), pow2(149) as int))
        }
    }

    /// The nearest number to the quotient.
    #[verifier::opaque]
    pub open spec fn spec_euclidean_or_real_div(self, rhs: F32) -> F32 {
        let negative = self.negative() != rhs.negative();
        if self.is_nan() || rhs.is_nan() {
            nan()
        } else if (self.infinite() && rhs.infinite()) || (self.zero_valued() && rhs.zero_valued()) {
            nan()
        } else if self.infinite() || rhs.zero_valued() {
            signed(negative, INF_BITS as int)
        } else if rhs.infinite() || self.zero_valued() {
            signed(negative, 0)
        } else {
            signed(negative, rounded(mag_units(self.mag()) * pow2(149), mag_units(rhs.mag())))
        }
    }
}

/// The significand and the exponent of a magnitude pattern.
pub(crate) fn parts(b: u32) -> (r: (u32, u32))
    requires
        b <= INF_BITS,
    ensures
        mag_units(b as int) == r.0 * pow2(r.1 as nat),
        r.0 < 0x100_0000,
        r.1 == if b < 0x80_0000 { 0 } else { b / 0x80_0000 - 1 },
        r.1 == 0 || r.0 >= 0x80_0000,
        r.0 == 0 <==> b == 0,
{
    if b < 0x80_0000 {
        proof {
            lemma_mag_units_scaled(0, b as int);
        }
        (b, 0)
    } else {
        proof {
            lemma_mag_units_scaled((b / 0x80_0000 - 1) as nat, b as int % 0x80_0000 + 0x80_0000);
        }
        (b % 0x80_0000 + 0x80_0000, b / 0x80_0000 - 1)
    }
}

/// `x * 2^k`.
pub(crate) fn times_pow2(x: u128, k: u32) -> (r: u128)
    requires
        k <= 126,
        x * pow2(k as nat) <= u128::MAX,
    ensures
        r == x * pow2(k as nat),
{
    let low: u32 = if k < 63 { k } else { 63 };
    let high: u32 = k - low;
    let p: u64 = 1u64 << low;
    let q: u64 = 1u64 << high;
    proof {
        vstd::bits::lemma_u64_pow2_no_overflow(low as nat);
        vstd::bits::lemma_u64_pow2_no_overflow(high as nat);
        vstd::bits::lemma_u64_shl_is_mul(1, low as u64);
        vstd::bits::lemma_u64_shl_is_mul(1, high as u64);
        lemma_pow2_adds(low as nat, high as nat);
        lemma_pow2_pos(low as nat);
        lemma_pow2_pos(high as nat);
        assert(x * (p * q) == (x * p) * q) by (nonlinear_arith);
        assert(x * p <= (x * p) * q) by (nonlinear_arith)
            requires
                q >= 1,
                x >= 0,
                p >= 0,
        ;
    }
    (x * p as u128) * q as u128
}

/// The magnitude pattern of the sum or difference of two finite magnitudes.
fn sum_magnitude(hi: u32, lo: u32, subtract: bool) -> (b: u32)
    requires
        lo <= hi < INF_BITS,
    ensures
        b == rounded(
            mag_units(hi as int) + (if subtract {
                -mag_units(lo as int)
            } else {
                mag_units(lo as int)
            }),
            1,
        ),
        b <= INF_BITS,
{
    let (mh, sh) = parts(hi);
    let (ml, sl) = parts(lo);
    let gap: u32 = sh - sl;
    let ghost uh: int = mag_units(hi as int);
    let ghost ul: int = mag_units(lo as int);
    let ghost n: int = uh + (if subtract { -ul } else { ul });
    proof {
        lemma_mag_units_monotone(lo as int, hi as int);
        lemma_pow2_pos(sl as nat);
        lemma_pow2_pos(sh as nat);
        lemma_pow2_pos(gap as nat);
    }
    if gap <= 64 {
        proof {
            lemma_pow2_adds(gap as nat, sl as nat);
            vstd::arithmetic::power2::lemma2_to64();
            if gap < 64 {
                vstd::arithmetic::power2::lemma_pow2_strictly_increases(gap as nat, 64);
            }
            assert(mh * pow2(gap as nat) <= 0x100_0000 * 0x1_0000_0000_0000_0000) by (nonlinear_arith)
                requires
                    0 <= mh <= 0x100_0000,
                    0 <= pow2(gap as nat) <= 0x1_0000_0000_0000_0000,
            ;
        }
        let top: u128 = times_pow2(mh as u128, gap);
        proof {
            assert(uh == top * pow2(sl as nat)) by (nonlinear_arith)
                requires
                    uh == mh * pow2(sh as nat),
                    pow2(sh as nat) == pow2(gap as nat) * pow2(sl as nat),
                    top == mh * pow2(gap as nat),
            ;
            assert(top >= ml) by (nonlinear_arith)
                requires
                    top * pow2(sl as nat) >= ml * pow2(sl as nat),
                    pow2(sl as nat) > 0,
            ;
        }
        let sig: u128 = if subtract {
            2 * (top - ml as u128)
        } else {
            2 * (top + ml as u128)
        };
        proof {
            assert(sig * pow2(sl as nat) == 2 * n) by (nonlinear_arith)
                requires
                    n == uh + (if subtract { -ul } else { ul }),
                    uh == top * pow2(sl as nat),
                    ul == ml * pow2(sl as nat),
                    sig == if subtract { 2 * (top - ml) } else { 2 * (top + ml) },
            ;
            assert((sig + 1) * pow2(sl as nat) > sig * pow2(sl as nat)) by (nonlinear_arith)
                requires
                    pow2(sl as nat) > 0,
            ;
        }
        round_to_magnitude(sig, sl, false, Ghost(n), Ghost(1int))
    } else {
        let s: u32 = sh - 40;
        let ghost ps: int = pow2(s as nat) as int;
        proof {
            vstd::arithmetic::power2::lemma2_to64();
            vstd::arithmetic::power2::lemma2_to64_rest();
            lemma_pow2_adds(40, s as nat);
            lemma_pow2_pos(s as nat);
            lemma_pow2_adds(25, sl as nat);
            if sl + 25 < s {
                vstd::arithmetic::power2::lemma_pow2_strictly_increases((sl + 25) as nat, s as nat);
            }
            assert(2 * ul < ps) by (nonlinear_arith)
                requires
                    ul == ml * pow2(sl as nat),
                    ml < 0x100_0000,
                    0x200_0000 * pow2(sl as nat) <= ps,
                    pow2(sl as nat) > 0,
            ;
            assert(ul >= 0 && (ul == 0 <==> ml == 0)) by (nonlinear_arith)
                requires
                    ul == ml * pow2(sl as nat),
                    ml >= 0,
                    pow2(sl as nat) > 0,
            ;
            assert(2 * uh == (2 * (mh * 0x100_0000_0000)) * ps) by (nonlinear_arith)
                requires
                    uh == mh * pow2(sh as nat),
                    pow2(sh as nat) == 0x100_0000_0000 * ps,
            ;
        }
        let whole: u128 = 2 * (mh as u128 * 0x100_0000_0000);
        let sticky: bool = ml != 0;
        let sig: u128 = if subtract && sticky {
            whole - 1
        } else {
            whole
        };
        proof {
            assert((whole - 1) * ps == whole * ps - ps) by (nonlinear_arith);
            assert((whole + 1) * ps == whole * ps + ps) by (nonlinear_arith);
        }
        round_to_magnitude(sig, s, sticky, Ghost(n), Ghost(1int))
    }
}

/// The number with this sign and magnitude pattern.
fn with_sign(negative: bool, mag: u32) -> (r: F32)
    requires
        mag < 0x8000_0000,
    ensures
        r == signed(negative, mag as int),
{
    if negative {
        F32 { bits: mag + 0x8000_0000 }
    } else {
        F32 { bits: mag }
    }
}

fn sum(a: F32, b: F32) -> (r: F32)
    ensures
        r == a.spec_add(b),
{
    proof {
        reveal(F32::spec_add);
        reveal(F32::units);
    }
    if a.is_nan() || b.is_nan() {
        return F32 { bits: NAN_BITS };
    }
    let am: u32 = a.bits % 0x8000_0000;
    let bm: u32 = b.bits % 0x8000_0000;
    let an: bool = a.bits >= 0x8000_0000;
    let bn: bool = b.bits >= 0x8000_0000;
    if am == INF_BITS {
        if bm == INF_BITS && an != bn {
            return F32 { bits: NAN_BITS };
        }
        return a;
    }
    if bm == INF_BITS {
        return b;
    }
    proof {
        crate::rounding::lemma_mag_units_nonnegative(am as int);
        crate::rounding::lemma_mag_units_nonnegative(bm as int);
        if am < bm {
            lemma_mag_units_increases(am as int, bm as int);
        }
        if bm < am {
            lemma_mag_units_increases(bm as int, am as int);
        }
    }
    if an != bn && am == bm {
        return with_sign(false, 0);
    }
    if am == 0 && bm == 0 {
        return with_sign(an && bn, 0);
    }
    if am >= bm {
        with_sign(an, sum_magnitude(am, bm, an != bn))
    } else {
        with_sign(bn, sum_magnitude(bm, am, an != bn))
    }
}

impl std::ops::Add for F32 {
    type Output = F32;

    fn add(self, rhs: F32) -> (r: F32) {
        sum(self, rhs)
    }
}

impl vstd::std_specs::ops::AddSpecImpl for F32 {
    open spec fn obeys_add_spec() -> bool {
        true
    }

    open spec fn add_req(self, rhs: F32) -> bool {
        true
    }

    open spec fn add_spec(self, rhs: F32) -> F32 {
        self.spec_add(rhs)
    }
}

impl std::ops::Sub for F32 {
    type Output = F32;

    fn sub(self, rhs: F32) -> (r: F32) {
        sum(self, rhs.neg())
    }
}

impl vstd::std_specs::ops::SubSpecImpl for F32 {
    open spec fn obeys_sub_spec() -> bool {
        true
    }

    open spec fn sub_req(self, rhs: F32) -> bool {
        true
    }

    open spec fn sub_spec(self, rhs: F32) -> F32 {
        self.spec_sub(rhs)
    }
}

/// The magnitude pattern of the product of two finite magnitudes.
fn product_magnitude(am: u32, bm: u32) -> (b: u32)
    requires
        am < INF_BITS,
        bm < INF_BITS,
    ensures
        b == rounded(mag_units(am as int) * mag_units(bm as int), pow2(149) as int),
        b <= INF_BITS,
{
    let (ma, sa) = parts(am);
    let (mb, sb) = parts(bm);
    proof {
        assert(ma * mb < 0x1_0000_0000_0000) by (nonlinear_arith)
            requires
                0 <= ma < 0x100_0000,
                0 <= mb < 0x100_0000,
        ;
    }
    let prod: u128 = ma as u128 * mb as u128;
    let e: u32 = sa + sb;
    let ghost n: int = mag_units(am as int) * mag_units(bm as int);
    let ghost d: int = pow2(149) as int;
    proof {
        lemma_pow2_pos(149);
        lemma_pow2_adds(sa as nat, sb as nat);
        assert(n == prod * pow2(e as nat)) by (nonlinear_arith)
            requires
                n == (ma * pow2(sa as nat)) * (mb * pow2(sb as nat)),
                prod == ma * mb,
                pow2(e as nat) == pow2(sa as nat) * pow2(sb as nat),
        ;
    }
    if e >= 149 {
        let s: u32 = e - 149;
        proof {
            lemma_pow2_pos(s as nat);
            lemma_pow2_adds(149, s as nat);
            assert(d * ((2 * prod) * pow2(s as nat)) == 2 * n) by (nonlinear_arith)
                requires
                    n == prod * pow2(e as nat),
                    pow2(e as nat) == d * pow2(s as nat),
            ;
            assert(d * ((2 * prod + 1) * pow2(s as nat)) > d * ((2 * prod) * pow2(s as nat))) by (nonlinear_arith)
                requires
                    d > 0,
                    pow2(s as nat) > 0,
            ;
        }
        round_to_magnitude(2 * prod, s, false, Ghost(n), Ghost(d))
    } else {
        let k: u32 = 148 - e;
        let ghost pk: int = pow2(k as nat) as int;
        let ghost pe: int = pow2(e as nat) as int;
        proof {
            lemma_pow2_pos(k as nat);
            lemma_pow2_pos(e as nat);
            lemma_pow2_adds(k as nat, e as nat);
            lemma_pow2_adds(148, 1);
            vstd::arithmetic::power2::lemma2_to64();
            assert(d == 2 * (pk * pe));
        }
        if k >= 48 {
            let sticky: bool = prod != 0;
            proof {
                lemma_pow2_adds(32, 16);
                if k > 48 {
                    vstd::arithmetic::power2::lemma_pow2_strictly_increases(48, k as nat);
                }
                assert(2 * n < d) by (nonlinear_arith)
                    requires
                        n == prod * pe,
                        prod < pk,
                        d == 2 * (pk * pe),
                        pe > 0,
                ;
                assert(n == 0 <==> prod == 0) by (nonlinear_arith)
                    requires
                        n == prod * pe,
                        pe > 0,
                ;
                assert(n >= 0) by (nonlinear_arith)
                    requires
                        n == prod * pe,
                        prod >= 0,
                        pe > 0,
                ;
                assert(d * (0 * pow2(0)) == 0) by (nonlinear_arith);
                assert(d * ((0 + 1) * pow2(0)) == d) by (nonlinear_arith)
                    requires
                        pow2(0) == 1,
                ;
            }
            round_to_magnitude(0, 0, sticky, Ghost(n), Ghost(d))
        } else {
            let p: u64 = 1u64 << k;
            proof {
                vstd::bits::lemma_u64_pow2_no_overflow(k as nat);
                vstd::bits::lemma_u64_shl_is_mul(1, k as u64);
            }
            let sig: u128 = prod / p as u128;
            let sticky: bool = prod % p as u128 != 0;
            proof {
                let rem: int = (prod % p as u128) as int;
                assert(prod == sig * pk + rem && 0 <= rem < pk) by (nonlinear_arith)
                    requires
                        p == pk,
                        pk > 0,
                        sig == prod / p as u128,
                        rem == prod % p as u128,
                ;
                assert(2 * n == d * sig + 2 * (rem * pe)) by (nonlinear_arith)
                    requires
                        n == prod * pe,
                        prod == sig * pk + rem,
                        d == 2 * (pk * pe),
                ;
                assert(0 <= 2 * (rem * pe) < d && (rem * pe == 0 <==> rem == 0)) by (nonlinear_arith)
                    requires
                        0 <= rem < pk,
                        d == 2 * (pk * pe),
                        pe > 0,
                ;
                assert(d * (sig * pow2(0)) == d * sig) by (nonlinear_arith)
                    requires
                        pow2(0) == 1,
                ;
                assert(d * ((sig + 1) * pow2(0)) == d * sig + d) by (nonlinear_arith)
                    requires
                        pow2(0) == 1,
                ;
            }
            round_to_magnitude(sig, 0, sticky, Ghost(n), Ghost(d))
        }
    }
}

fn product(a: F32, b: F32) -> (r: F32)
    ensures
        r == a.spec_mul(b),
{
    proof {
        reveal(F32::spec_mul);
    }
    if a.is_nan() || b.is_nan() {
        return F32 { bits: NAN_BITS };
    }
    let am: u32 = a.bits % 0x8000_0000;
    let bm: u32 = b.bits % 0x8000_0000;
    let negative: bool = (a.bits >= 0x8000_0000) != (b.bits >= 0x8000_0000);
    if am == INF_BITS || bm == INF_BITS {
        if am == 0 || bm == 0 {
            return F32 { bits: NAN_BITS };
        }
        return with_sign(negative, INF_BITS);
    }
    with_sign(negative, product_magnitude(am, bm))
}

impl std::ops::Mul for F32 {
    type Output = F32;

    fn mul(self, rhs: F32) -> (r: F32) {
        product(self, rhs)
    }
}

impl vstd::std_specs::ops::MulSpecImpl for F32 {
    open spec fn obeys_mul_spec() -> bool {
        true
    }

    open spec fn mul_req(self, rhs: F32) -> bool {
        true
    }

    open spec fn mul_spec(self, rhs: F32) -> F32 {
        self.spec_mul(rhs)
    }
}

proof fn lemma_quotient(n: int, d: int, s: nat, num: int, den: int, p: int)
    requires
        p > 0,
        den > 0,
        d > 0,
        num >= 0,
        2 * n == num * p,
        d * pow2(s) == den * p,
    ensures
        d * ((num / den) * pow2(s)) <= 2 * n < d * ((num / den + 1) * pow2(s)),
        (num % den != 0) == (2 * n != d * ((num / den) * pow2(s))),
{
    let sig = num / den;
    let rem = num % den;
    assert(num == sig * den + rem && 0 <= rem < den) by (nonlinear_arith)
        requires
            den > 0,
            sig == num / den,
            rem == num % den,
    ;
    assert(d * (sig * pow2(s)) == sig * (den * p)) by (nonlinear_arith)
        requires
            d * pow2(s) == den * p,
    ;
    assert(d * ((sig + 1) * pow2(s)) == sig * (den * p) + den * p) by (nonlinear_arith)
        requires
            d * pow2(s) == den * p,
    ;
    assert(num * p == sig * (den * p) + rem * p) by (nonlinear_arith)
        requires
            num == sig * den + rem,
    ;
    assert(0 <= rem * p < den * p && (rem * p == 0 <==> rem == 0)) by (nonlinear_arith)
        requires
            0 <= rem < den,
            p > 0,
    ;
}

/// The magnitude pattern of the quotient of two finite magnitudes.
fn quotient_magnitude(am: u32, bm: u32) -> (b: u32)
    requires
        0 < am < INF_BITS,
        0 < bm < INF_BITS,
    ensures
        b == rounded(mag_units(am as int) * pow2(149), mag_units(bm as int)),
        b <= INF_BITS,
{
    let (ma, sa) = parts(am);
    let (mb, sb) = parts(bm);
    let ghost n: int = mag_units(am as int) * pow2(149);
    let ghost d: int = mag_units(bm as int);
    proof {
        lemma_pow2_pos(sb as nat);
        lemma_pow2_pos((sa + 150) as nat);
        lemma_pow2_adds(sa as nat, 149);
        lemma_pow2_adds((sa + 149) as nat, 1);
        vstd::arithmetic::power2::lemma2_to64();
        assert(2 * n == ma * pow2((sa + 150) as nat)) by (nonlinear_arith)
            requires
                n == (ma * pow2(sa as nat)) * pow2(149),
                pow2((sa + 149) as nat) == pow2(sa as nat) * pow2(149),
                pow2((sa + 150) as nat) == pow2((sa + 149) as nat) * 2,
        ;
        assert(d > 0) by (nonlinear_arith)
            requires
                d == mb * pow2(sb as nat),
                mb > 0,
                pow2(sb as nat) > 0,
        ;
    }
    if sa + 150 >= sb + 64 {
        let s: u32 = sa + 150 - sb - 64;
        let num: u128 = ma as u128 * 0x1_0000_0000_0000_0000;
        let sig: u128 = num / mb as u128;
        let sticky: bool = num % mb as u128 != 0;
        proof {
            let p = pow2((sa + 86) as nat) as int;
            lemma_pow2_pos((sa + 86) as nat);
            lemma_pow2_adds((sa + 86) as nat, 64);
            lemma_pow2_adds(sb as nat, s as nat);
            assert(num * p == ma * pow2((sa + 150) as nat)) by (nonlinear_arith)
                requires
                    num == ma * 0x1_0000_0000_0000_0000,
                    pow2((sa + 150) as nat) == p * 0x1_0000_0000_0000_0000,
            ;
            assert(d * pow2(s as nat) == mb * p) by (nonlinear_arith)
                requires
                    d == mb * pow2(sb as nat),
                    p == pow2(sb as nat) * pow2(s as nat),
            ;
            lemma_quotient(n, d, s as nat, num as int, mb as int, p);
            if sticky {
                assert(ma > 0);
                assert(sig >= 0x200_0000) by (nonlinear_arith)
                    requires
                        sig == num as int / mb as int,
                        num >= 0x1_0000_0000_0000_0000,
                        0 < mb < 0x100_0000,
                ;
            }
        }
        round_to_magnitude(sig, s, sticky, Ghost(n), Ghost(d))
    } else if sa + 150 >= sb {
        let e: u32 = sa + 150 - sb;
        proof {
            vstd::arithmetic::power2::lemma_pow2_strictly_increases(e as nat, 64);
            assert(ma * pow2(e as nat) <= 0x100_0000 * 0x1_0000_0000_0000_0000) by (nonlinear_arith)
                requires
                    0 <= ma <= 0x100_0000,
                    0 <= pow2(e as nat) <= 0x1_0000_0000_0000_0000,
            ;
        }
        let num: u128 = times_pow2(ma as u128, e);
        let sig: u128 = num / mb as u128;
        let sticky: bool = num % mb as u128 != 0;
        proof {
            let p = pow2(sb as nat) as int;
            lemma_pow2_adds(e as nat, sb as nat);
            assert(num * p == ma * pow2((sa + 150) as nat)) by (nonlinear_arith)
                requires
                    num == ma * pow2(e as nat),
                    pow2((sa + 150) as nat) == pow2(e as nat) * p,
            ;
            assert(d * pow2(0) == mb * p) by (nonlinear_arith)
                requires
                    d == mb * p,
                    pow2(0) == 1,
            ;
            lemma_quotient(n, d, 0, num as int, mb as int, p);
        }
        round_to_magnitude(sig, 0, sticky, Ghost(n), Ghost(d))
    } else {
        let k: u32 = sb - sa - 150;
        proof {
            lemma_pow2_adds(64, 40);
            vstd::arithmetic::power2::lemma2_to64_rest();
            vstd::arithmetic::power2::lemma_pow2_strictly_increases(k as nat, 104);
            assert(mb * pow2(k as nat) <= 0x100_0000 * (0x1_0000_0000_0000_0000 * 0x100_0000_0000)) by (nonlinear_arith)
                requires
                    0 <= mb <= 0x100_0000,
                    0 <= pow2(k as nat) < 0x1_0000_0000_0000_0000 * 0x100_0000_0000,
            ;
            assert(mb * pow2(k as nat) < u128::MAX) by (nonlinear_arith)
                requires
                    0 <= mb < 0x100_0000,
                    0 <= pow2(k as nat) < 0x1_0000_0000_0000_0000 * 0x100_0000_0000,
            ;
        }
        let den: u128 = times_pow2(mb as u128, k);
        proof {
            lemma_pow2_pos(k as nat);
            assert(den > 0) by (nonlinear_arith)
                requires
                    den == mb * pow2(k as nat),
                    mb > 0,
                    pow2(k as nat) > 0,
            ;
        }
        let sig: u128 = ma as u128 / den;
        let sticky: bool = ma as u128 % den != 0;
        proof {
            let p = pow2((sa + 150) as nat) as int;
            lemma_pow2_adds(k as nat, (sa + 150) as nat);
            assert(d * pow2(0) == den * p) by (nonlinear_arith)
                requires
                    d == mb * pow2(sb as nat),
                    pow2(0) == 1,
                    den == mb * pow2(k as nat),
                    pow2(sb as nat) == pow2(k as nat) * p,
            ;
            lemma_quotient(n, d, 0, ma as int, den as int, p);
        }
        round_to_magnitude(sig, 0, sticky, Ghost(n), Ghost(d))
    }
}

fn quotient(a: F32, b: F32) -> (r: F32)
    ensures
        r == a.spec_euclidean_or_real_div(b),
{
    proof {
        reveal(F32::spec_euclidean_or_real_div);
    }
    if a.is_nan() || b.is_nan() {
        return F32 { bits: NAN_BITS };
    }
    let am: u32 = a.bits % 0x8000_0000;
    let bm: u32 = b.bits % 0x8000_0000;
    let negative: bool = (a.bits >= 0x8000_0000) != (b.bits >= 0x8000_0000);
    if (am == INF_BITS && bm == INF_BITS) || (am == 0 && bm == 0) {
        F32 { bits: NAN_BITS }
    } else if am == INF_BITS || bm == 0 {
        with_sign(negative, INF_BITS)
    } else if bm == INF_BITS || am == 0 {
        with_sign(negative, 0)
    } else {
        with_sign(negative, quotient_magnitude(am, bm))
    }
}

impl std::ops::Div for F32 {
    type Output = F32;

    fn div(self, rhs: F32) -> (r: F32) {
        quotient(self, rhs)
    }
}

impl vstd::std_specs::ops::DivSpecImpl for F32 {
    open spec fn obeys_div_spec() -> bool {
        true
    }

    open spec fn div_req(self, rhs: F32) -> bool {
        true
    }

    open spec fn div_spec(self, rhs: F32) -> F32 {
        self.spec_euclidean_or_real_div(rhs)
    }
}

fn less(a: F32, b: F32) -> (r: bool)
    ensures
        r == (a < b),
{
    let am: u32 = a.bits % 0x8000_0000;
    let bm: u32 = b.bits % 0x8000_0000;
    proof {
        reveal(F32::units);
        crate::rounding::lemma_mag_units_nonnegative(am as int);
        crate::rounding::lemma_mag_units_nonnegative(bm as int);
        lemma_mag_units_scaled(0, 0);
        if am < bm {
            lemma_mag_units_increases(am as int, bm as int);
        }
        if bm < am {
            lemma_mag_units_increases(bm as int, am as int);
        }
        if am > 0 {
            lemma_mag_units_increases(0, am as int);
        }
        if bm > 0 {
            lemma_mag_units_increases(0, bm as int);
        }
    }
    if am > INF_BITS || bm > INF_BITS {
        false
    } else if a.bits >= 0x8000_0000 {
        if b.bits >= 0x8000_0000 {
            am > bm
        } else {
            am > 0 || bm > 0
        }
    } else {
        b.bits < 0x8000_0000 && am < bm
    }
}

impl PartialEq for F32 {
    fn eq(&self, other: &F32) -> (r: bool) {
        !self.is_nan() && !other.is_nan() && !less(*self, *other) && !less(*other, *self)
    }
}

impl vstd::std_specs::cmp::PartialEqSpecImpl for F32 {
    open spec fn obeys_eq_spec() -> bool {
        true
    }

    open spec fn eq_spec(&self, other: &F32) -> bool {
        self.same_number(*other)
    }
}

impl PartialOrd for F32 {
    fn partial_cmp(&self, other: &F32) -> (r: Option<Ordering>) {
        if self.is_nan() || other.is_nan() {
            None
        } else if less(*self, *other) {
            Some(Ordering::Less)
        } else if less(*other, *self) {
            Some(Ordering::Greater)
        } else {
            Some(Ordering::Equal)
        }
    }

    fn lt(&self, other: &F32) -> (r: bool) {
        less(*self, *other)
    }

    fn gt(&self, other: &F32) -> (r: bool) {
        less(*other, *self)
    }
}

impl vstd::std_specs::cmp::PartialOrdSpecImpl for F32 {
    open spec fn obeys_partial_cmp_spec() -> bool {
        true
    }

    open spec fn partial_cmp_spec(&self, other: &F32) -> Option<Ordering> {
        if self.is_nan() || other.is_nan() {
            None
        } else if *self < *other {
            Some(Ordering::Less)
        } else if *other < *self {
            Some(Ordering::Greater)
        } else {
            Some(Ordering::Equal)
        }
    }
}

/// The nearest number to an integer.
pub open spec fn of_int(n: int) -> F32 {
    signed(n < 0, rounded(abs_int(n) * pow2(149), 1))
}

fn integer_magnitude(n: u64) -> (b: u32)
    ensures
        b == rounded(n * pow2(149), 1),
        b <= INF_BITS,
{
    let ghost v: int = n * pow2(149);
    proof {
        lemma_pow2_adds(149, 1);
        lemma_pow2_pos(150);
        vstd::arithmetic::power2::lemma2_to64();
        assert(2 * v == n * pow2(150)) by (nonlinear_arith)
            requires
                v == n * pow2(149),
                pow2(150) == pow2(149) * 2,
        ;
        assert((n + 1) * pow2(150) > n * pow2(150)) by (nonlinear_arith)
            requires
                pow2(150) > 0,
        ;
    }
    round_to_magnitude(n as u128, 150, false, Ghost(v), Ghost(1int))
}

/// The integer part of a magnitude, at most `u64::MAX`.
fn integer_part(b: u32) -> (n: u64)
    requires
        b <= INF_BITS,
    ensures
        n == if mag_units(b as int) / (pow2(149) as int) <= u64::MAX {
            mag_units(b as int) / (pow2(149) as int)
        } else {
            u64::MAX as int
        },
        n == mag_units(b as int) / (pow2(149) as int) || n == u64::MAX,
{
    let (m, s) = parts(b);
    let ghost u: int = mag_units(b as int);
    let ghost one: int = pow2(149) as int;
    proof {
        lemma_pow2_pos(149);
        lemma_pow2_pos(s as nat);
        vstd::arithmetic::power2::lemma2_to64();
        vstd::arithmetic::power2::lemma2_to64_rest();
    }
    if s >= 149 {
        let k: u32 = s - 149;
        proof {
            lemma_pow2_adds(k as nat, 149);
            lemma_pow2_pos(k as nat);
            assert(u == (m * pow2(k as nat)) * one) by (nonlinear_arith)
                requires
                    u == m * pow2(s as nat),
                    pow2(s as nat) == pow2(k as nat) * one,
            ;
            assert(u / one == m * pow2(k as nat)) by (nonlinear_arith)
                requires
                    u == (m * pow2(k as nat)) * one,
                    one > 0,
            ;
        }
        if k > 40 {
            proof {
                vstd::arithmetic::power2::lemma_pow2_strictly_increases(40, k as nat);
                lemma_pow2_adds(1, (k - 1) as nat);
                if k > 41 {
                    vstd::arithmetic::power2::lemma_pow2_strictly_increases(41, k as nat);
                }
                assert(m * pow2(k as nat) > u64::MAX) by (nonlinear_arith)
                    requires
                        m >= 0x80_0000,
                        pow2(k as nat) >= 0x200_0000_0000,
                ;
            }
            u64::MAX
        } else {
            proof {
                if k < 40 {
                    vstd::arithmetic::power2::lemma_pow2_strictly_increases(k as nat, 40);
                }
                assert(m * pow2(k as nat) <= u64::MAX) by (nonlinear_arith)
                    requires
                        0 <= m < 0x100_0000,
                        0 <= pow2(k as nat) <= 0x100_0000_0000,
                ;
            }
            times_pow2(m as u128, k) as u64
        }
    } else {
        let k: u32 = 149 - s;
        proof {
            lemma_pow2_adds(k as nat, s as nat);
            lemma_pow2_pos(k as nat);
            let pk = pow2(k as nat) as int;
            let ps = pow2(s as nat) as int;
            vstd::arithmetic::div_mod::lemma_div_denominator(u, ps, pk);
            assert(ps * pk == pk * ps) by (nonlinear_arith);
            assert(u / ps == m) by (nonlinear_arith)
                requires
                    u == m * ps,
                    ps > 0,
            ;
            assert(u >= 0) by (nonlinear_arith)
                requires
                    u == m * ps,
                    ps > 0,
                    m >= 0,
            ;
            assert(u / one == m as int / pk);
        }
        if k >= 24 {
            proof {
                if k > 24 {
                    vstd::arithmetic::power2::lemma_pow2_strictly_increases(24, k as nat);
                }
                vstd::arithmetic::div_mod::lemma_basic_div(m as int, pow2(k as nat) as int);
            }
            0
        } else {
            let p: u64 = 1u64 << k;
            proof {
                vstd::bits::lemma_u64_pow2_no_overflow(k as nat);
                vstd::bits::lemma_u64_shl_is_mul(1, k as u64);
                vstd::arithmetic::div_mod::lemma_div_is_ordered_by_denominator(m as int, 1, p as int);
            }
            m as u64 / p
        }
    }
}

/// The nearest number to `n / d`: what the decimal literal of that value denotes.
#[verifier::allow_in_spec]
pub fn ratio(n: u32, d: u64) -> F32
    requires
        d > 0,
    returns
        signed(false, rounded(n * pow2(149), d as int)),
{
    let num: u128 = n as u128 * 0x1_0000_0000_0000_0000_0000_0000;
    let sig: u128 = num / d as u128;
    let sticky: bool = num % d as u128 != 0;
    let ghost v: int = n * pow2(149);
    proof {
        lemma_pow2_pos(54);
        lemma_pow2_adds(149, 1);
        lemma_pow2_adds(54, 96);
        lemma_pow2_adds(64, 32);
        vstd::arithmetic::power2::lemma2_to64();
        let p = pow2(54) as int;
        assert(2 * v == num * p) by (nonlinear_arith)
            requires
                v == n * pow2(149),
                pow2(150) == pow2(149) * 2,
                pow2(150) == p * 0x1_0000_0000_0000_0000_0000_0000,
                num == n * 0x1_0000_0000_0000_0000_0000_0000,
        ;
        lemma_quotient(v, d as int, 54, num as int, d as int, p);
        if sticky {
            assert(n > 0) by {
                if n == 0 {
                    assert(num == 0);
                    assert(0u128 % d as u128 == 0) by (nonlinear_arith)
                        requires
                            d > 0,
                    ;
                }
            }
            assert(sig >= 0x200_0000) by (nonlinear_arith)
                requires
                    sig == num as int / d as int,
                    num >= 0x1_0000_0000_0000_0000_0000_0000,
                    0 < d <= 0x1_0000_0000_0000_0000,
            ;
        }
    }
    let b: u32 = round_to_magnitude(sig, 54, sticky, Ghost(v), Ghost(d as int));
    F32 { bits: b }
}

/// The number zero, with its sign clear.
#[verifier::allow_in_spec]
pub fn zero() -> F32
    returns
        (F32 { bits: 0 }),
{
    F32 { bits: 0 }
}

/// The number one.
#[verifier::allow_in_spec]
pub fn one() -> F32
    returns
        (F32 { bits: 0x3f80_0000 }),
{
    F32 { bits: 0x3f80_0000 }
}

/// The number brought into the range from zero to one; a NaN stays.
#[verifier::allow_in_spec]
pub fn clamp_unit(x: F32) -> F32
    returns
        x.clamp(zero(), one()),
{
    x.clamp(zero(), one())
}

/// The integer part, towards zero.
pub open spec fn truncated(x: F32) -> int {
    if x.negative() {
        -(mag_units(x.mag()) / (pow2(149) as int))
    } else {
        mag_units(x.mag()) / (pow2(149) as int)
    }
}

/// `n` brought into the range from `low` to `high`.
pub open spec fn saturate(n: int, low: int, high: int) -> int {
    if n < low {
        low
    } else if n > high {
        high
    } else {
        n
    }
}

impl F32 {
    #[verifier::allow_in_spec]
    pub fn from_usize(n: usize) -> F32
        returns
            of_int(n as int),
    {
        F32 { bits: integer_magnitude(n as u64) }
    }

    #[verifier::allow_in_spec]
    pub fn from_u32(n: u32) -> F32
        returns
            of_int(n as int),
    {
        F32 { bits: integer_magnitude(n as u64) }
    }

    #[verifier::allow_in_spec]
    pub fn from_i32(n: i32) -> F32
        returns
            of_int(n as int),
    {
        if n < 0 {
            with_sign(true, integer_magnitude((-(n as i64)) as u64))
        } else {
            F32 { bits: integer_magnitude(n as u64) }
        }
    }

    /// The integer part, brought into the range of `usize`; zero for a NaN.
    #[verifier::allow_in_spec]
    pub fn to_usize(self) -> usize
        returns
            (if self.is_nan() {
                0
            } else {
                saturate(truncated(self), 0, usize::MAX as int)
            }) as usize,
    {
        proof {
            crate::rounding::lemma_mag_units_nonnegative(self.mag());
            lemma_pow2_pos(149);
            vstd::arithmetic::div_mod::lemma_div_pos_is_pos(mag_units(self.mag()), pow2(149) as int);
        }
        if self.is_nan() || self.bits >= 0x8000_0000 {
            return 0;
        }
        let n: u64 = integer_part(self.bits);
        if n > usize::MAX as u64 {
            usize::MAX
        } else {
            n as usize
        }
    }

    /// The integer part, brought into the range of `i32`; zero for a NaN.
    #[verifier::allow_in_spec]
    pub fn to_i32(self) -> i32
        returns
            (if self.is_nan() {
                0
            } else {
                saturate(truncated(self), i32::MIN as int, i32::MAX as int)
            }) as i32,
    {
        if self.is_nan() {
            return 0;
        }
        let n: u64 = integer_part(self.bits % 0x8000_0000);
        if self.bits >= 0x8000_0000 {
            if n > 0x8000_0000 {
                i32::MIN
            } else {
                (-(n as i64)) as i32
            }
        } else if n > 0x7fff_ffff {
            i32::MAX
        } else {
            n as i32
        }
    }
}

/// The integer part of a magnitude below `2^24`, whether anything is left of
/// it, and whether what is left is a half or more.
fn split(b: u32) -> (r: (u64, bool, bool))
    requires
        b < 0x4b00_0000,
    ensures
        r.0 == mag_units(b as int) / (pow2(149) as int),
        r.0 < 0x100_0000,
        r.1 == (mag_units(b as int) % (pow2(149) as int) != 0),
        r.2 == (2 * (mag_units(b as int) % (pow2(149) as int)) >= pow2(149)),
{
    let (m, s) = parts(b);
    let k: u32 = 149 - s;
    let ghost u: int = mag_units(b as int);
    let ghost one: int = pow2(149) as int;
    let ghost pk: int = pow2(k as nat) as int;
    let ghost ps: int = pow2(s as nat) as int;
    proof {
        lemma_pow2_pos(s as nat);
        lemma_pow2_pos(k as nat);
        lemma_pow2_adds(k as nat, s as nat);
        vstd::arithmetic::power2::lemma2_to64();
    }
    if k >= 25 {
        proof {
            if k > 25 {
                vstd::arithmetic::power2::lemma_pow2_strictly_increases(25, k as nat);
            }
            assert(0 <= u && 2 * u < one && (u == 0 <==> m == 0)) by (nonlinear_arith)
                requires
                    u == m * ps,
                    one == pk * ps,
                    pk >= 0x200_0000,
                    0 <= m < 0x100_0000,
                    ps > 0,
            ;
            vstd::arithmetic::div_mod::lemma_basic_div(u, one);
            vstd::arithmetic::div_mod::lemma_small_mod(u as nat, one as nat);
        }
        (0, m != 0, false)
    } else {
        let p: u64 = 1u64 << k;
        proof {
            vstd::bits::lemma_u64_pow2_no_overflow(k as nat);
            vstd::bits::lemma_u64_shl_is_mul(1, k as u64);
        }
        let i: u64 = m as u64 / p;
        let rem: u64 = m as u64 % p;
        proof {
            assert(m == i * pk + rem && 0 <= rem < pk) by (nonlinear_arith)
                requires
                    p == pk,
                    pk > 0,
                    i == m as u64 / p,
                    rem == m as u64 % p,
            ;
            assert(u == i * one + rem * ps) by (nonlinear_arith)
                requires
                    u == m * ps,
                    m == i * pk + rem,
                    one == pk * ps,
            ;
            assert(0 <= rem * ps < one && (rem * ps == 0 <==> rem == 0) && (2 * (rem * ps) >= one <==> 2 * rem >= pk)) by (nonlinear_arith)
                requires
                    0 <= rem < pk,
                    one == pk * ps,
                    ps > 0,
            ;
            vstd::arithmetic::div_mod::lemma_fundamental_div_mod_converse(u, one, i as int, rem * ps);
            vstd::arithmetic::div_mod::lemma_div_is_ordered_by_denominator(m as int, 1, p as int);
        }
        (i, rem != 0, rem >= p - rem)
    }
}

proof fn lemma_large_is_whole(b: int)
    requires
        0x4b00_0000 <= b < INF_BITS,
    ensures
        mag_units(b) % (pow2(149) as int) == 0,
        mag_units(b) == mag_units(b) / (pow2(149) as int) * pow2(149),
        rounded(mag_units(b) / (pow2(149) as int) * pow2(149), 1) == b,
        mag_units(b) >= 0,
{
    let s = (b / 0x80_0000 - 1) as nat;
    let m = b % 0x80_0000 + 0x80_0000;
    let k = (s - 149) as nat;
    let one = pow2(149) as int;
    lemma_mag_units_scaled(s, m);
    lemma_pow2_adds(k, 149);
    lemma_pow2_pos(149);
    lemma_pow2_pos(s);
    assert(mag_units(b) == (m * pow2(k)) * one) by (nonlinear_arith)
        requires
            mag_units(b) == m * pow2(s),
            pow2(s) == pow2(k) * one,
    ;
    vstd::arithmetic::div_mod::lemma_fundamental_div_mod_converse(mag_units(b), one, m * pow2(k), 0);
    lemma_rounded_exact(b, 1);
    crate::rounding::lemma_mag_units_nonnegative(b);
}

/// The integer `k` in the sign of `x`; `x` itself where it is not finite.
pub open spec fn whole_number(x: F32, k: int) -> F32 {
    if x.is_nan() {
        nan()
    } else if x.infinite() {
        x
    } else {
        signed(x.negative(), rounded(abs_int(k) * pow2(149), 1))
    }
}

/// The greatest integer not above `x`.
pub open spec fn floor_int(x: F32) -> int {
    x.units() / (pow2(149) as int)
}

/// The least integer not below `x`.
pub open spec fn ceil_int(x: F32) -> int {
    -((-x.units()) / (pow2(149) as int))
}

/// The integer nearest to `x`; a half goes away from zero.
pub open spec fn round_int(x: F32) -> int {
    let n = (2 * mag_units(x.mag()) + pow2(149)) / (2 * pow2(149) as int);
    if x.negative() {
        -n
    } else {
        n
    }
}

proof fn lemma_negative_division(u: int, one: int)
    requires
        one > 0,
        u >= 0,
    ensures
        (-u) / one == if u % one == 0 { -(u / one) } else { -(u / one) - 1 },
{
    vstd::arithmetic::div_mod::lemma_fundamental_div_mod(u, one);
    let q = u / one;
    let r = u % one;
    if r == 0 {
        assert(-u == (-q) * one + 0) by (nonlinear_arith)
            requires
                u == one * q + r,
                r == 0,
        ;
        vstd::arithmetic::div_mod::lemma_fundamental_div_mod_converse(-u, one, -q, 0);
    } else {
        assert(-u == (-q - 1) * one + (one - r)) by (nonlinear_arith)
            requires
                u == one * q + r,
        ;
        vstd::arithmetic::div_mod::lemma_fundamental_div_mod_converse(-u, one, -q - 1, one - r);
    }
}

proof fn lemma_half_up(u: int, one: int)
    requires
        one > 0,
        u >= 0,
    ensures
        (2 * u + one) / (2 * one) == if 2 * (u % one) >= one { u / one + 1 } else { u / one },
{
    vstd::arithmetic::div_mod::lemma_fundamental_div_mod(u, one);
    let q = u / one;
    let r = u % one;
    if 2 * r >= one {
        assert(2 * u + one == (q + 1) * (2 * one) + (2 * r - one)) by (nonlinear_arith)
            requires
                u == one * q + r,
        ;
        vstd::arithmetic::div_mod::lemma_fundamental_div_mod_converse(2 * u + one, 2 * one, q + 1, 2 * r - one);
    } else {
        assert(2 * u + one == q * (2 * one) + (2 * r + one)) by (nonlinear_arith)
            requires
                u == one * q + r,
        ;
        vstd::arithmetic::div_mod::lemma_fundamental_div_mod_converse(2 * u + one, 2 * one, q, 2 * r + one);
    }
}

/// The number whose square is nearest to `x`.
#[verifier::opaque]
pub open spec fn sqrt_of(x: F32) -> F32 {
    if x.is_nan() || (x.negative() && !x.zero_valued()) {
        nan()
    } else if x.zero_valued() || x.infinite() {
        x
    } else {
        signed(false, crate::rounding::sqrt_rounded(mag_units(x.mag()) * pow2(149)))
    }
}

/// What is left of `x` after taking away `y` a whole number of times, in the sign of `x`.
#[verifier::opaque]
pub open spec fn rem_of(x: F32, y: F32) -> F32 {
    if x.is_nan() || y.is_nan() || x.infinite() || y.zero_valued() {
        nan()
    } else if y.infinite() {
        x
    } else {
        signed(x.negative(), rounded(mag_units(x.mag()) % mag_units(y.mag()), 1))
    }
}

/// The magnitude pattern of the remainder of two finite magnitudes.
fn remainder_magnitude(am: u32, bm: u32) -> (b: u32)
    requires
        am < INF_BITS,
        0 < bm < INF_BITS,
    ensures
        b == rounded(mag_units(am as int) % mag_units(bm as int), 1),
        b <= INF_BITS,
{
    let (ma, sa) = parts(am);
    let (mb, sb) = parts(bm);
    if am < bm {
        proof {
            lemma_mag_units_increases(am as int, bm as int);
            crate::rounding::lemma_mag_units_nonnegative(am as int);
            vstd::arithmetic::div_mod::lemma_small_mod(
                mag_units(am as int) as nat,
                mag_units(bm as int) as nat,
            );
            lemma_rounded_exact(am as int, 1);
        }
        return am;
    }
    let gap: u32 = sa - sb;
    let mut r: u32 = ma % mb;
    let mut i: u32 = 0;
    proof {
        vstd::arithmetic::power2::lemma2_to64();
    }
    while i < gap
        invariant
            i <= gap,
            0 < mb < 0x100_0000,
            r < mb,
            r == (ma * pow2(i as nat)) % (mb as int),
        decreases gap - i,
    {
        proof {
            vstd::arithmetic::power2::lemma_pow2_unfold((i + 1) as nat);
            let x = ma * pow2(i as nat);
            assert(ma * pow2((i + 1) as nat) == 2 * x) by (nonlinear_arith)
                requires
                    x == ma * pow2(i as nat),
                    pow2((i + 1) as nat) == 2 * pow2(i as nat),
            ;
            vstd::arithmetic::div_mod::lemma_mul_mod_noop_right(2, x, mb as int);
        }
        r = (2 * r) % mb;
        i = i + 1;
    }
    let ghost n: int = mag_units(am as int) % mag_units(bm as int);
    proof {
        let ps = pow2(sb as nat) as int;
        lemma_pow2_pos(sb as nat);
        lemma_pow2_pos(gap as nat);
        lemma_pow2_adds(gap as nat, sb as nat);
        let x = ma * pow2(gap as nat);
        assert(mag_units(am as int) == ps * x) by (nonlinear_arith)
            requires
                mag_units(am as int) == ma * pow2(sa as nat),
                pow2(sa as nat) == pow2(gap as nat) * ps,
                x == ma * pow2(gap as nat),
        ;
        assert(mag_units(bm as int) == ps * mb) by (nonlinear_arith)
            requires
                mag_units(bm as int) == mb * ps,
        ;
        assert(x >= 0) by (nonlinear_arith)
            requires
                x == ma * pow2(gap as nat),
                ma >= 0,
                pow2(gap as nat) > 0,
        ;
        vstd::arithmetic::div_mod::lemma_truncate_middle(x, ps, mb as int);
        assert(n == ps * r);
        assert((2 * r) * ps == 2 * n) by (nonlinear_arith)
            requires
                n == ps * r,
        ;
        assert((2 * r + 1) * ps > (2 * r) * ps) by (nonlinear_arith)
            requires
                ps > 0,
        ;
    }
    round_to_magnitude(2 * r as u128, sb, false, Ghost(n), Ghost(1int))
}

impl F32 {
    #[verifier::allow_in_spec]
    pub fn floor(self) -> F32
        returns
            whole_number(self, floor_int(self)),
    {
        if self.is_nan() {
            return F32 { bits: NAN_BITS };
        }
        let b: u32 = self.bits % 0x8000_0000;
        proof {
            lemma_pow2_pos(149);
            crate::rounding::lemma_mag_units_nonnegative(b as int);
            reveal(F32::units);
            lemma_negative_division(mag_units(b as int), pow2(149) as int);
            if 0x4b00_0000 <= b < INF_BITS {
                lemma_large_is_whole(b as int);
            }
        }
        if b >= 0x4b00_0000 {
            return self;
        }
        let (i, left, _up) = split(b);
        let k: u64 = if self.bits >= 0x8000_0000 && left {
            i + 1
        } else {
            i
        };
        with_sign(self.bits >= 0x8000_0000, integer_magnitude(k))
    }

    #[verifier::allow_in_spec]
    pub fn ceil(self) -> F32
        returns
            whole_number(self, ceil_int(self)),
    {
        if self.is_nan() {
            return F32 { bits: NAN_BITS };
        }
        let b: u32 = self.bits % 0x8000_0000;
        proof {
            lemma_pow2_pos(149);
            crate::rounding::lemma_mag_units_nonnegative(b as int);
            reveal(F32::units);
            lemma_negative_division(mag_units(b as int), pow2(149) as int);
            if 0x4b00_0000 <= b < INF_BITS {
                lemma_large_is_whole(b as int);
            }
        }
        if b >= 0x4b00_0000 {
            return self;
        }
        let (i, left, _up) = split(b);
        let k: u64 = if self.bits < 0x8000_0000 && left {
            i + 1
        } else {
            i
        };
        with_sign(self.bits >= 0x8000_0000, integer_magnitude(k))
    }

    #[verifier::allow_in_spec]
    pub fn round(self) -> F32
        returns
            whole_number(self, round_int(self)),
    {
        if self.is_nan() {
            return F32 { bits: NAN_BITS };
        }
        let b: u32 = self.bits % 0x8000_0000;
        proof {
            lemma_pow2_pos(149);
            crate::rounding::lemma_mag_units_nonnegative(b as int);
            lemma_half_up(mag_units(b as int), pow2(149) as int);
            if 0x4b00_0000 <= b < INF_BITS {
                lemma_large_is_whole(b as int);
            }
        }
        if b >= 0x4b00_0000 {
            return self;
        }
        let (i, _left, up) = split(b);
        let k: u64 = if up {
            i + 1
        } else {
            i
        };
        with_sign(self.bits >= 0x8000_0000, integer_magnitude(k))
    }

    #[verifier::allow_in_spec]
    pub fn sqrt(self) -> F32
        returns
            sqrt_of(self),
    {
        proof {
            reveal(sqrt_of);
        }
        let b: u32 = self.bits % 0x8000_0000;
        if b > INF_BITS || (self.bits >= 0x8000_0000 && b != 0) {
            return F32 { bits: NAN_BITS };
        }
        if b == 0 || b == INF_BITS {
            return self;
        }
        let (m, s) = parts(b);
        let e: u32 = s + 149;
        let ghost n: int = mag_units(b as int) * pow2(149);
        let t: u32 = e / 2;
        proof {
            lemma_pow2_adds(s as nat, 149);
            lemma_pow2_adds(t as nat, t as nat);
            assert(n == m * pow2(e as nat)) by (nonlinear_arith)
                requires
                    n == (m * pow2(s as nat)) * pow2(149),
                    pow2(e as nat) == pow2(s as nat) * pow2(149),
            ;
        }
        if e % 2 == 1 {
            proof {
                lemma_pow2_adds(1, (t + t) as nat);
                vstd::arithmetic::power2::lemma2_to64();
                assert(m * pow2(e as nat) == (2 * m) * (pow2(t as nat) * pow2(t as nat))) by (nonlinear_arith)
                    requires
                        pow2(e as nat) == 2 * (pow2(t as nat) * pow2(t as nat)),
                ;
            }
            F32 { bits: crate::rounding::round_sqrt_to_magnitude(2 * m, t, Ghost(n)) }
        } else {
            F32 { bits: crate::rounding::round_sqrt_to_magnitude(m, t, Ghost(n)) }
        }
    }

    /// The remainder, in the sign of `self`.
    #[verifier::allow_in_spec]
    pub fn rem(self, rhs: F32) -> F32
        returns
            rem_of(self, rhs),
    {
        proof {
            reveal(rem_of);
        }
        let am: u32 = self.bits % 0x8000_0000;
        let bm: u32 = rhs.bits % 0x8000_0000;
        if am >= INF_BITS || bm > INF_BITS || bm == 0 {
            return F32 { bits: NAN_BITS };
        }
        if bm == INF_BITS {
            return self;
        }
        with_sign(self.bits >= 0x8000_0000, remainder_magnitude(am, bm))
    }

    /// The remainder brought up by the size of `rhs` where it is below zero.
    #[verifier::allow_in_spec]
    pub fn rem_euclid(self, rhs: F32) -> F32
        returns
            (if rem_of(self, rhs) < zero() {
                rem_of(self, rhs) + rhs.abs()
            } else {
                rem_of(self, rhs)
            }),
    {
        let r = self.rem(rhs);
        if r < zero() {
            r + rhs.abs()
        } else {
            r
        }
    }

    /// The greater of two numbers; the other one where one is a NaN.
    #[verifier::allow_in_spec]
    pub fn max(self, other: F32) -> F32
        returns
            (if self.is_nan() || self < other {
                other
            } else {
                self
            }),
    {
        if self.is_nan() || self < other {
            other
        } else {
            self
        }
    }

    /// The lesser of two numbers; the other one where one is a NaN.
    #[verifier::allow_in_spec]
    pub fn min(self, other: F32) -> F32
        returns
            (if self.is_nan() || other < self {
                other
            } else {
                self
            }),
    {
        if self.is_nan() || other < self {
            other
        } else {
            self
        }
    }

    /// The number brought up to `low` or down to `high`; a NaN stays.
    #[verifier::allow_in_spec]
    pub fn clamp(self, low: F32, high: F32) -> F32
        returns
            (if self < low {
                low
            } else if self > high {
                high
            } else {
                self
            }),
    {
        if self < low {
            low
        } else if self > high {
            high
        } else {
            self
        }
    }
}

} // verus!
