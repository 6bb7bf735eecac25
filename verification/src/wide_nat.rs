//! Natural numbers of any size: products and comparisons that do not fit a
//! machine word.
use vstd::arithmetic::power2::lemma_pow2_unfold;
use vstd::arithmetic::power2::pow2;
use vstd::prelude::*;

verus! {

/// A natural number by its digits to the base `2^32`, the lowest first.
pub struct Wide {
    limbs: Vec<u32>,
}

/// The power of ten with `k` zeros.
pub open spec fn power_of_ten(k: nat) -> int
    decreases k,
{
    if k == 0 {
        1
    } else {
        10 * power_of_ten((k - 1) as nat)
    }
}

pub proof fn lemma_power_of_ten_pos(k: nat)
    ensures
        power_of_ten(k) > 0,
    decreases k,
{
    if k > 0 {
        lemma_power_of_ten_pos((k - 1) as nat);
    }
}

/// `2^32` to the power `i`.
spec fn place_value(i: nat) -> int
    decreases i,
{
    if i == 0 {
        1
    } else {
        0x1_0000_0000 * place_value((i - 1) as nat)
    }
}

/// The digit at place `i`; zero above the highest.
spec fn limb_at(limbs: Seq<u32>, i: int) -> int {
    if 0 <= i < limbs.len() {
        limbs[i] as int
    } else {
        0
    }
}

/// The number that the lowest `n` digits make.
spec fn low_value(limbs: Seq<u32>, n: nat) -> int
    decreases n,
{
    if n == 0 {
        0
    } else {
        low_value(limbs, (n - 1) as nat) + limb_at(limbs, n - 1) * place_value((n - 1) as nat)
    }
}

proof fn lemma_low_value_range(limbs: Seq<u32>, n: nat)
    ensures
        0 <= low_value(limbs, n) < place_value(n),
    decreases n,
{
    if n > 0 {
        lemma_low_value_range(limbs, (n - 1) as nat);
        let p = place_value((n - 1) as nat);
        let d = limb_at(limbs, n - 1);
        assert(0 <= d * p <= 0xffff_ffff * p) by (nonlinear_arith)
            requires
                0 <= d <= 0xffff_ffff,
                p > 0,
        ;
    }
}

/// Digits above the highest add nothing.
proof fn lemma_low_value_above(limbs: Seq<u32>, n: nat)
    requires
        n >= limbs.len(),
    ensures
        low_value(limbs, n) == low_value(limbs, limbs.len()),
    decreases n,
{
    if n > limbs.len() {
        lemma_low_value_above(limbs, (n - 1) as nat);
    }
}

/// The lowest digits of a longer row are those of the row.
proof fn lemma_low_value_prefix(a: Seq<u32>, b: Seq<u32>, n: nat)
    requires
        n <= a.len(),
        n <= b.len(),
        forall|i: int| 0 <= i < n ==> a[i] == b[i],
    ensures
        low_value(a, n) == low_value(b, n),
    decreases n,
{
    if n > 0 {
        lemma_low_value_prefix(a, b, (n - 1) as nat);
    }
}

impl Wide {
    pub closed spec fn value(self) -> int {
        low_value(self.limbs@, self.limbs@.len())
    }

    pub fn from_u32(n: u32) -> (r: Wide)
        ensures
            r.value() == n,
    {
        let mut limbs: Vec<u32> = Vec::new();
        limbs.push(n);
        proof {
            reveal_with_fuel(low_value, 2);
        }
        Wide { limbs }
    }

    /// The product with `f`.
    pub fn times(&self, f: u32) -> (r: Wide)
        ensures
            r.value() == self.value() * f,
    {
        let mut limbs: Vec<u32> = Vec::new();
        let mut carry: u64 = 0;
        let mut i: usize = 0;
        while i < self.limbs.len()
            invariant
                i <= self.limbs@.len(),
                limbs@.len() == i,
                carry <= 0xffff_ffff,
                low_value(limbs@, i as nat) + carry * place_value(i as nat) == low_value(
                    self.limbs@,
                    i as nat,
                ) * f,
            decreases self.limbs@.len() - i,
        {
            let d: u32 = self.limbs[i];
            proof {
                assert(d as int * f as int <= 0xffff_ffff * 0xffff_ffff) by (nonlinear_arith)
                    requires
                        0 <= d <= 0xffff_ffff,
                        0 <= f <= 0xffff_ffff,
                ;
            }
            let t: u64 = d as u64 * f as u64 + carry;
            let low: u32 = (t % 0x1_0000_0000) as u32;
            let ghost before: Seq<u32> = limbs@;
            let ghost old_carry: int = carry as int;
            limbs.push(low);
            carry = t / 0x1_0000_0000;
            proof {
                lemma_low_value_prefix(before, limbs@, i as nat);
                let p = place_value(i as nat);
                let b = low_value(before, i as nat);
                let s = low_value(self.limbs@, i as nat);
                assert(low_value(limbs@, (i + 1) as nat) == b + low * p);
                assert(place_value((i + 1) as nat) == 0x1_0000_0000 * p);
                assert(low_value(self.limbs@, (i + 1) as nat) == s + d * p);
                assert(b + low * p + carry * (0x1_0000_0000 * p) == (s + d * p) * f)
                    by (nonlinear_arith)
                    requires
                        b + old_carry * p == s * f,
                        low + carry * 0x1_0000_0000 == d * f + old_carry,
                ;
            }
            i = i + 1;
        }
        let ghost before: Seq<u32> = limbs@;
        limbs.push(carry as u32);
        proof {
            lemma_low_value_prefix(before, limbs@, i as nat);
        }
        Wide { limbs }
    }

    /// The product with `2^n`.
    pub fn doubled(&self, n: u32) -> (r: Wide)
        ensures
            r.value() == self.value() * pow2(n as nat),
    {
        let mut r: Wide = self.times(1);
        let mut i: u32 = 0;
        proof {
            vstd::arithmetic::power2::lemma2_to64();
        }
        while i < n
            invariant
                i <= n,
                r.value() == self.value() * pow2(i as nat),
            decreases n - i,
        {
            r = r.times(2);
            i = i + 1;
            proof {
                lemma_pow2_unfold(i as nat);
                let p = pow2((i - 1) as nat) as int;
                assert(self.value() * p * 2 == self.value() * (2 * p)) by (nonlinear_arith);
            }
        }
        r
    }

    /// The product with `10^n`.
    pub fn tenfold(&self, n: u32) -> (r: Wide)
        ensures
            r.value() == self.value() * power_of_ten(n as nat),
    {
        let mut r: Wide = self.times(1);
        let mut i: u32 = 0;
        while i < n
            invariant
                i <= n,
                r.value() == self.value() * power_of_ten(i as nat),
            decreases n - i,
        {
            r = r.times(10);
            i = i + 1;
            proof {
                let p = power_of_ten((i - 1) as nat);
                assert(self.value() * p * 10 == self.value() * (10 * p)) by (nonlinear_arith);
            }
        }
        r
    }

    /// Whether the number is below `other`.
    pub fn below(&self, other: &Wide) -> (r: bool)
        ensures
            r == (self.value() < other.value()),
    {
        let n: usize = if self.limbs.len() < other.limbs.len() {
            other.limbs.len()
        } else {
            self.limbs.len()
        };
        proof {
            lemma_low_value_above(self.limbs@, n as nat);
            lemma_low_value_above(other.limbs@, n as nat);
        }
        let mut i: usize = n;
        while i > 0
            invariant
                i <= n,
                self.value() - other.value() == low_value(self.limbs@, i as nat) - low_value(
                    other.limbs@,
                    i as nat,
                ),
            decreases i,
        {
            i = i - 1;
            let x: u32 = if i < self.limbs.len() {
                self.limbs[i]
            } else {
                0
            };
            let y: u32 = if i < other.limbs.len() {
                other.limbs[i]
            } else {
                0
            };
            proof {
                lemma_low_value_range(self.limbs@, i as nat);
                lemma_low_value_range(other.limbs@, i as nat);
                let p = place_value(i as nat);
                assert(x < y ==> x * p + p <= y * p) by (nonlinear_arith)
                    requires
                        p > 0,
                ;
                assert(x > y ==> y * p + p <= x * p) by (nonlinear_arith)
                    requires
                        p > 0,
                ;
            }
            if x < y {
                return true;
            }
            if x > y {
                return false;
            }
        }
        false
    }
}

} // verus!
