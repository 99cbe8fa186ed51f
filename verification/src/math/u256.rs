//! Unsigned 256-bit integers built from two 128-bit halves.
//!
//! Every operation is checked: addition, subtraction and multiplication
//! signal overflow through `Option`, and division signals a zero divisor.
//! Division rounds toward zero.

use vstd::prelude::*;
use vstd::arithmetic::div_mod::*;
use vstd::arithmetic::mul::*;
use vstd::arithmetic::power2::*;

verus! {

/// 2^64 as a mathematical integer.
pub open spec fn p64() -> int {
    0x1_0000_0000_0000_0000int
}

/// 2^128 as a mathematical integer.
pub open spec fn p128() -> int {
    0x1_0000_0000_0000_0000_0000_0000_0000_0000int
}

/// 2^256 as a mathematical integer.
pub open spec fn p256() -> int {
    p128() * p128()
}

pub(crate) proof fn lemma_pow2_128()
    ensures
        pow2(128) == 0x1_0000_0000_0000_0000_0000_0000_0000_0000,
{
    lemma2_to64();
    lemma_pow2_adds(64, 64);
}

proof fn lemma_pow2_256()
    ensures
        pow2(256) == p256(),
{
    lemma_pow2_128();
    lemma_pow2_adds(128, 128);
}

/// Computes 2^e for an exponent below 128.
pub(crate) fn pow2_u128(e: u32) -> (r: u128)
    requires
        e < 128,
    ensures
        r == pow2(e as nat),
{
    let mut r: u128 = 1;
    let mut j: u32 = 0;
    proof {
        lemma2_to64();
    }
    while j < e
        invariant
            j <= e,
            e < 128,
            r == pow2(j as nat),
        decreases e - j,
    {
        proof {
            lemma_pow2_adds(j as nat, 1);
            lemma2_to64();
            lemma_pow2_strictly_increases((j + 1) as nat, 128);
            lemma_pow2_128();
        }
        r = 2 * r;
        j = j + 1;
    }
    r
}

/// The quotient by a power of two at or above 2^128 reads only the high half.
proof fn lemma_div_is_exact_hi(lo: int, hi: int, e: nat)
    requires
        0 <= lo < p128(),
        0 <= hi,
        e < 128,
    ensures
        (lo + hi * p128()) / (pow2((e + 128) as nat) as int) == hi / (pow2(e) as int),
{
    let v = lo + hi * p128();
    lemma_pow2_128();
    lemma_pow2_pos(e);
    lemma_pow2_adds(e, 128);
    assert(v / (pow2(128) as int) == hi) by {
        lemma_fundamental_div_mod_converse(v, p128(), hi, lo);
    }
    lemma_div_denominator(v, pow2(128) as int, pow2(e) as int);
    assert(pow2(128) * pow2(e) == pow2(e) * pow2(128)) by {
        lemma_mul_is_commutative(pow2(128) as int, pow2(e) as int);
    }
}

/// The quotient by a small power of two agrees with the low half modulo 2.
proof fn lemma_div_low_bit(lo: int, hi: int, e: nat)
    requires
        0 <= lo < p128(),
        0 <= hi,
        e < 128,
    ensures
        (lo + hi * p128()) / (pow2(e) as int) % 2 == (lo / (pow2(e) as int)) % 2,
{
    let v = lo + hi * p128();
    let p = pow2(e) as int;
    let q = lo / p;
    let r = lo % p;
    lemma_pow2_pos(e);
    lemma_fundamental_div_mod(lo, p);
    let m = pow2((127 - e) as nat) as int;
    assert(pow2((128 - e) as nat) == pow2((127 - e) as nat) * 2) by {
        lemma_pow2_adds((127 - e) as nat, 1);
        lemma2_to64();
    }
    assert(pow2(e) * pow2((128 - e) as nat) == pow2(128)) by {
        lemma_pow2_adds(e, (128 - e) as nat);
    }
    lemma_pow2_128();
    assert(v == (q + hi * (m * 2)) * p + r) by (nonlinear_arith)
        requires
            v == lo + hi * (p * (m * 2)),
            lo == q * p + r,
    ;
    assert(v / p == q + hi * (m * 2)) by {
        lemma_fundamental_div_mod_converse(v, p, q + hi * (m * 2), r);
    }
    let k = hi * m;
    assert(hi * (m * 2) == 2 * k) by (nonlinear_arith)
        requires
            k == hi * m,
    ;
    lemma_mod_multiples_vanish(k, q, 2);
}

/// Every 256-bit value lies below 2^256.
pub proof fn lemma_v_bound(x: U256)
    ensures
        0 <= x.v() < p256(),
{
    assert(x.lo + x.hi * p128() < p128() * p128()) by (nonlinear_arith)
        requires
            0 <= x.lo < p128(),
            0 <= x.hi < p128(),
    ;
}

/// An unsigned 256-bit integer: `lo + hi * 2^128`.
#[derive(Clone, Copy, Debug, PartialEq, Eq, Structural)]
pub struct U256 {
    pub lo: u128,
    pub hi: u128,
}

impl U256 {
    /// The mathematical value held.
    pub open spec fn v(self) -> int {
        self.lo + self.hi * p128()
    }

    pub fn zero() -> (r: U256)
        ensures
            r.v() == 0,
    {
        U256 { lo: 0, hi: 0 }
    }

    pub fn one() -> (r: U256)
        ensures
            r.v() == 1,
    {
        U256 { lo: 1, hi: 0 }
    }

    pub fn from_u64(x: u64) -> (r: U256)
        ensures
            r.v() == x,
    {
        U256 { lo: x as u128, hi: 0 }
    }

    pub fn from_u128(x: u128) -> (r: U256)
        ensures
            r.v() == x,
    {
        U256 { lo: x, hi: 0 }
    }

    /// Whether the value fits in 128 bits.
    pub fn fits_u128(&self) -> (r: bool)
        ensures
            r == (self.v() < p128()),
    {
        self.hi == 0
    }

    /// The value as a `u128`; the caller must know that it fits.
    pub fn as_u128(&self) -> (r: u128)
        requires
            self.v() < p128(),
        ensures
            r == self.v(),
    {
        self.lo
    }

    /// Whether the value fits in 64 bits.
    pub fn fits_u64(&self) -> (r: bool)
        ensures
            r == (self.v() < p64()),
    {
        self.hi == 0 && self.lo < 0x1_0000_0000_0000_0000u128
    }

    /// The value as a `u64`; the caller must know that it fits.
    pub fn as_u64(&self) -> (r: u64)
        requires
            self.v() < p64(),
        ensures
            r == self.v(),
    {
        self.lo as u64
    }

    pub fn is_zero(&self) -> (r: bool)
        ensures
            r == (self.v() == 0),
    {
        self.lo == 0 && self.hi == 0
    }

    /// Strict order on the values.
    pub fn lt(&self, other: &U256) -> (r: bool)
        ensures
            r == (self.v() < other.v()),
    {
        self.hi < other.hi || (self.hi == other.hi && self.lo < other.lo)
    }

    /// Non-strict order on the values.
    pub fn le(&self, other: &U256) -> (r: bool)
        ensures
            r == (self.v() <= other.v()),
    {
        self.hi < other.hi || (self.hi == other.hi && self.lo <= other.lo)
    }

    /// Checked addition: `None` exactly when the sum needs more than 256 bits.
    pub fn checked_add(&self, other: &U256) -> (r: Option<U256>)
        ensures
            match r {
                Some(s) => s.v() == self.v() + other.v() && self.v() + other.v() < p256(),
                None => self.v() + other.v() >= p256(),
            },
    {
        let (lo, carry): (u128, u128) = if self.lo <= u128::MAX - other.lo {
            (self.lo + other.lo, 0)
        } else {
            ((self.lo - (u128::MAX - other.lo)) - 1, 1)
        };
        match self.hi.checked_add(other.hi) {
            Some(h) => match h.checked_add(carry) {
                Some(hi) => Some(U256 { lo, hi }),
                None => None,
            },
            None => None,
        }
    }

    /// Widening multiplication of two 128-bit halves; the product always fits.
    pub(crate) fn mul_wide(a: u128, b: u128) -> (r: U256)
        ensures
            r.v() == a * b,
    {
        let a0 = a % 0x1_0000_0000_0000_0000u128;
        let a1 = a / 0x1_0000_0000_0000_0000u128;
        let b0 = b % 0x1_0000_0000_0000_0000u128;
        let b1 = b / 0x1_0000_0000_0000_0000u128;
        proof {
            assert(a0 * b0 <= 0xffff_ffff_ffff_fffe_0000_0000_0000_0001int && a0 * b1
                <= 0xffff_ffff_ffff_fffe_0000_0000_0000_0001int && a1 * b0
                <= 0xffff_ffff_ffff_fffe_0000_0000_0000_0001int && a1 * b1
                <= 0xffff_ffff_ffff_fffe_0000_0000_0000_0001int) by (nonlinear_arith)
                requires
                    a0 < 0x1_0000_0000_0000_0000u128,
                    a1 < 0x1_0000_0000_0000_0000u128,
                    b0 < 0x1_0000_0000_0000_0000u128,
                    b1 < 0x1_0000_0000_0000_0000u128,
            ;
        }
        let p00 = a0 * b0;
        let p01 = a0 * b1;
        let p10 = a1 * b0;
        let p11 = a1 * b1;
        proof {
            assert(a * b == p00 + p01 * 0x1_0000_0000_0000_0000int + p10
                * 0x1_0000_0000_0000_0000int + p11 * p128()) by (nonlinear_arith)
                requires
                    a == a1 * 0x1_0000_0000_0000_0000int + a0,
                    b == b1 * 0x1_0000_0000_0000_0000int + b0,
                    p00 == a0 * b0,
                    p01 == a0 * b1,
                    p10 == a1 * b0,
                    p11 == a1 * b1,
            ;
            lemma_mul_upper_bound(a as int, p128() - 1, b as int, p128() - 1);
        }
        let t0 = p00 % 0x1_0000_0000_0000_0000u128;
        let c0 = p00 / 0x1_0000_0000_0000_0000u128;
        let t1f = c0 + (p01 % 0x1_0000_0000_0000_0000u128) + (p10
            % 0x1_0000_0000_0000_0000u128);
        let t1 = t1f % 0x1_0000_0000_0000_0000u128;
        let c1 = t1f / 0x1_0000_0000_0000_0000u128;
        let t2f = c1 + (p01 / 0x1_0000_0000_0000_0000u128) + (p10
            / 0x1_0000_0000_0000_0000u128) + (p11 % 0x1_0000_0000_0000_0000u128);
        let t2 = t2f % 0x1_0000_0000_0000_0000u128;
        let c2 = t2f / 0x1_0000_0000_0000_0000u128;
        let t3 = c2 + p11 / 0x1_0000_0000_0000_0000u128;
        let lo = t0 + t1 * 0x1_0000_0000_0000_0000u128;
        let hi = t2 + t3 * 0x1_0000_0000_0000_0000u128;
        U256 { lo, hi }
    }

    /// Checked multiplication: `None` exactly when the product needs more
    /// than 256 bits.
    pub fn checked_mul(&self, other: &U256) -> (r: Option<U256>)
        ensures
            match r {
                Some(p) => p.v() == self.v() * other.v() && self.v() * other.v() < p256(),
                None => self.v() * other.v() >= p256(),
            },
    {
        let ghost prod: int = self.v() * other.v();
        proof {
            assert(prod == self.lo * other.lo + (self.lo * other.hi) * p128() + (self.hi
                * other.lo) * p128() + (self.hi * other.hi) * (p128() * p128()))
                by (nonlinear_arith)
                requires
                    prod == (self.lo + self.hi * p128()) * (other.lo + other.hi * p128()),
            ;
            assert(self.lo * other.lo >= 0 && self.lo * other.hi >= 0 && self.hi * other.lo
                >= 0 && self.hi * other.hi >= 0 && self.lo * other.lo < p128() * p128()
                && self.lo * other.hi < p128() * p128() && self.hi * other.lo < p128()
                * p128()) by (nonlinear_arith)
                requires
                    self.lo < p128(),
                    self.hi < p128(),
                    other.lo < p128(),
                    other.hi < p128(),
            ;
        }
        if self.hi != 0 && other.hi != 0 {
            proof {
                assert(self.hi * other.hi >= 1) by (nonlinear_arith)
                    requires
                        self.hi >= 1,
                        other.hi >= 1,
                ;
                assert((self.hi * other.hi) * (p128() * p128()) >= p128() * p128())
                    by (nonlinear_arith)
                    requires
                        self.hi * other.hi >= 1,
                ;
            }
            return None;
        }
        proof {
            assert(self.hi * other.hi == 0) by (nonlinear_arith)
                requires
                    self.hi == 0 || other.hi == 0,
            ;
        }
        let cross1 = U256::mul_wide(self.lo, other.hi);
        let cross2 = U256::mul_wide(self.hi, other.lo);
        if cross1.hi != 0 || cross2.hi != 0 {
            proof {
                if cross1.hi != 0 {
                    assert((self.lo * other.hi) * p128() >= p128() * p128());
                } else {
                    assert((self.hi * other.lo) * p128() >= p128() * p128());
                }
            }
            return None;
        }
        let p0 = U256::mul_wide(self.lo, other.lo);
        match p0.hi.checked_add(cross1.lo) {
            Some(s1) => match s1.checked_add(cross2.lo) {
                Some(hi) => Some(U256 { lo: p0.lo, hi }),
                None => None,
            },
            None => None,
        }
    }

    /// The value shifted right by 64 bits, that is, divided by 2^64.
    pub fn shr_64(&self) -> (r: U256)
        ensures
            r.v() == self.v() / p64(),
    {
        let lo = self.lo / 0x1_0000_0000_0000_0000u128 + (self.hi
            % 0x1_0000_0000_0000_0000u128) * 0x1_0000_0000_0000_0000u128;
        let hi = self.hi / 0x1_0000_0000_0000_0000u128;
        proof {
            let q = lo as int + hi * p128();
            assert(self.v() == q * p64() + (self.lo as int) % p64());
            lemma_fundamental_div_mod_converse(
                self.v(),
                p64(),
                q,
                (self.lo as int) % p64(),
            );
        }
        U256 { lo, hi }
    }

    /// Subtraction modulo 2^256, used by the long-division kernel.
    fn sub_wrap(&self, other: &U256) -> (r: U256)
        ensures
            self.v() >= other.v() ==> r.v() == self.v() - other.v(),
            self.v() < other.v() ==> r.v() == self.v() - other.v() + p256(),
    {
        let (lo, borrow): (u128, u128) = if self.lo >= other.lo {
            (self.lo - other.lo, 0)
        } else {
            ((self.lo + (u128::MAX - other.lo)) + 1, 1)
        };
        let hi: u128 = if self.hi >= other.hi {
            let d = self.hi - other.hi;
            if d >= borrow {
                d - borrow
            } else {
                u128::MAX
            }
        } else {
            ((self.hi + (u128::MAX - other.hi)) + 1) - borrow
        };
        U256 { lo, hi }
    }

    /// Doubles the value and adds a carried-in bit; the boolean reports the
    /// bit shifted out at the top.
    fn shl1_add(&self, bit: bool) -> (r: (U256, bool))
        ensures
            r.0.v() + (if r.1 { p256() } else { 0 }) == 2 * self.v() + (if bit { 1int } else { 0 }),
    {
        let b: u128 = if bit { 1 } else { 0 };
        let (lo, carry_lo): (u128, u128) = if self.lo
            < 0x8000_0000_0000_0000_0000_0000_0000_0000u128 {
            (2 * self.lo + b, 0)
        } else {
            (2 * (self.lo - 0x8000_0000_0000_0000_0000_0000_0000_0000u128) + b, 1)
        };
        let (hi, carry_hi): (u128, bool) = if self.hi
            < 0x8000_0000_0000_0000_0000_0000_0000_0000u128 {
            (2 * self.hi + carry_lo, false)
        } else {
            (2 * (self.hi - 0x8000_0000_0000_0000_0000_0000_0000_0000u128) + carry_lo, true)
        };
        (U256 { lo, hi }, carry_hi)
    }

    /// The bit of the value at position `i`, counting from the least
    /// significant bit.
    fn bit_at(&self, i: usize) -> (r: bool)
        requires
            i < 256,
        ensures
            r == (self.v() / (pow2(i as nat) as int) % 2 == 1),
    {
        if i >= 128 {
            let p = pow2_u128((i - 128) as u32);
            proof {
                lemma_pow2_pos((i - 128) as nat);
                lemma_div_is_exact_hi(self.lo as int, self.hi as int, (i - 128) as nat);
            }
            (self.hi / p) % 2 == 1
        } else {
            let p = pow2_u128(i as u32);
            proof {
                lemma_pow2_pos(i as nat);
                lemma_div_low_bit(self.lo as int, self.hi as int, i as nat);
            }
            (self.lo / p) % 2 == 1
        }
    }

    /// Checked division, rounding toward zero: `None` exactly when the
    /// divisor is zero.
    pub fn checked_div(&self, other: &U256) -> (r: Option<U256>)
        ensures
            match r {
                Some(q) => other.v() != 0 && q.v() == self.v() / other.v(),
                None => other.v() == 0,
            },
    {
        if other.is_zero() {
            return None;
        }
        let ghost vv: int = self.v();
        let ghost d: int = other.v();
        let mut q = U256::zero();
        let mut rem = U256::zero();
        let mut i: usize = 256;
        proof {
            lemma_pow2_256();
            lemma_basic_div(vv, pow2(256) as int);
        }
        while i > 0
            invariant
                i <= 256,
                d == other.v(),
                vv == self.v(),
                0 < d < p256(),
                0 <= vv < p256(),
                rem.v() < d,
                q.v() * d + rem.v() == vv / (pow2(i as nat) as int),
            decreases i,
        {
            let ghost oldq: int = q.v();
            let ghost oldr: int = rem.v();
            i = i - 1;
            let bit = self.bit_at(i);
            let ghost bi: int = if bit { 1int } else { 0int };
            proof {
                lemma_pow2_pos(i as nat);
                lemma_pow2_adds(i as nat, 1);
                lemma2_to64();
                lemma_div_denominator(vv, pow2(i as nat) as int, 2);
                lemma_fundamental_div_mod(vv / (pow2(i as nat) as int), 2);
                assert(vv / (pow2(i as nat) as int) == 2 * (vv / (pow2((i + 1) as nat) as int))
                    + bi);
            }
            let (rem2, carry) = rem.shl1_add(bit);
            let step_val: Ghost<int> = Ghost(2 * oldr + bi);
            if carry || !rem2.lt(other) {
                rem = rem2.sub_wrap(other);
                let (q2, qcarry) = q.shl1_add(true);
                proof {
                    assert(oldq <= oldq * d) by (nonlinear_arith)
                        requires
                            oldq >= 0,
                            d >= 1,
                    ;
                    assert((2 * oldq + 1) * d == 2 * (oldq * d) + d) by (nonlinear_arith);
                    assert(q2.v() == 2 * oldq + 1);
                }
                q = q2;
            } else {
                rem = rem2;
                let (q2, qcarry) = q.shl1_add(false);
                proof {
                    assert(oldq <= oldq * d) by (nonlinear_arith)
                        requires
                            oldq >= 0,
                            d >= 1,
                    ;
                    assert((2 * oldq) * d == 2 * (oldq * d)) by (nonlinear_arith);
                    assert(q2.v() == 2 * oldq);
                }
                q = q2;
            }
        }
        proof {
            lemma2_to64();
            lemma_div_basics(vv);
            assert(q.v() * d + rem.v() == vv);
            lemma_fundamental_div_mod_converse(vv, d, q.v(), rem.v());
        }
        Some(q)
    }

    /// Checked subtraction: `None` exactly when the result would be negative.
    pub fn checked_sub(&self, other: &U256) -> (r: Option<U256>)
        ensures
            match r {
                Some(d) => d.v() == self.v() - other.v() && self.v() >= other.v(),
                None => self.v() < other.v(),
            },
    {
        let (lo, borrow): (u128, u128) = if self.lo >= other.lo {
            (self.lo - other.lo, 0)
        } else {
            ((self.lo + (u128::MAX - other.lo)) + 1, 1)
        };
        if self.hi >= other.hi && self.hi - other.hi >= borrow {
            Some(U256 { lo, hi: self.hi - other.hi - borrow })
        } else {
            None
        }
    }
}

} // verus!
