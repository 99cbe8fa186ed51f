//! WAD-scaled decimals: a non-negative rational `raw / 10^18` with `raw`
//! held in an unsigned 256-bit integer.  Operations return `None` on
//! overflow, underflow and zero divisors.

use vstd::prelude::*;

use crate::math::u256::{U256, p64, p256, lemma_v_bound};
use vstd::string::StringSliceAdditionalSpecFns;

verus! {

/// 10^18, the scale of a decimal's raw value.
pub open spec fn wad_int() -> int {
    1_000_000_000_000_000_000int
}

/// 10^e as a mathematical integer.
pub open spec fn ten_pow(e: nat) -> int
    decreases e,
{
    if e == 0 {
        1
    } else {
        10 * ten_pow((e - 1) as nat)
    }
}

/// Powers of ten grow with the exponent.
pub(crate) proof fn lemma_ten_pow_increases(a: nat, b: nat)
    requires
        a <= b,
    ensures
        1 <= ten_pow(a) <= ten_pow(b),
    decreases b,
{
    if b == 0 {
    } else if a == b {
        lemma_ten_pow_increases(0, (b - 1) as nat);
    } else {
        lemma_ten_pow_increases(a, (b - 1) as nat);
    }
}

/// What multiplying two raw values yields: `a * b / WAD` when the plain
/// product fits in 256 bits; otherwise the larger operand is downscaled by
/// WAD first, which loses its low digits but avoids the overflow.
pub open spec fn dec_mul_spec(a: int, b: int) -> Option<int> {
    if a * b < p256() {
        Some(a * b / wad_int())
    } else {
        let hi = if a >= b {
            a
        } else {
            b
        };
        let lo = if a >= b {
            b
        } else {
            a
        };
        if (hi / wad_int()) * lo < p256() {
            Some((hi / wad_int()) * lo)
        } else {
            None
        }
    }
}

/// What dividing raw value `a` by raw value `b` yields: `a * WAD / b` when
/// the scaled numerator fits in 256 bits; otherwise divide first and rescale
/// after, or downscale the denominator, depending on which operand is
/// larger.
pub open spec fn dec_div_spec(a: int, b: int) -> Option<int> {
    if a * wad_int() < p256() {
        if b == 0 {
            None
        } else {
            Some(a * wad_int() / b)
        }
    } else if b == 0 {
        None
    } else if a >= b {
        if (a / b) * wad_int() < p256() {
            Some((a / b) * wad_int())
        } else {
            None
        }
    } else {
        if b / wad_int() == 0 {
            None
        } else {
            Some(a / (b / wad_int()))
        }
    }
}

/// The outcome of the squaring chain of `checked_pow` after the first bit
/// of the exponent has been folded into the accumulator.
pub open spec fn dec_pow_rec(base: int, exp: nat, acc: int) -> Option<int>
    decreases exp,
{
    let e2 = exp / 2;
    if e2 == 0 {
        Some(acc)
    } else {
        match dec_mul_spec(base, base) {
            None => None,
            Some(b2) => if e2 % 2 == 1 {
                match dec_mul_spec(acc, b2) {
                    None => None,
                    Some(a2) => dec_pow_rec(b2, e2, a2),
                }
            } else {
                dec_pow_rec(b2, e2, acc)
            },
        }
    }
}

/// Whether two raw values agree to `p` decimal places: their difference
/// stays below 10^(18 - p) in the raw scale.
pub open spec fn dec_almost_eq_spec(a: int, b: int, p: nat) -> bool {
    if a >= b {
        a - b < ten_pow((18 - p) as nat)
    } else {
        b - a < ten_pow((18 - p) as nat)
    }
}

/// The outcome of the Newton square-root iteration on raw values with the
/// fuel left: the step is `g' = (g + base/g) / 2` phrased through the
/// checked decimal operations it is built from, and the iteration stops
/// when two successive guesses agree to three decimal places.
pub open spec fn dec_sqrt_rec(base: int, guess: int, fuel: nat) -> Option<int>
    decreases fuel,
{
    if fuel == 0 {
        Some(guess)
    } else {
        match dec_mul_spec(wad_int(), guess) {
            None => None,
            Some(first) => match dec_div_spec(base, guess) {
                None => None,
                Some(second) => if first + second >= p256() {
                    None
                } else {
                    match dec_div_spec(first + second, 2 * wad_int()) {
                        None => None,
                        Some(g2) => if dec_almost_eq_spec(guess, g2, 3) {
                            Some(g2)
                        } else {
                            dec_sqrt_rec(base, g2, (fuel - 1) as nat)
                        },
                    }
                },
            },
        }
    }
}


/// Whether a byte is an ASCII decimal digit.
pub open spec fn is_digit_byte(b: u8) -> bool {
    48 <= b <= 57
}

/// Whether every byte of the sequence is an ASCII decimal digit.
pub open spec fn all_digit_bytes(s: Seq<u8>) -> bool {
    forall|i: int| 0 <= i < s.len() ==> is_digit_byte(#[trigger] s[i])
}

/// The number the digit bytes spell out.
pub open spec fn digits_val(s: Seq<u8>) -> int
    decreases s.len(),
{
    if s.len() == 0 {
        0
    } else {
        digits_val(s.drop_last()) * 10 + (s.last() - 48)
    }
}

/// A digit string names a non-negative number, and every prefix names at
/// most what the whole string names.
pub proof fn lemma_digits_val_bounds(s: Seq<u8>)
    requires
        all_digit_bytes(s),
    ensures
        digits_val(s) >= 0,
        forall|i: int| 0 <= i <= s.len() ==> 0 <= #[trigger] digits_val(s.subrange(0, i))
            <= digits_val(s),
    decreases s.len(),
{
    if s.len() == 0 {
        assert(forall|i: int| 0 <= i <= s.len() ==> s.subrange(0, i) =~= s);
    } else {
        let pre = s.drop_last();
        assert(all_digit_bytes(pre));
        lemma_digits_val_bounds(pre);
        assert(digits_val(s) == digits_val(pre) * 10 + (s.last() - 48));
        assert(digits_val(pre) * 10 >= digits_val(pre)) by (nonlinear_arith)
            requires
                digits_val(pre) >= 0,
        ;
        assert forall|i: int| 0 <= i <= s.len() implies 0 <= #[trigger] digits_val(
            s.subrange(0, i),
        ) <= digits_val(s) by {
            if i == s.len() {
                assert(s.subrange(0, i) =~= s);
            } else {
                assert(s.subrange(0, i) =~= pre.subrange(0, i));
            }
        }
    }
}

/// Whether the bytes spell a decimal literal: a non-empty run of digits,
/// optionally followed by a dot and more digits.
pub open spec fn dec_str_wellformed(s: Seq<u8>, dot: Option<int>) -> bool {
    match dot {
        None => s.len() > 0 && all_digit_bytes(s),
        Some(j) => 0 < j < s.len() && s[j] == 46 && all_digit_bytes(s.subrange(0, j))
            && all_digit_bytes(s.subrange(j + 1, s.len() as int)),
    }
}

/// The raw value a decimal literal names: the integer part scaled by
/// 10^18, plus the fractional digits scaled and rounded down.
pub open spec fn dec_str_val(ip: Seq<u8>, fb: Seq<u8>) -> int {
    digits_val(ip) * wad_int() + digits_val(fb) * wad_int() / ten_pow(fb.len())
}

/// Whether the value of a decimal literal stays inside 256 bits at every
/// step of its construction.
pub open spec fn dec_str_fits(ip: Seq<u8>, fb: Seq<u8>) -> bool {
    digits_val(ip) < p256() && digits_val(fb) < p256() && digits_val(ip) * wad_int() < p256()
        && digits_val(fb) * wad_int() < p256() && dec_str_val(ip, fb) < p256() && fb.len() <= 19
}

/// Large decimal values, precise to 18 digits.
#[derive(Clone, Copy, Debug, PartialEq, Eq, Structural)]
pub struct Decimal(pub U256);

impl Decimal {
    /// The raw value: the decimal times 10^18.
    pub open spec fn v(self) -> int {
        self.0.v()
    }

    /// The scale factor 10^18 as a 256-bit integer.
    pub fn wad() -> (r: U256)
        ensures
            r.v() == wad_int(),
    {
        U256::from_u64(1_000_000_000_000_000_000u64)
    }

    /// Half the scale factor, used for rounding to nearest.
    fn half_wad() -> (r: U256)
        ensures
            r.v() == wad_int() / 2,
    {
        U256::from_u64(500_000_000_000_000_000u64)
    }

    /// Wraps a raw value scaled by 10^18.
    pub fn from_scaled_val(scaled_val: u128) -> (r: Decimal)
        ensures
            r.v() == scaled_val,
    {
        Decimal(U256::from_u128(scaled_val))
    }

    /// The decimal holding the given integer.
    pub fn from_u64(val: u64) -> (r: Decimal)
        ensures
            r.v() == val * wad_int(),
    {
        Decimal(U256::mul_wide(val as u128, 1_000_000_000_000_000_000u128))
    }

    /// The decimal holding the given 128-bit integer.
    pub fn from_u128(val: u128) -> (r: Decimal)
        ensures
            r.v() == val * wad_int(),
    {
        Decimal(U256::mul_wide(val, 1_000_000_000_000_000_000u128))
    }

    pub fn checked_add(self, rhs: &Decimal) -> (r: Option<Decimal>)
        ensures
            match r {
                Some(s) => s.v() == self.v() + rhs.v() && self.v() + rhs.v() < p256(),
                None => self.v() + rhs.v() >= p256(),
            },
    {
        match self.0.checked_add(&rhs.0) {
            Some(s) => Some(Decimal(s)),
            None => None,
        }
    }

    pub fn checked_sub(self, rhs: &Decimal) -> (r: Option<Decimal>)
        ensures
            match r {
                Some(d) => d.v() == self.v() - rhs.v() && self.v() >= rhs.v(),
                None => self.v() < rhs.v(),
            },
    {
        match self.0.checked_sub(&rhs.0) {
            Some(d) => Some(Decimal(d)),
            None => None,
        }
    }

    /// Division that preserves the 10^18 scale; the exact fallback for a
    /// scaled numerator that would overflow is part of the contract.
    pub fn checked_div(self, rhs: &Decimal) -> (r: Option<Decimal>)
        ensures
            match r {
                Some(q) => dec_div_spec(self.v(), rhs.v()) == Some(q.v()),
                None => dec_div_spec(self.v(), rhs.v()) is None,
            },
    {
        let wad = Decimal::wad();
        match self.0.checked_mul(&wad) {
            Some(v) => match v.checked_div(&rhs.0) {
                Some(q) => Some(Decimal(q)),
                None => None,
            },
            None => {
                if rhs.0.le(&self.0) {
                    match self.0.checked_div(&rhs.0) {
                        Some(q) => match q.checked_mul(&wad) {
                            Some(s) => Some(Decimal(s)),
                            None => None,
                        },
                        None => None,
                    }
                } else {
                    let down = match rhs.0.checked_div(&wad) {
                        Some(d) => d,
                        None => {
                            proof {
                                assert(false);
                            }
                            return None;
                        },
                    };
                    match self.0.checked_div(&down) {
                        Some(q) => Some(Decimal(q)),
                        None => None,
                    }
                }
            },
        }
    }

    /// Multiplication that preserves the 10^18 scale; the exact fallback
    /// for a plain product that would overflow is part of the contract.
    pub fn checked_mul(self, rhs: &Decimal) -> (r: Option<Decimal>)
        ensures
            match r {
                Some(p) => dec_mul_spec(self.v(), rhs.v()) == Some(p.v()),
                None => dec_mul_spec(self.v(), rhs.v()) is None,
            },
    {
        let wad = Decimal::wad();
        match self.0.checked_mul(&rhs.0) {
            Some(v) => {
                let q = match v.checked_div(&wad) {
                    Some(q) => q,
                    None => {
                        proof {
                            assert(false);
                        }
                        return None;
                    },
                };
                Some(Decimal(q))
            },
            None => {
                if rhs.0.le(&self.0) {
                    let down = match self.0.checked_div(&wad) {
                        Some(d) => d,
                        None => {
                            proof {
                                assert(false);
                            }
                            return None;
                        },
                    };
                    match down.checked_mul(&rhs.0) {
                        Some(p) => Some(Decimal(p)),
                        None => None,
                    }
                } else {
                    let down = match rhs.0.checked_div(&wad) {
                        Some(d) => d,
                        None => {
                            proof {
                                assert(false);
                            }
                            return None;
                        },
                    };
                    match down.checked_mul(&self.0) {
                        Some(p) => Some(Decimal(p)),
                        None => None,
                    }
                }
            },
        }
    }

    /// The integer part, rounded toward zero; fails when it does not fit
    /// in 64 bits.
    pub fn checked_floor(&self) -> (r: Option<u64>)
        ensures
            match r {
                Some(f) => f == self.v() / wad_int() && self.v() / wad_int() < p64(),
                None => self.v() / wad_int() >= p64(),
            },
    {
        let wad = Decimal::wad();
        let q = match self.0.checked_div(&wad) {
            Some(q) => q,
            None => {
                proof {
                    assert(false);
                }
                return None;
            },
        };
        if q.fits_u64() {
            Some(q.as_u64())
        } else {
            None
        }
    }

    /// The value rounded up to an integer; fails when the bumped raw value
    /// or the result does not fit.
    pub fn checked_ceil(&self) -> (r: Option<u64>)
        ensures
            match r {
                Some(c) => self.v() + wad_int() - 1 < p256() && c == (self.v() + wad_int() - 1)
                    / wad_int() && (self.v() + wad_int() - 1) / wad_int() < p64(),
                None => self.v() + wad_int() - 1 >= p256() || (self.v() + wad_int() - 1)
                    / wad_int() >= p64(),
            },
    {
        let bump = U256::from_u64(999_999_999_999_999_999u64);
        let wad = Decimal::wad();
        let bumped = match bump.checked_add(&self.0) {
            Some(b) => b,
            None => {
                return None;
            },
        };
        let q = match bumped.checked_div(&wad) {
            Some(q) => q,
            None => {
                proof {
                    assert(false);
                }
                return None;
            },
        };
        if q.fits_u64() {
            Some(q.as_u64())
        } else {
            None
        }
    }

    /// The value rounded to the nearest integer, ties up; fails when the
    /// bumped raw value or the result does not fit.
    pub fn checked_round(&self) -> (r: Option<u64>)
        ensures
            match r {
                Some(c) => self.v() + wad_int() / 2 < p256() && c == (self.v() + wad_int() / 2)
                    / wad_int() && (self.v() + wad_int() / 2) / wad_int() < p64(),
                None => self.v() + wad_int() / 2 >= p256() || (self.v() + wad_int() / 2)
                    / wad_int() >= p64(),
            },
    {
        let wad = Decimal::wad();
        let bumped = match Decimal::half_wad().checked_add(&self.0) {
            Some(b) => b,
            None => {
                return None;
            },
        };
        let q = match bumped.checked_div(&wad) {
            Some(q) => q,
            None => {
                proof {
                    assert(false);
                }
                return None;
            },
        };
        if q.fits_u64() {
            Some(q.as_u64())
        } else {
            None
        }
    }

    /// Integer exponentiation by squaring over checked multiplication.
    pub fn checked_pow(&self, exp: u64) -> (r: Option<Decimal>)
        ensures
            ({
                let acc0 = if exp % 2 == 1 {
                    self.v()
                } else {
                    wad_int()
                };
                match r {
                    Some(p) => dec_pow_rec(self.v(), exp as nat, acc0) == Some(p.v()),
                    None => dec_pow_rec(self.v(), exp as nat, acc0) is None,
                }
            }),
    {
        let ghost acc0: int = if exp % 2 == 1 {
            self.v()
        } else {
            wad_int()
        };
        let mut base = *self;
        let mut ret = if exp % 2 != 0 {
            *self
        } else {
            Decimal::from_u64(1)
        };
        let mut e = exp;
        proof {
            assert(1u64 * wad_int() == wad_int()) by (nonlinear_arith);
        }
        loop
            invariant
                acc0 == if exp % 2 == 1 {
                    self.v()
                } else {
                    wad_int()
                },
                match dec_pow_rec(base.v(), e as nat, ret.v()) {
                    Some(p) => dec_pow_rec(self.v(), exp as nat, acc0) == Some(p),
                    None => dec_pow_rec(self.v(), exp as nat, acc0) is None,
                },
            ensures
                dec_pow_rec(self.v(), exp as nat, acc0) == Some(ret.v()),
            decreases e,
        {
            e = e / 2;
            if e == 0 {
                break ;
            }
            base = match base.checked_mul(&base) {
                Some(b) => b,
                None => {
                    return None;
                },
            };
            if e % 2 != 0 {
                ret = match ret.checked_mul(&base) {
                    Some(p) => p,
                    None => {
                        return None;
                    },
                };
            }
        }
        Some(ret)
    }

    /// The square root by Newton iteration, converging when two guesses
    /// agree to three decimal places; at most 100 rounds.
    pub fn checked_sqrt(&self) -> (r: Option<Decimal>)
        ensures
            match r {
                Some(s) => self.v() + wad_int() < p256() && match dec_div_spec(
                    self.v() + wad_int(),
                    2 * wad_int(),
                ) {
                    Some(start) => (self.v() == 0 && s.v() == 0) || (self.v() != 0
                        && dec_sqrt_rec(self.v(), start, 100) == Some(s.v())),
                    None => false,
                },
                None => self.v() + wad_int() >= p256() || match dec_div_spec(
                    self.v() + wad_int(),
                    2 * wad_int(),
                ) {
                    Some(start) => self.v() != 0 && dec_sqrt_rec(self.v(), start, 100) is None,
                    None => true,
                },
            },
    {
        let two = Decimal::from_u64(2);
        let one = Decimal::from_u64(1);
        let sum = match self.clone().checked_add(&one) {
            Some(s) => s,
            None => {
                return None;
            },
        };
        let guess = match sum.checked_div(&two) {
            Some(g) => g,
            None => {
                return None;
            },
        };
        proof {
            lemma_v_bound(self.0);
        }
        newtonian_root_approximation(self.clone(), guess)
    }


    /// Parses a decimal literal: a non-empty run of digits, optionally
    /// followed by a dot and fractional digits, of which at most the
    /// first eighteen survive the scaling.  Nothing for a malformed
    /// literal or a value that does not fit.
    pub fn from_str(s: &str) -> (r: Option<Decimal>)
        ensures
            ({
                let bs = s.spec_bytes();
                match r {
                    Some(d) => (dec_str_wellformed(bs, None) && dec_str_fits(
                        bs,
                        Seq::<u8>::empty(),
                    ) && d.v() == dec_str_val(bs, Seq::<u8>::empty())) || (exists|j: int|
                        #[trigger] dec_str_wellformed(bs, Some(j)) && dec_str_fits(
                        bs.subrange(0, j),
                        bs.subrange(j + 1, bs.len() as int),
                    ) && d.v() == dec_str_val(
                        bs.subrange(0, j),
                        bs.subrange(j + 1, bs.len() as int),
                    )),
                    None => !(dec_str_wellformed(bs, None) && dec_str_fits(
                        bs,
                        Seq::<u8>::empty(),
                    )) && (forall|j: int|
                        !(#[trigger] dec_str_wellformed(bs, Some(j)) && dec_str_fits(
                            bs.subrange(0, j),
                            bs.subrange(j + 1, bs.len() as int),
                        ))),
                }
            }),
    {
        let bytes: &[u8] = s.as_bytes();
        let n = bytes.len();
        let ghost bs: Seq<u8> = s.spec_bytes();
        let mut dot_idx: usize = n;
        let mut i: usize = 0;
        while i < n
            invariant
                bs == s.spec_bytes(),
                bytes@ == bs,
                n == bs.len(),
                i <= n,
                dot_idx == n || (dot_idx < i && bs[dot_idx as int] == 46),
                forall|t: int| 0 <= t < i && t != dot_idx ==> is_digit_byte(#[trigger] bs[t]),
            decreases n - i,
        {
            let b = bytes[i];
            if b == 46 {
                if dot_idx != n {
                    proof {
                        lemma_two_dots_malformed(bs, dot_idx as int, i as int);
                    }
                    return None;
                }
                dot_idx = i;
            } else if b < 48 || b > 57 {
                proof {
                    lemma_bad_byte_malformed(bs, i as int);
                }
                return None;
            }
            i = i + 1;
        }
        if n == 0 {
            return None;
        }
        if dot_idx == 0 {
            proof {
                assert(forall|j: int| j != 0 && 0 <= j < bs.len() ==> bs[j] != 46);
            }
            return None;
        }
        let ip_end = if dot_idx == n {
            n
        } else {
            dot_idx
        };
        let ghost ip: Seq<u8> = bs.subrange(0, ip_end as int);
        let ghost fb: Seq<u8> = if dot_idx == n {
            Seq::<u8>::empty()
        } else {
            bs.subrange(dot_idx + 1, n as int)
        };
        proof {
            assert(all_digit_bytes(ip));
            assert(all_digit_bytes(fb));
            if dot_idx == n {
                assert(ip =~= bs);
                assert(dec_str_wellformed(bs, None));
                lemma_only_dot(bs, dot_idx as int);
            } else {
                assert(dec_str_wellformed(bs, Some(dot_idx as int)));
                lemma_only_dot(bs, dot_idx as int);
            }
            lemma_digits_val_bounds(ip);
            lemma_digits_val_bounds(fb);
        }

        let ten = U256::from_u64(10);
        let mut acc = U256::zero();
        let mut t: usize = 0;
        while t < ip_end
            invariant
                bs == s.spec_bytes(),
                bytes@ == bs,
                n == bs.len(),
                dot_idx <= n,
                dot_idx < n ==> bs[dot_idx as int] == 46,
                forall|q: int| 0 <= q < n && q != dot_idx ==> is_digit_byte(#[trigger] bs[q]),
                ip == bs.subrange(0, if dot_idx == n { n as int } else { dot_idx as int }),
                fb == (if dot_idx == n { Seq::<u8>::empty() } else { bs.subrange(dot_idx + 1, n as int) }),
                ip_end == (if dot_idx == n { n } else { dot_idx }),
                ip_end <= n,
                t <= ip_end,
                ip == bs.subrange(0, ip_end as int),
                all_digit_bytes(ip),
                forall|q: int| 0 <= q < ip_end ==> is_digit_byte(#[trigger] bs[q]),
                ten.v() == 10,
                acc.v() == digits_val(bs.subrange(0, t as int)),
                acc.v() <= digits_val(ip),
                digits_val(ip) >= 0,
            decreases ip_end - t,
        {
            let b = bytes[t];
            proof {
                assert(bs.subrange(0, t + 1).drop_last() =~= bs.subrange(0, t as int));
                assert(bs.subrange(0, t + 1).last() == bs[t as int]);
                lemma_digits_val_bounds(ip);
                assert(bs.subrange(0, t + 1) =~= ip.subrange(0, t + 1));
                assert(digits_val(ip.subrange(0, t + 1)) <= digits_val(ip));
            }
            let scaled = match acc.checked_mul(&ten) {
                Some(p) => p,
                None => {
                    proof {
                        lemma_value_too_big(bs, dot_idx as int, ip, fb, n as int);
                    }
                    return None;
                },
            };
            acc = match scaled.checked_add(&U256::from_u64((b - 48) as u64)) {
                Some(a) => a,
                None => {
                    proof {
                        lemma_value_too_big(bs, dot_idx as int, ip, fb, n as int);
                    }
                    return None;
                },
            };
            t = t + 1;
        }
        proof {
            assert(bs.subrange(0, ip_end as int) == ip);
        }
        let wad = Decimal::wad();
        let value = match acc.checked_mul(&wad) {
            Some(v) => v,
            None => {
                proof {
                    lemma_value_too_big(bs, dot_idx as int, ip, fb, n as int);
                }
                return None;
            },
        };

        if dot_idx == n {
            proof {
                assert(digits_val(fb) == 0);
                assert(0int * wad_int() == 0) by (nonlinear_arith);
                assert(ten_pow(0) == 1);
                assert(dec_str_val(ip, fb) == digits_val(ip) * wad_int());
                assert(dec_str_fits(ip, fb));
            }
            return Some(Decimal(value));
        }

        let fl = n - dot_idx - 1;
        if fl > 19 {
            proof {
                lemma_value_too_big(bs, dot_idx as int, ip, fb, n as int);
            }
            return None;
        }
        let mut facc = U256::zero();
        let mut u: usize = dot_idx + 1;
        while u < n
            invariant
                bs == s.spec_bytes(),
                bytes@ == bs,
                n == bs.len(),
                dot_idx < n,
                bs[dot_idx as int] == 46,
                forall|q2: int| 0 <= q2 < n && q2 != dot_idx ==> is_digit_byte(#[trigger] bs[q2]),
                ip == bs.subrange(0, dot_idx as int),
                dot_idx + 1 <= u <= n,
                fb == bs.subrange(dot_idx + 1, n as int),
                all_digit_bytes(fb),
                forall|q: int| dot_idx < q < n ==> is_digit_byte(#[trigger] bs[q]),
                ten.v() == 10,
                facc.v() == digits_val(bs.subrange(dot_idx + 1, u as int)),
                facc.v() <= digits_val(fb),
                digits_val(fb) >= 0,
            decreases n - u,
        {
            let b = bytes[u];
            proof {
                assert(bs.subrange(dot_idx + 1, u + 1).drop_last() =~= bs.subrange(
                    dot_idx + 1,
                    u as int,
                ));
                assert(bs.subrange(dot_idx + 1, u + 1).last() == bs[u as int]);
                lemma_digits_val_bounds(fb);
                assert(bs.subrange(dot_idx + 1, u + 1) =~= fb.subrange(
                    0,
                    u + 1 - (dot_idx + 1),
                ));
                assert(digits_val(fb.subrange(0, u + 1 - (dot_idx + 1))) <= digits_val(fb));
            }
            let scaled = match facc.checked_mul(&ten) {
                Some(p) => p,
                None => {
                    proof {
                        lemma_value_too_big(bs, dot_idx as int, ip, fb, n as int);
                    }
                    return None;
                },
            };
            facc = match scaled.checked_add(&U256::from_u64((b - 48) as u64)) {
                Some(a) => a,
                None => {
                    proof {
                        lemma_value_too_big(bs, dot_idx as int, ip, fb, n as int);
                    }
                    return None;
                },
            };
            u = u + 1;
        }
        proof {
            assert(bs.subrange(dot_idx + 1, n as int) == fb);
        }
        let fscaled = match facc.checked_mul(&wad) {
            Some(v) => v,
            None => {
                proof {
                    lemma_value_too_big(bs, dot_idx as int, ip, fb, n as int);
                }
                return None;
            },
        };
        let scale_factor = U256::from_u64(crate::math::pow10_u64(fl as u32));
        let fdiv = match fscaled.checked_div(&scale_factor) {
            Some(q) => q,
            None => {
                proof {
                    crate::math::decimal::lemma_ten_pow_increases(0, fl as nat);
                    assert(false);
                }
                return None;
            },
        };
        proof {
            crate::math::decimal::lemma_ten_pow_increases(0, fl as nat);
            vstd::arithmetic::div_mod::lemma_div_pos_is_pos(
                digits_val(fb) * wad_int(),
                ten_pow(fl as nat),
            );
            assert(digits_val(fb) * wad_int() >= 0) by (nonlinear_arith)
                requires
                    digits_val(fb) >= 0 && wad_int() > 0,
            ;
        }
        let total = match value.checked_add(&fdiv) {
            Some(v) => v,
            None => {
                proof {
                    lemma_value_too_big(bs, dot_idx as int, ip, fb, n as int);
                }
                return None;
            },
        };
        proof {
            assert(dec_str_fits(ip, fb));
        }
        Some(Decimal(total))
    }

    /// Whether the two values agree to `precision` decimal places: their
    /// difference stays below 10^(18 - precision) in the raw scale, so a
    /// precision of 6 ignores any difference beyond the sixth decimal
    /// place.
    pub fn almost_eq(&self, other: &Decimal, precision: u32) -> (r: bool)
        requires
            precision <= 18,
        ensures
            r == dec_almost_eq_spec(self.v(), other.v(), precision as nat),
    {
        let bound = pow10_u128(18 - precision);
        let bound_u = U256::from_u128(bound);
        if self.0.le(&other.0) {
            match other.0.checked_sub(&self.0) {
                Some(d) => d.lt(&bound_u),
                None => {
                    proof {
                        assert(false);
                    }
                    false
                },
            }
        } else {
            match self.0.checked_sub(&other.0) {
                Some(d) => d.lt(&bound_u),
                None => {
                    proof {
                        assert(false);
                    }
                    false
                },
            }
        }
    }
}

/// A sequence with two dots spells no decimal literal in any split.
proof fn lemma_two_dots_malformed(bs: Seq<u8>, j1: int, j2: int)
    requires
        0 <= j1 < j2 < bs.len(),
        bs[j1] == 46,
        bs[j2] == 46,
    ensures
        !dec_str_wellformed(bs, None),
        forall|j: int| !dec_str_wellformed(bs, Some(j)),
{
    assert(!is_digit_byte(46));
    assert forall|j: int| !dec_str_wellformed(bs, Some(j)) by {
        if dec_str_wellformed(bs, Some(j)) {
            if j != j1 {
                if j1 < j {
                    assert(bs.subrange(0, j)[j1] == bs[j1]);
                } else {
                    assert(bs.subrange(j + 1, bs.len() as int)[j1 - j - 1] == bs[j1]);
                }
            } else {
                assert(bs.subrange(j + 1, bs.len() as int)[j2 - j - 1] == bs[j2]);
            }
        }
    }
}

/// A byte that is neither a digit nor a dot spells no decimal literal.
proof fn lemma_bad_byte_malformed(bs: Seq<u8>, i: int)
    requires
        0 <= i < bs.len(),
        bs[i] != 46,
        !is_digit_byte(bs[i]),
    ensures
        !dec_str_wellformed(bs, None),
        forall|j: int| !dec_str_wellformed(bs, Some(j)),
{
    assert forall|j: int| !dec_str_wellformed(bs, Some(j)) by {
        if dec_str_wellformed(bs, Some(j)) {
            if i < j {
                assert(bs.subrange(0, j)[i] == bs[i]);
            } else if i > j {
                assert(bs.subrange(j + 1, bs.len() as int)[i - j - 1] == bs[i]);
            }
        }
    }
}

/// With every non-dot byte a digit, only the found dot position (or no
/// dot at all) can split the sequence into a well-formed literal.
proof fn lemma_only_dot(bs: Seq<u8>, dot: int)
    requires
        0 <= dot <= bs.len(),
        dot < bs.len() ==> bs[dot] == 46,
        forall|t: int| 0 <= t < bs.len() && t != dot ==> is_digit_byte(#[trigger] bs[t]),
    ensures
        forall|j: int| j != dot ==> !dec_str_wellformed(bs, Some(j)),
        dot < bs.len() ==> !dec_str_wellformed(bs, None),
{
    assert(!is_digit_byte(46));
    assert forall|j: int| j != dot implies !dec_str_wellformed(bs, Some(j)) by {
        if dec_str_wellformed(bs, Some(j)) {
            assert(bs[j] == 46);
        }
    }
}

/// When any construction step of a literal's value leaves 256 bits, the
/// literal does not fit, in its own split or any other.
proof fn lemma_value_too_big(bs: Seq<u8>, dot: int, ip: Seq<u8>, fb: Seq<u8>, n: int)
    requires
        n == bs.len(),
        0 <= dot <= n,
        dot < n ==> bs[dot] == 46,
        forall|t: int| 0 <= t < n && t != dot ==> is_digit_byte(#[trigger] bs[t]),
        ip == bs.subrange(0, if dot == n { n } else { dot }),
        fb == (if dot == n { Seq::<u8>::empty() } else { bs.subrange(dot + 1, n) }),
        !dec_str_fits(ip, fb),
    ensures
        !(dec_str_wellformed(bs, None) && dec_str_fits(bs, Seq::<u8>::empty())),
        forall|j: int| !(#[trigger] dec_str_wellformed(bs, Some(j)) && dec_str_fits(
            bs.subrange(0, j),
            bs.subrange(j + 1, n),
        )),
{
    lemma_only_dot(bs, dot);
    if dot == n {
        assert(ip =~= bs);
    }
    assert forall|j: int| !(#[trigger] dec_str_wellformed(bs, Some(j)) && dec_str_fits(
        bs.subrange(0, j),
        bs.subrange(j + 1, n),
    )) by {
        if dec_str_wellformed(bs, Some(j)) {
            assert(j == dot);
            assert(bs.subrange(0, j) == ip);
            assert(bs.subrange(j + 1, n) == fb);
        }
    }
}

/// Computes 10^e for an exponent of at most 38.
fn pow10_u128(e: u32) -> (r: u128)
    requires
        e <= 38,
    ensures
        r == ten_pow(e as nat),
{
    let mut r: u128 = 1;
    let mut j: u32 = 0;
    while j < e
        invariant
            j <= e,
            e <= 38,
            r == ten_pow(j as nat),
        decreases e - j,
    {
        proof {
            lemma_ten_pow_increases((j + 1) as nat, 38);
            lemma_ten_pow_38();
        }
        r = 10 * r;
        j = j + 1;
    }
    r
}

/// The value of 10^38, the largest power of ten the library computes.
proof fn lemma_ten_pow_38()
    ensures
        ten_pow(38) == 100_000_000_000_000_000_000_000_000_000_000_000_000,
{
    reveal_with_fuel(ten_pow, 40);
}

/// Newton iteration for the square root on decimals: repeats
/// `g' = (g + base/g) / 2` until two successive guesses agree to three
/// decimal places, for at most 100 rounds.
fn newtonian_root_approximation(base: Decimal, guess: Decimal) -> (r: Option<Decimal>)
    requires
        0 <= base.v() < p256(),
    ensures
        match r {
            Some(s) => (base.v() == 0 && s.v() == 0) || (base.v() != 0 && dec_sqrt_rec(
                base.v(),
                guess.v(),
                100,
            ) == Some(s.v())),
            None => base.v() != 0 && dec_sqrt_rec(base.v(), guess.v(), 100) is None,
        },
{
    let zero = Decimal::from_u64(0);
    if base.0.is_zero() {
        proof {
            assert(0u64 * wad_int() == 0) by (nonlinear_arith);
        }
        return Some(zero);
    }
    let one = Decimal::from_u64(1);
    proof {
        assert(1u64 * wad_int() == wad_int()) by (nonlinear_arith);
    }
    let mut guess_mut = guess;
    let mut fuel: u32 = 100;
    loop
        invariant_except_break
            match dec_sqrt_rec(base.v(), guess_mut.v(), fuel as nat) {
                Some(p) => dec_sqrt_rec(base.v(), guess.v(), 100) == Some(p),
                None => dec_sqrt_rec(base.v(), guess.v(), 100) is None,
            },
        invariant
            0 < base.v() < p256(),
            fuel <= 100,
            one.v() == wad_int(),
        ensures
            dec_sqrt_rec(base.v(), guess.v(), 100) == Some(guess_mut.v()),
        decreases fuel,
    {
        if fuel == 0 {
            break ;
        }
        let first_term = match one.checked_mul(&guess_mut) {
            Some(f) => f,
            None => {
                return None;
            },
        };
        let second_term = match base.checked_div(&guess_mut) {
            Some(s) => s,
            None => {
                return None;
            },
        };
        let summed = match first_term.checked_add(&second_term) {
            Some(s) => s,
            None => {
                return None;
            },
        };
        let two = Decimal::from_u64(2);
        let next = match summed.checked_div(&two) {
            Some(n) => n,
            None => {
                return None;
            },
        };
        let done = guess_mut.almost_eq(&next, 3);
        guess_mut = next;
        fuel = fuel - 1;
        if done {
            break ;
        }
    }
    Some(guess_mut)
}

} // verus!
