//! Q64.64 fixed point: a non-negative rational `raw / 2^64` with `raw` held
//! in an unsigned 128-bit word.  Results that cannot fit signal `Overflow`;
//! subtraction below zero signals `NegativeResult`.

use vstd::prelude::*;
use vstd::arithmetic::div_mod::*;
use vstd::arithmetic::mul::*;
use vstd::arithmetic::power2::*;

use crate::error::{ErrorKind, MathError, Outcome};
use crate::math::u256::{U256, p64, p128, p256, pow2_u128, lemma_pow2_128};
use vstd::relations::{sorted_by, total_ordering};
use vstd::seq_lib::lemma_sorted_unique;

verus! {

/// `ln 2` in Q64.64, the constant the logarithm routines scale by.
pub const LN2_RAW: u128 = 12_786_308_645_202_655_660;

/// The outcome of the binary-exponentiation chain on raw Q64.64 words:
/// multiply the accumulator by `x` at every set bit of `n`, square `x` after
/// every bit, right-shift by 64 after each product; `None` as soon as a
/// product needs more than 256 bits.
pub open spec fn pow_raw_rec(x: int, n: nat, acc: int) -> Option<int>
    decreases n,
{
    if n == 0 {
        Some(acc)
    } else if n % 2 == 1 && acc * x >= p256() {
        None
    } else if x * x >= p256() {
        None
    } else {
        let acc2 = if n % 2 == 1 {
            acc * x / p64()
        } else {
            acc
        };
        pow_raw_rec(x * x / p64(), n / 2, acc2)
    }
}

/// The fractional bits that `k` rounds of squaring extract from a mantissa
/// normalised into `[2^63, 2^64)`.
pub open spec fn log2_frac_rec(x: int, k: nat) -> int
    decreases k,
{
    if k == 0 {
        0
    } else {
        let x2 = x * x / 0x8000_0000_0000_0000int;
        if x2 >= 0x1_0000_0000_0000_0000int {
            pow2((k - 1) as nat) + log2_frac_rec(x2 / 2, (k - 1) as nat)
        } else {
            log2_frac_rec(x2, (k - 1) as nat)
        }
    }
}

/// The integer binary logarithm: the unique exponent `e` with
/// `2^e <= x < 2^(e+1)`.
pub open spec fn log2_ip(x: int) -> nat {
    choose|e: nat| #[trigger] pow2(e) <= x < pow2(e + 1)
}

/// The mantissa of `x` normalised into `[2^63, 2^64)`.
pub open spec fn log2_norm(x: int) -> int {
    let e = log2_ip(x);
    if e >= 63 {
        x / (pow2((e - 63) as nat) as int)
    } else {
        x * (pow2((63 - e) as nat) as int)
    }
}

/// The raw Q64.64 word that the base-two logarithm routine computes for a
/// positive raw input: integer part in the high 64 bits, 64 extracted
/// fraction bits below.
pub open spec fn log2_raw_spec(x: int) -> int {
    log2_ip(x) * p64() + log2_frac_rec(log2_norm(x), 64)
}

/// The chosen exponent really is the integer binary logarithm.
pub proof fn lemma_log2_ip(x: int, e: nat)
    requires
        pow2(e) <= x < pow2(e + 1),
    ensures
        log2_ip(x) == e,
{
    assert(exists|e2: nat| #[trigger] pow2(e2) <= x < pow2(e2 + 1)) by {
        assert(pow2(e) <= x < pow2(e + 1));
    }
    let w = log2_ip(x);
    assert(pow2(w) <= x < pow2(w + 1));
    if w < e {
        if w + 1 < e {
            lemma_pow2_strictly_increases((w + 1) as nat, e);
        }
        assert(pow2(w + 1) <= pow2(e));
        assert(false);
    } else if w > e {
        if e + 1 < w {
            lemma_pow2_strictly_increases((e + 1) as nat, w);
        }
        assert(pow2(e + 1) <= pow2(w));
        assert(false);
    }
}

/// A Q64.64 fixed-point number.
#[derive(Clone, Copy, Debug, PartialEq, Eq, Structural)]
pub struct FixedPoint64 {
    value: u128,
}

/// Descending order on fixed-point values, phrased as the comes-before
/// relation the sorting library expects: `a` comes before `b` when
/// `a >= b`.
pub open spec fn fp_desc_leq() -> spec_fn(FixedPoint64, FixedPoint64) -> bool {
    |a: FixedPoint64, b: FixedPoint64| a.raw() >= b.raw()
}

/// The raw words of a sequence of fixed-point values.
pub open spec fn fp_raws(s: Seq<FixedPoint64>) -> Seq<int> {
    s.map_values(|f: FixedPoint64| f.raw())
}

/// The comes-before relation above is a total ordering.
pub(crate) proof fn lemma_fp_desc_total()
    ensures
        total_ordering(fp_desc_leq()),
{
    assert forall|a: FixedPoint64, b: FixedPoint64|
        #[trigger] fp_desc_leq()(a, b) && fp_desc_leq()(b, a) implies a == b by {
        assert(a.raw() == b.raw());
    }
}

/// The outcome of the multiply-then-divide chain over descending operand
/// buffers, consumed from the small end: multiply the accumulator by the
/// next numerator when the product fits; otherwise divide by the next
/// denominator; divide by the denominators left over at the end.
pub open spec fn md_rec(nums: Seq<int>, dens: Seq<int>, ni: nat, di: nat, acc: int) -> Outcome
    decreases ni + di,
{
    if ni > 0 {
        let x = nums[ni - 1];
        if acc * x / p64() < p128() {
            md_rec(nums, dens, (ni - 1) as nat, di, acc * x / p64())
        } else if di == 0 {
            Outcome::Fail(ErrorKind::Overflow)
        } else {
            let d = dens[di - 1];
            if d == 0 {
                Outcome::Fail(ErrorKind::ZeroDivision)
            } else if acc * p64() / d >= p128() {
                Outcome::Fail(ErrorKind::Overflow)
            } else {
                md_rec(nums, dens, ni, (di - 1) as nat, acc * p64() / d)
            }
        }
    } else if di > 0 {
        let d = dens[di - 1];
        if d == 0 {
            Outcome::Fail(ErrorKind::ZeroDivision)
        } else if acc * p64() / d >= p128() {
            Outcome::Fail(ErrorKind::Overflow)
        } else {
            md_rec(nums, dens, ni, (di - 1) as nat, acc * p64() / d)
        }
    } else {
        Outcome::Val(acc)
    }
}

/// Sorts fixed-point values into descending order by insertion sort.
fn sort_descending(v: &mut Vec<FixedPoint64>)
    ensures
        final(v)@ == old(v)@.sort_by(fp_desc_leq()),
{
    let ghost orig: Seq<FixedPoint64> = v@;
    let n = v.len();
    let mut i: usize = 1;
    while i < n
        invariant
            1 <= i,
            i <= n || n == 0,
            n == v@.len() == orig.len(),
            v@.to_multiset() == orig.to_multiset(),
            forall|a: int, b: int| 0 <= a <= b < i ==> v@[a].raw() >= v@[b].raw(),
        decreases n - i,
    {
        let mut j = i;
        while j > 0 && v[j - 1].lt(&v[j])
            invariant
                j <= i < n == v@.len() == orig.len(),
                v@.to_multiset() == orig.to_multiset(),
                forall|a: int, b: int| 0 <= a <= b <= i && b != j ==> v@[a].raw() >= v@[b].raw(),
                forall|b: int| j < b <= i ==> v@[j as int].raw() >= v@[b].raw(),
            decreases j,
        {
            let ghost before: Seq<FixedPoint64> = v@;
            let x = v[j - 1];
            let y = v[j];
            v[j - 1] = y;
            v[j] = x;
            proof {
                broadcast use vstd::seq_lib::to_multiset_update;
                broadcast use vstd::seq_lib::group_to_multiset_ensures;
                broadcast use vstd::multiset::group_multiset_axioms;

                assert(v@ == before.update(j - 1, y).update(j as int, x));
                assert(before[j - 1] == x && before[j as int] == y);
                assert(before.contains(x));
                assert(before.contains(y));
                assert(before.to_multiset().count(x) >= 1);
                assert(before.to_multiset().count(y) >= 1);
                assert(v@.to_multiset() =~= before.to_multiset());
            }
            j = j - 1;
        }
        i = i + 1;
    }
    proof {
        orig.lemma_sort_by_ensures(fp_desc_leq());
        lemma_fp_desc_total();
        assert(sorted_by(v@, fp_desc_leq()));
        lemma_sorted_unique(v@, orig.sort_by(fp_desc_leq()), fp_desc_leq());
        assert(v@ =~= orig.sort_by(fp_desc_leq()));
    }
}

impl FixedPoint64 {
    /// The raw numerator over 2^64.
    pub closed spec fn raw(self) -> int {
        self.value as int
    }

    /// Wraps a raw Q64.64 word.
    pub fn new(value: u128) -> (r: Result<FixedPoint64, MathError>)
        ensures
            match r {
                Ok(f) => f.raw() == value,
                Err(_) => false,
            },
    {
        Ok(FixedPoint64 { value })
    }

    /// The raw Q64.64 word.
    pub fn get_value(&self) -> (r: u128)
        ensures
            r == self.raw(),
    {
        self.value
    }

    /// Converts an integer; fails when `value * 2^64` does not fit.
    pub fn from(value: u128) -> (r: Result<FixedPoint64, MathError>)
        ensures
            match r {
                Ok(f) => value < p64() && f.raw() == value * p64(),
                Err(e) => e.kind == ErrorKind::Overflow && value >= p64(),
            },
    {
        if value < 0x1_0000_0000_0000_0000u128 {
            Ok(FixedPoint64 { value: value * 0x1_0000_0000_0000_0000u128 })
        } else {
            Err(MathError::new(ErrorKind::Overflow, "fixed_point from: value too large"))
        }
    }

    /// The number one.
    pub fn one() -> (r: Result<FixedPoint64, MathError>)
        ensures
            match r {
                Ok(f) => f.raw() == p64(),
                Err(_) => false,
            },
    {
        FixedPoint64::from(1)
    }

    /// The number zero.
    pub fn zero() -> (r: Result<FixedPoint64, MathError>)
        ensures
            match r {
                Ok(f) => f.raw() == 0,
                Err(_) => false,
            },
    {
        FixedPoint64::from(0)
    }

    /// Wraps a raw Q64.64 word.
    pub fn from_raw_value(value: u128) -> (r: Result<FixedPoint64, MathError>)
        ensures
            match r {
                Ok(f) => f.raw() == value,
                Err(_) => false,
            },
    {
        FixedPoint64::new(value)
    }

    /// Builds `numerator / denominator` rounded down, as a Q64.64 value.
    pub fn from_rational(numerator: u128, denominator: u128) -> (r: Result<
        FixedPoint64,
        MathError,
    >)
        ensures
            match r {
                Ok(f) => denominator != 0 && (numerator == 0 || numerator * p64()
                    / (denominator as int) > 0) && numerator * p64() / (denominator as int)
                    < p128() && f.raw() == numerator * p64() / (denominator as int),
                Err(e) => (e.kind == ErrorKind::ZeroDivision && denominator == 0) || (e.kind
                    == ErrorKind::PrecisionLoss && denominator != 0 && numerator != 0
                    && numerator * p64() / (denominator as int) == 0) || (e.kind
                    == ErrorKind::Overflow && denominator != 0 && numerator * p64()
                    / (denominator as int) >= p128()),
            },
    {
        if denominator == 0 {
            return Err(MathError::new(ErrorKind::ZeroDivision, "from_rational: zero denominator"));
        }
        let scaled = U256::mul_wide(numerator, 0x1_0000_0000_0000_0000u128);
        let quotient = match scaled.checked_div(&U256::from_u128(denominator)) {
            Some(q) => q,
            None => {
                proof {
                    assert(false);
                }
                return Err(MathError::new(ErrorKind::ZeroDivision, "from_rational"));
            },
        };
        if quotient.is_zero() && numerator != 0 {
            return Err(MathError::new(ErrorKind::PrecisionLoss, "from_rational: result too small"));
        }
        if !quotient.fits_u128() {
            return Err(MathError::new(ErrorKind::Overflow, "from_rational: result too large"));
        }
        proof {
            if numerator == 0 {
                lemma_div_basics(denominator as int);
                assert(0int * p64() == 0) by (nonlinear_arith);
                lemma_div_of0(denominator as int);
            }
        }
        FixedPoint64::new(quotient.as_u128())
    }

    /// Rounds to the nearest integer, ties away from zero.
    pub fn to_u128(&self) -> (r: u128)
        ensures
            self.raw() % p64() < 0x8000_0000_0000_0000int ==> r == self.raw() / p64(),
            self.raw() % p64() >= 0x8000_0000_0000_0000int ==> r == self.raw() / p64() + 1,
    {
        if self.value % 0x1_0000_0000_0000_0000u128 < 0x8000_0000_0000_0000u128 {
            self.to_u128_down()
        } else {
            self.to_u128_up()
        }
    }

    /// The integer part: rounds toward zero.
    pub fn to_u128_down(&self) -> (r: u128)
        ensures
            r == self.raw() / p64(),
    {
        self.value / 0x1_0000_0000_0000_0000u128
    }

    /// Rounds up to the nearest integer.
    pub fn to_u128_up(&self) -> (r: u128)
        ensures
            self.raw() % p64() == 0 ==> r == self.raw() / p64(),
            self.raw() % p64() != 0 ==> r == self.raw() / p64() + 1,
    {
        if self.value % 0x1_0000_0000_0000_0000u128 == 0 {
            self.value / 0x1_0000_0000_0000_0000u128
        } else {
            self.value / 0x1_0000_0000_0000_0000u128 + 1
        }
    }

    pub fn is_zero(&self) -> (r: bool)
        ensures
            r == (self.raw() == 0),
    {
        self.value == 0
    }

    pub fn equals(&self, other: &Self) -> (r: bool)
        ensures
            r == (self.raw() == other.raw()),
    {
        self.value == other.value
    }

    pub fn lt(&self, other: &Self) -> (r: bool)
        ensures
            r == (self.raw() < other.raw()),
    {
        self.value < other.value
    }

    pub fn gt(&self, other: &Self) -> (r: bool)
        ensures
            r == (self.raw() > other.raw()),
    {
        self.value > other.value
    }

    pub fn lte(&self, other: &Self) -> (r: bool)
        ensures
            r == (self.raw() <= other.raw()),
    {
        self.value <= other.value
    }

    pub fn gte(&self, other: &Self) -> (r: bool)
        ensures
            r == (self.raw() >= other.raw()),
    {
        self.value >= other.value
    }

    /// The larger of two values.
    pub fn max(x: Self, y: Self) -> (r: Self)
        ensures
            r.raw() == if x.raw() > y.raw() {
                x.raw()
            } else {
                y.raw()
            },
    {
        if x.value > y.value {
            x
        } else {
            y
        }
    }

    /// The smaller of two values.
    pub fn min(x: Self, y: Self) -> (r: Self)
        ensures
            r.raw() == if x.raw() < y.raw() {
                x.raw()
            } else {
                y.raw()
            },
    {
        if x.value < y.value {
            x
        } else {
            y
        }
    }

    /// Binary exponentiation in Q64.64; fails when an intermediate product
    /// or the result does not fit.
    pub fn pow(&self, exponent: u32) -> (r: Result<FixedPoint64, MathError>)
        ensures
            match r {
                Ok(f) => match pow_raw_rec(self.raw(), exponent as nat, p64()) {
                    Some(v) => v < p128() && f.raw() == v,
                    None => false,
                },
                Err(e) => e.kind == ErrorKind::Overflow && match pow_raw_rec(
                    self.raw(),
                    exponent as nat,
                    p64(),
                ) {
                    Some(v) => v >= p128(),
                    None => true,
                },
            },
    {
        match pow_raw(U256::from_u128(self.value), exponent as u128) {
            Ok(u) => {
                if u.fits_u128() {
                    FixedPoint64::new(u.as_u128())
                } else {
                    Err(MathError::new(ErrorKind::Overflow, "fixed_point pow: result too large"))
                }
            },
            Err(e) => Err(e),
        }
    }

    /// The base-two logarithm of the raw word, as a Q64.64 value; since the
    /// raw word is the logical value times 2^64, this is `log2(self) + 64`.
    pub fn log2_plus_64(&self) -> (r: Result<FixedPoint64, MathError>)
        ensures
            match r {
                Ok(f) => self.raw() != 0 && f.raw() == log2_raw_spec(self.raw()),
                Err(e) => e.kind == ErrorKind::LogOfZero && self.raw() == 0,
            },
    {
        log2_64(self.value)
    }

    /// `log2_plus_64` scaled by `ln 2`: the natural logarithm of the raw
    /// word, that is, `ln(self) + 64 ln 2`.
    pub fn ln_plus_64ln2(&self) -> (r: Result<FixedPoint64, MathError>)
        ensures
            match r {
                Ok(f) => self.raw() != 0 && f.raw() == log2_raw_spec(self.raw()) * LN2_RAW
                    / p64(),
                Err(e) => e.kind == ErrorKind::LogOfZero && self.raw() == 0,
            },
    {
        let lg = match log2_64(self.value) {
            Ok(l) => l,
            Err(e) => {
                return Err(e);
            },
        };
        let raw = lg.get_value();
        let product = U256::mul_wide(raw, LN2_RAW);
        let shifted = product.shr_64();
        proof {
            assert(raw * LN2_RAW < p64() * p128()) by (nonlinear_arith)
                requires
                    raw < p128(),
                    0 <= LN2_RAW < p64(),
            ;
            lemma_multiply_divide_lt(raw * LN2_RAW, p64(), p128());
        }
        FixedPoint64::new(shifted.as_u128())
    }

    /// Computes `(n1 * n2 * ... * nk) / (d1 * d2 * ... * dm)` while guarding
    /// against overflow and precision loss: both operand lists are sorted in
    /// descending order and consumed from the small end; a product that
    /// would overflow is deferred by dividing first.  Fails when numerators
    /// are missing, when an overflow cannot be deferred, and on a zero
    /// denominator.
    pub fn multiply_divide(
        numerators: &mut Vec<FixedPoint64>,
        denominators: &mut Vec<FixedPoint64>,
    ) -> (r: Result<FixedPoint64, MathError>)
        ensures
            old(numerators)@.len() == 0 ==> final(numerators)@ == old(numerators)@
                && final(denominators)@ == old(denominators)@,
            old(numerators)@.len() > 0 ==> final(numerators)@ == old(numerators)@.sort_by(
                fp_desc_leq(),
            ) && final(denominators)@ == old(denominators)@.sort_by(fp_desc_leq()),
            match r {
                Ok(f) => old(numerators)@.len() > 0 && md_rec(
                    fp_raws(final(numerators)@),
                    fp_raws(final(denominators)@),
                    final(numerators)@.len(),
                    final(denominators)@.len(),
                    p64(),
                ) == Outcome::Val(f.raw()),
                Err(e) => (e.kind == ErrorKind::OutOfRange && old(numerators)@.len() == 0) || (
                old(numerators)@.len() > 0 && md_rec(
                    fp_raws(final(numerators)@),
                    fp_raws(final(denominators)@),
                    final(numerators)@.len(),
                    final(denominators)@.len(),
                    p64(),
                ) == Outcome::Fail(e.kind)),
            },
    {
        if numerators.len() == 0 {
            return Err(MathError::new(ErrorKind::OutOfRange, "multiply_divide: no numerators"));
        }
        sort_descending(numerators);
        sort_descending(denominators);
        let ghost nums: Seq<int> = fp_raws(numerators@);
        let ghost dens: Seq<int> = fp_raws(denominators@);
        let mut result = FixedPoint64 { value: 0x1_0000_0000_0000_0000u128 };
        let mut num_idx = numerators.len();
        let mut den_idx = denominators.len();
        while num_idx > 0
            invariant
                old(numerators)@.len() > 0,
                numerators@ == old(numerators)@.sort_by(fp_desc_leq()),
                denominators@ == old(denominators)@.sort_by(fp_desc_leq()),
                nums == fp_raws(numerators@),
                dens == fp_raws(denominators@),
                num_idx <= nums.len(),
                den_idx <= dens.len(),
                md_rec(nums, dens, num_idx as nat, den_idx as nat, result.raw()) == md_rec(
                    nums,
                    dens,
                    nums.len(),
                    dens.len(),
                    p64(),
                ),
            decreases num_idx + den_idx,
        {
            let numerator = numerators[num_idx - 1];
            proof {
                assert(nums[num_idx - 1] == numerator.raw());
            }
            match result.mul(&numerator) {
                Ok(product) => {
                    result = product;
                    num_idx = num_idx - 1;
                },
                Err(_) => {
                    if den_idx == 0 {
                        return Err(
                            MathError::new(ErrorKind::Overflow, "multiply_divide: overflow"),
                        );
                    }
                    let denominator = denominators[den_idx - 1];
                    proof {
                        assert(dens[den_idx - 1] == denominator.raw());
                    }
                    match result.div(&denominator) {
                        Ok(q) => {
                            result = q;
                            den_idx = den_idx - 1;
                        },
                        Err(e) => {
                            return Err(e);
                        },
                    }
                },
            }
        }
        while den_idx > 0
            invariant
                old(numerators)@.len() > 0,
                numerators@ == old(numerators)@.sort_by(fp_desc_leq()),
                denominators@ == old(denominators)@.sort_by(fp_desc_leq()),
                nums == fp_raws(numerators@),
                dens == fp_raws(denominators@),
                den_idx <= dens.len(),
                md_rec(nums, dens, 0, den_idx as nat, result.raw()) == md_rec(
                    nums,
                    dens,
                    nums.len(),
                    dens.len(),
                    p64(),
                ),
            decreases den_idx,
        {
            let denominator = denominators[den_idx - 1];
            proof {
                assert(dens[den_idx - 1] == denominator.raw());
            }
            match result.div(&denominator) {
                Ok(q) => {
                    result = q;
                    den_idx = den_idx - 1;
                },
                Err(e) => {
                    return Err(e);
                },
            }
        }
        Ok(result)
    }

    /// Subtraction; fails below zero.
    pub fn sub(&self, other: &Self) -> (r: Result<FixedPoint64, MathError>)
        ensures
            match r {
                Ok(f) => self.raw() >= other.raw() && f.raw() == self.raw() - other.raw(),
                Err(e) => e.kind == ErrorKind::NegativeResult && self.raw() < other.raw(),
            },
    {
        if self.value < other.value {
            return Err(MathError::new(ErrorKind::NegativeResult, "fixed_point sub"));
        }
        FixedPoint64::new(self.value - other.value)
    }

    /// Addition; fails when the sum does not fit in 128 bits.
    pub fn add(&self, other: &Self) -> (r: Result<FixedPoint64, MathError>)
        ensures
            match r {
                Ok(f) => self.raw() + other.raw() < p128() && f.raw() == self.raw()
                    + other.raw(),
                Err(e) => e.kind == ErrorKind::Overflow && self.raw() + other.raw() >= p128(),
            },
    {
        match self.value.checked_add(other.value) {
            Some(s) => FixedPoint64::new(s),
            None => Err(MathError::new(ErrorKind::Overflow, "fixed_point add")),
        }
    }

    /// Multiplication: `x * y / 2^64` rounded down; fails when the product
    /// does not fit.
    pub fn mul(&self, other: &Self) -> (r: Result<FixedPoint64, MathError>)
        ensures
            match r {
                Ok(f) => self.raw() * other.raw() / p64() < p128() && f.raw() == self.raw()
                    * other.raw() / p64(),
                Err(e) => e.kind == ErrorKind::Overflow && self.raw() * other.raw() / p64()
                    >= p128(),
            },
    {
        let product = U256::mul_wide(self.value, other.value);
        let shifted = product.shr_64();
        if shifted.fits_u128() {
            FixedPoint64::new(shifted.as_u128())
        } else {
            Err(MathError::new(ErrorKind::Overflow, "fixed_point mul"))
        }
    }

    /// Division: `x * 2^64 / y` rounded down; fails on a zero divisor and
    /// when the quotient does not fit.
    pub fn div(&self, other: &Self) -> (r: Result<FixedPoint64, MathError>)
        ensures
            match r {
                Ok(f) => other.raw() != 0 && self.raw() * p64() / other.raw() < p128()
                    && f.raw() == self.raw() * p64() / other.raw(),
                Err(e) => (e.kind == ErrorKind::ZeroDivision && other.raw() == 0) || (e.kind
                    == ErrorKind::Overflow && other.raw() != 0 && self.raw() * p64()
                    / other.raw() >= p128()),
            },
    {
        if other.value == 0 {
            return Err(MathError::new(ErrorKind::ZeroDivision, "fixed_point div"));
        }
        let scaled = U256::mul_wide(self.value, 0x1_0000_0000_0000_0000u128);
        let quotient = match scaled.checked_div(&U256::from_u128(other.value)) {
            Some(q) => q,
            None => {
                proof {
                    assert(false);
                }
                return Err(MathError::new(ErrorKind::ZeroDivision, "fixed_point div"));
            },
        };
        if quotient.fits_u128() {
            FixedPoint64::new(quotient.as_u128())
        } else {
            Err(MathError::new(ErrorKind::Overflow, "fixed_point div"))
        }
    }
}

/// Binary exponentiation on raw Q64.64 words held in 256-bit registers.
fn pow_raw(x: U256, n: u128) -> (r: Result<U256, MathError>)
    ensures
        match r {
            Ok(v) => pow_raw_rec(x.v(), n as nat, p64()) == Some(v.v()),
            Err(e) => e.kind == ErrorKind::Overflow && pow_raw_rec(x.v(), n as nat, p64())
                is None,
        },
{
    let mut res = U256::from_u128(0x1_0000_0000_0000_0000u128);
    let mut n_mut = n;
    let mut x_mut = x;
    while n_mut != 0
        invariant
            pow_raw_rec(x_mut.v(), n_mut as nat, res.v()) == pow_raw_rec(x.v(), n as nat, p64()),
        decreases n_mut,
    {
        if n_mut % 2 == 1 {
            match res.checked_mul(&x_mut) {
                Some(p) => {
                    res = p.shr_64();
                },
                None => {
                    return Err(MathError::new(ErrorKind::Overflow, "pow: product too large"));
                },
            }
        }
        n_mut = n_mut / 2;
        match x_mut.checked_mul(&x_mut) {
            Some(p) => {
                x_mut = p.shr_64();
            },
            None => {
                return Err(MathError::new(ErrorKind::Overflow, "pow: square too large"));
            },
        }
    }
    Ok(res)
}

/// The integer binary logarithm of a 128-bit word; fails on zero.
fn floor_log2(x: u128) -> (r: Result<u32, MathError>)
    ensures
        match r {
            Ok(e) => x != 0 && e < 128 && pow2(e as nat) <= x < pow2((e + 1) as nat),
            Err(err) => err.kind == ErrorKind::LogOfZero && x == 0,
        },
{
    if x == 0 {
        return Err(MathError::new(ErrorKind::LogOfZero, "floor_log2 of zero"));
    }
    let mut res: u32 = 0;
    let mut x_mut = x;
    let mut n: u32 = 64;
    proof {
        lemma2_to64();
        lemma_pow2_128();
        lemma_div_basics(x as int);
    }
    while n > 0
        invariant
            n <= 64,
            res < 128,
            x_mut >= 1,
            x_mut == x as int / (pow2(res as nat) as int),
            n == 0 || n == 1 || n == 2 || n == 4 || n == 8 || n == 16 || n == 32 || n == 64,
            n > 0 ==> x_mut < pow2((2 * n) as nat),
            n == 0 ==> x_mut < 2,
        decreases n,
    {
        let p = pow2_u128(n);
        proof {
            lemma_pow2_pos(n as nat);
            lemma_pow2_pos(res as nat);
            lemma2_to64();
        }
        if x_mut >= p {
            proof {
                lemma_pow2_adds(res as nat, n as nat);
                lemma_div_denominator(x as int, pow2(res as nat) as int, pow2(n as nat) as int);
                lemma_div_non_zero(x_mut as int, pow2(n as nat) as int);
                lemma2_to64();
                assert(pow2((res + n) as nat) <= x_mut * pow2(res as nat)) by (nonlinear_arith)
                    requires
                        pow2((res + n) as nat) == pow2(res as nat) * pow2(n as nat),
                        pow2(n as nat) <= x_mut,
                        pow2(res as nat) >= 1,
                ;
                lemma_remainder_lower(x as int, pow2(res as nat) as int);
                assert(x_mut * pow2(res as nat) <= x as int) by (nonlinear_arith)
                    requires
                        x_mut == x as int / (pow2(res as nat) as int),
                        (x as int / (pow2(res as nat) as int)) * (pow2(res as nat) as int)
                            <= x as int,
                ;
                if res + n >= 128 {
                    if res + n > 128 {
                        lemma_pow2_strictly_increases(128, (res + n) as nat);
                    }
                    lemma_pow2_128();
                    assert(false);
                }
                assert(pow2((2 * n) as nat) == pow2(n as nat) * pow2(n as nat)) by {
                    lemma_pow2_adds(n as nat, n as nat);
                }
                assert(x_mut as int / (pow2(n as nat) as int) < pow2(n as nat)) by {
                    lemma_multiply_divide_lt(x_mut as int, pow2(n as nat) as int, pow2(
                        n as nat,
                    ) as int);
                }
            }
            x_mut = x_mut / p;
            res = res + n;
        }
        n = n / 2;
    }
    proof {
        lemma2_to64();
        lemma_pow2_pos(res as nat);
        lemma_fundamental_div_mod(x as int, pow2(res as nat) as int);
        lemma_pow2_adds(res as nat, 1);
        lemma_remainder_upper(x as int, pow2(res as nat) as int);
        assert(x_mut == 1);
        assert(pow2(res as nat) <= x);
    }
    Ok(res)
}

/// The base-two logarithm of a raw Q64.64 word: normalises the word into
/// `[2^63, 2^64)`, then extracts 64 fraction bits by repeated squaring.
fn log2_64(x: u128) -> (r: Result<FixedPoint64, MathError>)
    ensures
        match r {
            Ok(f) => x != 0 && f.raw() == log2_raw_spec(x as int),
            Err(e) => e.kind == ErrorKind::LogOfZero && x == 0,
        },
{
    let ip = match floor_log2(x) {
        Ok(e) => e,
        Err(e) => {
            return Err(e);
        },
    };
    proof {
        lemma_log2_ip(x as int, ip as nat);
    }
    let mut x_mut: u128;
    if ip >= 63 {
        let p = pow2_u128(ip - 63);
        proof {
            lemma_pow2_pos((ip - 63) as nat);
            lemma_pow2_adds(63, (ip - 63) as nat);
            lemma_pow2_adds((ip - 63) as nat, 64);
            lemma_div_by_multiple(pow2(63) as int, pow2((ip - 63) as nat) as int);
            lemma_div_is_ordered(pow2(ip as nat) as int, x as int, pow2((ip - 63) as nat) as int);
            lemma_multiply_divide_lt(x as int, pow2((ip - 63) as nat) as int, pow2(64) as int);
            assert((pow2(ip as nat) as int) / (pow2((ip - 63) as nat) as int) == pow2(63)) by {
                lemma_mul_is_commutative(pow2(63) as int, pow2((ip - 63) as nat) as int);
            }
            lemma2_to64();
            lemma2_to64_rest();
        }
        x_mut = x / p;
    } else {
        let p = pow2_u128(63 - ip);
        proof {
            lemma_pow2_pos((63 - ip) as nat);
            lemma_pow2_adds(ip as nat, (63 - ip) as nat);
            lemma_pow2_adds((ip + 1) as nat, (63 - ip) as nat);
            lemma2_to64();
            lemma2_to64_rest();
            assert(pow2(63) <= x * pow2((63 - ip) as nat) < pow2(64)) by (nonlinear_arith)
                requires
                    pow2(ip as nat) <= x < pow2((ip + 1) as nat),
                    pow2((63 - ip) as nat) > 0,
                    pow2(63) == pow2(ip as nat) * pow2((63 - ip) as nat),
                    pow2(64) == pow2((ip + 1) as nat) * pow2((63 - ip) as nat),
            ;
        }
        x_mut = x * p;
    }
    let ghost x0: int = x_mut as int;
    let mut frac: u128 = 0;
    let mut delta: u128 = 0x8000_0000_0000_0000u128;
    let ghost mut k: nat = 64;
    proof {
        lemma2_to64();
        lemma2_to64_rest();
        lemma_pow2_128();
    }
    while delta != 0
        invariant
            0x8000_0000_0000_0000int <= x_mut < 0x1_0000_0000_0000_0000int,
            k <= 64,
            delta == if k == 0 {
                0int
            } else {
                pow2((k - 1) as nat) as int
            },
            frac + log2_frac_rec(x_mut as int, k) == log2_frac_rec(x0, 64),
            frac <= pow2(64) - pow2(k),
        decreases k,
    {
        proof {
            lemma_pow2_pos((k - 1) as nat);
            if k >= 2 {
                lemma_pow2_adds((k - 2) as nat, 1);
            }
            lemma_pow2_adds((k - 1) as nat, 1);
            lemma2_to64();
            assert(0x4000_0000_0000_0000_0000_0000_0000_0000int <= x_mut * x_mut
                < 0x1_0000_0000_0000_0000_0000_0000_0000_0000int) by (nonlinear_arith)
                requires
                    0x8000_0000_0000_0000int <= x_mut < 0x1_0000_0000_0000_0000int,
            ;
        }
        let prod = x_mut * x_mut;
        x_mut = prod / 0x8000_0000_0000_0000u128;
        if x_mut >= 0x1_0000_0000_0000_0000u128 {
            frac = frac + delta;
            x_mut = x_mut / 2;
        }
        delta = delta / 2;
        proof {
            k = (k - 1) as nat;
        }
    }
    proof {
        lemma2_to64();
        assert(log2_frac_rec(x_mut as int, 0) == 0);
        assert(frac == log2_frac_rec(x0, 64));
        assert(log2_norm(x as int) == x0);
    }
    let result = (ip as u128) * 0x1_0000_0000_0000_0000u128 + frac;
    FixedPoint64::from_raw_value(result)
}

} // verus!
