//! Arithmetic kernel: 256-bit integers, WAD-scaled decimals, Q64.64 fixed
//! point, and the small numeric helpers the quoters share.

use vstd::prelude::*;

pub mod decimal;
pub mod fixed_point;
pub mod u256;

use crate::error::{ErrorKind, MathError};
use crate::math::decimal::{Decimal, lemma_ten_pow_increases, ten_pow, wad_int};
use crate::math::fixed_point::FixedPoint64;
use crate::math::u256::{U256, p64, p128, p256};

verus! {

/// The quotient rounded up: `ceil(a / b)`.
pub open spec fn div_round_up(a: int, b: int) -> int {
    if a % b == 0 {
        a / b
    } else {
        a / b + 1
    }
}

/// Computes `ceil(x * y / z)` in 128-bit arithmetic; fails on a zero
/// divisor and when the result does not fit in 64 bits.
pub fn safe_mul_div_up(x: u64, y: u64, z: u64) -> (r: Result<u64, MathError>)
    ensures
        match r {
            Ok(v) => z != 0 && div_round_up(x * y, z as int) <= u64::MAX && v == div_round_up(
                x * y,
                z as int,
            ),
            Err(e) => (e.kind == ErrorKind::ZeroDivision && z == 0) || (e.kind
                == ErrorKind::Overflow && z != 0 && div_round_up(x * y, z as int) > u64::MAX),
        },
{
    if z == 0 {
        return Err(MathError::new(ErrorKind::ZeroDivision, "safe_mul_div_up: division by zero"));
    }
    let x_128 = x as u128;
    let y_128 = y as u128;
    let z_128 = z as u128;
    proof {
        assert(x_128 * y_128 <= 0xffff_ffff_ffff_ffffu64 * 0xffff_ffff_ffff_ffffu64)
            by (nonlinear_arith)
            requires
                0 <= x_128 <= 0xffff_ffff_ffff_ffffu64,
                0 <= y_128 <= 0xffff_ffff_ffff_ffffu64,
        ;
    }
    let res = num_divide_and_round_up(x_128 * y_128, z_128);
    if res > 0xffff_ffff_ffff_ffffu128 {
        return Err(MathError::new(ErrorKind::Overflow, "safe_mul_div_up: result too large"));
    }
    Ok(res as u64)
}

/// Divides and rounds up to the nearest integer; the divisor must be
/// non-zero.
fn num_divide_and_round_up(x: u128, y: u128) -> (r: u128)
    requires
        y != 0,
    ensures
        r == div_round_up(x as int, y as int),
{
    if x % y == 0 {
        x / y
    } else {
        proof {
            vstd::arithmetic::div_mod::lemma_div_is_ordered_by_denominator(x as int, 2, y as int);
        }
        x / y + 1
    }
}

/// Computes 10^e for an exponent of at most 19.
pub fn pow10_u64(e: u32) -> (r: u64)
    requires
        e <= 19,
    ensures
        r == ten_pow(e as nat),
        r >= 1,
{
    let mut r: u64 = 1;
    let mut j: u32 = 0;
    while j < e
        invariant
            j <= e,
            e <= 19,
            r == ten_pow(j as nat),
        decreases e - j,
    {
        proof {
            lemma_ten_pow_increases((j + 1) as nat, 19);
            lemma_ten_pow_19();
        }
        r = 10 * r;
        j = j + 1;
    }
    proof {
        lemma_ten_pow_increases(0, e as nat);
    }
    r
}

/// The value of 10^19, just within the 64-bit range.
proof fn lemma_ten_pow_19()
    ensures
        ten_pow(19) == 10_000_000_000_000_000_000,
{
    reveal_with_fuel(ten_pow, 21);
}

/// Rescales a decimal's raw value from the 10^18 base to the 2^64 base;
/// fails when the rescaled value does not fit in 128 bits.
pub fn decimal_to_fixedpoint64(d: Decimal) -> (r: Result<FixedPoint64, MathError>)
    ensures
        match r {
            Ok(f) => d.v() * p64() < p256() && d.v() * p64() / wad_int() < p128() && f.raw()
                == d.v() * p64() / wad_int(),
            Err(e) => e.kind == ErrorKind::Overflow && (d.v() * p64() >= p256() || d.v() * p64()
                / wad_int() >= p128()),
        },
{
    let scale = U256::from_u128(0x1_0000_0000_0000_0000u128);
    let scaled = match d.0.checked_mul(&scale) {
        Some(s) => s,
        None => {
            return Err(
                MathError::new(ErrorKind::Overflow, "decimal_to_fixedpoint64: value too large"),
            );
        },
    };
    let wad = Decimal::wad();
    let q = match scaled.checked_div(&wad) {
        Some(q) => q,
        None => {
            proof {
                assert(false);
            }
            return Err(MathError::new(ErrorKind::ZeroDivision, "decimal_to_fixedpoint64"));
        },
    };
    if q.fits_u128() {
        match FixedPoint64::from_raw_value(q.as_u128()) {
            Ok(f) => Ok(f),
            Err(e) => Err(e),
        }
    } else {
        Err(MathError::new(ErrorKind::Overflow, "decimal_to_fixedpoint64: value too large"))
    }
}

} // verus!
