//! Stable-swap quoting, earlier flavour: the same bounded integer
//! iterations as the newer variant, but without the one-unit rounding
//! margin on the output and without any fee handling.

use vstd::prelude::*;

use crate::error::{MathError, Outcome};
use crate::math::decimal::Decimal;
use crate::math::u256::U256;
use crate::omm::omm_v2_new;
use crate::to_underlying_opt;

verus! {

/// Quotes a swap without fees and without the rounding margin: the gross
/// b-token output of the invariant solve, or zero when the pool cannot
/// cover it.
pub fn quote_swap(
    b_token_amount_in: u64,
    b_token_reserve_x: u64,
    b_token_reserve_y: u64,
    price_x: Decimal,
    price_y: Decimal,
    decimals_x: u32,
    decimals_y: u32,
    amplifier: u32,
    x2y: bool,
    b_token_ratio_x: Decimal,
    b_token_ratio_y: Decimal,
) -> (r: Result<u64, MathError>)
    requires
        decimals_x <= 19,
        decimals_y <= 19,
        amplifier * 2 <= u32::MAX,
        to_underlying_opt(
            b_token_amount_in as int,
            if x2y {
                b_token_ratio_x.v()
            } else {
                b_token_ratio_y.v()
            },
        ) is Some,
        to_underlying_opt(b_token_reserve_x as int, b_token_ratio_x.v()) is Some,
        to_underlying_opt(b_token_reserve_y as int, b_token_ratio_y.v()) is Some,
    ensures
        ({
            let ain = to_underlying_opt(
                b_token_amount_in as int,
                if x2y {
                    b_token_ratio_x.v()
                } else {
                    b_token_ratio_y.v()
                },
            )->Some_0;
            let resx = to_underlying_opt(b_token_reserve_x as int, b_token_ratio_x.v())->Some_0;
            let resy = to_underlying_opt(b_token_reserve_y as int, b_token_ratio_y.v())->Some_0;
            let outcome = omm_v2_new::quote_b_outcome(
                ain,
                resx,
                resy,
                b_token_reserve_x as int,
                b_token_reserve_y as int,
                price_x.v(),
                price_y.v(),
                decimals_x as nat,
                decimals_y as nat,
                amplifier as int,
                x2y,
                b_token_ratio_x.v(),
                b_token_ratio_y.v(),
                false,
            );
            match r {
                Ok(v) => outcome == Outcome::Val(v as int) && (x2y ==> v <= b_token_reserve_y) && (
                !x2y ==> v <= b_token_reserve_x),
                Err(e) => outcome == Outcome::Fail(e.kind),
            }
        }),
{
    omm_v2_new::quote_b_core(
        b_token_amount_in,
        b_token_reserve_x,
        b_token_reserve_y,
        price_x,
        price_y,
        decimals_x,
        decimals_y,
        amplifier,
        x2y,
        b_token_ratio_x,
        b_token_ratio_y,
        false,
    )
}

/// Splits a price into its integer part and the floored inverse of its
/// fractional part; see the newer variant for the exact statement.
pub fn split_price(price: Decimal) -> (r: Result<(U256, Option<U256>), MathError>)
    ensures
        match r {
            Ok(parts) => price.v() / crate::math::decimal::wad_int() < crate::math::u256::p64()
                && parts.0.v() == price.v() / crate::math::decimal::wad_int() && (if price.v()
                % crate::math::decimal::wad_int() == 0 {
                parts.1 is None
            } else {
                match parts.1 {
                    Some(inv) => inv.v() == (crate::math::decimal::wad_int()
                        * crate::math::decimal::wad_int() / (price.v()
                        % crate::math::decimal::wad_int())) / crate::math::decimal::wad_int(),
                    None => false,
                }
            }),
            Err(e) => e.kind == crate::error::ErrorKind::Overflow && price.v()
                / crate::math::decimal::wad_int() >= crate::math::u256::p64(),
        },
{
    omm_v2_new::split_price(price)
}

/// Converts a unit amount into a USD amount using a split price.
pub fn to_usd(amount: U256, price_integer_part: U256, price_decimal_part_inverted: Option<U256>)
    -> (r: Result<U256, MathError>)
    ensures
        ({
            let inv = match price_decimal_part_inverted {
                Some(n) => Some(n.v()),
                None => None,
            };
            match r {
                Ok(v) => omm_v2_new::to_usd_spec(amount.v(), price_integer_part.v(), inv)
                    == Outcome::Val(v.v()),
                Err(e) => omm_v2_new::to_usd_spec(amount.v(), price_integer_part.v(), inv)
                    == Outcome::Fail(e.kind),
            }
        }),
{
    omm_v2_new::to_usd(amount, price_integer_part, price_decimal_part_inverted)
}

/// Converts a USD amount into a unit amount using a split price.
pub fn from_usd(
    usd_amount: U256,
    price_integer_part: U256,
    price_decimal_part_inverted: Option<U256>,
) -> (r: Result<U256, MathError>)
    ensures
        ({
            let inv = match price_decimal_part_inverted {
                Some(n) => Some(n.v()),
                None => None,
            };
            match r {
                Ok(v) => omm_v2_new::from_usd_spec(usd_amount.v(), price_integer_part.v(), inv)
                    == Outcome::Val(v.v()),
                Err(e) => omm_v2_new::from_usd_spec(usd_amount.v(), price_integer_part.v(), inv)
                    == Outcome::Fail(e.kind),
            }
        }),
{
    omm_v2_new::from_usd(usd_amount, price_integer_part, price_decimal_part_inverted)
}

/// Calculates the `D` invariant for a two-coin pool.
pub fn get_d(reserve_a: U256, reserve_b: U256, amp: U256) -> (r: Result<U256, MathError>)
    ensures
        match r {
            Ok(d) => omm_v2_new::get_d_spec(reserve_a.v(), reserve_b.v(), amp.v())
                == Outcome::Val(d.v()),
            Err(e) => omm_v2_new::get_d_spec(reserve_a.v(), reserve_b.v(), amp.v())
                == Outcome::Fail(e.kind),
        },
{
    omm_v2_new::get_d(reserve_a, reserve_b, amp)
}

/// Calculates the output-side reserve after a swap from the invariant.
pub fn get_y(reserve_in: U256, amp: U256, d: U256) -> (r: Result<U256, MathError>)
    ensures
        match r {
            Ok(y) => omm_v2_new::get_y_spec(reserve_in.v(), amp.v(), d.v()) == Outcome::Val(
                y.v(),
            ),
            Err(e) => omm_v2_new::get_y_spec(reserve_in.v(), amp.v(), d.v()) == Outcome::Fail(
                e.kind,
            ),
        },
{
    omm_v2_new::get_y(reserve_in, amp, d)
}

} // verus!
