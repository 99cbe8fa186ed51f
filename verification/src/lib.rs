//! Off-chain swap quoting for a two-asset oracle-priced stable-swap pool.
//!
//! The crate computes how much of the output token a trader receives for a
//! given input, after protocol and pool fees.  All arithmetic is exact
//! unsigned integer arithmetic: a 256-bit integer type, a WAD-scaled
//! decimal, and a Q64.64 fixed-point type underpin two quoting algorithms,
//! one solving a logarithmic invariant by Newton iteration and one solving
//! the two-coin stable-swap invariant by bounded integer iteration.

use vstd::prelude::*;

pub mod error;
pub mod laws;
pub mod math;
pub mod omm;
pub mod omm_v2_1;

use crate::error::{ErrorKind, MathError};
use crate::math::decimal::{Decimal, dec_div_spec, dec_mul_spec, wad_int};
use crate::math::u256::p64;
use crate::math::{div_round_up, safe_mul_div_up};

verus! {

/// Basis points scale factor: fees are fractions over this denominator.
pub const BPS_SCALE: u64 = 10_000;

/// The share of total fees routed to the protocol, in basis points.
const PROTOCOL_FEE_NUMERATOR: u64 = 2_000;

/// A computed swap quote: `amount_out` is already net of both fee parts.
#[derive(Clone, Copy, Debug, PartialEq, Eq, Structural)]
pub struct SwapQuote {
    pub amount_in: u64,
    pub amount_out: u64,
    pub protocol_fees: u64,
    pub pool_fees: u64,
    pub a2b: bool,
}

/// The underlying amount a b-token amount converts to: `floor(b * ratio)`,
/// or nothing when an intermediate overflows or the result does not fit.
pub open spec fn to_underlying_opt(b: int, ratio: int) -> Option<int> {
    match dec_mul_spec(b * wad_int(), ratio) {
        Some(v) => if v / wad_int() < p64() {
            Some(v / wad_int())
        } else {
            None
        },
        None => None,
    }
}

/// The b-token amount an underlying amount converts to:
/// `floor(amount / ratio)`, or nothing when an intermediate overflows or
/// the result does not fit.
pub open spec fn to_b_token_opt(amount: int, ratio: int) -> Option<int> {
    match dec_div_spec(amount * wad_int(), ratio) {
        Some(v) => if v / wad_int() < p64() {
            Some(v / wad_int())
        } else {
            None
        },
        None => None,
    }
}

/// Converts a b-token amount to its underlying amount using the b-token
/// ratio, rounding down.
pub fn to_underlying(btoken_amount: u64, b_token_ratio: &Decimal) -> (r: u64)
    requires
        to_underlying_opt(btoken_amount as int, b_token_ratio.v()) is Some,
    ensures
        to_underlying_opt(btoken_amount as int, b_token_ratio.v()) == Some(r as int),
{
    let d = Decimal::from_u64(btoken_amount);
    let product = match d.checked_mul(b_token_ratio) {
        Some(p) => p,
        None => {
            proof {
                assert(false);
            }
            return 0;
        },
    };
    match product.checked_floor() {
        Some(f) => f,
        None => {
            proof {
                assert(false);
            }
            0
        },
    }
}

/// Converts an underlying amount to its b-token amount using the b-token
/// ratio, rounding down.
pub fn to_b_token(amount: u64, b_token_ratio: &Decimal) -> (r: u64)
    requires
        to_b_token_opt(amount as int, b_token_ratio.v()) is Some,
    ensures
        to_b_token_opt(amount as int, b_token_ratio.v()) == Some(r as int),
{
    let d = Decimal::from_u64(amount);
    let quotient = match d.checked_div(b_token_ratio) {
        Some(q) => q,
        None => {
            proof {
                assert(false);
            }
            return 0;
        },
    };
    match quotient.checked_floor() {
        Some(f) => f,
        None => {
            proof {
                assert(false);
            }
            0
        },
    }
}

/// The pool-fee numerator over `BPS_SCALE`: an override replaces the
/// default exactly when it is the strictly larger fraction.
pub open spec fn pool_fee_num_spec(swap_fee_bps: int, over: Option<u64>) -> int {
    match over {
        Some(o) => if o > swap_fee_bps {
            o as int
        } else {
            swap_fee_bps
        },
        None => swap_fee_bps,
    }
}

/// The total fees taken from a gross amount: `ceil(amount * num / BPS)`.
pub open spec fn total_fees_spec(amount: int, pool_num: int) -> int {
    div_round_up(amount * pool_num, 10_000)
}

/// The protocol's share of the total fees: `ceil(total * 2000 / 10000)`.
pub open spec fn protocol_fees_spec(total: int) -> int {
    div_round_up(total * 2_000, 10_000)
}

/// The protocol's share never exceeds the total it is taken from.
pub proof fn lemma_protocol_le_total(t: int)
    requires
        t >= 0,
    ensures
        0 <= protocol_fees_spec(t) <= t,
{
    if t == 0 {
        assert(0int * 2_000 == 0) by (nonlinear_arith);
    } else {
        assert(t * 2_000 >= 0) by (nonlinear_arith)
            requires
                t >= 0,
        ;
        assert(t * 2_000 < 10_000 * t) by (nonlinear_arith)
            requires
                t >= 1,
        ;
        vstd::arithmetic::div_mod::lemma_multiply_divide_lt(t * 2_000, 10_000, t);
        vstd::arithmetic::div_mod::lemma_div_pos_is_pos(t * 2_000, 10_000);
    }
}

/// Splits the fees on a gross output into the protocol's and the pool's
/// share.  The override numerator is used exactly when it is larger than
/// the configured fee.
pub fn compute_swap_fees(
    amount: u64,
    swap_fee_bps: u64,
    swap_fee_override_numerator: Option<u64>,
) -> (r: Result<(u64, u64), MathError>)
    requires
        match swap_fee_override_numerator {
            Some(o) => o * 10_000 <= u64::MAX && swap_fee_bps * 10_000 <= u64::MAX,
            None => true,
        },
    ensures
        ({
            let total = total_fees_spec(
                amount as int,
                pool_fee_num_spec(swap_fee_bps as int, swap_fee_override_numerator),
            );
            match r {
                Ok(fees) => total <= u64::MAX && fees.0 == protocol_fees_spec(total) && fees.1
                    == total - protocol_fees_spec(total),
                Err(e) => e.kind == ErrorKind::Overflow && total > u64::MAX,
            }
        }),
{
    let (pool_fee_num, pool_fee_denom): (u64, u64) = match swap_fee_override_numerator {
        Some(override_num) => {
            if override_num * BPS_SCALE > swap_fee_bps * BPS_SCALE {
                (override_num, BPS_SCALE)
            } else {
                (swap_fee_bps, BPS_SCALE)
            }
        },
        None => (swap_fee_bps, BPS_SCALE),
    };
    let total_fees = match safe_mul_div_up(amount, pool_fee_num, pool_fee_denom) {
        Ok(t) => t,
        Err(e) => {
            return Err(e);
        },
    };
    proof {
        lemma_protocol_le_total(total_fees as int);
    }
    let protocol_fees = match safe_mul_div_up(total_fees, PROTOCOL_FEE_NUMERATOR, BPS_SCALE) {
        Ok(p) => p,
        Err(e) => {
            proof {
                assert(false);
            }
            return Err(e);
        },
    };
    let pool_fees = total_fees - protocol_fees;
    Ok((protocol_fees, pool_fees))
}

/// Assembles a quote from a gross output: splits the fees off and nets
/// them from the output, never going below zero.
pub fn get_quote(
    amount_in: u64,
    amount_out: u64,
    a2b: bool,
    swap_fee_bps: u64,
    swap_fee_override_numerator: Option<u64>,
) -> (q: SwapQuote)
    requires
        match swap_fee_override_numerator {
            Some(o) => o * 10_000 <= u64::MAX && swap_fee_bps * 10_000 <= u64::MAX,
            None => true,
        },
        total_fees_spec(
            amount_out as int,
            pool_fee_num_spec(swap_fee_bps as int, swap_fee_override_numerator),
        ) <= u64::MAX,
    ensures
        ({
            let total = total_fees_spec(
                amount_out as int,
                pool_fee_num_spec(swap_fee_bps as int, swap_fee_override_numerator),
            );
            q.amount_in == amount_in && q.a2b == a2b && q.protocol_fees == protocol_fees_spec(
                total,
            ) && q.pool_fees == total - protocol_fees_spec(total) && q.amount_out == if amount_out
                >= total {
                amount_out - total
            } else {
                0int
            }
        }),
{
    let (protocol_fees, pool_fees) = match compute_swap_fees(
        amount_out,
        swap_fee_bps,
        swap_fee_override_numerator,
    ) {
        Ok(fees) => fees,
        Err(_) => {
            proof {
                assert(false);
            }
            (0, 0)
        },
    };
    let amount_out_net = amount_out.saturating_sub(protocol_fees).saturating_sub(pool_fees);
    SwapQuote { amount_in, amount_out: amount_out_net, protocol_fees, pool_fees, a2b }
}

} // verus!
