//! The pool value object and the choice between the two quoters.

use vstd::prelude::*;

pub mod omm_v2_legacy;
pub mod omm_v2_new;

use crate::error::{ErrorKind, MathError, Outcome};
use crate::math::decimal::Decimal;
use crate::{SwapQuote, to_b_token_opt, to_underlying_opt};

verus! {

/// Which quoting algorithm a pool uses.
#[derive(Clone, Copy, Debug, PartialEq, Eq, Structural)]
pub enum QuoterType {
    /// The logarithmic-invariant Newton solver.
    Ommv2Legacy,
    /// The stable-swap integer solver with fee override.
    Ommv2,
}

/// A pool snapshot: everything a quote needs apart from the per-call
/// inputs.  Quoting never changes the pool.
#[derive(Clone, Copy, Debug, PartialEq, Eq, Structural)]
pub struct SteammPool {
    pub b_token_reserve_x: u64,
    pub b_token_reserve_y: u64,
    pub decimals_x: u32,
    pub decimals_y: u32,
    pub amplifier: u32,
    pub swap_fee_bps: u64,
    pub quoter_type: QuoterType,
}

impl SteammPool {
    /// Builds a pool snapshot from its parts.
    pub fn new(
        b_token_reserve_x: u64,
        b_token_reserve_y: u64,
        decimals_x: u32,
        decimals_y: u32,
        amplifier: u32,
        swap_fee_bps: u64,
        quoter_type: QuoterType,
    ) -> (p: SteammPool)
        ensures
            p.b_token_reserve_x == b_token_reserve_x,
            p.b_token_reserve_y == b_token_reserve_y,
            p.decimals_x == decimals_x,
            p.decimals_y == decimals_y,
            p.amplifier == amplifier,
            p.swap_fee_bps == swap_fee_bps,
            p.quoter_type == quoter_type,
    {
        SteammPool {
            b_token_reserve_x,
            b_token_reserve_y,
            decimals_x,
            decimals_y,
            amplifier,
            swap_fee_bps,
            quoter_type,
        }
    }

    /// Quotes a swap on this pool with the quoter the pool is configured
    /// for; the confidence intervals are read only by the stable-swap
    /// quoter, which requires them.
    pub fn quote_swap(
        &self,
        b_token_amount_in: u64,
        price_x: Decimal,
        price_y: Decimal,
        x2y: bool,
        b_token_ratio_x: Decimal,
        b_token_ratio_y: Decimal,
        price_confidence_a: Option<Decimal>,
        price_confidence_b: Option<Decimal>,
    ) -> (r: Result<SwapQuote, MathError>)
        requires
            to_underlying_opt(
                b_token_amount_in as int,
                if x2y {
                    b_token_ratio_x.v()
                } else {
                    b_token_ratio_y.v()
                },
            ) is Some,
            to_underlying_opt(self.b_token_reserve_x as int, b_token_ratio_x.v()) is Some,
            to_underlying_opt(self.b_token_reserve_y as int, b_token_ratio_y.v()) is Some,
            self.quoter_type == QuoterType::Ommv2Legacy ==> ({
                let outcome = omm_v2_legacy::quote_a_outcome(
                    b_token_amount_in as int,
                    self.b_token_reserve_x as int,
                    self.b_token_reserve_y as int,
                    price_x.v(),
                    price_y.v(),
                    self.decimals_x as nat,
                    self.decimals_y as nat,
                    self.amplifier as int,
                    x2y,
                    b_token_ratio_x.v(),
                    b_token_ratio_y.v(),
                );
                !(outcome == Outcome::Fail(ErrorKind::OutOfRange)
                    && match omm_v2_legacy::quote_a_inner_outcome(
                    to_underlying_opt(
                        b_token_amount_in as int,
                        if x2y {
                            b_token_ratio_x.v()
                        } else {
                            b_token_ratio_y.v()
                        },
                    )->Some_0,
                    to_underlying_opt(self.b_token_reserve_x as int, b_token_ratio_x.v())->Some_0,
                    to_underlying_opt(self.b_token_reserve_y as int, b_token_ratio_y.v())->Some_0,
                    price_x.v(),
                    price_y.v(),
                    self.decimals_x as nat,
                    self.decimals_y as nat,
                    self.amplifier as int,
                    x2y,
                ) {
                    Outcome::Val(v) => to_b_token_opt(
                        v,
                        if x2y {
                            b_token_ratio_y.v()
                        } else {
                            b_token_ratio_x.v()
                        },
                    ) is None,
                    Outcome::Fail(_) => false,
                }) && match outcome {
                    Outcome::Val(out) => crate::total_fees_spec(out, self.swap_fee_bps as int)
                        <= u64::MAX,
                    Outcome::Fail(_) => true,
                }
            }),
            self.quoter_type == QuoterType::Ommv2 ==> price_confidence_a is Some
                && price_confidence_b is Some && self.decimals_x <= 19 && self.decimals_y <= 19
                && self.amplifier * 2 <= u32::MAX && ({
                let outcome = omm_v2_new::quote_b_outcome(
                    to_underlying_opt(
                        b_token_amount_in as int,
                        if x2y {
                            b_token_ratio_x.v()
                        } else {
                            b_token_ratio_y.v()
                        },
                    )->Some_0,
                    to_underlying_opt(self.b_token_reserve_x as int, b_token_ratio_x.v())->Some_0,
                    to_underlying_opt(self.b_token_reserve_y as int, b_token_ratio_y.v())->Some_0,
                    self.b_token_reserve_x as int,
                    self.b_token_reserve_y as int,
                    price_x.v(),
                    price_y.v(),
                    self.decimals_x as nat,
                    self.decimals_y as nat,
                    self.amplifier as int,
                    x2y,
                    b_token_ratio_x.v(),
                    b_token_ratio_y.v(),
                    true,
                );
                let ua = omm_v2_new::price_uncertainty_ratio_spec(
                    price_x.v(),
                    price_confidence_a->Some_0.v(),
                );
                let ub = omm_v2_new::price_uncertainty_ratio_spec(
                    price_y.v(),
                    price_confidence_b->Some_0.v(),
                );
                match (outcome, ua, ub) {
                    (Outcome::Val(out), Outcome::Val(va), Outcome::Val(vb)) => {
                        let o = if va >= vb {
                            va
                        } else {
                            vb
                        };
                        o * 10_000 <= u64::MAX && self.swap_fee_bps * 10_000 <= u64::MAX
                            && crate::total_fees_spec(
                            out,
                            crate::pool_fee_num_spec(self.swap_fee_bps as int, Some(o as u64)),
                        ) <= u64::MAX
                    },
                    _ => true,
                }
            }),
        ensures
            self.quoter_type == QuoterType::Ommv2Legacy ==> ({
                let outcome = omm_v2_legacy::quote_a_outcome(
                    b_token_amount_in as int,
                    self.b_token_reserve_x as int,
                    self.b_token_reserve_y as int,
                    price_x.v(),
                    price_y.v(),
                    self.decimals_x as nat,
                    self.decimals_y as nat,
                    self.amplifier as int,
                    x2y,
                    b_token_ratio_x.v(),
                    b_token_ratio_y.v(),
                );
                match r {
                    Ok(q) => match outcome {
                        Outcome::Val(out) => {
                            let total = crate::total_fees_spec(out, self.swap_fee_bps as int);
                            q.amount_in == b_token_amount_in && q.a2b == x2y && q.protocol_fees
                                == crate::protocol_fees_spec(total) && q.pool_fees == total
                                - crate::protocol_fees_spec(total) && q.amount_out == if out
                                >= total {
                                out - total
                            } else {
                                0int
                            }
                        },
                        Outcome::Fail(_) => false,
                    },
                    Err(e) => outcome == Outcome::Fail(e.kind),
                }
            }),
            self.quoter_type == QuoterType::Ommv2 ==> ({
                let outcome = omm_v2_new::quote_b_outcome(
                    to_underlying_opt(
                        b_token_amount_in as int,
                        if x2y {
                            b_token_ratio_x.v()
                        } else {
                            b_token_ratio_y.v()
                        },
                    )->Some_0,
                    to_underlying_opt(self.b_token_reserve_x as int, b_token_ratio_x.v())->Some_0,
                    to_underlying_opt(self.b_token_reserve_y as int, b_token_ratio_y.v())->Some_0,
                    self.b_token_reserve_x as int,
                    self.b_token_reserve_y as int,
                    price_x.v(),
                    price_y.v(),
                    self.decimals_x as nat,
                    self.decimals_y as nat,
                    self.amplifier as int,
                    x2y,
                    b_token_ratio_x.v(),
                    b_token_ratio_y.v(),
                    true,
                );
                let ua = omm_v2_new::price_uncertainty_ratio_spec(
                    price_x.v(),
                    price_confidence_a->Some_0.v(),
                );
                let ub = omm_v2_new::price_uncertainty_ratio_spec(
                    price_y.v(),
                    price_confidence_b->Some_0.v(),
                );
                match r {
                    Ok(q) => match (outcome, ua, ub) {
                        (Outcome::Val(out), Outcome::Val(va), Outcome::Val(vb)) => {
                            let o = if va >= vb {
                                va
                            } else {
                                vb
                            };
                            let total = crate::total_fees_spec(
                                out,
                                crate::pool_fee_num_spec(self.swap_fee_bps as int, Some(o as u64)),
                            );
                            q.amount_in == b_token_amount_in && q.a2b == x2y && q.protocol_fees
                                == crate::protocol_fees_spec(total) && q.pool_fees == total
                                - crate::protocol_fees_spec(total) && q.amount_out == if out
                                >= total {
                                out - total
                            } else {
                                0int
                            }
                        },
                        _ => false,
                    },
                    Err(e) => outcome == Outcome::Fail(e.kind) || (outcome is Val && ua
                        == Outcome::Fail(e.kind)) || (outcome is Val && ua is Val && ub
                        == Outcome::Fail(e.kind)),
                }
            }),
    {
        match self.quoter_type {
            QuoterType::Ommv2Legacy => omm_v2_legacy::quote_swap(
                b_token_amount_in,
                self.b_token_reserve_x,
                self.b_token_reserve_y,
                price_x,
                price_y,
                self.decimals_x,
                self.decimals_y,
                self.amplifier,
                x2y,
                b_token_ratio_x,
                b_token_ratio_y,
                self.swap_fee_bps,
            ),
            QuoterType::Ommv2 => {
                let conf_a = match price_confidence_a {
                    Some(c) => c,
                    None => {
                        proof {
                            assert(false);
                        }
                        return Err(MathError::new(ErrorKind::OutOfRange, "missing confidence"));
                    },
                };
                let conf_b = match price_confidence_b {
                    Some(c) => c,
                    None => {
                        proof {
                            assert(false);
                        }
                        return Err(MathError::new(ErrorKind::OutOfRange, "missing confidence"));
                    },
                };
                omm_v2_new::quote_swap(
                    b_token_amount_in,
                    self.b_token_reserve_x,
                    self.b_token_reserve_y,
                    price_x,
                    price_y,
                    self.decimals_x,
                    self.decimals_y,
                    self.amplifier,
                    x2y,
                    b_token_ratio_x,
                    b_token_ratio_y,
                    self.swap_fee_bps,
                    conf_a,
                    conf_b,
                )
            },
        }
    }
}

} // verus!
