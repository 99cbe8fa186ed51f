//! Stable-swap quoting: bounded integer iterations over 256-bit values
//! compute the pool invariant `D` and the post-trade reserve `y`, with
//! oracle prices split into an integer part and an inverted fractional
//! part.  This variant subtracts a one-unit rounding margin from the
//! output and widens the pool fee when oracle confidence is poor.

use vstd::prelude::*;

use crate::error::{ErrorKind, MathError, Outcome};
use crate::math::decimal::{Decimal, dec_div_spec, dec_mul_spec, ten_pow, wad_int};
use crate::math::pow10_u64;
use crate::math::u256::{U256, p64, p256};
use crate::{to_underlying, to_underlying_opt, SwapQuote};

verus! {

/// A conversion factor applied to USD quantities so the integer iteration
/// keeps ten extra decimal digits of precision.
pub const SCALE: u64 = 10_000_000_000;

/// The fixed denominator of the scaled amplifier, following the
/// stable-swap convention.
pub const A_PRECISION: u128 = 100;

/// The iteration budget of both invariant solvers.
pub const LIMIT: usize = 255;

/// What converting an amount to USD yields with a split price:
/// `amount * int_part + amount / inverted_frac`, each step checked
/// against the 256-bit range.
pub open spec fn to_usd_spec(amount: int, i: int, inv: Option<int>) -> Outcome {
    match inv {
        Some(n) => if amount * i >= p256() {
            Outcome::Fail(ErrorKind::Overflow)
        } else if n == 0 {
            Outcome::Fail(ErrorKind::ZeroDivision)
        } else if amount * i + amount / n >= p256() {
            Outcome::Fail(ErrorKind::Overflow)
        } else {
            Outcome::Val(amount * i + amount / n)
        },
        None => if amount * i >= p256() {
            Outcome::Fail(ErrorKind::Overflow)
        } else {
            Outcome::Val(amount * i)
        },
    }
}

/// What converting a USD amount back to units yields with a split price:
/// `usd * inv / (int_part * inv + 1)`, or `usd / int_part` for a whole
/// price, each step checked.
pub open spec fn from_usd_spec(usd: int, i: int, inv: Option<int>) -> Outcome {
    match inv {
        Some(n) => if usd * n >= p256() {
            Outcome::Fail(ErrorKind::Overflow)
        } else if i * n >= p256() {
            Outcome::Fail(ErrorKind::Overflow)
        } else if i * n + 1 >= p256() {
            Outcome::Fail(ErrorKind::Overflow)
        } else {
            Outcome::Val(usd * n / (i * n + 1))
        },
        None => if i == 0 {
            Outcome::Fail(ErrorKind::ZeroDivision)
        } else {
            Outcome::Val(usd / i)
        },
    }
}

/// One step of the `D` iteration: from the current `d`, compute
/// `d_p = d^3 / (4ab)` stepwise and the damped update
/// `d' = (ann*s/100 + 2 d_p) d / ((ann-100) d / 100 + 3 d_p)`, checking
/// every operation.
pub open spec fn get_d_step(a: int, b: int, ann: int, s: int, d: int) -> Outcome {
    if d * d >= p256() {
        Outcome::Fail(ErrorKind::Overflow)
    } else if a == 0 {
        Outcome::Fail(ErrorKind::ZeroDivision)
    } else if (d * d / a) * d >= p256() {
        Outcome::Fail(ErrorKind::Overflow)
    } else if b == 0 {
        Outcome::Fail(ErrorKind::ZeroDivision)
    } else {
        let d_p = (d * d / a) * d / b / 4;
        if ann * s >= p256() {
            Outcome::Fail(ErrorKind::Overflow)
        } else if d_p * 2 >= p256() {
            Outcome::Fail(ErrorKind::Overflow)
        } else if ann * s / 100 + d_p * 2 >= p256() {
            Outcome::Fail(ErrorKind::Overflow)
        } else if (ann * s / 100 + d_p * 2) * d >= p256() {
            Outcome::Fail(ErrorKind::Overflow)
        } else if ann < 100 {
            Outcome::Fail(ErrorKind::NegativeResult)
        } else if (ann - 100) * d >= p256() {
            Outcome::Fail(ErrorKind::Overflow)
        } else if 3 * d_p >= p256() {
            Outcome::Fail(ErrorKind::Overflow)
        } else if (ann - 100) * d / 100 + 3 * d_p >= p256() {
            Outcome::Fail(ErrorKind::Overflow)
        } else if (ann - 100) * d / 100 + 3 * d_p == 0 {
            Outcome::Fail(ErrorKind::ZeroDivision)
        } else {
            Outcome::Val((ann * s / 100 + d_p * 2) * d / ((ann - 100) * d / 100 + 3 * d_p))
        }
    }
}

/// The outcome of iterating the `D` step from `d` with the fuel left:
/// stops as soon as two successive values differ by at most one.
pub open spec fn get_d_rec(a: int, b: int, ann: int, s: int, d: int, fuel: nat) -> Outcome
    decreases fuel,
{
    if fuel == 0 {
        Outcome::Fail(ErrorKind::Convergence)
    } else {
        match get_d_step(a, b, ann, s, d) {
            Outcome::Fail(k) => Outcome::Fail(k),
            Outcome::Val(d2) => if d2 >= d && d2 - d <= 1 {
                Outcome::Val(d2)
            } else if d2 < d && d - d2 <= 1 {
                Outcome::Val(d2)
            } else {
                get_d_rec(a, b, ann, s, d2, (fuel - 1) as nat)
            },
        }
    }
}

/// The outcome of the whole `D` computation, starting from `d = a + b`.
pub open spec fn get_d_spec(a: int, b: int, amp: int) -> Outcome {
    if a + b >= p256() {
        Outcome::Fail(ErrorKind::Overflow)
    } else if amp * 2 >= p256() {
        Outcome::Fail(ErrorKind::Overflow)
    } else {
        get_d_rec(a, b, amp * 2, a + b, a + b, 255)
    }
}

/// One step of the `y` iteration: `y' = (y^2 + c) / (2y + b - d)`, each
/// operation checked.
pub open spec fn get_y_step(c: int, bb: int, d: int, y: int) -> Outcome {
    if y * y >= p256() {
        Outcome::Fail(ErrorKind::Overflow)
    } else if y * y + c >= p256() {
        Outcome::Fail(ErrorKind::Overflow)
    } else if 2 * y >= p256() {
        Outcome::Fail(ErrorKind::Overflow)
    } else if 2 * y + bb >= p256() {
        Outcome::Fail(ErrorKind::Overflow)
    } else if 2 * y + bb < d {
        Outcome::Fail(ErrorKind::NegativeResult)
    } else if 2 * y + bb - d == 0 {
        Outcome::Fail(ErrorKind::ZeroDivision)
    } else {
        Outcome::Val((y * y + c) / (2 * y + bb - d))
    }
}

/// The outcome of iterating the `y` step from `y` with the fuel left.
pub open spec fn get_y_rec(c: int, bb: int, d: int, y: int, fuel: nat) -> Outcome
    decreases fuel,
{
    if fuel == 0 {
        Outcome::Fail(ErrorKind::Convergence)
    } else {
        match get_y_step(c, bb, d, y) {
            Outcome::Fail(k) => Outcome::Fail(k),
            Outcome::Val(y2) => if y2 >= y && y2 - y <= 1 {
                Outcome::Val(y2)
            } else if y2 < y && y - y2 <= 1 {
                Outcome::Val(y2)
            } else {
                get_y_rec(c, bb, d, y2, (fuel - 1) as nat)
            },
        }
    }
}

/// The outcome of the whole `y` computation: the prelude derives
/// `c = d^3 * 100 / (2 * r_in * ann * 2)` stepwise and
/// `b = r_in + d * 100 / ann`, then iterates from `y = d`.
pub open spec fn get_y_spec(reserve_in: int, amp: int, d: int) -> Outcome {
    if amp * 2 >= p256() {
        Outcome::Fail(ErrorKind::Overflow)
    } else {
        let ann = amp * 2;
        if d * d >= p256() {
            Outcome::Fail(ErrorKind::Overflow)
        } else if 2 * reserve_in >= p256() {
            Outcome::Fail(ErrorKind::Overflow)
        } else if 2 * reserve_in == 0 {
            Outcome::Fail(ErrorKind::ZeroDivision)
        } else {
            let c0 = d * d / (2 * reserve_in);
            if c0 * d >= p256() {
                Outcome::Fail(ErrorKind::Overflow)
            } else if c0 * d * 100 >= p256() {
                Outcome::Fail(ErrorKind::Overflow)
            } else if ann * 2 >= p256() {
                Outcome::Fail(ErrorKind::Overflow)
            } else if ann * 2 == 0 {
                Outcome::Fail(ErrorKind::ZeroDivision)
            } else {
                let c = c0 * d * 100 / (ann * 2);
                if d * 100 >= p256() {
                    Outcome::Fail(ErrorKind::Overflow)
                } else if ann == 0 {
                    Outcome::Fail(ErrorKind::ZeroDivision)
                } else if reserve_in + d * 100 / ann >= p256() {
                    Outcome::Fail(ErrorKind::Overflow)
                } else {
                    let bb = reserve_in + d * 100 / ann;
                    get_y_rec(c, bb, d, d, 255)
                }
            }
        }
    }
}

/// The split of a price's raw value into the integer part and the floored
/// inverse of the fractional part; nothing when the integer part does not
/// fit in 64 bits.
pub open spec fn split_price_spec(p: int) -> Option<(int, Option<int>)> {
    if p / wad_int() >= p64() {
        None
    } else if p % wad_int() == 0 {
        Some((p / wad_int(), None))
    } else {
        Some(
            (p / wad_int(), Some((wad_int() * wad_int() / (p % wad_int())) / wad_int())),
        )
    }
}

/// The output side of the stable-swap quote, after the invariant has been
/// computed: scale the input to USD, solve for the post-trade output
/// reserve, convert it back to token units, subtract it (and the one-unit
/// margin, where this variant takes one) from the output reserve, convert
/// to b-tokens, and return zero when the pool cannot cover the amount.
pub open spec fn quote_b_side_spec(
    amount_in: int,
    s_in: (int, Option<int>),
    dec_in: nat,
    usd_reserve_in: int,
    s_out: (int, Option<int>),
    dec_out: nat,
    reserve_out: int,
    b_token_reserve_out: int,
    scaled_amp: int,
    d: int,
    ratio_out: int,
    margin: bool,
) -> Outcome {
    match to_usd_spec(amount_in * 10_000_000_000, s_in.0, s_in.1) {
        Outcome::Fail(k) => Outcome::Fail(k),
        Outcome::Val(uin) => {
            let usd_in = uin / (ten_pow(dec_in) as int);
            if usd_reserve_in + usd_in >= p256() {
                Outcome::Fail(ErrorKind::Overflow)
            } else {
                match get_y_spec(usd_reserve_in + usd_in, scaled_amp, d) {
                    Outcome::Fail(k) => Outcome::Fail(k),
                    Outcome::Val(ystar) => match from_usd_spec(ystar, s_out.0, s_out.1) {
                        Outcome::Fail(k) => Outcome::Fail(k),
                        Outcome::Val(u) => if u * (ten_pow(dec_out) as int) >= p256() {
                            Outcome::Fail(ErrorKind::Overflow)
                        } else {
                            let t = u * (ten_pow(dec_out) as int) / 10_000_000_000;
                            if t >= p64() {
                                Outcome::Fail(ErrorKind::Overflow)
                            } else {
                                let m = if margin {
                                    t + 1
                                } else {
                                    t
                                };
                                if reserve_out < m {
                                    Outcome::Fail(ErrorKind::NegativeResult)
                                } else {
                                    match dec_div_spec((reserve_out - m) * wad_int(), ratio_out) {
                                        None => Outcome::Fail(ErrorKind::ZeroDivision),
                                        Some(v) => if v / wad_int() >= p64() {
                                            Outcome::Fail(ErrorKind::Overflow)
                                        } else {
                                            if v / wad_int() > b_token_reserve_out {
                                                Outcome::Val(0)
                                            } else {
                                                Outcome::Val(v / wad_int())
                                            }
                                        },
                                    }
                                }
                            }
                        },
                    },
                }
            }
        },
    }
}

/// The full outcome of the stable-swap quote on underlying values: split
/// both prices, scale both reserves to USD, compute the invariant, and
/// run the output side in the direction of the trade.
pub open spec fn quote_b_outcome(
    amount_in: int,
    reserve_x: int,
    reserve_y: int,
    b_token_reserve_x: int,
    b_token_reserve_y: int,
    px: int,
    py: int,
    dx: nat,
    dy: nat,
    amp: int,
    x2y: bool,
    ratio_x: int,
    ratio_y: int,
    margin: bool,
) -> Outcome {
    match split_price_spec(px) {
        None => Outcome::Fail(ErrorKind::Overflow),
        Some(sx) => match split_price_spec(py) {
            None => Outcome::Fail(ErrorKind::Overflow),
            Some(sy) => match to_usd_spec(reserve_x * 10_000_000_000, sx.0, sx.1) {
                Outcome::Fail(k) => Outcome::Fail(k),
                Outcome::Val(ux) => {
                    let sux = ux / (ten_pow(dx) as int);
                    match to_usd_spec(reserve_y * 10_000_000_000, sy.0, sy.1) {
                        Outcome::Fail(k) => Outcome::Fail(k),
                        Outcome::Val(uy) => {
                            let suy = uy / (ten_pow(dy) as int);
                            let scaled_amp = amp * 2 * 100;
                            match get_d_spec(sux, suy, scaled_amp) {
                                Outcome::Fail(k) => Outcome::Fail(k),
                                Outcome::Val(d) => if x2y {
                                    quote_b_side_spec(
                                        amount_in,
                                        sx,
                                        dx,
                                        sux,
                                        sy,
                                        dy,
                                        reserve_y,
                                        b_token_reserve_y,
                                        scaled_amp,
                                        d,
                                        ratio_y,
                                        margin,
                                    )
                                } else {
                                    quote_b_side_spec(
                                        amount_in,
                                        sy,
                                        dy,
                                        suy,
                                        sx,
                                        dx,
                                        reserve_x,
                                        b_token_reserve_x,
                                        scaled_amp,
                                        d,
                                        ratio_x,
                                        margin,
                                    )
                                },
                            }
                        },
                    }
                },
            },
        },
    }
}

/// Splits a price into its integer part and the floor of the inverse of
/// its fractional part; the second is absent for a whole price.  Relies
/// on the fractional part being strictly below one, so its inverse is at
/// least one.
pub fn split_price(price: Decimal) -> (r: Result<(U256, Option<U256>), MathError>)
    ensures
        match r {
            Ok(parts) => price.v() / wad_int() < p64() && parts.0.v() == price.v() / wad_int()
                && (if price.v() % wad_int() == 0 {
                parts.1 is None
            } else {
                match parts.1 {
                    Some(inv) => inv.v() == (wad_int() * wad_int() / (price.v() % wad_int()))
                        / wad_int(),
                    None => false,
                }
            }),
            Err(e) => e.kind == ErrorKind::Overflow && price.v() / wad_int() >= p64(),
        },
{
    let price_integer_part_u64 = match price.checked_floor() {
        Some(f) => f,
        None => {
            return Err(
                MathError::new(ErrorKind::Overflow, "split_price: integer part does not fit"),
            );
        },
    };
    let price_integer_part = U256::from_u64(price_integer_part_u64);
    let whole = Decimal::from_u64(price_integer_part_u64);
    let price_decimal_part = match price.checked_sub(&whole) {
        Some(d) => d,
        None => {
            proof {
                vstd::arithmetic::div_mod::lemma_fundamental_div_mod(price.v(), wad_int());
                assert(false);
            }
            return Err(MathError::new(ErrorKind::NegativeResult, "split_price"));
        },
    };
    proof {
        vstd::arithmetic::div_mod::lemma_fundamental_div_mod(price.v(), wad_int());
        assert(price_decimal_part.v() == price.v() % wad_int());
    }
    if price_decimal_part.0.is_zero() {
        Ok((price_integer_part, None))
    } else {
        let one = Decimal::from_u64(1);
        proof {
            assert(1u64 * wad_int() == wad_int()) by (nonlinear_arith);
            vstd::arithmetic::div_mod::lemma_mod_bound(price.v(), wad_int());
            assert(wad_int() * wad_int() < p256()) by (nonlinear_arith);
        }
        let inverted_dec = match one.checked_div(&price_decimal_part) {
            Some(q) => q,
            None => {
                proof {
                    assert(false);
                }
                return Err(MathError::new(ErrorKind::ZeroDivision, "split_price"));
            },
        };
        let inverted = match inverted_dec.checked_floor() {
            Some(f) => f,
            None => {
                proof {
                    lemma_split_price_inverse_fits(price.v());
                }
                return Err(MathError::new(ErrorKind::Overflow, "split_price: inverse too large"));
            },
        };
        proof {
            lemma_split_price_inverse_fits(price.v());
        }
        Ok((price_integer_part, Some(U256::from_u64(inverted))))
    }
}

/// The floored inverse of a fractional part always fits in 64 bits: the
/// fractional part is at least one raw unit, so the inverse is at most
/// one WAD.
proof fn lemma_split_price_inverse_fits(p: int)
    requires
        p >= 0,
        p % wad_int() != 0,
    ensures
        0 <= (wad_int() * wad_int() / (p % wad_int())) / wad_int() < p64(),
{
    let f = p % wad_int();
    vstd::arithmetic::div_mod::lemma_mod_bound(p, wad_int());
    assert(wad_int() * wad_int() / f <= wad_int() * wad_int()) by {
        vstd::arithmetic::div_mod::lemma_div_is_ordered_by_denominator(
            wad_int() * wad_int(),
            1,
            f,
        );
        vstd::arithmetic::div_mod::lemma_div_basics(wad_int() * wad_int());
    }
    vstd::arithmetic::div_mod::lemma_div_pos_is_pos(wad_int() * wad_int(), f);
    vstd::arithmetic::div_mod::lemma_div_is_ordered(
        wad_int() * wad_int() / f,
        wad_int() * wad_int(),
        wad_int(),
    );
    assert(wad_int() * wad_int() / wad_int() == wad_int()) by {
        vstd::arithmetic::div_mod::lemma_div_by_multiple(wad_int(), wad_int());
    }
    vstd::arithmetic::div_mod::lemma_div_pos_is_pos(wad_int() * wad_int() / f, wad_int());
}

/// Converts a unit amount into a USD amount using a split price.
pub fn to_usd(amount: U256, price_integer_part: U256, price_decimal_part_inverted: Option<U256>)
    -> (r: Result<U256, MathError>)
    ensures
        ({
            let inv = match price_decimal_part_inverted {
                Some(n) => Some(n.v()),
                None => None,
            };
            match r {
                Ok(v) => to_usd_spec(amount.v(), price_integer_part.v(), inv) == Outcome::Val(
                    v.v(),
                ),
                Err(e) => to_usd_spec(amount.v(), price_integer_part.v(), inv) == Outcome::Fail(
                    e.kind,
                ),
            }
        }),
{
    match price_decimal_part_inverted {
        Some(inv) => {
            let product = match amount.checked_mul(&price_integer_part) {
                Some(p) => p,
                None => {
                    return Err(MathError::new(ErrorKind::Overflow, "to_usd: product too large"));
                },
            };
            let frac = match amount.checked_div(&inv) {
                Some(f) => f,
                None => {
                    return Err(MathError::new(ErrorKind::ZeroDivision, "to_usd: zero inverse"));
                },
            };
            match product.checked_add(&frac) {
                Some(s) => Ok(s),
                None => Err(MathError::new(ErrorKind::Overflow, "to_usd: sum too large")),
            }
        },
        None => match amount.checked_mul(&price_integer_part) {
            Some(p) => Ok(p),
            None => Err(MathError::new(ErrorKind::Overflow, "to_usd: product too large")),
        },
    }
}

/// Converts a USD amount into a unit amount using a split price.
pub fn from_usd(
    usd_amount: U256,
    price_integer_part: U256,
    price_decimal_part_inverted: Option<U256>,
) -> (r: Result<U256, MathError>)
    ensures
        ({
            let inv = match price_decimal_part_inverted {
                Some(n) => Some(n.v()),
                None => None,
            };
            match r {
                Ok(v) => from_usd_spec(usd_amount.v(), price_integer_part.v(), inv)
                    == Outcome::Val(v.v()),
                Err(e) => from_usd_spec(usd_amount.v(), price_integer_part.v(), inv)
                    == Outcome::Fail(e.kind),
            }
        }),
{
    match price_decimal_part_inverted {
        Some(inv) => {
            let numerator = match usd_amount.checked_mul(&inv) {
                Some(n) => n,
                None => {
                    return Err(
                        MathError::new(ErrorKind::Overflow, "from_usd: numerator too large"),
                    );
                },
            };
            let scaled = match price_integer_part.checked_mul(&inv) {
                Some(s) => s,
                None => {
                    return Err(
                        MathError::new(ErrorKind::Overflow, "from_usd: denominator too large"),
                    );
                },
            };
            let denominator = match scaled.checked_add(&U256::one()) {
                Some(d) => d,
                None => {
                    return Err(
                        MathError::new(ErrorKind::Overflow, "from_usd: denominator too large"),
                    );
                },
            };
            match numerator.checked_div(&denominator) {
                Some(q) => Ok(q),
                None => {
                    proof {
                        assert(false);
                    }
                    Err(MathError::new(ErrorKind::ZeroDivision, "from_usd"))
                },
            }
        },
        None => match usd_amount.checked_div(&price_integer_part) {
            Some(q) => Ok(q),
            None => Err(MathError::new(ErrorKind::ZeroDivision, "from_usd: zero price")),
        },
    }
}

/// The computation both stable-swap variants share: everything up to the
/// gross b-token output, with or without the one-unit rounding margin.
pub(crate) fn quote_b_core(
    b_token_amount_in: u64,
    b_token_reserve_x: u64,
    b_token_reserve_y: u64,
    price_x: Decimal,
    price_y: Decimal,
    decimals_x: u32,
    decimals_y: u32,
    amplifier: u32,
    x2y: bool,
    b_token_ratio_x: Decimal,
    b_token_ratio_y: Decimal,
    margin: bool,
) -> (r: Result<u64, MathError>)
    requires
        decimals_x <= 19,
        decimals_y <= 19,
        amplifier * 2 <= u32::MAX,
        to_underlying_opt(
            b_token_amount_in as int,
            if x2y {
                b_token_ratio_x.v()
            } else {
                b_token_ratio_y.v()
            },
        ) is Some,
        to_underlying_opt(b_token_reserve_x as int, b_token_ratio_x.v()) is Some,
        to_underlying_opt(b_token_reserve_y as int, b_token_ratio_y.v()) is Some,
    ensures
        ({
            let ain = to_underlying_opt(
                b_token_amount_in as int,
                if x2y {
                    b_token_ratio_x.v()
                } else {
                    b_token_ratio_y.v()
                },
            )->Some_0;
            let resx = to_underlying_opt(b_token_reserve_x as int, b_token_ratio_x.v())->Some_0;
            let resy = to_underlying_opt(b_token_reserve_y as int, b_token_ratio_y.v())->Some_0;
            let outcome = quote_b_outcome(
                ain,
                resx,
                resy,
                b_token_reserve_x as int,
                b_token_reserve_y as int,
                price_x.v(),
                price_y.v(),
                decimals_x as nat,
                decimals_y as nat,
                amplifier as int,
                x2y,
                b_token_ratio_x.v(),
                b_token_ratio_y.v(),
                margin,
            );
            match r {
                Ok(v) => outcome == Outcome::Val(v as int) && (x2y ==> v <= b_token_reserve_y) && (
                !x2y ==> v <= b_token_reserve_x),
                Err(e) => outcome == Outcome::Fail(e.kind),
            }
        }),
{
    let amount_in = to_underlying(
        b_token_amount_in,
        if x2y {
            &b_token_ratio_x
        } else {
            &b_token_ratio_y
        },
    );
    let reserve_x = to_underlying(b_token_reserve_x, &b_token_ratio_x);
    let reserve_y = to_underlying(b_token_reserve_y, &b_token_ratio_y);

    let (price_x_integer_part, price_x_decimal_part_inverted) = match split_price(price_x) {
        Ok(parts) => parts,
        Err(e) => {
            return Err(e);
        },
    };
    let (price_y_integer_part, price_y_decimal_part_inverted) = match split_price(price_y) {
        Ok(parts) => parts,
        Err(e) => {
            return Err(e);
        },
    };

    let pow_dx = U256::from_u64(pow10_u64(decimals_x));
    let pow_dy = U256::from_u64(pow10_u64(decimals_y));

    let scaled_reserve_x = U256::mul_wide(reserve_x as u128, SCALE as u128);
    let scaled_usd_reserve_x = {
        let usd = match to_usd(
            scaled_reserve_x,
            price_x_integer_part,
            price_x_decimal_part_inverted,
        ) {
            Ok(u) => u,
            Err(e) => {
                return Err(e);
            },
        };
        match usd.checked_div(&pow_dx) {
            Some(q) => q,
            None => {
                proof {
                    assert(false);
                }
                return Err(MathError::new(ErrorKind::ZeroDivision, "stable-swap quote"));
            },
        }
    };

    let scaled_reserve_y = U256::mul_wide(reserve_y as u128, SCALE as u128);
    let scaled_usd_reserve_y = {
        let usd = match to_usd(
            scaled_reserve_y,
            price_y_integer_part,
            price_y_decimal_part_inverted,
        ) {
            Ok(u) => u,
            Err(e) => {
                return Err(e);
            },
        };
        match usd.checked_div(&pow_dy) {
            Some(q) => q,
            None => {
                proof {
                    assert(false);
                }
                return Err(MathError::new(ErrorKind::ZeroDivision, "stable-swap quote"));
            },
        }
    };

    let scaled_amp = U256::from_u64(((amplifier * 2) as u64) * 100);
    let d = match get_d(scaled_usd_reserve_x, scaled_usd_reserve_y, scaled_amp) {
        Ok(d) => d,
        Err(e) => {
            return Err(e);
        },
    };

    let scaled_amount_in = U256::mul_wide(amount_in as u128, SCALE as u128);
    let (
        in_int,
        in_inv,
        pow_din,
        usd_reserve_in,
        out_int,
        out_inv,
        pow_dout,
        reserve_out,
        b_token_reserve_out,
    ) = if x2y {
        (
            price_x_integer_part,
            price_x_decimal_part_inverted,
            pow_dx,
            scaled_usd_reserve_x,
            price_y_integer_part,
            price_y_decimal_part_inverted,
            pow_dy,
            reserve_y,
            b_token_reserve_y,
        )
    } else {
        (
            price_y_integer_part,
            price_y_decimal_part_inverted,
            pow_dy,
            scaled_usd_reserve_y,
            price_x_integer_part,
            price_x_decimal_part_inverted,
            pow_dx,
            reserve_x,
            b_token_reserve_x,
        )
    };

    let usd_in_raw = match to_usd(scaled_amount_in, in_int, in_inv) {
        Ok(u) => u,
        Err(e) => {
            return Err(e);
        },
    };
    let scaled_usd_amount_in = match usd_in_raw.checked_div(&pow_din) {
        Some(q) => q,
        None => {
            proof {
                assert(false);
            }
            return Err(MathError::new(ErrorKind::ZeroDivision, "stable-swap quote"));
        },
    };

    let reserve_in_after = match usd_reserve_in.checked_add(&scaled_usd_amount_in) {
        Some(s) => s,
        None => {
            return Err(MathError::new(ErrorKind::Overflow, "stable-swap quote: input too large"));
        },
    };
    let scaled_usd_reserve_out_after_trade = match get_y(reserve_in_after, scaled_amp, d) {
        Ok(y) => y,
        Err(e) => {
            return Err(e);
        },
    };
    let scaled_reserve_out_after_trade = match from_usd(
        scaled_usd_reserve_out_after_trade,
        out_int,
        out_inv,
    ) {
        Ok(u) => u,
        Err(e) => {
            return Err(e);
        },
    };

    let rescaled = match scaled_reserve_out_after_trade.checked_mul(&pow_dout) {
        Some(p) => p,
        None => {
            return Err(MathError::new(ErrorKind::Overflow, "stable-swap quote: output too large"));
        },
    };
    let descaled = match rescaled.checked_div(&U256::from_u64(SCALE)) {
        Some(q) => q,
        None => {
            proof {
                assert(false);
            }
            return Err(MathError::new(ErrorKind::ZeroDivision, "stable-swap quote"));
        },
    };
    if !descaled.fits_u64() {
        return Err(MathError::new(ErrorKind::Overflow, "stable-swap quote: output too large"));
    }
    let reserve_out_after_trade = descaled.as_u64();

    let after_sub = match reserve_out.checked_sub(reserve_out_after_trade) {
        Some(x) => x,
        None => {
            return Err(
                MathError::new(ErrorKind::NegativeResult, "stable-swap quote: pool exhausted"),
            );
        },
    };
    let amount_out_underlying = if margin {
        match after_sub.checked_sub(1) {
            Some(x) => x,
            None => {
                return Err(
                    MathError::new(ErrorKind::NegativeResult, "stable-swap quote: pool exhausted"),
                );
            },
        }
    } else {
        after_sub
    };

    let out_dec = Decimal::from_u64(amount_out_underlying);
    let out_ratio = if x2y {
        &b_token_ratio_y
    } else {
        &b_token_ratio_x
    };
    let quotient = match out_dec.checked_div(out_ratio) {
        Some(q) => q,
        None => {
            return Err(MathError::new(ErrorKind::ZeroDivision, "stable-swap quote: zero ratio"));
        },
    };
    let amount_out_btoken = match quotient.checked_floor() {
        Some(f) => f,
        None => {
            return Err(MathError::new(ErrorKind::Overflow, "stable-swap quote: output too large"));
        },
    };

    if amount_out_btoken > b_token_reserve_out {
        return Ok(0);
    }
    Ok(amount_out_btoken)
}

/// Quotes a swap including fees: the gross output of the invariant solve,
/// net of protocol and pool fees, where the pool-fee numerator is widened
/// to the larger confidence-to-price ratio of the two oracles when that
/// exceeds the configured fee.
pub fn quote_swap(
    b_token_amount_in: u64,
    b_token_reserve_x: u64,
    b_token_reserve_y: u64,
    price_x: Decimal,
    price_y: Decimal,
    decimals_x: u32,
    decimals_y: u32,
    amplifier: u32,
    x2y: bool,
    b_token_ratio_x: Decimal,
    b_token_ratio_y: Decimal,
    swap_fee_bps: u64,
    price_confidence_a: Decimal,
    price_confidence_b: Decimal,
) -> (r: Result<SwapQuote, MathError>)
    requires
        decimals_x <= 19,
        decimals_y <= 19,
        amplifier * 2 <= u32::MAX,
        to_underlying_opt(
            b_token_amount_in as int,
            if x2y {
                b_token_ratio_x.v()
            } else {
                b_token_ratio_y.v()
            },
        ) is Some,
        to_underlying_opt(b_token_reserve_x as int, b_token_ratio_x.v()) is Some,
        to_underlying_opt(b_token_reserve_y as int, b_token_ratio_y.v()) is Some,
        ({
            let outcome = quote_b_outcome(
                to_underlying_opt(
                    b_token_amount_in as int,
                    if x2y {
                        b_token_ratio_x.v()
                    } else {
                        b_token_ratio_y.v()
                    },
                )->Some_0,
                to_underlying_opt(b_token_reserve_x as int, b_token_ratio_x.v())->Some_0,
                to_underlying_opt(b_token_reserve_y as int, b_token_ratio_y.v())->Some_0,
                b_token_reserve_x as int,
                b_token_reserve_y as int,
                price_x.v(),
                price_y.v(),
                decimals_x as nat,
                decimals_y as nat,
                amplifier as int,
                x2y,
                b_token_ratio_x.v(),
                b_token_ratio_y.v(),
                true,
            );
            let ua = price_uncertainty_ratio_spec(price_x.v(), price_confidence_a.v());
            let ub = price_uncertainty_ratio_spec(price_y.v(), price_confidence_b.v());
            match (outcome, ua, ub) {
                (Outcome::Val(out), Outcome::Val(va), Outcome::Val(vb)) => {
                    let o = if va >= vb {
                        va
                    } else {
                        vb
                    };
                    o * 10_000 <= u64::MAX && swap_fee_bps * 10_000 <= u64::MAX
                        && crate::total_fees_spec(
                        out,
                        crate::pool_fee_num_spec(swap_fee_bps as int, Some(o as u64)),
                    ) <= u64::MAX
                },
                _ => true,
            }
        }),
    ensures
        ({
            let outcome = quote_b_outcome(
                to_underlying_opt(
                    b_token_amount_in as int,
                    if x2y {
                        b_token_ratio_x.v()
                    } else {
                        b_token_ratio_y.v()
                    },
                )->Some_0,
                to_underlying_opt(b_token_reserve_x as int, b_token_ratio_x.v())->Some_0,
                to_underlying_opt(b_token_reserve_y as int, b_token_ratio_y.v())->Some_0,
                b_token_reserve_x as int,
                b_token_reserve_y as int,
                price_x.v(),
                price_y.v(),
                decimals_x as nat,
                decimals_y as nat,
                amplifier as int,
                x2y,
                b_token_ratio_x.v(),
                b_token_ratio_y.v(),
                true,
            );
            let ua = price_uncertainty_ratio_spec(price_x.v(), price_confidence_a.v());
            let ub = price_uncertainty_ratio_spec(price_y.v(), price_confidence_b.v());
            match r {
                Ok(q) => match (outcome, ua, ub) {
                    (Outcome::Val(out), Outcome::Val(va), Outcome::Val(vb)) => {
                        let o = if va >= vb {
                            va
                        } else {
                            vb
                        };
                        let total = crate::total_fees_spec(
                            out,
                            crate::pool_fee_num_spec(swap_fee_bps as int, Some(o as u64)),
                        );
                        q.amount_in == b_token_amount_in && q.a2b == x2y && q.protocol_fees
                            == crate::protocol_fees_spec(total) && q.pool_fees == total
                            - crate::protocol_fees_spec(total) && q.amount_out == if out >= total {
                            out - total
                        } else {
                            0int
                        }
                    },
                    _ => false,
                },
                Err(e) => outcome == Outcome::Fail(e.kind) || (outcome is Val && ua
                    == Outcome::Fail(e.kind)) || (outcome is Val && ua is Val && ub
                    == Outcome::Fail(e.kind)),
            }
        }),
{
    let amount_out_btoken = match quote_swap_no_fees(
        b_token_amount_in,
        b_token_reserve_x,
        b_token_reserve_y,
        price_x,
        price_y,
        decimals_x,
        decimals_y,
        amplifier,
        x2y,
        b_token_ratio_x,
        b_token_ratio_y,
    ) {
        Ok(v) => v,
        Err(e) => {
            return Err(e);
        },
    };
    let price_uncertainty_ratio_a = match price_uncertainty_ratio(price_x, price_confidence_a) {
        Ok(v) => v,
        Err(e) => {
            return Err(e);
        },
    };
    let price_uncertainty_ratio_b = match price_uncertainty_ratio(price_y, price_confidence_b) {
        Ok(v) => v,
        Err(e) => {
            return Err(e);
        },
    };
    let override_num = if price_uncertainty_ratio_a >= price_uncertainty_ratio_b {
        price_uncertainty_ratio_a
    } else {
        price_uncertainty_ratio_b
    };
    Ok(
        crate::get_quote(
            b_token_amount_in,
            amount_out_btoken,
            x2y,
            swap_fee_bps,
            Some(override_num),
        ),
    )
}

/// What the confidence-to-price ratio works out to, in basis points:
/// `floor(confidence * 10000 / price)` through the checked decimal steps.
pub open spec fn price_uncertainty_ratio_spec(price: int, conf: int) -> Outcome {
    match dec_mul_spec(conf, 10_000 * wad_int()) {
        None => Outcome::Fail(ErrorKind::Overflow),
        Some(m) => match dec_div_spec(m, price) {
            None => Outcome::Fail(
                if price == 0 {
                    ErrorKind::ZeroDivision
                } else {
                    ErrorKind::Overflow
                },
            ),
            Some(q) => if q / wad_int() >= p64() {
                Outcome::Fail(ErrorKind::Overflow)
            } else {
                Outcome::Val(q / wad_int())
            },
        },
    }
}

/// The ratio of an oracle confidence interval to its price, in basis
/// points, rounded down; a poor confidence gives a large ratio.
fn price_uncertainty_ratio(price: Decimal, price_confidence: Decimal) -> (r: Result<
    u64,
    MathError,
>)
    ensures
        match r {
            Ok(v) => price_uncertainty_ratio_spec(price.v(), price_confidence.v())
                == Outcome::Val(v as int),
            Err(e) => price_uncertainty_ratio_spec(price.v(), price_confidence.v())
                == Outcome::Fail(e.kind),
        },
{
    let bps = Decimal::from_u64(10_000);
    let scaled = match price_confidence.checked_mul(&bps) {
        Some(s) => s,
        None => {
            return Err(
                MathError::new(ErrorKind::Overflow, "price_uncertainty_ratio: product too large"),
            );
        },
    };
    let q = match scaled.checked_div(&price) {
        Some(q) => q,
        None => {
            if price.0.is_zero() {
                return Err(
                    MathError::new(ErrorKind::ZeroDivision, "price_uncertainty_ratio: zero price"),
                );
            } else {
                return Err(
                    MathError::new(ErrorKind::Overflow, "price_uncertainty_ratio: overflow"),
                );
            }
        },
    };
    match q.checked_floor() {
        Some(f) => Ok(f),
        None => Err(MathError::new(ErrorKind::Overflow, "price_uncertainty_ratio: too large")),
    }
}

/// Computes the gross b-token output of a swap: underlying conversions,
/// price split, invariant solve, and the one-unit rounding margin, without
/// any fees.
pub fn quote_swap_no_fees(
    b_token_amount_in: u64,
    b_token_reserve_x: u64,
    b_token_reserve_y: u64,
    price_x: Decimal,
    price_y: Decimal,
    decimals_x: u32,
    decimals_y: u32,
    amplifier: u32,
    x2y: bool,
    b_token_ratio_x: Decimal,
    b_token_ratio_y: Decimal,
) -> (r: Result<u64, MathError>)
    requires
        decimals_x <= 19,
        decimals_y <= 19,
        amplifier * 2 <= u32::MAX,
        to_underlying_opt(
            b_token_amount_in as int,
            if x2y {
                b_token_ratio_x.v()
            } else {
                b_token_ratio_y.v()
            },
        ) is Some,
        to_underlying_opt(b_token_reserve_x as int, b_token_ratio_x.v()) is Some,
        to_underlying_opt(b_token_reserve_y as int, b_token_ratio_y.v()) is Some,
    ensures
        ({
            let ain = to_underlying_opt(
                b_token_amount_in as int,
                if x2y {
                    b_token_ratio_x.v()
                } else {
                    b_token_ratio_y.v()
                },
            )->Some_0;
            let resx = to_underlying_opt(b_token_reserve_x as int, b_token_ratio_x.v())->Some_0;
            let resy = to_underlying_opt(b_token_reserve_y as int, b_token_ratio_y.v())->Some_0;
            let outcome = quote_b_outcome(
                ain,
                resx,
                resy,
                b_token_reserve_x as int,
                b_token_reserve_y as int,
                price_x.v(),
                price_y.v(),
                decimals_x as nat,
                decimals_y as nat,
                amplifier as int,
                x2y,
                b_token_ratio_x.v(),
                b_token_ratio_y.v(),
                true,
            );
            match r {
                Ok(v) => outcome == Outcome::Val(v as int) && (x2y ==> v <= b_token_reserve_y) && (
                !x2y ==> v <= b_token_reserve_x),
                Err(e) => outcome == Outcome::Fail(e.kind),
            }
        }),
{
    quote_b_core(
        b_token_amount_in,
        b_token_reserve_x,
        b_token_reserve_y,
        price_x,
        price_y,
        decimals_x,
        decimals_y,
        amplifier,
        x2y,
        b_token_ratio_x,
        b_token_ratio_y,
        true,
    )
}

/// Calculates the `D` invariant for a two-coin pool by bounded integer
/// iteration; fails with `Convergence` when the budget runs out.
pub fn get_d(reserve_a: U256, reserve_b: U256, amp: U256) -> (r: Result<U256, MathError>)
    ensures
        match r {
            Ok(d) => get_d_spec(reserve_a.v(), reserve_b.v(), amp.v()) == Outcome::Val(d.v()),
            Err(e) => get_d_spec(reserve_a.v(), reserve_b.v(), amp.v()) == Outcome::Fail(e.kind),
        },
{
    let two = U256::from_u64(2);
    let four = U256::from_u64(4);
    let three = U256::from_u64(3);
    let hundred = U256::from_u64(100);
    let sum = match reserve_a.checked_add(&reserve_b) {
        Some(s) => s,
        None => {
            return Err(MathError::new(ErrorKind::Overflow, "get_d: reserve sum too large"));
        },
    };
    let ann = match amp.checked_mul(&two) {
        Some(a) => a,
        None => {
            return Err(MathError::new(ErrorKind::Overflow, "get_d: amplifier too large"));
        },
    };
    let ghost a: int = reserve_a.v();
    let ghost b: int = reserve_b.v();
    let mut d = sum;
    let mut limit: usize = LIMIT;
    while limit > 0
        invariant
            two.v() == 2 && three.v() == 3 && four.v() == 4 && hundred.v() == 100,
            a == reserve_a.v(),
            b == reserve_b.v(),
            limit <= 255,
            sum.v() == a + b,
            ann.v() == amp.v() * 2,
            get_d_spec(a, b, amp.v()) == get_d_rec(a, b, ann.v(), sum.v(), sum.v(), 255),
            get_d_rec(a, b, ann.v(), sum.v(), d.v(), limit as nat) == get_d_rec(
                a,
                b,
                ann.v(),
                sum.v(),
                sum.v(),
                255,
            ),
        decreases limit,
    {
        let dd = match d.checked_mul(&d) {
            Some(p) => p,
            None => {
                return Err(MathError::new(ErrorKind::Overflow, "get_d: d^2 too large"));
            },
        };
        let t1 = match dd.checked_div(&reserve_a) {
            Some(q) => q,
            None => {
                return Err(MathError::new(ErrorKind::ZeroDivision, "get_d: empty reserve"));
            },
        };
        let t1d = match t1.checked_mul(&d) {
            Some(p) => p,
            None => {
                return Err(MathError::new(ErrorKind::Overflow, "get_d: d^3 too large"));
            },
        };
        let t2 = match t1d.checked_div(&reserve_b) {
            Some(q) => q,
            None => {
                return Err(MathError::new(ErrorKind::ZeroDivision, "get_d: empty reserve"));
            },
        };
        let d_p = match t2.checked_div(&four) {
            Some(q) => q,
            None => {
                proof {
                    assert(false);
                }
                return Err(MathError::new(ErrorKind::ZeroDivision, "get_d"));
            },
        };
        let anns = match ann.checked_mul(&sum) {
            Some(p) => p,
            None => {
                return Err(MathError::new(ErrorKind::Overflow, "get_d: ann * sum too large"));
            },
        };
        let anns_scaled = match anns.checked_div(&hundred) {
            Some(q) => q,
            None => {
                proof {
                    assert(false);
                }
                return Err(MathError::new(ErrorKind::ZeroDivision, "get_d"));
            },
        };
        let dp2 = match d_p.checked_mul(&two) {
            Some(p) => p,
            None => {
                return Err(MathError::new(ErrorKind::Overflow, "get_d: 2 d_p too large"));
            },
        };
        let num_base = match anns_scaled.checked_add(&dp2) {
            Some(s) => s,
            None => {
                return Err(MathError::new(ErrorKind::Overflow, "get_d: numerator too large"));
            },
        };
        let numerator = match num_base.checked_mul(&d) {
            Some(p) => p,
            None => {
                return Err(MathError::new(ErrorKind::Overflow, "get_d: numerator too large"));
            },
        };
        let ann_less = match ann.checked_sub(&hundred) {
            Some(s) => s,
            None => {
                return Err(
                    MathError::new(ErrorKind::NegativeResult, "get_d: amplifier below scale"),
                );
            },
        };
        let ann_d = match ann_less.checked_mul(&d) {
            Some(p) => p,
            None => {
                return Err(MathError::new(ErrorKind::Overflow, "get_d: denominator too large"));
            },
        };
        let ann_d_scaled = match ann_d.checked_div(&hundred) {
            Some(q) => q,
            None => {
                proof {
                    assert(false);
                }
                return Err(MathError::new(ErrorKind::ZeroDivision, "get_d"));
            },
        };
        let dp3 = match three.checked_mul(&d_p) {
            Some(p) => p,
            None => {
                return Err(MathError::new(ErrorKind::Overflow, "get_d: 3 d_p too large"));
            },
        };
        let denominator = match ann_d_scaled.checked_add(&dp3) {
            Some(s) => s,
            None => {
                return Err(MathError::new(ErrorKind::Overflow, "get_d: denominator too large"));
            },
        };
        let d_prev = d;
        d = match numerator.checked_div(&denominator) {
            Some(q) => q,
            None => {
                return Err(MathError::new(ErrorKind::ZeroDivision, "get_d: zero denominator"));
            },
        };
        if d.le(&d_prev) {
            match d_prev.checked_sub(&d) {
                Some(diff) => {
                    if diff.le(&U256::one()) {
                        return Ok(d);
                    }
                },
                None => {
                    proof {
                        assert(false);
                    }
                },
            }
        } else {
            match d.checked_sub(&d_prev) {
                Some(diff) => {
                    if diff.le(&U256::one()) {
                        return Ok(d);
                    }
                },
                None => {
                    proof {
                        assert(false);
                    }
                },
            }
        }
        limit = limit - 1;
    }
    Err(MathError::new(ErrorKind::Convergence, "get_d did not converge"))
}

/// Calculates the output-side reserve after a swap from the invariant by
/// bounded integer iteration; fails with `Convergence` when the budget
/// runs out.
pub fn get_y(reserve_in: U256, amp: U256, d: U256) -> (r: Result<U256, MathError>)
    ensures
        match r {
            Ok(y) => get_y_spec(reserve_in.v(), amp.v(), d.v()) == Outcome::Val(y.v()),
            Err(e) => get_y_spec(reserve_in.v(), amp.v(), d.v()) == Outcome::Fail(e.kind),
        },
{
    let two = U256::from_u64(2);
    let hundred = U256::from_u64(100);
    let ann = match amp.checked_mul(&two) {
        Some(a) => a,
        None => {
            return Err(MathError::new(ErrorKind::Overflow, "get_y: amplifier too large"));
        },
    };
    let sum = reserve_in;
    let dd = match d.checked_mul(&d) {
        Some(p) => p,
        None => {
            return Err(MathError::new(ErrorKind::Overflow, "get_y: d^2 too large"));
        },
    };
    let two_rin = match two.checked_mul(&reserve_in) {
        Some(p) => p,
        None => {
            return Err(MathError::new(ErrorKind::Overflow, "get_y: reserve too large"));
        },
    };
    let c0 = match dd.checked_div(&two_rin) {
        Some(q) => q,
        None => {
            return Err(MathError::new(ErrorKind::ZeroDivision, "get_y: empty reserve"));
        },
    };
    let c0d = match c0.checked_mul(&d) {
        Some(p) => p,
        None => {
            return Err(MathError::new(ErrorKind::Overflow, "get_y: c too large"));
        },
    };
    let c0d100 = match c0d.checked_mul(&hundred) {
        Some(p) => p,
        None => {
            return Err(MathError::new(ErrorKind::Overflow, "get_y: c too large"));
        },
    };
    let ann2 = match ann.checked_mul(&two) {
        Some(p) => p,
        None => {
            return Err(MathError::new(ErrorKind::Overflow, "get_y: amplifier too large"));
        },
    };
    let c = match c0d100.checked_div(&ann2) {
        Some(q) => q,
        None => {
            return Err(MathError::new(ErrorKind::ZeroDivision, "get_y: zero amplifier"));
        },
    };
    let d100 = match d.checked_mul(&hundred) {
        Some(p) => p,
        None => {
            return Err(MathError::new(ErrorKind::Overflow, "get_y: d too large"));
        },
    };
    let d_scaled = match d100.checked_div(&ann) {
        Some(q) => q,
        None => {
            return Err(MathError::new(ErrorKind::ZeroDivision, "get_y: zero amplifier"));
        },
    };
    let bb = match sum.checked_add(&d_scaled) {
        Some(s) => s,
        None => {
            return Err(MathError::new(ErrorKind::Overflow, "get_y: b too large"));
        },
    };
    let mut y = d;
    let mut limit: usize = LIMIT;
    while limit > 0
        invariant
            two.v() == 2 && hundred.v() == 100,
            limit <= 255,
            get_y_spec(reserve_in.v(), amp.v(), d.v()) == get_y_rec(c.v(), bb.v(), d.v(), d.v(), 255),
            get_y_rec(c.v(), bb.v(), d.v(), y.v(), limit as nat) == get_y_rec(
                c.v(),
                bb.v(),
                d.v(),
                d.v(),
                255,
            ),
        decreases limit,
    {
        let y_prev = y;
        let yy = match y.checked_mul(&y) {
            Some(p) => p,
            None => {
                return Err(MathError::new(ErrorKind::Overflow, "get_y: y^2 too large"));
            },
        };
        let num = match yy.checked_add(&c) {
            Some(s) => s,
            None => {
                return Err(MathError::new(ErrorKind::Overflow, "get_y: numerator too large"));
            },
        };
        let y2 = match two.checked_mul(&y) {
            Some(p) => p,
            None => {
                return Err(MathError::new(ErrorKind::Overflow, "get_y: 2y too large"));
            },
        };
        let y2b = match y2.checked_add(&bb) {
            Some(s) => s,
            None => {
                return Err(MathError::new(ErrorKind::Overflow, "get_y: denominator too large"));
            },
        };
        let denom = match y2b.checked_sub(&d) {
            Some(s) => s,
            None => {
                return Err(
                    MathError::new(ErrorKind::NegativeResult, "get_y: denominator below zero"),
                );
            },
        };
        y = match num.checked_div(&denom) {
            Some(q) => q,
            None => {
                return Err(MathError::new(ErrorKind::ZeroDivision, "get_y: zero denominator"));
            },
        };
        if y.le(&y_prev) {
            match y_prev.checked_sub(&y) {
                Some(diff) => {
                    if diff.le(&U256::one()) {
                        return Ok(y);
                    }
                },
                None => {
                    proof {
                        assert(false);
                    }
                },
            }
        } else {
            match y.checked_sub(&y_prev) {
                Some(diff) => {
                    if diff.le(&U256::one()) {
                        return Ok(y);
                    }
                },
                None => {
                    proof {
                        assert(false);
                    }
                },
            }
        }
        limit = limit - 1;
    }
    Err(MathError::new(ErrorKind::Convergence, "get_y did not converge"))
}

} // verus!
