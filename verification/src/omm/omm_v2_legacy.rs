//! Logarithmic-invariant quoting: a damped Newton iteration solves
//! `f(z) = z (1 - 1/A) + (1/A)(-ln(1 - z)) - k = 0` for the traded
//! fraction `z` of the output reserve, in Q64.64 fixed point.

use vstd::prelude::*;

use crate::error::{ErrorKind, MathError, Outcome};
use crate::math::decimal::{Decimal, wad_int};
use crate::math::fixed_point::{
    FixedPoint64,
    LN2_RAW,
    fp_desc_leq,
    fp_raws,
    log2_raw_spec,
    md_rec,
    pow_raw_rec,
};
use crate::math::u256::{p64, p128, p256};
use crate::math::decimal_to_fixedpoint64;
use crate::{SwapQuote, to_b_token, to_b_token_opt, to_underlying, to_underlying_opt};

verus! {

/// What multiplying two raw Q64.64 words yields, with its overflow check.
pub open spec fn fp_mul_val(x: int, y: int) -> Outcome {
    if x * y / p64() >= p128() {
        Outcome::Fail(ErrorKind::Overflow)
    } else {
        Outcome::Val(x * y / p64())
    }
}

/// What dividing two raw Q64.64 words yields, with its checks.
pub open spec fn fp_div_val(x: int, y: int) -> Outcome {
    if y == 0 {
        Outcome::Fail(ErrorKind::ZeroDivision)
    } else if x * p64() / y >= p128() {
        Outcome::Fail(ErrorKind::Overflow)
    } else {
        Outcome::Val(x * p64() / y)
    }
}

/// The raw value of `ln 2` scaled by 64: what `-ln(1-z)` is compared
/// against.
pub open spec fn ln2_64_val() -> int {
    LN2_RAW * 64
}

/// The magnitude chain of `f(z)` without the final comparison against
/// `k`: `z (1 - 1/A) + (1/A)(64 ln 2 - ln_plus_64ln2(1 - z))`, every
/// fixed-point step checked.
pub open spec fn f_inter_spec(z: int, a: int) -> Outcome {
    match fp_div_val(p64(), a) {
        Outcome::Fail(k) => Outcome::Fail(k),
        Outcome::Val(oda) => if p64() < oda {
            Outcome::Fail(ErrorKind::NegativeResult)
        } else {
            match fp_mul_val(z, p64() - oda) {
                Outcome::Fail(k) => Outcome::Fail(k),
                Outcome::Val(term1) => if p64() < z {
                    Outcome::Fail(ErrorKind::NegativeResult)
                } else if p64() - z == 0 {
                    Outcome::Fail(ErrorKind::LogOfZero)
                } else {
                    let lnp = log2_raw_spec(p64() - z) * LN2_RAW / p64();
                    if lnp > ln2_64_val() {
                        Outcome::Fail(ErrorKind::OutOfRange)
                    } else {
                        match fp_mul_val(oda, ln2_64_val() - lnp) {
                            Outcome::Fail(k) => Outcome::Fail(k),
                            Outcome::Val(term2) => if term1 + term2 >= p128() {
                                Outcome::Fail(ErrorKind::Overflow)
                            } else {
                                Outcome::Val(term1 + term2)
                            },
                        }
                    }
                },
            }
        },
    }
}

/// The chain of `f'(z) = (1 - 1/A) + 1/(A (1 - z))`, every fixed-point
/// step checked.
pub open spec fn f_prime_spec(z: int, a: int) -> Outcome {
    match fp_div_val(p64(), a) {
        Outcome::Fail(k) => Outcome::Fail(k),
        Outcome::Val(oda) => if p64() < z {
            Outcome::Fail(ErrorKind::NegativeResult)
        } else {
            match fp_mul_val(a, p64() - z) {
                Outcome::Fail(k) => Outcome::Fail(k),
                Outcome::Val(m) => match fp_div_val(p64(), m) {
                    Outcome::Fail(k) => Outcome::Fail(k),
                    Outcome::Val(term3) => if p64() < oda {
                        Outcome::Fail(ErrorKind::NegativeResult)
                    } else if p64() - oda + term3 >= p128() {
                        Outcome::Fail(ErrorKind::Overflow)
                    } else {
                        Outcome::Val(p64() - oda + term3)
                    },
                },
            }
        },
    }
}

/// Two raw words sorted into descending order.
pub open spec fn sort2_desc(a: int, b: int) -> Seq<int> {
    if a >= b {
        seq![a, b]
    } else {
        seq![b, a]
    }
}

/// Three raw words sorted into descending order.
pub open spec fn sort3_desc(a: int, b: int, c: int) -> Seq<int> {
    if a >= b && a >= c {
        seq![a] + sort2_desc(b, c)
    } else if b >= a && b >= c {
        seq![b] + sort2_desc(a, c)
    } else {
        seq![c] + sort2_desc(a, b)
    }
}

/// Sorting a two-element sequence of fixed-point values and reading the
/// raw words gives the descending pair.
proof fn lemma_sort2_fp(x: FixedPoint64, y: FixedPoint64)
    ensures
        fp_raws(seq![x, y].sort_by(fp_desc_leq())) == sort2_desc(x.raw(), y.raw()),
{
    broadcast use vstd::seq_lib::group_to_multiset_ensures;
    broadcast use vstd::multiset::group_multiset_axioms;

    let s = seq![x, y];
    crate::math::fixed_point::lemma_fp_desc_total();
    s.lemma_sort_by_ensures(fp_desc_leq());
    let cand: Seq<FixedPoint64> = if x.raw() >= y.raw() {
        seq![x, y]
    } else {
        seq![y, x]
    };
    assert(vstd::relations::sorted_by(cand, fp_desc_leq()));
    assert(s =~= Seq::empty().push(x).push(y));
    assert(seq![y, x] =~= Seq::empty().push(y).push(x));
    assert(s.to_multiset() =~= cand.to_multiset());
    vstd::seq_lib::lemma_sorted_unique(s.sort_by(fp_desc_leq()), cand, fp_desc_leq());
    assert(fp_raws(cand) =~= sort2_desc(x.raw(), y.raw()));
}

/// Sorting a three-element sequence of fixed-point values and reading the
/// raw words gives the descending triple.
proof fn lemma_sort3_fp(x: FixedPoint64, y: FixedPoint64, z: FixedPoint64)
    ensures
        fp_raws(seq![x, y, z].sort_by(fp_desc_leq())) == sort3_desc(x.raw(), y.raw(), z.raw()),
{
    broadcast use vstd::seq_lib::group_to_multiset_ensures;
    broadcast use vstd::multiset::group_multiset_axioms;

    let s = seq![x, y, z];
    crate::math::fixed_point::lemma_fp_desc_total();
    s.lemma_sort_by_ensures(fp_desc_leq());
    let cand: Seq<FixedPoint64> = if x.raw() >= y.raw() && x.raw() >= z.raw() {
        if y.raw() >= z.raw() {
            seq![x, y, z]
        } else {
            seq![x, z, y]
        }
    } else if y.raw() >= x.raw() && y.raw() >= z.raw() {
        if x.raw() >= z.raw() {
            seq![y, x, z]
        } else {
            seq![y, z, x]
        }
    } else {
        if x.raw() >= y.raw() {
            seq![z, x, y]
        } else {
            seq![z, y, x]
        }
    };
    assert(vstd::relations::sorted_by(cand, fp_desc_leq()));
    assert(s =~= Seq::empty().push(x).push(y).push(z));
    assert(seq![x, z, y] =~= Seq::empty().push(x).push(z).push(y));
    assert(seq![y, x, z] =~= Seq::empty().push(y).push(x).push(z));
    assert(seq![y, z, x] =~= Seq::empty().push(y).push(z).push(x));
    assert(seq![z, x, y] =~= Seq::empty().push(z).push(x).push(y));
    assert(seq![z, y, x] =~= Seq::empty().push(z).push(y).push(x));
    assert(s.to_multiset() =~= cand.to_multiset());
    vstd::seq_lib::lemma_sorted_unique(s.sort_by(fp_desc_leq()), cand, fp_desc_leq());
    assert(fp_raws(cand) =~= sort3_desc(x.raw(), y.raw(), z.raw()));
}

/// The smallest value the damped step clamps to, about 10^-5.
pub open spec fn newton_min_z() -> int {
    p64() / 100_000
}

/// The largest value the damped step clamps to, just below one.
pub open spec fn newton_max_z() -> int {
    999_999_999_999_999_999 * p64() / 1_000_000_000_000_000_000
}

/// The convergence tolerance, about 10^-14.
pub open spec fn newton_tol() -> int {
    p64() / 100_000_000_000_000
}

/// One round of the damped Newton iteration from `z`, with the fuel left:
/// stop when `|f(z)|` or the step drops under the tolerance, damp the
/// step by half when it is at least one or leaves `(0, 1)`, clamp a
/// damped step into `[min_z, max_z]`, and fail when the derivative is
/// close to zero.
pub open spec fn newton_rec(k: int, a: int, z: int, fuel: nat) -> Outcome
    decreases fuel,
{
    if fuel == 0 {
        Outcome::Val(z)
    } else {
        match f_inter_spec(z, a) {
            Outcome::Fail(kd) => Outcome::Fail(kd),
            Outcome::Val(m) => {
                let fx = if m >= k {
                    m - k
                } else {
                    k - m
                };
                let pos = m >= k;
                if fx < newton_tol() {
                    Outcome::Val(z)
                } else {
                    match f_prime_spec(z, a) {
                        Outcome::Fail(kd) => Outcome::Fail(kd),
                        Outcome::Val(fp) => if fp < p64() / 10_000_000_000 {
                            Outcome::Fail(ErrorKind::PrecisionLoss)
                        } else {
                            match fp_div_val(fx, fp) {
                                Outcome::Fail(kd) => Outcome::Fail(kd),
                                Outcome::Val(q) => {
                                    let alpha = if q >= p64() {
                                        p64() / 2
                                    } else {
                                        p64()
                                    };
                                    match fp_mul_val(q, alpha) {
                                        Outcome::Fail(kd) => Outcome::Fail(kd),
                                        Outcome::Val(s) => if pos && z < s {
                                            Outcome::Fail(ErrorKind::NegativeResult)
                                        } else if !pos && z + s >= p128() {
                                            Outcome::Fail(ErrorKind::Overflow)
                                        } else {
                                            let nz = if pos {
                                                z - s
                                            } else {
                                                z + s
                                            };
                                            if nz <= 0 || nz >= p64() {
                                                match fp_mul_val(q, p64() / 2) {
                                                    Outcome::Fail(kd) => Outcome::Fail(kd),
                                                    Outcome::Val(ds) => if pos && z < ds {
                                                        Outcome::Fail(ErrorKind::NegativeResult)
                                                    } else if !pos && z + ds >= p128() {
                                                        Outcome::Fail(ErrorKind::Overflow)
                                                    } else {
                                                        let t = if pos {
                                                            z - ds
                                                        } else {
                                                            z + ds
                                                        };
                                                        let nz2 = if t < newton_min_z() {
                                                            newton_min_z()
                                                        } else if t > newton_max_z() {
                                                            newton_max_z()
                                                        } else {
                                                            t
                                                        };
                                                        let ss = if nz2 >= z {
                                                            nz2 - z
                                                        } else {
                                                            z - nz2
                                                        };
                                                        if ss < newton_tol() {
                                                            Outcome::Val(z)
                                                        } else {
                                                            newton_rec(k, a, nz2, (fuel - 1) as nat)
                                                        }
                                                    },
                                                }
                                            } else {
                                                let ss = if nz >= z {
                                                    nz - z
                                                } else {
                                                    z - nz
                                                };
                                                if ss < newton_tol() {
                                                    Outcome::Val(z)
                                                } else {
                                                    newton_rec(k, a, nz, (fuel - 1) as nat)
                                                }
                                            }
                                        },
                                    }
                                },
                            }
                        },
                    }
                }
            },
        }
    }
}

/// The outcome of the whole Newton solve: the start value is the initial
/// guess clamped below one, and at most twenty rounds run.
pub open spec fn newton_spec(k: int, a: int, initial_z: int) -> Outcome {
    newton_rec(
        k,
        a,
        if initial_z >= p64() {
            newton_max_z()
        } else {
            initial_z
        },
        20,
    )
}

/// Solves `f(z) = 0` by the damped Newton iteration.
fn newton_raphson(k: &FixedPoint64, a: &FixedPoint64, initial_z: &FixedPoint64) -> (r: Result<
    FixedPoint64,
    MathError,
>)
    ensures
        match r {
            Ok(z) => newton_spec(k.raw(), a.raw(), initial_z.raw()) == Outcome::Val(z.raw()),
            Err(e) => newton_spec(k.raw(), a.raw(), initial_z.raw()) == Outcome::Fail(e.kind),
        },
{
    let one = match FixedPoint64::one() {
        Ok(o) => o,
        Err(e) => {
            proof {
                assert(false);
            }
            return Err(e);
        },
    };
    let zero = match FixedPoint64::zero() {
        Ok(z) => z,
        Err(e) => {
            proof {
                assert(false);
            }
            return Err(e);
        },
    };
    let min_z = match FixedPoint64::from_rational(1, 100_000) {
        Ok(m) => m,
        Err(e) => {
            proof {
                assert(false);
            }
            return Err(e);
        },
    };
    let max_z = match FixedPoint64::from_rational(
        999_999_999_999_999_999,
        1_000_000_000_000_000_000,
    ) {
        Ok(m) => m,
        Err(e) => {
            proof {
                assert(false);
            }
            return Err(e);
        },
    };
    let tol = match FixedPoint64::from_rational(1, 100_000_000_000_000) {
        Ok(t) => t,
        Err(e) => {
            proof {
                assert(false);
            }
            return Err(e);
        },
    };
    let half = match FixedPoint64::from_rational(1, 2) {
        Ok(h) => h,
        Err(e) => {
            proof {
                assert(false);
            }
            return Err(e);
        },
    };
    let deriv_floor = match FixedPoint64::from_rational(1, 10_000_000_000) {
        Ok(d) => d,
        Err(e) => {
            proof {
                assert(false);
            }
            return Err(e);
        },
    };

    let mut z = if initial_z.gte(&one) {
        max_z
    } else {
        *initial_z
    };
    let ghost z_start: int = z.raw();
    let mut i: u32 = 0;
    while i < 20
        invariant_except_break
            newton_rec(k.raw(), a.raw(), z.raw(), (20 - i) as nat) == newton_rec(
                k.raw(),
                a.raw(),
                z_start,
                20,
            ),
        invariant
            i <= 20,
            newton_rec(k.raw(), a.raw(), z_start, 20) == newton_spec(
                k.raw(),
                a.raw(),
                initial_z.raw(),
            ),
            one.raw() == p64(),
            zero.raw() == 0,
            min_z.raw() == newton_min_z(),
            max_z.raw() == newton_max_z(),
            tol.raw() == newton_tol(),
            half.raw() == p64() / 2,
            deriv_floor.raw() == p64() / 10_000_000_000,
        ensures
            newton_rec(k.raw(), a.raw(), z_start, 20) == Outcome::Val(z.raw()),
        decreases 20 - i,
    {
        let (fx_val, fx_positive) = match compute_f(&z, a, k) {
            Ok(p) => p,
            Err(e) => {
                return Err(e);
            },
        };
        if fx_val.lt(&tol) {
            break ;
        }
        let fp = match compute_f_prime(&z, a) {
            Ok(f) => f,
            Err(e) => {
                return Err(e);
            },
        };
        if fp.lt(&deriv_floor) {
            return Err(MathError::new(ErrorKind::PrecisionLoss, "newton: derivative near zero"));
        }
        let fx_div_fp = match fx_val.div(&fp) {
            Ok(q) => q,
            Err(e) => {
                return Err(e);
            },
        };
        let alpha = if fx_div_fp.gte(&one) {
            half
        } else {
            one
        };
        let step = match fx_div_fp.mul(&alpha) {
            Ok(s) => s,
            Err(e) => {
                return Err(e);
            },
        };
        let new_z = if fx_positive {
            match z.sub(&step) {
                Ok(n) => n,
                Err(e) => {
                    return Err(e);
                },
            }
        } else {
            match z.add(&step) {
                Ok(n) => n,
                Err(e) => {
                    return Err(e);
                },
            }
        };
        let new_z = if new_z.lte(&zero) || new_z.gte(&one) {
            let damped_step = match fx_div_fp.mul(&half) {
                Ok(d) => d,
                Err(e) => {
                    return Err(e);
                },
            };
            let temp_z = if fx_positive {
                match z.sub(&damped_step) {
                    Ok(t) => t,
                    Err(e) => {
                        return Err(e);
                    },
                }
            } else {
                match z.add(&damped_step) {
                    Ok(t) => t,
                    Err(e) => {
                        return Err(e);
                    },
                }
            };
            if temp_z.lt(&min_z) {
                min_z
            } else if temp_z.gt(&max_z) {
                max_z
            } else {
                temp_z
            }
        } else {
            new_z
        };
        let step_size = if new_z.gte(&z) {
            match new_z.sub(&z) {
                Ok(s) => s,
                Err(e) => {
                    proof {
                        assert(false);
                    }
                    return Err(e);
                },
            }
        } else {
            match z.sub(&new_z) {
                Ok(s) => s,
                Err(e) => {
                    proof {
                        assert(false);
                    }
                    return Err(e);
                },
            }
        };
        if step_size.lt(&tol) {
            break ;
        }
        z = new_z;
        i = i + 1;
    }
    Ok(z)
}

/// The outcome of the ratio `k`: the traded value over the output-side
/// reserve value, computed by the overflow-averse multiply-then-divide
/// chain over the sorted operand buffers.
pub open spec fn quote_a_k_spec(
    delta: int,
    px: int,
    py: int,
    rx: int,
    ry: int,
    dp: int,
    x2y: bool,
) -> Outcome {
    if x2y {
        md_rec(sort2_desc(delta, px), sort3_desc(ry, py, dp), 2, 3, p64())
    } else {
        md_rec(sort3_desc(delta, dp, py), sort2_desc(rx, px), 3, 2, p64())
    }
}

/// The decimal-place adjustment factor `10^|dx - dy|` in Q64.64, placed
/// in the numerator or inverted, depending on which side has more
/// decimal places.
pub open spec fn dec_pow_outcome(dx: nat, dy: nat) -> Outcome {
    if dx >= dy {
        match pow_raw_rec(10 * p64(), (dx - dy) as nat, p64()) {
            None => Outcome::Fail(ErrorKind::Overflow),
            Some(v) => if v >= p128() {
                Outcome::Fail(ErrorKind::Overflow)
            } else {
                Outcome::Val(v)
            },
        }
    } else {
        match pow_raw_rec(10 * p64(), (dy - dx) as nat, p64()) {
            None => Outcome::Fail(ErrorKind::Overflow),
            Some(v) => if v >= p128() {
                Outcome::Fail(ErrorKind::Overflow)
            } else {
                fp_div_val(p64(), v)
            },
        }
    }
}

/// The full outcome of the logarithmic-invariant quote on underlying
/// values: convert everything to Q64.64, form `k`, solve by Newton, and
/// take the floor of `z` times the output reserve; zero when the pool
/// cannot cover the result.
pub open spec fn quote_a_inner_outcome(
    amount_in: int,
    reserve_x: int,
    reserve_y: int,
    px: int,
    py: int,
    dx: nat,
    dy: nat,
    amp: int,
    x2y: bool,
) -> Outcome {
    if reserve_x >= p64() {
        Outcome::Fail(ErrorKind::Overflow)
    } else if reserve_y >= p64() {
        Outcome::Fail(ErrorKind::Overflow)
    } else if px * p64() >= p256() || px * p64() / wad_int() >= p128() {
        Outcome::Fail(ErrorKind::Overflow)
    } else if py * p64() >= p256() || py * p64() / wad_int() >= p128() {
        Outcome::Fail(ErrorKind::Overflow)
    } else if amp >= p64() {
        Outcome::Fail(ErrorKind::Overflow)
    } else if amount_in >= p64() {
        Outcome::Fail(ErrorKind::Overflow)
    } else {
        let rxf = reserve_x * p64();
        let ryf = reserve_y * p64();
        let pxf = px * p64() / wad_int();
        let pyf = py * p64() / wad_int();
        let ampf = amp * p64();
        let deltaf = amount_in * p64();
        match dec_pow_outcome(dx, dy) {
            Outcome::Fail(k) => Outcome::Fail(k),
            Outcome::Val(dp) => quote_a_solve_spec(
                deltaf,
                pxf,
                pyf,
                rxf,
                ryf,
                dp,
                ampf,
                reserve_x,
                reserve_y,
                x2y,
            ),
        }
    }
}

/// The solving stage of the quote, after all conversions: form `k`, run
/// the Newton iteration, take the floor of `z` times the output reserve,
/// and return zero when the pool cannot cover it.
pub open spec fn quote_a_solve_spec(
    delta: int,
    px: int,
    py: int,
    rx: int,
    ry: int,
    dp: int,
    ampf: int,
    reserve_x: int,
    reserve_y: int,
    x2y: bool,
) -> Outcome {
    match quote_a_k_spec(delta, px, py, rx, ry, dp, x2y) {
        Outcome::Fail(k) => Outcome::Fail(k),
        Outcome::Val(kv) => {
            let mb = 9_999_999_999 * p64() / 10_000_000_000;
            let z0 = if mb < kv {
                mb
            } else {
                kv
            };
            match newton_spec(kv, ampf, z0) {
                Outcome::Fail(k) => Outcome::Fail(k),
                Outcome::Val(zv) => match fp_mul_val(zv, ryf_of(rx, ry, x2y)) {
                    Outcome::Fail(k) => Outcome::Fail(k),
                    Outcome::Val(prod) => {
                        let dout = prod / p64();
                        if x2y {
                            if dout >= reserve_y {
                                Outcome::Val(0)
                            } else {
                                Outcome::Val(dout)
                            }
                        } else {
                            if dout >= reserve_x {
                                Outcome::Val(0)
                            } else {
                                Outcome::Val(dout)
                            }
                        }
                    },
                },
            }
        },
    }
}

/// The fixed-point reserve on the output side of the trade.
pub open spec fn ryf_of(rx: int, ry: int, x2y: bool) -> int {
    if x2y {
        ry
    } else {
        rx
    }
}

/// Quotes the underlying output for an underlying input: the invariant
/// solve between the fixed-point conversions.
#[verifier::rlimit(100)]
pub fn quote_swap_inner(
    amount_in: u128,
    reserve_x: u128,
    reserve_y: u128,
    price_x: Decimal,
    price_y: Decimal,
    decimals_x: u32,
    decimals_y: u32,
    amplifier: u32,
    x2y: bool,
) -> (r: Result<u128, MathError>)
    ensures
        ({
            let outcome = quote_a_inner_outcome(
                amount_in as int,
                reserve_x as int,
                reserve_y as int,
                price_x.v(),
                price_y.v(),
                decimals_x as nat,
                decimals_y as nat,
                amplifier as int,
                x2y,
            );
            match r {
                Ok(v) => outcome == Outcome::Val(v as int) && v < p64() && (x2y ==> v
                    <= reserve_y) && (!x2y ==> v <= reserve_x),
                Err(e) => outcome == Outcome::Fail(e.kind),
            }
        }),
{
    let r_x = match FixedPoint64::from(reserve_x) {
        Ok(f) => f,
        Err(e) => {
            return Err(e);
        },
    };
    let r_y = match FixedPoint64::from(reserve_y) {
        Ok(f) => f,
        Err(e) => {
            return Err(e);
        },
    };
    let p_x = match decimal_to_fixedpoint64(price_x) {
        Ok(f) => f,
        Err(e) => {
            return Err(e);
        },
    };
    let p_y = match decimal_to_fixedpoint64(price_y) {
        Ok(f) => f,
        Err(e) => {
            return Err(e);
        },
    };
    let amp = match FixedPoint64::from(amplifier as u128) {
        Ok(f) => f,
        Err(e) => {
            return Err(e);
        },
    };
    let delta_in = match FixedPoint64::from(amount_in) {
        Ok(f) => f,
        Err(e) => {
            return Err(e);
        },
    };

    let ten = match FixedPoint64::from(10) {
        Ok(f) => f,
        Err(e) => {
            proof {
                assert(false);
            }
            return Err(e);
        },
    };
    let dec_pow = if decimals_x >= decimals_y {
        match ten.pow(decimals_x - decimals_y) {
            Ok(f) => f,
            Err(e) => {
                return Err(e);
            },
        }
    } else {
        let powed = match ten.pow(decimals_y - decimals_x) {
            Ok(f) => f,
            Err(e) => {
                return Err(e);
            },
        };
        let one = match FixedPoint64::one() {
            Ok(o) => o,
            Err(e) => {
                proof {
                    assert(false);
                }
                return Err(e);
            },
        };
        match one.div(&powed) {
            Ok(f) => f,
            Err(e) => {
                return Err(e);
            },
        }
    };

    quote_a_solve(delta_in, p_x, p_y, r_x, r_y, dec_pow, amp, reserve_x, reserve_y, x2y)
}

/// Runs the solving stage on already-converted fixed-point operands.
#[verifier::rlimit(60)]
fn quote_a_solve(
    delta_in: FixedPoint64,
    p_x: FixedPoint64,
    p_y: FixedPoint64,
    r_x: FixedPoint64,
    r_y: FixedPoint64,
    dec_pow: FixedPoint64,
    amp: FixedPoint64,
    reserve_x: u128,
    reserve_y: u128,
    x2y: bool,
) -> (r: Result<u128, MathError>)
    ensures
        ({
            let outcome = quote_a_solve_spec(
                delta_in.raw(),
                p_x.raw(),
                p_y.raw(),
                r_x.raw(),
                r_y.raw(),
                dec_pow.raw(),
                amp.raw(),
                reserve_x as int,
                reserve_y as int,
                x2y,
            );
            match r {
                Ok(v) => outcome == Outcome::Val(v as int) && (x2y ==> v <= reserve_y) && (!x2y
                    ==> v <= reserve_x),
                Err(e) => outcome == Outcome::Fail(e.kind),
            }
        }),
{
    let k = if x2y {
        let mut numerators: Vec<FixedPoint64> = Vec::new();
        numerators.push(delta_in);
        numerators.push(p_x);
        let mut denominators: Vec<FixedPoint64> = Vec::new();
        denominators.push(r_y);
        denominators.push(p_y);
        denominators.push(dec_pow);
        proof {
            assert(numerators@ =~= seq![delta_in, p_x]);
            assert(denominators@ =~= seq![r_y, p_y, dec_pow]);
        }
        let res = FixedPoint64::multiply_divide(&mut numerators, &mut denominators);
        proof {
            lemma_sort2_fp(delta_in, p_x);
            lemma_sort3_fp(r_y, p_y, dec_pow);
            assert(fp_raws(numerators@) == sort2_desc(delta_in.raw(), p_x.raw()));
            assert(fp_raws(denominators@) == sort3_desc(r_y.raw(), p_y.raw(), dec_pow.raw()));
            assert(fp_raws(numerators@).len() == numerators@.len());
            assert(fp_raws(denominators@).len() == denominators@.len());
            assert(numerators@.len() == 2);
            assert(denominators@.len() == 3);
        }
        match res {
            Ok(k) => k,
            Err(e) => {
                return Err(e);
            },
        }
    } else {
        let mut numerators: Vec<FixedPoint64> = Vec::new();
        numerators.push(delta_in);
        numerators.push(dec_pow);
        numerators.push(p_y);
        let mut denominators: Vec<FixedPoint64> = Vec::new();
        denominators.push(r_x);
        denominators.push(p_x);
        proof {
            assert(numerators@ =~= seq![delta_in, dec_pow, p_y]);
            assert(denominators@ =~= seq![r_x, p_x]);
        }
        let res = FixedPoint64::multiply_divide(&mut numerators, &mut denominators);
        proof {
            lemma_sort3_fp(delta_in, dec_pow, p_y);
            lemma_sort2_fp(r_x, p_x);
            assert(fp_raws(numerators@) == sort3_desc(delta_in.raw(), dec_pow.raw(), p_y.raw()));
            assert(fp_raws(denominators@) == sort2_desc(r_x.raw(), p_x.raw()));
            assert(fp_raws(numerators@).len() == numerators@.len());
            assert(fp_raws(denominators@).len() == denominators@.len());
            assert(numerators@.len() == 3);
            assert(denominators@.len() == 2);
        }
        match res {
            Ok(k) => k,
            Err(e) => {
                return Err(e);
            },
        }
    };

    proof {
        assert(quote_a_k_spec(
            delta_in.raw(),
            p_x.raw(),
            p_y.raw(),
            r_x.raw(),
            r_y.raw(),
            dec_pow.raw(),
            x2y,
        ) == Outcome::Val(k.raw()));
    }
    let max_bound = match FixedPoint64::from_rational(9_999_999_999, 10_000_000_000) {
        Ok(m) => m,
        Err(e) => {
            proof {
                assert(false);
            }
            return Err(e);
        },
    };
    let initial_z = if max_bound.lt(&k) {
        max_bound
    } else {
        k
    };

    let z = match newton_raphson(&k, &amp, &initial_z) {
        Ok(z) => z,
        Err(e) => {
            return Err(e);
        },
    };

    let product = if x2y {
        match z.mul(&r_y) {
            Ok(p) => p,
            Err(e) => {
                return Err(e);
            },
        }
    } else {
        match z.mul(&r_x) {
            Ok(p) => p,
            Err(e) => {
                return Err(e);
            },
        }
    };
    let delta_out = product.to_u128_down();

    if x2y && delta_out >= reserve_y {
        Ok(0)
    } else if !x2y && delta_out >= reserve_x {
        Ok(0)
    } else {
        Ok(delta_out)
    }
}

/// Computes the value of `f(z)` as a magnitude and a sign: true when
/// `f(z) >= 0`, that is, when the intermediate magnitude reaches `k`.
fn compute_f(z: &FixedPoint64, a: &FixedPoint64, k: &FixedPoint64) -> (r: Result<
    (FixedPoint64, bool),
    MathError,
>)
    ensures
        match r {
            Ok(pair) => match f_inter_spec(z.raw(), a.raw()) {
                Outcome::Val(m) => pair.1 == (m >= k.raw()) && pair.0.raw() == if m >= k.raw() {
                    m - k.raw()
                } else {
                    k.raw() - m
                },
                Outcome::Fail(_) => false,
            },
            Err(e) => f_inter_spec(z.raw(), a.raw()) == Outcome::Fail(e.kind),
        },
{
    let one = match FixedPoint64::one() {
        Ok(o) => o,
        Err(e) => {
            proof {
                assert(false);
            }
            return Err(e);
        },
    };
    let ln2_fp = match FixedPoint64::from_raw_value(LN2_RAW) {
        Ok(l) => l,
        Err(e) => {
            proof {
                assert(false);
            }
            return Err(e);
        },
    };
    let sixty_four = match FixedPoint64::from(64) {
        Ok(s) => s,
        Err(e) => {
            proof {
                assert(false);
            }
            return Err(e);
        },
    };
    let ln2_64 = match ln2_fp.mul(&sixty_four) {
        Ok(l) => l,
        Err(e) => {
            proof {
                lemma_ln2_64_product();
            }
            return Err(e);
        },
    };
    proof {
        lemma_ln2_64_product();
    }
    let one_div_a = match one.div(a) {
        Ok(o) => o,
        Err(e) => {
            return Err(e);
        },
    };
    let one_less = match one.sub(&one_div_a) {
        Ok(o) => o,
        Err(e) => {
            return Err(e);
        },
    };
    let term1 = match z.mul(&one_less) {
        Ok(t) => t,
        Err(e) => {
            return Err(e);
        },
    };
    let one_minus_z = match one.sub(z) {
        Ok(o) => o,
        Err(e) => {
            return Err(e);
        },
    };
    let ln_plus_64ln2 = match one_minus_z.ln_plus_64ln2() {
        Ok(l) => l,
        Err(e) => {
            return Err(e);
        },
    };
    if ln_plus_64ln2.gt(&ln2_64) {
        return Err(
            MathError::new(ErrorKind::OutOfRange, "compute_f: logarithm above 64 ln 2"),
        );
    }
    let ln_magnitude = match ln2_64.sub(&ln_plus_64ln2) {
        Ok(l) => l,
        Err(e) => {
            proof {
                assert(false);
            }
            return Err(e);
        },
    };
    let term2_magnitude = match one_div_a.mul(&ln_magnitude) {
        Ok(t) => t,
        Err(e) => {
            return Err(e);
        },
    };
    let intermediate_magnitude = match term1.add(&term2_magnitude) {
        Ok(i) => i,
        Err(e) => {
            return Err(e);
        },
    };
    if intermediate_magnitude.gte(k) {
        match intermediate_magnitude.sub(k) {
            Ok(m) => Ok((m, true)),
            Err(e) => {
                proof {
                    assert(false);
                }
                Err(e)
            },
        }
    } else {
        match k.sub(&intermediate_magnitude) {
            Ok(m) => Ok((m, false)),
            Err(e) => {
                proof {
                    assert(false);
                }
                Err(e)
            },
        }
    }
}

/// `ln 2` in Q64.64 times the integer 64 comes out exactly.
proof fn lemma_ln2_64_product()
    ensures
        LN2_RAW * (64 * p64()) / p64() == LN2_RAW * 64,
        LN2_RAW * 64 < p128(),
{
    assert(LN2_RAW * (64 * p64()) == (LN2_RAW * 64) * p64()) by (nonlinear_arith);
    vstd::arithmetic::div_mod::lemma_div_by_multiple(LN2_RAW * 64, p64());
}

/// Computes the value of the derivative `f'(z)`.
fn compute_f_prime(z: &FixedPoint64, a: &FixedPoint64) -> (r: Result<FixedPoint64, MathError>)
    ensures
        match r {
            Ok(f) => f_prime_spec(z.raw(), a.raw()) == Outcome::Val(f.raw()),
            Err(e) => f_prime_spec(z.raw(), a.raw()) == Outcome::Fail(e.kind),
        },
{
    let one = match FixedPoint64::one() {
        Ok(o) => o,
        Err(e) => {
            proof {
                assert(false);
            }
            return Err(e);
        },
    };
    let one_div_a = match one.div(a) {
        Ok(o) => o,
        Err(e) => {
            return Err(e);
        },
    };
    let one_minus_z = match one.sub(z) {
        Ok(o) => o,
        Err(e) => {
            return Err(e);
        },
    };
    let denom = match a.mul(&one_minus_z) {
        Ok(d) => d,
        Err(e) => {
            return Err(e);
        },
    };
    let term3 = match one.div(&denom) {
        Ok(t) => t,
        Err(e) => {
            return Err(e);
        },
    };
    let base = match one.sub(&one_div_a) {
        Ok(b) => b,
        Err(e) => {
            return Err(e);
        },
    };
    match base.add(&term3) {
        Ok(f) => Ok(f),
        Err(e) => Err(e),
    }
}

/// The full outcome of the logarithmic-invariant quote on b-token values:
/// convert the reserves and the input to underlying amounts, run the
/// inner quote, convert back to b-tokens, and return zero when the
/// b-token reserve cannot cover the result.
pub open spec fn quote_a_outcome(
    b_in: int,
    b_reserve_x: int,
    b_reserve_y: int,
    px: int,
    py: int,
    dx: nat,
    dy: nat,
    amp: int,
    x2y: bool,
    ratio_x: int,
    ratio_y: int,
) -> Outcome {
    let rin = if x2y {
        ratio_x
    } else {
        ratio_y
    };
    match to_underlying_opt(b_reserve_x, ratio_x) {
        None => Outcome::Fail(ErrorKind::OutOfRange),
        Some(resx) => match to_underlying_opt(b_reserve_y, ratio_y) {
            None => Outcome::Fail(ErrorKind::OutOfRange),
            Some(resy) => match to_underlying_opt(b_in, rin) {
                None => Outcome::Fail(ErrorKind::OutOfRange),
                Some(ain) => match quote_a_inner_outcome(
                    ain,
                    resx,
                    resy,
                    px,
                    py,
                    dx,
                    dy,
                    amp,
                    x2y,
                ) {
                    Outcome::Fail(k) => Outcome::Fail(k),
                    Outcome::Val(v) => match to_b_token_opt(
                        v,
                        if x2y {
                            ratio_y
                        } else {
                            ratio_x
                        },
                    ) {
                        None => Outcome::Fail(ErrorKind::OutOfRange),
                        Some(bt) => if x2y && bt >= b_reserve_y {
                            Outcome::Val(0)
                        } else if !x2y && bt >= b_reserve_x {
                            Outcome::Val(0)
                        } else {
                            Outcome::Val(bt)
                        },
                    },
                },
            },
        },
    }
}

/// Computes the gross b-token output of a swap through the logarithmic
/// invariant, without any fees.
pub fn quote_swap_no_fees(
    b_token_amount_in: u64,
    b_token_reserve_x: u64,
    b_token_reserve_y: u64,
    price_x: Decimal,
    price_y: Decimal,
    decimals_x: u32,
    decimals_y: u32,
    amplifier: u32,
    x2y: bool,
    b_token_ratio_x: Decimal,
    b_token_ratio_y: Decimal,
) -> (r: Result<u64, MathError>)
    requires
        to_underlying_opt(
            b_token_amount_in as int,
            if x2y {
                b_token_ratio_x.v()
            } else {
                b_token_ratio_y.v()
            },
        ) is Some,
        to_underlying_opt(b_token_reserve_x as int, b_token_ratio_x.v()) is Some,
        to_underlying_opt(b_token_reserve_y as int, b_token_ratio_y.v()) is Some,
        ({
            let outcome = quote_a_outcome(
                b_token_amount_in as int,
                b_token_reserve_x as int,
                b_token_reserve_y as int,
                price_x.v(),
                price_y.v(),
                decimals_x as nat,
                decimals_y as nat,
                amplifier as int,
                x2y,
                b_token_ratio_x.v(),
                b_token_ratio_y.v(),
            );
            !(outcome == Outcome::Fail(ErrorKind::OutOfRange) && match quote_a_inner_outcome(
                to_underlying_opt(
                    b_token_amount_in as int,
                    if x2y {
                        b_token_ratio_x.v()
                    } else {
                        b_token_ratio_y.v()
                    },
                )->Some_0,
                to_underlying_opt(b_token_reserve_x as int, b_token_ratio_x.v())->Some_0,
                to_underlying_opt(b_token_reserve_y as int, b_token_ratio_y.v())->Some_0,
                price_x.v(),
                price_y.v(),
                decimals_x as nat,
                decimals_y as nat,
                amplifier as int,
                x2y,
            ) {
                Outcome::Val(v) => to_b_token_opt(
                    v,
                    if x2y {
                        b_token_ratio_y.v()
                    } else {
                        b_token_ratio_x.v()
                    },
                ) is None,
                Outcome::Fail(_) => false,
            })
        }),
    ensures
        ({
            let outcome = quote_a_outcome(
                b_token_amount_in as int,
                b_token_reserve_x as int,
                b_token_reserve_y as int,
                price_x.v(),
                price_y.v(),
                decimals_x as nat,
                decimals_y as nat,
                amplifier as int,
                x2y,
                b_token_ratio_x.v(),
                b_token_ratio_y.v(),
            );
            match r {
                Ok(v) => outcome == Outcome::Val(v as int) && (x2y ==> v <= b_token_reserve_y) && (
                !x2y ==> v <= b_token_reserve_x),
                Err(e) => outcome == Outcome::Fail(e.kind),
            }
        }),
{
    let reserve_x = to_underlying(b_token_reserve_x, &b_token_ratio_x);
    let reserve_y = to_underlying(b_token_reserve_y, &b_token_ratio_y);

    let amount_in = to_underlying(
        b_token_amount_in,
        if x2y {
            &b_token_ratio_x
        } else {
            &b_token_ratio_y
        },
    );
    let out = match quote_swap_inner(
        amount_in as u128,
        reserve_x as u128,
        reserve_y as u128,
        price_x,
        price_y,
        decimals_x,
        decimals_y,
        amplifier,
        x2y,
    ) {
        Ok(v) => v,
        Err(e) => {
            return Err(e);
        },
    };
    let amount_out_b_token = to_b_token(
        out as u64,
        if x2y {
            &b_token_ratio_y
        } else {
            &b_token_ratio_x
        },
    );

    if x2y && amount_out_b_token >= b_token_reserve_y {
        Ok(0)
    } else if !x2y && amount_out_b_token >= b_token_reserve_x {
        Ok(0)
    } else {
        Ok(amount_out_b_token)
    }
}

/// Quotes a swap through the logarithmic invariant, including fees: the
/// gross output net of protocol and pool fees at the configured rate.
pub fn quote_swap(
    b_token_amount_in: u64,
    b_token_reserve_x: u64,
    b_token_reserve_y: u64,
    price_x: Decimal,
    price_y: Decimal,
    decimals_x: u32,
    decimals_y: u32,
    amplifier: u32,
    x2y: bool,
    b_token_ratio_x: Decimal,
    b_token_ratio_y: Decimal,
    swap_fee_bps: u64,
) -> (r: Result<SwapQuote, MathError>)
    requires
        to_underlying_opt(
            b_token_amount_in as int,
            if x2y {
                b_token_ratio_x.v()
            } else {
                b_token_ratio_y.v()
            },
        ) is Some,
        to_underlying_opt(b_token_reserve_x as int, b_token_ratio_x.v()) is Some,
        to_underlying_opt(b_token_reserve_y as int, b_token_ratio_y.v()) is Some,
        ({
            let outcome = quote_a_outcome(
                b_token_amount_in as int,
                b_token_reserve_x as int,
                b_token_reserve_y as int,
                price_x.v(),
                price_y.v(),
                decimals_x as nat,
                decimals_y as nat,
                amplifier as int,
                x2y,
                b_token_ratio_x.v(),
                b_token_ratio_y.v(),
            );
            !(outcome == Outcome::Fail(ErrorKind::OutOfRange) && match quote_a_inner_outcome(
                to_underlying_opt(
                    b_token_amount_in as int,
                    if x2y {
                        b_token_ratio_x.v()
                    } else {
                        b_token_ratio_y.v()
                    },
                )->Some_0,
                to_underlying_opt(b_token_reserve_x as int, b_token_ratio_x.v())->Some_0,
                to_underlying_opt(b_token_reserve_y as int, b_token_ratio_y.v())->Some_0,
                price_x.v(),
                price_y.v(),
                decimals_x as nat,
                decimals_y as nat,
                amplifier as int,
                x2y,
            ) {
                Outcome::Val(v) => to_b_token_opt(
                    v,
                    if x2y {
                        b_token_ratio_y.v()
                    } else {
                        b_token_ratio_x.v()
                    },
                ) is None,
                Outcome::Fail(_) => false,
            }) && match outcome {
                Outcome::Val(out) => crate::total_fees_spec(out, swap_fee_bps as int)
                    <= u64::MAX,
                Outcome::Fail(_) => true,
            }
        }),
    ensures
        ({
            let outcome = quote_a_outcome(
                b_token_amount_in as int,
                b_token_reserve_x as int,
                b_token_reserve_y as int,
                price_x.v(),
                price_y.v(),
                decimals_x as nat,
                decimals_y as nat,
                amplifier as int,
                x2y,
                b_token_ratio_x.v(),
                b_token_ratio_y.v(),
            );
            match r {
                Ok(q) => match outcome {
                    Outcome::Val(out) => {
                        let total = crate::total_fees_spec(out, swap_fee_bps as int);
                        q.amount_in == b_token_amount_in && q.a2b == x2y && q.protocol_fees
                            == crate::protocol_fees_spec(total) && q.pool_fees == total
                            - crate::protocol_fees_spec(total) && q.amount_out == if out >= total {
                            out - total
                        } else {
                            0int
                        }
                    },
                    Outcome::Fail(_) => false,
                },
                Err(e) => outcome == Outcome::Fail(e.kind),
            }
        }),
{
    let amount_out_btoken = match quote_swap_no_fees(
        b_token_amount_in,
        b_token_reserve_x,
        b_token_reserve_y,
        price_x,
        price_y,
        decimals_x,
        decimals_y,
        amplifier,
        x2y,
        b_token_ratio_x,
        b_token_ratio_y,
    ) {
        Ok(v) => v,
        Err(e) => {
            return Err(e);
        },
    };
    Ok(crate::get_quote(b_token_amount_in, amount_out_btoken, x2y, swap_fee_bps, None))
}

} // verus!
