//! Library-wide laws: properties that relate several functions, proved
//! once and for all inputs, over the same spec functions the functions'
//! own contracts use.

use vstd::prelude::*;
use vstd::arithmetic::div_mod::*;

use crate::error::{ErrorKind, Outcome};
use crate::math::decimal::wad_int;
use crate::math::div_round_up;
use crate::math::fixed_point::{log2_frac_rec, log2_ip, log2_norm, log2_raw_spec, md_rec};
use crate::math::u256::{p64, p128, p256};
use crate::omm::omm_v2_legacy::{
    dec_pow_outcome,
    f_inter_spec,
    newton_rec,
    newton_spec,
    newton_tol,
    quote_a_inner_outcome,
    quote_a_k_spec,
    quote_a_outcome,
    quote_a_solve_spec,
    sort2_desc,
    sort3_desc,
};
use crate::math::fixed_point::{FixedPoint64, fp_desc_leq, fp_raws};
use crate::{protocol_fees_spec, to_b_token_opt, to_underlying_opt, total_fees_spec};

verus! {

/// The multiply-then-divide operator reads its operands only as
/// multisets: two calls whose numerator and denominator buffers are
/// permutations of one another sort to the same buffers, and so reach
/// the same outcome through the operator's contract.
pub proof fn lemma_multiply_divide_order_independent(
    n1: Seq<FixedPoint64>,
    n2: Seq<FixedPoint64>,
    d1: Seq<FixedPoint64>,
    d2: Seq<FixedPoint64>,
)
    requires
        n1.to_multiset() == n2.to_multiset(),
        d1.to_multiset() == d2.to_multiset(),
    ensures
        n1.sort_by(fp_desc_leq()) == n2.sort_by(fp_desc_leq()),
        d1.sort_by(fp_desc_leq()) == d2.sort_by(fp_desc_leq()),
        md_rec(
            fp_raws(n1.sort_by(fp_desc_leq())),
            fp_raws(d1.sort_by(fp_desc_leq())),
            n1.len(),
            d1.len(),
            p64(),
        ) == md_rec(
            fp_raws(n2.sort_by(fp_desc_leq())),
            fp_raws(d2.sort_by(fp_desc_leq())),
            n2.len(),
            d2.len(),
            p64(),
        ),
{
    broadcast use vstd::seq_lib::group_to_multiset_ensures;

    crate::math::fixed_point::lemma_fp_desc_total();
    n1.lemma_sort_by_ensures(fp_desc_leq());
    n2.lemma_sort_by_ensures(fp_desc_leq());
    d1.lemma_sort_by_ensures(fp_desc_leq());
    d2.lemma_sort_by_ensures(fp_desc_leq());
    vstd::seq_lib::lemma_sorted_unique(
        n1.sort_by(fp_desc_leq()),
        n2.sort_by(fp_desc_leq()),
        fp_desc_leq(),
    );
    vstd::seq_lib::lemma_sorted_unique(
        d1.sort_by(fp_desc_leq()),
        d2.sort_by(fp_desc_leq()),
        fp_desc_leq(),
    );
    assert(n1.sort_by(fp_desc_leq()) =~= n2.sort_by(fp_desc_leq()));
    assert(d1.sort_by(fp_desc_leq()) =~= d2.sort_by(fp_desc_leq()));
    assert(n1.len() == n1.to_multiset().len() == n2.len());
    assert(d1.len() == d1.to_multiset().len() == d2.len());
}

/// The squaring chain extracts no fraction bits from an exact power of
/// two: the normalised mantissa of one stays fixed at `2^63`.
proof fn lemma_log2_frac_half(k: nat)
    ensures
        log2_frac_rec(0x8000_0000_0000_0000, k) == 0,
    decreases k,
{
    if k > 0 {
        assert(0x8000_0000_0000_0000int * 0x8000_0000_0000_0000int / 0x8000_0000_0000_0000int
            == 0x8000_0000_0000_0000int);
        lemma_log2_frac_half((k - 1) as nat);
    }
}

/// The base-two logarithm of the raw word for the number one is exactly
/// 64 in Q64.64.
proof fn lemma_log2_raw_one()
    ensures
        log2_raw_spec(p64()) == 64 * p64(),
{
    vstd::arithmetic::power2::lemma2_to64();
    assert(vstd::arithmetic::power2::pow2(65) == 0x2_0000_0000_0000_0000) by {
        vstd::arithmetic::power2::lemma_pow2_adds(64, 1);
    }
    crate::math::fixed_point::lemma_log2_ip(p64(), 64);
    assert(log2_norm(p64()) == p64() / (vstd::arithmetic::power2::pow2(1) as int));
    assert(log2_norm(p64()) == 0x8000_0000_0000_0000int);
    lemma_log2_frac_half(64);
}

/// Swapping nothing through the logarithmic-invariant quoter yields
/// nothing: with positive reserves, prices and amplifier, and a usable
/// decimal adjustment, a zero input quotes a zero output, and zero fees
/// follow from the fee decomposition.
pub proof fn lemma_zero_input_zero_output(
    reserve_x: int,
    reserve_y: int,
    px: int,
    py: int,
    dx: nat,
    dy: nat,
    amp: int,
    x2y: bool,
)
    requires
        0 < reserve_x < p64(),
        0 < reserve_y < p64(),
        px * p64() < p256() && px * p64() / wad_int() < p128(),
        py * p64() < p256() && py * p64() / wad_int() < p128(),
        px * p64() / wad_int() > 0,
        py * p64() / wad_int() > 0,
        1 <= amp < p64(),
        match dec_pow_outcome(dx, dy) {
            Outcome::Val(dp) => dp > 0,
            Outcome::Fail(_) => false,
        },
    ensures
        quote_a_inner_outcome(0, reserve_x, reserve_y, px, py, dx, dy, amp, x2y)
            == Outcome::Val(0),
        total_fees_spec(0, 0) == 0,
{
    let w = p64();
    let dp = match dec_pow_outcome(dx, dy) {
        Outcome::Val(dp) => dp,
        Outcome::Fail(_) => 0int,
    };
    let rxf = reserve_x * w;
    let ryf = reserve_y * w;
    let pxf = px * w / wad_int();
    let pyf = py * w / wad_int();
    let ampf = amp * w;
    assert(0int * w == 0) by (nonlinear_arith);
    assert(rxf > 0 && ryf > 0 && ampf >= w) by (nonlinear_arith)
        requires
            reserve_x >= 1 && reserve_y >= 1 && amp >= 1 && w > 0 && rxf == reserve_x * w && ryf
                == reserve_y * w && ampf == amp * w,
    ;

    // The multiply-then-divide chain on a zero numerator stays at zero.
    assert(quote_a_k_spec(0, pxf, pyf, rxf, ryf, dp, x2y) == Outcome::Val(0)) by {
        lemma_zero_product_chain(pxf, pyf, rxf, ryf, dp, x2y);
    }

    // Newton accepts z = 0 at once, because f(0) = 0 for k = 0.
    assert(newton_spec(0, ampf, 0) == Outcome::Val(0)) by {
        lemma_newton_zero(ampf);
    }

    assert(quote_a_solve_spec(0, pxf, pyf, rxf, ryf, dp, ampf, reserve_x, reserve_y, x2y)
        == Outcome::Val(0)) by {
        assert(0int * ryf / w == 0 && 0int * rxf / w == 0) by (nonlinear_arith)
            requires
                w > 0,
        ;
        assert(0int / w == 0);
    }
    assert(0int * 0 == 0) by (nonlinear_arith);
}

/// Swapping nothing through the logarithmic-invariant quoter yields a
/// quote of nothing: at the b-token boundary, a zero input converts to a
/// zero underlying amount, the solver returns zero, the zero converts
/// back, and the fee split of a zero gross output is zero on every side.
pub proof fn lemma_zero_b_token_input_zero_quote(
    b_reserve_x: int,
    b_reserve_y: int,
    px: int,
    py: int,
    dx: nat,
    dy: nat,
    amp: int,
    x2y: bool,
    ratio_x: int,
    ratio_y: int,
    pool_num: int,
)
    requires
        ratio_x > 0,
        ratio_y > 0,
        pool_num >= 0,
        match to_underlying_opt(b_reserve_x, ratio_x) {
            Some(v) => 0 < v < p64(),
            None => false,
        },
        match to_underlying_opt(b_reserve_y, ratio_y) {
            Some(v) => 0 < v < p64(),
            None => false,
        },
        px * p64() < p256() && px * p64() / wad_int() < p128(),
        py * p64() < p256() && py * p64() / wad_int() < p128(),
        px * p64() / wad_int() > 0,
        py * p64() / wad_int() > 0,
        1 <= amp < p64(),
        match dec_pow_outcome(dx, dy) {
            Outcome::Val(dp) => dp > 0,
            Outcome::Fail(_) => false,
        },
    ensures
        quote_a_outcome(
            0,
            b_reserve_x,
            b_reserve_y,
            px,
            py,
            dx,
            dy,
            amp,
            x2y,
            ratio_x,
            ratio_y,
        ) == Outcome::Val(0),
        total_fees_spec(0, pool_num) == 0,
        protocol_fees_spec(0) == 0,
{
    let w = wad_int();
    let r_in = if x2y {
        ratio_x
    } else {
        ratio_y
    };
    let r_out = if x2y {
        ratio_y
    } else {
        ratio_x
    };
    // A zero b-token amount converts to a zero underlying amount.
    assert(0int * w == 0) by (nonlinear_arith);
    assert(0int * r_in == 0) by (nonlinear_arith);
    assert(to_underlying_opt(0, r_in) == Some(0int));
    let resx = to_underlying_opt(b_reserve_x, ratio_x)->Some_0;
    let resy = to_underlying_opt(b_reserve_y, ratio_y)->Some_0;
    lemma_zero_input_zero_output(resx, resy, px, py, dx, dy, amp, x2y);
    // A zero underlying amount converts back to zero b-tokens.
    assert(0int * r_out / w == 0) by (nonlinear_arith)
        requires
            r_out > 0 && w > 0,
    ;
    assert(to_b_token_opt(0, r_out) == Some(0int));
    // Both guard branches map a zero output to a zero quote.
    assert(quote_a_outcome(
        0,
        b_reserve_x,
        b_reserve_y,
        px,
        py,
        dx,
        dy,
        amp,
        x2y,
        ratio_x,
        ratio_y,
    ) == Outcome::Val(0));
    // Fees on a zero gross output are zero.
    assert(0int * pool_num == 0) by (nonlinear_arith);
    assert(0int * 2_000 == 0) by (nonlinear_arith);
    assert(total_fees_spec(0, pool_num) == 0);
    assert(protocol_fees_spec(0) == 0);
}

/// The multiply-then-divide chain that forms `k` maps a zero traded
/// amount to zero, whatever the other operands are, as long as the
/// denominators are positive.
proof fn lemma_zero_product_chain(pxf: int, pyf: int, rxf: int, ryf: int, dp: int, x2y: bool)
    requires
        pxf > 0,
        pyf > 0,
        rxf > 0,
        ryf > 0,
        dp > 0,
    ensures
        quote_a_k_spec(0, pxf, pyf, rxf, ryf, dp, x2y) == Outcome::Val(0),
{
    let w = p64();
    if x2y {
        let nums = sort2_desc(0, pxf);
        let dens = sort3_desc(ryf, pyf, dp);
        assert(nums == seq![pxf, 0int]);
        assert(dens.len() == 3 && dens[0] > 0 && dens[1] > 0 && dens[2] > 0);
        assert(w * 0 / w == 0 && 0 * pxf / w == 0) by (nonlinear_arith)
            requires
                w > 0,
        ;
        assert(0int * w / dens[2] == 0 && 0int * w / dens[1] == 0 && 0int * w / dens[0] == 0)
            by (nonlinear_arith)
            requires
                dens[0] > 0 && dens[1] > 0 && dens[2] > 0 && w > 0,
        ;
        assert(md_rec(nums, dens, 2, 3, w) == Outcome::Val(0)) by {
            reveal_with_fuel(md_rec, 7);
        }
    } else {
        let nums = sort3_desc(0, dp, pyf);
        let dens = sort2_desc(rxf, pxf);
        assert(nums.len() == 3 && nums[2] == 0 && nums[0] >= 0 && nums[1] >= 0);
        assert(dens.len() == 2 && dens[0] > 0 && dens[1] > 0);
        assert(w * 0 / w == 0) by (nonlinear_arith)
            requires
                w > 0,
        ;
        assert(0 * nums[1] / w == 0 && 0 * nums[0] / w == 0) by (nonlinear_arith)
            requires
                nums[0] >= 0 && nums[1] >= 0 && w > 0,
        ;
        assert(0int * w / dens[1] == 0 && 0int * w / dens[0] == 0) by (nonlinear_arith)
            requires
                dens[0] > 0 && dens[1] > 0 && w > 0,
        ;
        assert(md_rec(nums, dens, 3, 2, w) == Outcome::Val(0)) by {
            reveal_with_fuel(md_rec, 7);
        }
    }
}

/// With `k = 0`, the Newton iteration stops at once at `z = 0`, because
/// the residual is exactly zero there.
proof fn lemma_newton_zero(ampf: int)
    requires
        p64() <= ampf < p128(),
    ensures
        newton_spec(0, ampf, 0) == Outcome::Val(0),
{
    let w = p64();
    assert(f_inter_spec(0, ampf) == Outcome::Val(0)) by {
        assert(w * w / ampf <= w) by {
            vstd::arithmetic::div_mod::lemma_div_is_ordered_by_denominator(w * w, w, ampf);
            vstd::arithmetic::div_mod::lemma_div_by_multiple(w, w);
            assert(w * w == w * w) by (nonlinear_arith);
        }
        assert(w * w / ampf < p128()) by {
            vstd::arithmetic::div_mod::lemma_div_is_ordered_by_denominator(w * w, w, ampf);
            vstd::arithmetic::div_mod::lemma_div_by_multiple(w, w);
        }
        assert(w * w >= 0) by (nonlinear_arith);
        vstd::arithmetic::div_mod::lemma_div_pos_is_pos(w * w, ampf);
        let oda = w * w / ampf;
        assert(0int * (w - oda) / w == 0) by (nonlinear_arith)
            requires
                w > 0,
        ;
        lemma_log2_raw_one();
        assert(log2_raw_spec(w) * crate::math::fixed_point::LN2_RAW / w == 64
            * crate::math::fixed_point::LN2_RAW) by {
            assert((64 * w) * crate::math::fixed_point::LN2_RAW == (64
                * crate::math::fixed_point::LN2_RAW) * w) by (nonlinear_arith);
            vstd::arithmetic::div_mod::lemma_div_by_multiple(
                64 * crate::math::fixed_point::LN2_RAW,
                w,
            );
        }
        assert(64 * crate::math::fixed_point::LN2_RAW == crate::math::fixed_point::LN2_RAW * 64)
            by (nonlinear_arith);
        assert(oda * 0 / w == 0) by (nonlinear_arith)
            requires
                w > 0,
        ;
    }
    assert(newton_tol() > 0);
    assert(newton_rec(0, ampf, 0, 20) == Outcome::Val(0)) by {
        reveal_with_fuel(newton_rec, 2);
    }
}

/// Converting a b-token amount to the underlying and back never gains
/// b-tokens: both conversions round down, so the round trip is at most
/// the start value, and it returns the start value exactly when the
/// product divides the decimal scale evenly.
pub proof fn lemma_b_token_round_trip(x: u64, ratio: int)
    requires
        ratio > 0,
        to_underlying_opt(x as int, ratio) is Some,
        to_b_token_opt(to_underlying_opt(x as int, ratio)->Some_0, ratio) is Some,
    ensures
        to_b_token_opt(to_underlying_opt(x as int, ratio)->Some_0, ratio)->Some_0 <= x,
        (to_b_token_opt(to_underlying_opt(x as int, ratio)->Some_0, ratio)->Some_0 == x) <==> (
        x * ratio) % wad_int() == 0,
{
    let w = wad_int();
    let u = to_underlying_opt(x as int, ratio)->Some_0;
    let exact = (x * w) * ratio < p256() || x * w >= ratio;
    assert(x * ratio >= 0) by (nonlinear_arith)
        requires
            x >= 0 && ratio > 0,
    ;
    lemma_fundamental_div_mod(x * ratio, w);
    lemma_mod_bound(x * ratio, w);

    // Which value the scaled multiplication produced.
    if (x * w) * ratio < p256() {
        assert((x * w) * ratio / w == x * ratio) by {
            assert((x * w) * ratio == (x * ratio) * w) by (nonlinear_arith);
            lemma_div_by_multiple(x * ratio, w);
        }
        assert(u == (x * ratio) / w);
    } else if x * w >= ratio {
        // The larger operand is the scaled amount; downscaling it gives
        // the amount back exactly.
        assert((x * w) / w == x) by {
            lemma_div_by_multiple(x as int, w);
        }
        assert(u == (x * ratio) / w) by {
            assert(((x * w) / w) * ratio == x * ratio);
        }
    } else {
        // The larger operand is the ratio; but then the downscaled
        // product cannot fit in 64 bits, against the conversion having
        // succeeded: this case does not arise.
        assert(u == ((ratio / w) * (x * w)) / w);
        assert(u == (ratio / w) * x) by {
            assert((ratio / w) * (x * w) == ((ratio / w) * x) * w) by (nonlinear_arith);
            lemma_div_pos_is_pos(ratio, w);
            assert((ratio / w) * x >= 0) by (nonlinear_arith)
                requires
                    ratio / w >= 0 && x >= 0,
            ;
            lemma_div_by_multiple((ratio / w) * x, w);
        }
        assert(x >= 1) by {
            if x == 0 {
                assert((0int * w) * ratio == 0) by (nonlinear_arith);
            }
        }
        lemma_fundamental_div_mod(ratio, w);
        lemma_mod_bound(ratio, w);
        assert(u * w >= x * ratio - x * (w - 1)) by (nonlinear_arith)
            requires
                u == (ratio / w) * x && w * (ratio / w) == ratio - ratio % w && 0 <= ratio % w
                    <= w - 1 && x >= 1,
        ;
        assert(x * ratio >= p256() / w) by {
            assert((x * ratio) * w == (x * w) * ratio) by (nonlinear_arith);
            lemma_div_is_ordered(p256(), (x * ratio) * w, w);
            lemma_div_by_multiple(x * ratio, w);
        }
        assert(x * (w - 1) < p64() * w) by (nonlinear_arith)
            requires
                0 <= x < p64() && w >= 1,
        ;
        assert(u * w < p64() * w) by (nonlinear_arith)
            requires
                u < p64() && w >= 1 && u >= 0,
        ;
        assert(false);
    }

    // In every case the underlying amount satisfies u * w <= x * ratio.
    if exact {
        assert(u * w <= x * ratio) by {
            assert(u == (x * ratio) / w);
            assert(u * w == w * u) by (nonlinear_arith);
        }
    } else {
        assert(u * w <= x * ratio) by {
            lemma_fundamental_div_mod(ratio, w);
            lemma_mod_bound(ratio, w);
            assert(((ratio / w) * x) * w <= x * ratio) by (nonlinear_arith)
                requires
                    (ratio / w) * w <= ratio && x >= 0 && ratio / w >= 0,
            ;
            assert((ratio / w) * w <= ratio) by {
                assert(ratio == w * (ratio / w) + ratio % w);
                assert(w * (ratio / w) == (ratio / w) * w) by (nonlinear_arith);
            }
        }
    }
    assert(u >= 0) by {
        if exact {
            lemma_div_pos_is_pos(x * ratio, w);
        } else {
            lemma_div_pos_is_pos(ratio, w);
            assert((ratio / w) * x >= 0) by (nonlinear_arith)
                requires
                    ratio / w >= 0 && x >= 0,
            ;
        }
    }

    // The b-token conversion divides the rescaled amount by the ratio.
    let bt = to_b_token_opt(u, ratio)->Some_0;
    assert(bt == ((u * w) * w / ratio) / w);
    assert(((u * w) * w / ratio) / w == (u * w) / ratio) by {
        lemma_div_pos_is_pos(u * w, ratio);
        lemma_div_denominator((u * w) * w, ratio, w);
        lemma_div_multiples_vanish_quotient(w, u * w, ratio);
        assert(w * (u * w) == (u * w) * w) by (nonlinear_arith);
        assert(w * ratio == ratio * w) by (nonlinear_arith);
    }
    assert((x * ratio) / ratio == x) by {
        lemma_div_by_multiple(x as int, ratio);
    }
    lemma_div_is_ordered(u * w, x * ratio, ratio);
    assert(bt <= x);

    // Exactness of the round trip, where the multiplication was exact.
    if exact {
        assert(u * w == w * u) by (nonlinear_arith);
        if (x * ratio) % w == 0 {
            assert(u * w == x * ratio);
            assert(bt == x);
        } else {
            assert(u * w <= x * ratio - 1);
            assert((x * ratio - 1) / ratio == x - 1) by {
                assert(x * ratio - 1 == (x - 1) * ratio + (ratio - 1)) by (nonlinear_arith);
                lemma_fundamental_div_mod_converse(x * ratio - 1, ratio, x - 1, ratio - 1);
            }
            lemma_div_is_ordered(u * w, x * ratio - 1, ratio);
            assert(bt <= x - 1);
        }
    }
}

/// Fees decompose the gross output exactly: for a pool-fee fraction of at
/// most one, the net output plus the protocol's and the pool's share add
/// back up to the gross output, and the protocol's share is one fifth of
/// the total, rounded up.
pub proof fn lemma_fee_decomposition(amount_out: u64, pool_num: int)
    requires
        0 <= pool_num <= 10_000,
    ensures
        ({
            let total = total_fees_spec(amount_out as int, pool_num);
            let protocol = protocol_fees_spec(total);
            let pool = total - protocol;
            let net = if amount_out >= total {
                amount_out - total
            } else {
                0int
            };
            0 <= protocol && 0 <= pool && total <= amount_out && net + protocol + pool
                == amount_out && protocol == div_round_up(total * 2_000, 10_000)
        }),
{
    let total = total_fees_spec(amount_out as int, pool_num);
    assert(amount_out * pool_num >= 0) by (nonlinear_arith)
        requires
            amount_out >= 0 && pool_num >= 0,
    ;
    assert(amount_out * pool_num <= amount_out * 10_000) by (nonlinear_arith)
        requires
            pool_num <= 10_000 && amount_out >= 0,
    ;
    assert(total <= amount_out) by {
        lemma_div_is_ordered(amount_out * pool_num, amount_out * 10_000, 10_000);
        lemma_div_by_multiple(amount_out as int, 10_000);
        if (amount_out * pool_num) % 10_000 != 0 {
            lemma_fundamental_div_mod(amount_out * pool_num, 10_000);
            lemma_mod_bound(amount_out * pool_num, 10_000);
            assert(amount_out * pool_num < amount_out * 10_000 || amount_out * pool_num
                == amount_out * 10_000);
            if amount_out * pool_num == amount_out * 10_000 {
                lemma_mod_multiples_basic(amount_out as int, 10_000);
                assert((amount_out * 10_000) % 10_000 == 0);
            }
            lemma_div_is_ordered(amount_out * pool_num, amount_out * 10_000 - 1, 10_000);
            assert((amount_out * 10_000 - 1) / 10_000 == amount_out - 1) by {
                assert(amount_out * 10_000 - 1 == (amount_out - 1) * 10_000 + 9_999)
                    by (nonlinear_arith);
                lemma_fundamental_div_mod_converse(
                    amount_out * 10_000 - 1,
                    10_000,
                    amount_out - 1,
                    9_999,
                );
            }
        }
    }
    assert(total >= 0) by {
        lemma_div_pos_is_pos(amount_out * pool_num, 10_000);
    }
    let protocol = protocol_fees_spec(total);
    assert(0 <= protocol <= total) by {
        crate::lemma_protocol_le_total(total);
    }
}

/// The Q64.64 round trip: an integer taken into fixed point comes back
/// unchanged, and a rational taken into fixed point and multiplied back
/// by its denominator loses at most one unit.
pub proof fn lemma_fixed_point_round_trip(n: u128, a: u128, b: u128)
    requires
        n < p64(),
        0 < a < p64(),
        0 < b < p64(),
    ensures
        (n * p64()) / p64() == n,
        ({
            let q = a * p64() / (b as int);
            let m = q * (b * p64()) / p64();
            a - 1 <= m / p64() <= a
        }),
{
    lemma_div_by_multiple(n as int, p64());
    let q = a * p64() / (b as int);
    assert(a * p64() >= 0) by (nonlinear_arith)
        requires
            a >= 0,
    ;
    lemma_div_pos_is_pos(a * p64(), b as int);
    let m = q * (b * p64()) / p64();
    assert(q * (b * p64()) == (q * b) * p64()) by (nonlinear_arith);
    assert(q * b >= 0) by (nonlinear_arith)
        requires
            q >= 0 && b >= 0,
    ;
    assert(m == q * b) by {
        lemma_div_by_multiple(q * b, p64());
    }
    lemma_fundamental_div_mod(a * p64(), b as int);
    lemma_mod_bound(a * p64(), b as int);
    assert(q * b <= a * p64()) by (nonlinear_arith)
        requires
            a * p64() == (b as int) * q + (a * p64()) % (b as int) && (a * p64()) % (b as int)
                >= 0,
    ;
    assert(a * p64() <= q * b + (b - 1)) by (nonlinear_arith)
        requires
            a * p64() == (b as int) * q + (a * p64()) % (b as int) && (a * p64()) % (b as int)
                <= b - 1,
    ;
    assert(m / p64() <= a) by {
        lemma_div_is_ordered(q * b, a * p64(), p64());
        lemma_div_by_multiple(a as int, p64());
    }
    assert(a - 1 <= m / p64()) by {
        assert(q * b >= a * p64() - (b - 1));
        assert(a * p64() - (b - 1) >= (a - 1) * p64()) by (nonlinear_arith)
            requires
                b <= p64(),
        ;
        lemma_div_is_ordered((a - 1) * p64(), q * b, p64());
        lemma_div_by_multiple(a - 1, p64());
    }
}

} // verus!
