//! Edge behaviour of the quoters: zero input, monotonicity of the
//! invariant solver, and the pool value object dispatching.

use steamm_ox::math::decimal::Decimal;
use steamm_ox::math::u256::U256;
use steamm_ox::omm::omm_v2_new::{get_d, get_y};
use steamm_ox::omm::{QuoterType, SteammPool};

fn dec(s: &str) -> Decimal {
    Decimal::from_str(s).unwrap()
}

#[test]
fn quoter_a_zero_in_zero_out() {
    for x2y in [false, true] {
        let amt_out = steamm_ox::omm::omm_v2_legacy::quote_swap_no_fees(
            0,
            1_000_000_000_000,
            1_000_000_000,
            dec("3"),
            dec("1"),
            9,
            6,
            1,
            x2y,
            dec("1.0"),
            dec("1.0"),
        )
        .unwrap();
        assert_eq!(amt_out, 0);
    }
}

#[test]
fn quoter_b_zero_in_zero_out() {
    for x2y in [false, true] {
        let r = steamm_ox::omm::omm_v2_new::quote_swap_no_fees(
            0,
            1_000_000_000_000,
            1_000_000_000,
            dec("3"),
            dec("1"),
            9,
            6,
            1,
            x2y,
            dec("1.0"),
            dec("1.0"),
        );
        assert_eq!(r.unwrap(), 0);
    }
}

#[test]
fn get_y_is_monotone_in_the_in_reserve() {
    // Increasing the in-side reserve never increases the out-side root.
    let mut previous = u64::MAX;
    for step in 0u64..8 {
        let reserve_in = 1_010_000 + step * 37_000;
        let y = get_y(
            U256::from_u64(reserve_in),
            U256::from_u64(20_000),
            U256::from_u64(2_000_000),
        )
        .unwrap()
        .as_u64();
        assert!(y <= previous, "y grew from {} to {}", previous, y);
        previous = y;
    }
}

#[test]
fn get_d_is_monotone_in_each_reserve() {
    // Growing a reserve never shrinks the invariant beyond the one-unit
    // convergence tolerance of the solver.
    let mut previous: u64 = 0;
    for step in 0u64..8 {
        let reserve_a = 1_000_000 + step * 450_000;
        let d = get_d(
            U256::from_u64(reserve_a),
            U256::from_u64(1_000_000),
            U256::from_u64(20_000),
        )
        .unwrap()
        .as_u64();
        assert!(previous <= d + 1, "D shrank from {} to {}", previous, d);
        previous = d;
    }
}

#[test]
fn get_d_is_symmetric_up_to_rounding() {
    // Swapping the reserves changes the invariant by at most one unit of
    // integer rounding inside the iteration.
    let pairs: [(u64, u64, u64); 3] = [
        (646_604_101_554_903, 430_825_829_860_939, 10_000),
        (36_731_011_531_180, 112_244_514_819_796, 6_000),
        (30_000_000_000_000, 10_000_000_000_000, 200),
    ];
    for (a, b, amp) in pairs {
        let d1 = get_d(U256::from_u64(a), U256::from_u64(b), U256::from_u64(amp))
            .unwrap()
            .as_u64();
        let d2 = get_d(U256::from_u64(b), U256::from_u64(a), U256::from_u64(amp))
            .unwrap()
            .as_u64();
        assert!(d1.abs_diff(d2) <= 1, "asymmetry: {} vs {}", d1, d2);
    }
}

#[test]
fn pool_object_dispatches_both_quoters() {
    let pool = SteammPool::new(
        1_000_000_000_000,
        1_000_000_000,
        9,
        6,
        1,
        30,
        QuoterType::Ommv2Legacy,
    );
    let q = pool
        .quote_swap(
            10_000_000,
            dec("3"),
            dec("1"),
            false,
            dec("1.0"),
            dec("1.0"),
            None,
            None,
        )
        .unwrap();
    // The gross output matches the no-fee quote, minus fees of 30 bps.
    let gross: u64 = 3_327_783_945;
    let total = (gross as u128 * 30).div_ceil(10_000) as u64;
    assert_eq!(q.amount_out, gross - total);
    assert_eq!(q.amount_in, 10_000_000);
    assert!(!q.a2b);

    let pool = SteammPool::new(
        1_000_000_000_000,
        1_000_000_000,
        9,
        6,
        1,
        30,
        QuoterType::Ommv2,
    );
    let q = pool
        .quote_swap(
            10_000_000,
            dec("3"),
            dec("1"),
            false,
            dec("1.0"),
            dec("1.0"),
            Some(dec("0.001")),
            Some(dec("0.001")),
        )
        .unwrap();
    let gross: u64 = 5_156_539_130;
    // Confidence of 0.001 against prices 3 and 1 gives ratios 3 and 10
    // basis points; 10 does not exceed the configured 30, so the default
    // fee applies.
    let total = (gross as u128 * 30).div_ceil(10_000) as u64;
    assert_eq!(q.amount_out, gross - total);

    // A poor confidence widens the fee: 0.02 / 1 = 200 basis points.
    let q = pool
        .quote_swap(
            10_000_000,
            dec("3"),
            dec("1"),
            false,
            dec("1.0"),
            dec("1.0"),
            Some(dec("0.001")),
            Some(dec("0.02")),
        )
        .unwrap();
    let total = (gross as u128 * 200).div_ceil(10_000) as u64;
    assert_eq!(q.amount_out, gross - total);
    assert_eq!(q.protocol_fees, ((total as u128 * 2_000).div_ceil(10_000)) as u64);
    assert_eq!(q.pool_fees, total - q.protocol_fees);
}
