//! Unit checks of the arithmetic kernel: 256-bit integers, decimals,
//! fixed point, fees, and the error values each operation signals.

use steamm_ox::error::ErrorKind;
use steamm_ox::math::decimal::Decimal;
use steamm_ox::math::fixed_point::FixedPoint64;
use steamm_ox::math::u256::U256;
use steamm_ox::math::{decimal_to_fixedpoint64, safe_mul_div_up};
use steamm_ox::{compute_swap_fees, get_quote, to_b_token, to_underlying};

#[test]
fn u256_arithmetic_round_trips() {
    let a = U256::from_u128(0xdead_beef_0000_0001_u128);
    let b = U256::from_u128(0x1234_5678_9abc_def0_u128);
    let p = a.checked_mul(&b).unwrap();
    assert_eq!(p.checked_div(&b).unwrap(), a);
    let s = a.checked_add(&b).unwrap();
    assert_eq!(s.checked_sub(&b).unwrap(), a);
    assert!(b.lt(&a));
    assert!(b.le(&a));
    assert!(U256::zero().is_zero());
    assert_eq!(U256::one().as_u64(), 1);

    // The full 256-bit range is exercised: squaring a 128-bit value.
    let big = U256::from_u128(u128::MAX);
    let sq = big.checked_mul(&big).unwrap();
    assert_eq!(sq.checked_div(&big).unwrap(), big);
    // One step beyond the range overflows.
    assert!(sq.checked_add(&sq).and_then(|x| x.checked_mul(&sq)).is_none());
    // Subtraction below zero signals.
    assert!(U256::zero().checked_sub(&U256::one()).is_none());
    // Division by zero signals.
    assert!(U256::one().checked_div(&U256::zero()).is_none());
}

#[test]
fn decimal_from_str_reads_literals() {
    assert_eq!(Decimal::from_str("3").unwrap(), Decimal::from_u64(3));
    assert_eq!(Decimal::from_str("1.0").unwrap(), Decimal::from_u64(1));
    assert_eq!(
        Decimal::from_str("0.5").unwrap(),
        Decimal::from_scaled_val(500_000_000_000_000_000)
    );
    assert_eq!(
        Decimal::from_str("1.1").unwrap(),
        Decimal::from_scaled_val(1_100_000_000_000_000_000)
    );
    assert_eq!(
        Decimal::from_str("0.000000000000000001").unwrap(),
        Decimal::from_scaled_val(1)
    );
    // Fractional digits beyond the scale are cut, rounding down.
    assert_eq!(
        Decimal::from_str("0.0000000000000000015").unwrap(),
        Decimal::from_scaled_val(1)
    );
    // A trailing dot leaves the fraction empty.
    assert_eq!(Decimal::from_str("7.").unwrap(), Decimal::from_u64(7));
    // Malformed literals are rejected.
    assert!(Decimal::from_str("").is_none());
    assert!(Decimal::from_str(".5").is_none());
    assert!(Decimal::from_str("1.2.3").is_none());
    assert!(Decimal::from_str("12a").is_none());
    assert!(Decimal::from_str("1.23456789012345678901").is_none());
}

#[test]
fn decimal_checked_arithmetic() {
    let three = Decimal::from_u64(3);
    let two = Decimal::from_u64(2);
    assert_eq!(three.checked_add(&two).unwrap(), Decimal::from_u64(5));
    assert_eq!(three.checked_sub(&two).unwrap(), Decimal::from_u64(1));
    assert_eq!(three.checked_mul(&two).unwrap(), Decimal::from_u64(6));
    assert_eq!(
        three.checked_div(&two).unwrap(),
        Decimal::from_scaled_val(1_500_000_000_000_000_000)
    );
    assert!(two.checked_sub(&three).is_none());
    assert!(three.checked_div(&Decimal::from_u64(0)).is_none());

    assert_eq!(Decimal::from_str("2.7").unwrap().checked_floor().unwrap(), 2);
    assert_eq!(Decimal::from_str("2.1").unwrap().checked_ceil().unwrap(), 3);
    assert_eq!(Decimal::from_str("2.5").unwrap().checked_round().unwrap(), 3);
    assert_eq!(Decimal::from_str("2.4").unwrap().checked_round().unwrap(), 2);

    assert_eq!(two.checked_pow(10).unwrap(), Decimal::from_u64(1024));
    assert_eq!(two.checked_pow(0).unwrap(), Decimal::from_u64(1));

    // The square root converges well within the advertised precision.
    let root = Decimal::from_u64(4).checked_sqrt().unwrap();
    assert!(root.almost_eq(&Decimal::from_u64(2), 6));
    assert_eq!(Decimal::from_u64(0).checked_sqrt().unwrap(), Decimal::from_u64(0));

    assert!(Decimal::from_u64(5).almost_eq(&Decimal::from_u64(5), 0));
    // Agreement to three decimal places tolerates a raw difference of
    // anything below 10^15 and nothing more.
    assert!(
        Decimal::from_scaled_val(0)
            .almost_eq(&Decimal::from_scaled_val(999_999_999_999_999), 3)
    );
    assert!(
        !Decimal::from_scaled_val(0)
            .almost_eq(&Decimal::from_scaled_val(1_000_000_000_000_000), 3)
    );
    // Agreement to six decimal places tolerates a raw difference of 10^9.
    assert!(
        Decimal::from_scaled_val(0)
            .almost_eq(&Decimal::from_scaled_val(1_000_000_000), 6)
    );
}

#[test]
fn fixed_point_comparisons() {
    let a = FixedPoint64::new(5).unwrap();
    let b = FixedPoint64::from_raw_value(7).unwrap();
    assert_eq!(a.get_value(), 5);
    assert!(a.lt(&b));
    assert!(a.lte(&b));
    assert!(b.gt(&a));
    assert!(b.gte(&a));
    assert!(a.lte(&a));
    assert!(a.equals(&a));
    assert!(!a.equals(&b));
    assert!(FixedPoint64::zero().unwrap().is_zero());
    assert!(!FixedPoint64::one().unwrap().is_zero());
    assert!(FixedPoint64::max(a, b).equals(&b));
    assert!(FixedPoint64::min(a, b).equals(&a));
    assert_eq!(FixedPoint64::one().unwrap().get_value(), 1u128 << 64);

    // The square root of two, to nine decimal places.
    let root = Decimal::from_u64(2).checked_sqrt().unwrap();
    assert!(root.almost_eq(&Decimal::from_scaled_val(1_414_213_562_373_095_048), 9));
}

#[test]
fn fixed_point_round_trips() {
    // An integer survives the trip into fixed point and back.
    let n: u128 = 123_456_789_012;
    assert_eq!(FixedPoint64::from(n).unwrap().to_u128_down(), n);

    // A rational multiplied back by its denominator loses at most one.
    let q = FixedPoint64::from_rational(10, 3).unwrap();
    let back = q.mul(&FixedPoint64::from(3).unwrap()).unwrap().to_u128_down();
    assert_eq!(back, 9);
    let q = FixedPoint64::from_rational(10, 2).unwrap();
    let back = q.mul(&FixedPoint64::from(2).unwrap()).unwrap().to_u128_down();
    assert_eq!(back, 10);

    // Rounding modes.
    let half = FixedPoint64::from_rational(1, 2).unwrap();
    assert_eq!(half.to_u128_down(), 0);
    assert_eq!(half.to_u128_up(), 1);
    assert_eq!(half.to_u128(), 1);
    let third = FixedPoint64::from_rational(1, 3).unwrap();
    assert_eq!(third.to_u128(), 0);
}

#[test]
fn fixed_point_exact_logs_and_powers() {
    // log2 of the raw word of 4 is exactly 66, since raw(4) = 4 * 2^64.
    let four = FixedPoint64::from(4).unwrap();
    let lg = four.log2_plus_64().unwrap();
    assert_eq!(lg.get_value(), 66u128 << 64);

    // ln(1) + 64 ln 2 is exactly 64 times the ln 2 constant.
    let one = FixedPoint64::one().unwrap();
    let ln = one.ln_plus_64ln2().unwrap();
    assert_eq!(ln.get_value(), 12_786_308_645_202_655_660 * 64);

    // Binary exponentiation is exact on integers.
    let two = FixedPoint64::from(2).unwrap();
    assert_eq!(two.pow(10).unwrap().to_u128_down(), 1024);
    assert_eq!(two.pow(0).unwrap().to_u128_down(), 1);
}

#[test]
fn fixed_point_error_kinds() {
    let one = FixedPoint64::one().unwrap();
    let zero = FixedPoint64::zero().unwrap();
    let max = FixedPoint64::from_raw_value(u128::MAX).unwrap();

    assert_eq!(max.add(&one).unwrap_err().kind, ErrorKind::Overflow);
    assert_eq!(zero.sub(&one).unwrap_err().kind, ErrorKind::NegativeResult);
    assert_eq!(one.div(&zero).unwrap_err().kind, ErrorKind::ZeroDivision);
    assert_eq!(max.mul(&max).unwrap_err().kind, ErrorKind::Overflow);
    assert_eq!(
        FixedPoint64::from(u128::MAX).unwrap_err().kind,
        ErrorKind::Overflow
    );
    assert_eq!(
        FixedPoint64::from_rational(1, 0).unwrap_err().kind,
        ErrorKind::ZeroDivision
    );
    // A quotient that underflows to zero is a loss of precision.
    assert_eq!(
        FixedPoint64::from_rational(1, 1u128 << 70).unwrap_err().kind,
        ErrorKind::PrecisionLoss
    );
    assert_eq!(
        zero.log2_plus_64().unwrap_err().kind,
        ErrorKind::LogOfZero
    );
    assert_eq!(
        zero.ln_plus_64ln2().unwrap_err().kind,
        ErrorKind::LogOfZero
    );

    let mut no_numerators: Vec<FixedPoint64> = Vec::new();
    let mut denominators = vec![one];
    assert_eq!(
        FixedPoint64::multiply_divide(&mut no_numerators, &mut denominators)
            .unwrap_err()
            .kind,
        ErrorKind::OutOfRange
    );
}

#[test]
fn multiply_divide_is_order_independent() {
    let two = FixedPoint64::from(2).unwrap();
    let three = FixedPoint64::from(3).unwrap();
    let four = FixedPoint64::from(4).unwrap();

    // 2 * 3 / 4 = 1.5 exactly, in any operand order.
    let mut n1 = vec![two, three];
    let mut d1 = vec![four];
    let r1 = FixedPoint64::multiply_divide(&mut n1, &mut d1).unwrap();
    let mut n2 = vec![three, two];
    let mut d2 = vec![four];
    let r2 = FixedPoint64::multiply_divide(&mut n2, &mut d2).unwrap();
    assert_eq!(r1, r2);
    assert_eq!(r1.get_value(), 3u128 << 63);

    // The buffers come back sorted in descending order.
    assert_eq!(n1, vec![three, two]);
    assert_eq!(n2, vec![three, two]);

    // A longer chain, shuffled two ways.
    let five = FixedPoint64::from(5).unwrap();
    let seven = FixedPoint64::from(7).unwrap();
    let mut n3 = vec![seven, two, five];
    let mut d3 = vec![three, four];
    let r3 = FixedPoint64::multiply_divide(&mut n3, &mut d3).unwrap();
    let mut n4 = vec![five, seven, two];
    let mut d4 = vec![four, three];
    let r4 = FixedPoint64::multiply_divide(&mut n4, &mut d4).unwrap();
    assert_eq!(r3, r4);
}

#[test]
fn fee_computation_splits_exactly() {
    // total = ceil(10000 * 30 / 10000) = 30; protocol = ceil(30 * 0.2) = 6.
    let (protocol, pool) = compute_swap_fees(10_000, 30, None).unwrap();
    assert_eq!(protocol, 6);
    assert_eq!(pool, 24);

    // An override larger than the configured fee replaces it.
    let (protocol, pool) = compute_swap_fees(10_000, 30, Some(100)).unwrap();
    assert_eq!(protocol, 20);
    assert_eq!(pool, 80);

    // An override at or below the configured fee is ignored.
    let (protocol, pool) = compute_swap_fees(10_000, 30, Some(30)).unwrap();
    assert_eq!(protocol, 6);
    assert_eq!(pool, 24);

    // The quote nets the fees from the gross output.
    let q = get_quote(777, 10_000, true, 30, None);
    assert_eq!(q.amount_in, 777);
    assert_eq!(q.amount_out, 9_970);
    assert_eq!(q.protocol_fees + q.pool_fees + q.amount_out, 10_000);
    assert!(q.a2b);

    // A zero output carries zero fees.
    let q = get_quote(5, 0, false, 30, None);
    assert_eq!(q.amount_out, 0);
    assert_eq!(q.protocol_fees, 0);
    assert_eq!(q.pool_fees, 0);

    // Rounding in the fee is upward.
    let (protocol, pool) = compute_swap_fees(9_999, 1, None).unwrap();
    assert_eq!(protocol + pool, 1);
    assert_eq!(protocol, 1);
    assert_eq!(pool, 0);
}

#[test]
fn safe_mul_div_up_rounds_up() {
    assert_eq!(safe_mul_div_up(7, 3, 2).unwrap(), 11);
    assert_eq!(safe_mul_div_up(6, 3, 2).unwrap(), 9);
    assert_eq!(safe_mul_div_up(0, 3, 2).unwrap(), 0);
    assert_eq!(
        safe_mul_div_up(1, 1, 0).unwrap_err().kind,
        ErrorKind::ZeroDivision
    );
    assert_eq!(
        safe_mul_div_up(u64::MAX, u64::MAX, 1).unwrap_err().kind,
        ErrorKind::Overflow
    );
}

#[test]
fn btoken_conversions_round_down() {
    let ratio = Decimal::from_str("1.5").unwrap();
    assert_eq!(to_underlying(10, &ratio), 15);
    assert_eq!(to_underlying(1, &ratio), 1);
    assert_eq!(to_b_token(15, &ratio), 10);
    assert_eq!(to_b_token(1, &ratio), 0);
    // The round trip never gains value.
    for x in [0u64, 1, 2, 7, 99, 1_000_000] {
        let u = to_underlying(x, &ratio);
        assert!(to_b_token(u, &ratio) <= x);
    }

    let d = decimal_to_fixedpoint64(Decimal::from_str("2.5").unwrap()).unwrap();
    assert_eq!(d.get_value(), (5u128 << 64) / 2);
}
