//! Checks of the earlier stable-swap flavour, which takes no rounding
//! margin, and of the split-price helpers it shares with the newer one.

use steamm_ox::math::decimal::Decimal;
use steamm_ox::math::u256::U256;
use steamm_ox::omm_v2_1::{from_usd, get_d, get_y, quote_swap, split_price, to_usd};

fn dec(s: &str) -> Decimal {
    Decimal::from_str(s).unwrap()
}

#[test]
fn quote_swap_without_margin() {
    // The same pool as the newer quoter's first case; without the one-unit
    // safety margin the output is exactly one unit larger.
    let amt_out = quote_swap(
        10_000_000,
        1_000_000_000_000,
        1_000_000_000,
        dec("3"),
        dec("1"),
        9,
        6,
        1,
        false,
        dec("1.0"),
        dec("1.0"),
    )
    .unwrap();
    assert_eq!(amt_out, 5_156_539_131);
}

#[test]
fn split_price_parts() {
    // A whole price has no fractional part.
    let (i, inv) = split_price(dec("3")).unwrap();
    assert_eq!(i.as_u64(), 3);
    assert!(inv.is_none());

    // 3.5 splits into 3 and the inverse of 0.5, which is 2.
    let (i, inv) = split_price(dec("3.5")).unwrap();
    assert_eq!(i.as_u64(), 3);
    assert_eq!(inv.unwrap().as_u64(), 2);

    // 0.4 splits into 0 and the floor of 1/0.4 = 2.5, which is 2.
    let (i, inv) = split_price(dec("0.4")).unwrap();
    assert_eq!(i.as_u64(), 0);
    assert_eq!(inv.unwrap().as_u64(), 2);
}

#[test]
fn usd_conversions_invert() {
    // At price 3.5 a hundred units are worth 350: 100*3 + 100/2.
    let i = U256::from_u64(3);
    let inv = Some(U256::from_u64(2));
    let usd = to_usd(U256::from_u64(100), i, inv).unwrap();
    assert_eq!(usd.as_u64(), 350);
    // And 350 USD buy the hundred back: 350*2 / (3*2 + 1).
    let back = from_usd(usd, i, inv).unwrap();
    assert_eq!(back.as_u64(), 100);

    // A whole price converts by plain multiplication and division.
    let whole = to_usd(U256::from_u64(100), i, None).unwrap();
    assert_eq!(whole.as_u64(), 300);
    assert_eq!(from_usd(whole, i, None).unwrap().as_u64(), 100);
}

#[test]
fn solvers_agree_with_the_newer_flavour() {
    let d = get_d(
        U256::from_u64(1_000_000),
        U256::from_u64(1_000_000),
        U256::from_u64(20_000),
    )
    .unwrap();
    assert_eq!(d.as_u64(), 2_000_000);
    let y = get_y(U256::from_u64(1_010_000), U256::from_u64(20_000), d).unwrap();
    assert_eq!(y.as_u64(), 990_000);
}
