//! End-to-end checks of the stable-swap quoter.

use steamm_ox::math::decimal::Decimal;
use steamm_ox::omm::omm_v2_new::quote_swap_no_fees;

fn dec(s: &str) -> Decimal {
    Decimal::from_str(s).unwrap()
}

#[test]
fn omm_v2_new_test_quote_swap() {
    // Test case 1
    let amt_out = quote_swap_no_fees(
        10_000_000,        // 10 * 10^6
        1_000_000_000_000, // 1_000 * 10^9
        1_000_000_000,     // 1_000 * 10^6
        dec("3"),
        dec("1"),
        9,
        6,
        1,
        false,
        dec("1.0"),
        dec("1.0"),
    )
    .unwrap();
    assert_eq!(amt_out, 5_156_539_130, "Test case 1 failed");

    // Test case 2
    let amt_out = quote_swap_no_fees(
        100_000_000,       // 100 * 10^6
        1_000_000_000_000, // 1_000 * 10^9
        1_000_000_000,     // 1_000 * 10^6
        dec("3"),
        dec("1"),
        9,
        6,
        1,
        false,
        dec("1.0"),
        dec("1.0"),
    )
    .unwrap();
    assert_eq!(amt_out, 49_852_725_213, "Test case 2 failed");

    // Test case 3
    let amt_out = quote_swap_no_fees(
        5_156_539_131,     // about 5.15 of the 10^9-decimal token
        1_000_000_000_000, // 1_000 * 10^9
        1_000_000_000,     // 1_000 * 10^6
        dec("3"),
        dec("1"),
        9,
        6,
        1,
        true,
        dec("1.0"),
        dec("1.0"),
    )
    .unwrap();
    assert_eq!(amt_out, 9_920_471, "Test case 3 failed");
}

#[test]
fn omm_v2_new_test_quote_swap_with_different_btoken_ratios() {
    // Test case 1
    let amt_out = quote_swap_no_fees(
        11_000_000,        // 10 * 10^6 * 1.1
        1_000_000_000_000, // 1_000 * 10^9
        3_000_000_000,     // 1_000 * 10^6
        dec("3"),
        dec("1"),
        9,
        6,
        1,
        false,
        dec("1.0"),
        dec("1.0").checked_div(&dec("1.1")).unwrap(),
    )
    .unwrap();
    assert_eq!(amt_out, 3_437_018_128, "Test case 1 failed");

    let amt_out = quote_swap_no_fees(
        10_000_000,        // 10 * 10^6
        1_000_000_000_000, // 1_000 * 10^9
        3_000_000_000,     // 1_000 * 10^6
        dec("3"),
        dec("1"),
        9,
        6,
        1,
        false,
        dec("0.5"),
        dec("1.0"),
    )
    .unwrap();
    assert_eq!(amt_out, 5_181_584_614, "Test case 2 failed");

    let amt_out = quote_swap_no_fees(
        10000000,          // 10 * 10^6
        1_000_000_000_000, // 1_000 * 10^9
        3_000_000_000,     // 1_000 * 10^6
        dec("3"),
        dec("1"),
        9,
        6,
        1,
        false,
        dec("2.0"),
        dec("1.0"),
    )
    .unwrap();
    assert_eq!(amt_out, 2_138_121_895, "Test case 3 failed");
}
