//! End-to-end checks of the logarithmic-invariant quoter.

use steamm_ox::math::decimal::Decimal;
use steamm_ox::omm::omm_v2_legacy::quote_swap_no_fees;

fn dec(s: &str) -> Decimal {
    Decimal::from_str(s).unwrap()
}

#[test]
fn omm_v2_legacy_test_quote_swap() {
    // Test case 1
    let amt_out = quote_swap_no_fees(
        10_000_000,        // 10 * 10^6
        1_000_000_000_000, // 1_000 * 10^9
        1_000_000_000,     // 1_000 * 10^6
        dec("3"),
        dec("1"),
        9,
        6,
        1,
        false,
        dec("1.0"),
        dec("1.0"),
    )
    .unwrap();
    assert_eq!(amt_out, 3_327_783_945, "Test case 1 failed");

    // Test case 2
    let amt_out = quote_swap_no_fees(
        100_000_000,       // 100 * 10^6
        1_000_000_000_000, // 1_000 * 10^9
        1_000_000_000,     // 1_000 * 10^6
        dec("3"),
        dec("1"),
        9,
        6,
        1,
        false,
        dec("1.0"),
        dec("1.0"),
    )
    .unwrap();
    assert_eq!(amt_out, 32_783_899_517, "Test case 2 failed");

    // Test case 3
    let amt_out = quote_swap_no_fees(
        10_000_000_000,    // 10 * 10^9
        1_000_000_000_000, // 1_000 * 10^9
        1_000_000_000,     // 1_000 * 10^6
        dec("3"),
        dec("1"),
        9,
        6,
        1,
        true,
        dec("1.0"),
        dec("1.0"),
    )
    .unwrap();
    assert_eq!(amt_out, 29_554_466, "Test case 3 failed");

    // Test case 4
    let amt_out = quote_swap_no_fees(
        100_000_000_000,   // 100 * 10^9
        1_000_000_000_000, // 1_000 * 10^9
        1_000_000_000,     // 1_000 * 10^6
        dec("3"),
        dec("1"),
        9,
        6,
        1,
        true,
        dec("1.0"),
        dec("1.0"),
    )
    .unwrap();
    assert_eq!(amt_out, 259_181_779, "Test case 4 failed");
}

#[test]
fn omm_v2_legacy_test_quote_swap_with_different_btoken_ratios() {
    let amt_out = quote_swap_no_fees(
        10_000_000,
        1_000_000_000_000,
        1_000_000_000,
        dec("3"),
        dec("1"),
        9,
        6,
        1,
        false,
        dec("1.0"),
        dec("1.0"),
    )
    .unwrap();
    assert_eq!(amt_out, 3_327_783_945, "Test case 1 failed");

    // Changing the b-token ratio of the input token does not affect the output.
    let amt_out = quote_swap_no_fees(
        5_000_000, // 10 / btoken ratio y * 10^6
        1_000_000_000_000,
        1_000_000_000,
        dec("3"),
        dec("1"),
        9,
        6,
        1,
        false,
        dec("1.0"),
        dec("2.0"),
    )
    .unwrap();
    assert_eq!(amt_out, 3_327_783_945, "Test case 1 failed");

    // Changing the b-token ratio of the output token does affect the output.
    let amt_out = quote_swap_no_fees(
        10_000_000,
        1_000_000_000_000,
        1_000_000_000,
        dec("3"),
        dec("1"),
        9,
        6,
        1,
        false,
        dec("0.5"),
        dec("1.0"),
    )
    .unwrap();
    assert_eq!(amt_out, 6_644_493_744, "Test case 1 failed");

    let amt_out = quote_swap_no_fees(
        10_000_000,
        1_000_000_000_000,
        1_000_000_000,
        dec("3"),
        dec("1"),
        9,
        6,
        1,
        false,
        dec("2.0"),
        dec("1.0"),
    )
    .unwrap();
    assert_eq!(amt_out, 1665278549, "Test case 1 failed");
}

#[test]
fn test_quote_swap_2() {
    let inputs: Vec<(u128, u128, u128, u64, u64, u32, u32, u32, bool)> = vec![
        (4_644_540, 90_000_000, 8_100_000, 4, 9, 7, 5, 100, false),
        (324_894_000_000, 258_000, 626_000_000_000, 6, 9, 3, 9, 2, false),
        (6_855_840, 45_900_000, 62_100_000, 4, 8, 5, 5, 10, false),
        (665_993_800_000, 3_610_000, 877_000_000_000, 2, 3, 4, 9, 2, false),
        (7_879_648, 6_450_000, 8_120_000, 10, 5, 4, 4, 100, false),
        (61_223, 750_000_000, 978_000, 3, 5, 7, 3, 1000, false),
        (10_550_880, 405_000_000_000, 20_400_000, 3, 4, 9, 5, 100, false),
        (1_678_644_000, 6_000_000, 4_860_000_000, 10, 3, 5, 7, 2, true),
        (603_924_000_000, 414_000_000_000, 885_000_000_000, 3, 2, 9, 9, 100, false),
        (945_096_000, 293_000_000_000, 6_360_000_000, 3, 4, 9, 7, 8000, false),
        (8_527_520, 38_100_000_000, 95_600_000, 5, 8, 8, 5, 2, false),
        (45_084_600_000, 648_000_000, 69_000_000_000, 3, 7, 6, 9, 2, true),
        (6_791_584_000, 46_900_000, 7_460_000_000, 5, 5, 5, 7, 10, true),
        (534_653_400, 42_000_000, 901_000_000, 8, 3, 5, 6, 1000, true),
        (12_247_200, 349_000_000, 18_000_000, 8, 5, 6, 6, 1000, false),
        (677_100_000, 4_240_000_000, 3_700_000_000, 4, 8, 7, 7, 1000, false),
        (3_746_862_000, 37_500_000_000, 3_930_000_000, 9, 6, 8, 7, 1, true),
        (5_891_520, 933_000_000, 72_200_000, 6, 6, 6, 5, 8000, true),
        (1_870_480_000, 240_000, 4_120_000_000, 10, 9, 4, 7, 2, true),
        (6_120_000, 72_400_000_000, 72_000_000, 8, 9, 8, 5, 1000, true),
        (130_203_000_000, 447_000_000_000, 555_000_000_000, 10, 5, 9, 9, 1, false),
        (77_616_000_000, 498_000, 660_000_000_000, 1, 7, 3, 9, 1, false),
        (377_348_400_000, 913_000_000_000, 733_000_000_000, 4, 8, 9, 9, 1000, false),
        (77_398_240_000, 692_000, 77_600_000_000, 2, 2, 3, 8, 1000, true),
    ];

    let expected_results: Vec<u64> = vec![
        89_999_999,
        242_872,
        13_464_431,
        3_571_668,
        3_918_681,
        749_999_999,
        140_358_664_628,
        4_859_999_999,
        394_009_395_174,
        126_007_959_450,
        12_354_540_449,
        68_999_999_999,
        7_459_999_999,
        900_999_999,
        7_654_414,
        1_353_922_942,
        523_690_572,
        589_151,
        4_119_999_999,
        5_439,
        60_582_784_461,
        330_729,
        753_855_713_528,
        77_599_999_999,
    ];

    let mut results = Vec::new();
    for (i, input) in inputs.iter().enumerate() {
        let result = quote_swap_no_fees(
            input.0 as u64,
            input.1 as u64,
            input.2 as u64,
            Decimal::from_u64(input.3),
            Decimal::from_u64(input.4),
            input.5,
            input.6,
            input.7,
            input.8,
            dec("1.0"),
            dec("1.0"),
        );
        match result {
            Ok(amt_out) => results.push(amt_out),
            Err(e) => panic!("Error at iteration {}: {:?}", i + 1, e),
        }
    }

    for (i, (result, expected)) in results.iter().zip(expected_results.iter()).enumerate() {
        assert_eq!(
            result,
            expected,
            "Test failed at iteration {}: expected {}, got {}",
            i + 1,
            expected,
            result
        );
    }
}
