//! Spot checks of the stable-swap invariant solvers, including the scale
//! behaviour of `D` and `y`.

use steamm_ox::math::u256::U256;
use steamm_ox::omm::omm_v2_new::{get_d, get_y};

fn u256(val: u64) -> U256 {
    U256::from_u64(val)
}

fn upscale() -> U256 {
    // 10^10
    U256::from_u64(10_000_000_000)
}

fn mul(a: U256, b: U256) -> U256 {
    a.checked_mul(&b).unwrap()
}

fn div(a: U256, b: U256) -> U256 {
    a.checked_div(&b).unwrap()
}

fn assert_get_d_u64(reserve_a: u64, reserve_b: u64, amp: u64, expected: u64) {
    assert_eq!(
        get_d(u256(reserve_a), u256(reserve_b), u256(amp)).unwrap(),
        u256(expected)
    );
}

fn assert_get_d(reserve_a: U256, reserve_b: U256, amp: U256, expected: U256) {
    assert_eq!(get_d(reserve_a, reserve_b, amp).unwrap(), expected);
}

fn assert_get_d_upscaled(reserve_a: u64, reserve_b: u64, amp: u64, expected: u64) {
    assert_eq!(
        div(
            get_d(
                mul(u256(reserve_a), upscale()),
                mul(u256(reserve_b), upscale()),
                u256(amp),
            )
            .unwrap(),
            upscale(),
        ),
        u256(expected)
    );
}

fn assert_get_y_u64(reserve_in: u64, amp: u64, d: u64, expected: u64) {
    assert_eq!(
        get_y(u256(reserve_in), u256(amp), u256(d)).unwrap(),
        u256(expected)
    );
}

fn assert_get_y_scaled(reserve_in: U256, amp: U256, d: U256, expected: U256) {
    let result = div(
        get_y(mul(reserve_in, upscale()), amp, mul(d, upscale())).unwrap(),
        upscale(),
    );
    let diff = if expected.lt(&result) {
        result.checked_sub(&expected).unwrap()
    } else {
        expected.checked_sub(&result).unwrap()
    };
    assert!(
        diff.le(&U256::one()),
        "Difference too large: result = {:?}, expected = {:?}, diff = {:?}",
        result,
        expected,
        diff
    );
}

#[test]
fn test_get_d() {
    assert_get_d_u64(1_000_000, 1_000_000, 20_000, 2_000_000);
    assert_get_d_u64(
        646_604_101_554_903,
        430_825_829_860_939,
        10_000,
        1_077_207_198_258_876,
    );
    assert_get_d_u64(
        208_391_493_399_283,
        381_737_267_304_454,
        6_000,
        589_673_027_554_751,
    );
    assert_get_d_u64(
        357_533_698_368_810,
        292_279_113_116_023,
        200_000,
        649_811_157_409_887,
    );
    assert_get_d_u64(
        640_219_149_077_469,
        749_346_581_809_482,
        6_000,
        1_389_495_058_454_884,
    );
    assert_get_d_u64(
        796_587_650_933_232,
        263_696_548_289_376,
        20_000,
        1_059_395_029_204_629,
    );
    assert_get_d_u64(
        645_814_702_742_123,
        941_346_843_035_970,
        6_000,
        1_586_694_700_461_120,
    );
    assert_get_d_u64(
        36_731_011_531_180,
        112_244_514_819_796,
        6_000,
        148_556_820_223_757,
    );
    assert_get_d_u64(
        638_355_455_638_005,
        144_419_816_425_350,
        20_000,
        781_493_318_669_443,
    );
    assert_get_d_u64(
        747_070_395_683_716,
        583_370_126_767_355,
        200_000,
        1_330_435_412_150_341,
    );
    assert_get_d_u64(
        222_152_880_197_132,
        503_754_962_483_370,
        10_000,
        725_272_897_710_721,
    );
}

#[test]
fn test_get_d_scaled() {
    // Scaling the reserves scales the D value linearly.
    assert_get_d(
        mul(u256(1_000_000), upscale()),
        mul(u256(1_000_000), upscale()),
        u256(20_000),
        mul(u256(2_000_000), upscale()),
    );
    assert_get_d_upscaled(
        646_604_101_554_903,
        430_825_829_860_939,
        10_000,
        1_077_207_198_258_876,
    );
    assert_get_d_upscaled(
        208_391_493_399_283,
        381_737_267_304_454,
        6_000,
        589_673_027_554_751,
    );
    assert_get_d_upscaled(
        357_533_698_368_810,
        292_279_113_116_023,
        200_000,
        649_811_157_409_887,
    );
    assert_get_d_upscaled(
        640_219_149_077_469,
        749_346_581_809_482,
        6_000,
        1_389_495_058_454_884,
    );
    assert_get_d_upscaled(
        796_587_650_933_232,
        263_696_548_289_376,
        20_000,
        1_059_395_029_204_629,
    );
    assert_get_d_upscaled(
        645_814_702_742_123,
        941_346_843_035_970,
        6_000,
        1_586_694_700_461_120,
    );
    assert_get_d_upscaled(
        36_731_011_531_180,
        112_244_514_819_796,
        6_000,
        148_556_820_223_757,
    );
    assert_get_d_upscaled(
        638_355_455_638_005,
        144_419_816_425_350,
        20_000,
        781_493_318_669_443,
    );
    assert_get_d_upscaled(
        747_070_395_683_716,
        583_370_126_767_355,
        200_000,
        1_330_435_412_150_341,
    );
    assert_get_d_upscaled(
        222_152_880_197_132,
        503_754_962_483_370,
        10_000,
        725_272_897_710_721,
    );

    assert_get_d(
        u256(30_000_000_000_000),
        u256(10_000_000_000_000),
        u256(200),
        u256(38_041_326_932_308),
    );
}

#[test]
fn test_get_y() {
    // Expected values generated from a reference stable-swap contract;
    // the D values come from the results of the previous test.
    assert_get_y_u64(1_010_000, 20_000, 2_000_000, 990_000);
    assert_get_y_u64(
        1_045_311_940_606_135,
        10_000,
        1_077_207_198_258_876,
        54_125_279_774_978,
    );
    assert_get_y_u64(
        628_789_391_533_719,
        6_000,
        589_673_027_554_751,
        12_102_396_904_252,
    );
    assert_get_y_u64(
        664_497_701_537_459,
        200_000,
        649_811_157_409_887,
        1_571_656_363_072,
    );
    assert_get_y_u64(
        1_241_196_069_415_337,
        6_000,
        1_389_495_058_454_884,
        164_151_111_358_319,
    );
    assert_get_y_u64(
        1_207_464_631_415_294,
        20_000,
        1_059_395_029_204_629,
        3_978_315_032_067,
    );
    assert_get_y_u64(
        1_326_030_781_815_325,
        6_000,
        1_586_694_700_461_120,
        270_631_769_558_978,
    );
    assert_get_y_u64(
        596_549_235_149_733,
        6_000,
        148_556_820_223_757,
        25_485_695_510,
    );
    assert_get_y_u64(
        1_412_549_409_240_877,
        20_000,
        781_493_318_669_443,
        333_436_412_241,
    );
    assert_get_y_u64(
        966_973_926_501_573,
        200_000,
        1_330_435_412_150_341,
        363_547_559_872_801,
    );
    assert_get_y_u64(
        468_614_952_287_735,
        10_000,
        725_272_897_710_721,
        256_991_438_480_111,
    );

    // Simulating a trade: buy the first token, sell 1000 of the second.
    assert_get_y_u64(
        10_000_000_000_000u64 + 100_000_000_000u64,
        1u64 * 2u64 * 100u64,
        38_041_326_932_308u64,
        29_845_303_826_098u64,
    );
    assert_get_y_u64(
        30_000_000_000_000u64 + 51_565_391_310u64,
        1u64 * 2u64 * 100u64,
        38_041_326_932_308u64,
        9_966_843_369_867u64,
    );
}

#[test]
fn test_scaled_y() {
    assert_get_y_scaled(u256(1_010_000), u256(20_000), u256(2_000_000), u256(990_000));
    assert_get_y_scaled(
        u256(1_045_311_940_606_135),
        u256(10_000),
        u256(1_077_207_198_258_876),
        u256(54_125_279_774_978),
    );
    assert_get_y_scaled(
        u256(628_789_391_533_719),
        u256(6_000),
        u256(589_673_027_554_751),
        u256(12_102_396_904_252),
    );
    assert_get_y_scaled(
        u256(664_497_701_537_459),
        u256(200_000),
        u256(649_811_157_409_887),
        u256(1_571_656_363_072),
    );
    assert_get_y_scaled(
        u256(1_241_196_069_415_337),
        u256(6_000),
        u256(1_389_495_058_454_884),
        u256(164_151_111_358_319),
    );
    assert_get_y_scaled(
        u256(1_207_464_631_415_294),
        u256(20_000),
        u256(1_059_395_029_204_629),
        u256(3_978_315_032_067),
    );
    assert_get_y_scaled(
        u256(1_326_030_781_815_325),
        u256(6_000),
        u256(1_586_694_700_461_120),
        u256(270_631_769_558_978),
    );
    assert_get_y_scaled(
        u256(596_549_235_149_733),
        u256(6_000),
        u256(148_556_820_223_757),
        u256(25_485_695_510),
    );
    assert_get_y_scaled(
        u256(1_412_549_409_240_877),
        u256(20_000),
        u256(781_493_318_669_443),
        u256(333_436_412_241),
    );
    assert_get_y_scaled(
        u256(966_973_926_501_573),
        u256(200_000),
        u256(1_330_435_412_150_341),
        u256(363_547_559_872_801),
    );
    assert_get_y_scaled(
        u256(468_614_952_287_735),
        u256(10_000),
        u256(725_272_897_710_721),
        u256(256_991_438_480_111),
    );
}
