use base10_exponent::bignum::{compare, from_u64, mul_pow10, mul_pow2, mul_small};
use base10_exponent::exponent::{exp2_to_exp10, ilog2, rounds_below_pow10, subnormal_exponent};
use base10_exponent::{
    exp10, exp10_digit_table, exp10_digits, exp10_of_bits, exp10_with_digits,
    exponent_digit_count, Binary32, Binary64, Format,
};

fn d(x: f64) -> Binary64 {
    Binary64::from_bits(x.to_bits())
}

fn s(x: f32) -> Binary32 {
    Binary32::from_bits(x.to_bits())
}

#[test]
fn scenarios_from_the_description() {
    assert_eq!(exp10(d(1.0)), 0);
    assert_eq!(exp10(d(999.0)), 2);
    assert_eq!(exp10(d(1000.0)), 3);
    assert_eq!(exp10(d(0.01)), -2);
    assert_eq!(exp10(d(1e100)), 100);
    assert_eq!(exp10_with_digits(d(1e-200)), (-200, 3));
}

#[test]
fn values_next_to_a_power_of_ten() {
    let thousand = 1000.0f64;
    let below = f64::from_bits(thousand.to_bits() - 1);
    let above = f64::from_bits(thousand.to_bits() + 1);
    assert_eq!(exp10(d(below)), 2);
    assert_eq!(exp10(d(thousand)), 3);
    assert_eq!(exp10(d(above)), 3);
    assert_eq!(exp10(d(999.9999999999999)), 2);
    assert_eq!(exp10(d(1000.0000000000001)), 3);
}

#[test]
fn every_rounded_power_of_ten_f64() {
    for i in -323i32..=308 {
        let p: f64 = format!("1e{}", i).parse().unwrap();
        assert_eq!(exp10(d(p)), i, "1e{}", i);
        let below = f64::from_bits(p.to_bits() - 1);
        assert_eq!(exp10(d(below)), i - 1, "just below 1e{}", i);
    }
}

#[test]
fn every_rounded_power_of_ten_f32() {
    for i in -45i32..=38 {
        let p: f32 = format!("1e{}", i).parse().unwrap();
        assert_eq!(exp10(s(p)), i, "1e{}", i);
        if i > -45 {
            let below = f32::from_bits(p.to_bits() - 1);
            assert_eq!(exp10(s(below)), i - 1, "just below 1e{}", i);
        }
    }
}

#[test]
fn power_that_rounds_down_to_the_format() {
    // 1e23 is not exact in double precision: it rounds down, to the value
    // that the power of ten itself rounds to.
    assert_eq!(exp10(d(1e23)), 23);
    assert_eq!(exp10(d(f64::from_bits(1e23f64.to_bits() - 1))), 22);
    // 0.01 rounds down in single precision and still counts as 10^-2.
    assert_eq!(exp10(s(0.01)), -2);
    assert_eq!(exp10(s(f32::from_bits(0.01f32.to_bits() - 1))), -3);
}

#[test]
fn sign_does_not_matter() {
    let doubles = [
        1.0,
        9.9,
        1e23,
        123456.789,
        0.000123,
        f64::MIN_POSITIVE,
        f64::MAX,
        f64::from_bits(1),
        f64::from_bits(100),
        0.0,
        f64::INFINITY,
    ];
    for x in doubles {
        assert_eq!(exp10(d(x)), exp10(d(-x)));
        assert_eq!(exp10_digits(d(x)), exp10_digits(d(-x)));
    }
    let singles = [1.0f32, 0.01, 3.5e20, f32::MIN_POSITIVE, f32::MAX, f32::from_bits(7)];
    for x in singles {
        assert_eq!(exp10(s(x)), exp10(s(-x)));
        assert_eq!(exp10_with_digits(s(x)), exp10_with_digits(s(-x)));
    }
}

#[test]
fn format_ends() {
    assert_eq!(exp10(d(f64::from_bits(1))), -324);
    assert_eq!(exp10(d(f64::MIN_POSITIVE)), -308);
    assert_eq!(exp10(d(f64::MAX)), 308);
    assert_eq!(exp10(s(f32::from_bits(1))), -45);
    assert_eq!(exp10(s(f32::MIN_POSITIVE)), -38);
    assert_eq!(exp10(s(f32::MAX)), 38);
    assert_eq!(exp10_with_digits(d(f64::from_bits(1))), (-324, 3));
    assert_eq!(exp10_with_digits(s(f32::MAX)), (38, 2));
}

#[test]
fn combined_matches_separate_calls() {
    let doubles = [1.0, 10.0, 1e-9, 1e-10, 1e200, 5e-324, f64::NAN, -0.0];
    for x in doubles {
        assert_eq!(exp10_with_digits(d(x)), (exp10(d(x)), exp10_digits(d(x))));
    }
    let singles = [1.0f32, 1e-9, 1e-10, 1e30, f32::NEG_INFINITY];
    for x in singles {
        assert_eq!(exp10_with_digits(s(x)), (exp10(s(x)), exp10_digits(s(x))));
    }
}

#[test]
fn repeated_calls_agree() {
    let x = d(0.000731);
    let first = exp10_with_digits(x);
    for _ in 0..5 {
        assert_eq!(exp10_with_digits(x), first);
    }
}

#[test]
fn nan_with_payload_and_negative_infinity() {
    assert_eq!(exp10_of_bits(&Format::binary64(), 0x7ff8_0000_0000_0001), 0);
    assert_eq!(exp10_of_bits(&Format::binary64(), 0xfff0_0000_0000_0000), 0);
    assert_eq!(exp10_of_bits(&Format::binary32(), 0xff80_0001), 0);
    assert_eq!(exp10_digits(Binary32::from_bits(0x8000_0000)), 0);
}

#[test]
fn digit_tables() {
    let t64 = exp10_digit_table::<Binary64>();
    assert_eq!(t64.len(), 325);
    assert_eq!(t64[0], 1);
    assert_eq!(t64[9], 1);
    assert_eq!(t64[10], 2);
    assert_eq!(t64[99], 2);
    assert_eq!(t64[100], 3);
    assert_eq!(t64[324], 3);
    let t32 = exp10_digit_table::<Binary32>();
    assert_eq!(t32.len(), 46);
    assert_eq!(t32[45], 2);
}

#[test]
fn digit_count_of_exponents() {
    assert_eq!(exponent_digit_count(0), 1);
    assert_eq!(exponent_digit_count(-9), 1);
    assert_eq!(exponent_digit_count(10), 2);
    assert_eq!(exponent_digit_count(-200), 3);
    assert_eq!(exponent_digit_count(i32::MAX), 10);
    assert_eq!(exponent_digit_count(-i32::MAX), 10);
}

#[test]
fn binary_to_decimal_estimate() {
    assert_eq!(exp2_to_exp10(0), 0);
    assert_eq!(exp2_to_exp10(10), 3);
    assert_eq!(exp2_to_exp10(-1), 0);
    assert_eq!(exp2_to_exp10(-4), -1);
    assert_eq!(exp2_to_exp10(1023), 308);
    assert_eq!(exp2_to_exp10(-1074), -323);
    // -1068 · log10 2 = -321.50004...: close to a half, and still rounded
    // the right way.
    assert_eq!(exp2_to_exp10(-1068), -322);
    assert_eq!(exp2_to_exp10(1068), 322);
}

#[test]
fn highest_bit_and_subnormal_guess() {
    assert_eq!(ilog2(1), 0);
    assert_eq!(ilog2(1 << 52), 52);
    assert_eq!(ilog2(u64::MAX), 63);
    assert_eq!(subnormal_exponent(&Format::binary64(), 1), -323);
    assert_eq!(subnormal_exponent(&Format::binary32(), 1), -45);
}

#[test]
fn comparison_with_rounded_powers() {
    // 1 · 2^0 against 10^0 and 10^1.
    assert!(!rounds_below_pow10(1, 0, 0));
    assert!(rounds_below_pow10(1, 0, 1));
    // 999 against 10^3.
    assert!(rounds_below_pow10(999, 0, 3));
    assert!(!rounds_below_pow10(1000, 0, 3));
}

#[test]
fn exact_naturals() {
    let a = from_u64(5);
    let b = from_u64(7);
    assert_eq!(compare(&a, &b), -1);
    assert_eq!(compare(&b, &a), 1);
    assert_eq!(compare(&a, &mul_small(&from_u64(1), 5)), 0);
    // 10^20 == 5^20 · 2^20
    let ten20 = mul_pow10(&from_u64(1), 20);
    let split = mul_pow2(&from_u64(95_367_431_640_625), 20);
    assert_eq!(compare(&ten20, &split), 0);
    let more = mul_pow2(&from_u64(95_367_431_640_626), 20);
    assert_eq!(compare(&ten20, &more), -1);
}
