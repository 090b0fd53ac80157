use base10_exponent::{exp10, exp10_digits, exp10_with_digits, Binary32, Binary64};

fn d(x: f64) -> Binary64 {
    Binary64::from_bits(x.to_bits())
}

fn s(x: f32) -> Binary32 {
    Binary32::from_bits(x.to_bits())
}

#[test]
fn test_exp10_f64_normalized_numbers() {
    assert_eq!(exp10(d(1.0)), 0);
    assert_eq!(exp10(d(9.9)), 0);
    assert_eq!(exp10(d(10.0)), 1);
    assert_eq!(exp10(d(99.9)), 1);
    assert_eq!(exp10(d(100.0)), 2);
    assert_eq!(exp10(d(999.0)), 2);
    assert_eq!(exp10(d(1000.0)), 3);
    assert_eq!(exp10(d(1e6)), 6);
    assert_eq!(exp10(d(1e100)), 100);
}

#[test]
fn test_exp10_f64_negative_numbers() {
    assert_eq!(exp10(d(-1.0)), 0);
    assert_eq!(exp10(d(-10.0)), 1);
    assert_eq!(exp10(d(-1e6)), 6);
    assert_eq!(exp10(d(-1e100)), 100);
}

#[test]
fn test_exp10_f64_small_numbers() {
    assert_eq!(exp10(d(0.1)), -1);
    assert_eq!(exp10(d(0.01)), -2);
    assert_eq!(exp10(d(1e-10)), -10);
    assert_eq!(exp10(d(1e-100)), -100);
}

#[test]
fn test_exp10_f64_subnormal_numbers() {
    let min_subnormal = f64::from_bits(1);
    assert_eq!(exp10(d(min_subnormal)), -324);

    let subnormal = f64::from_bits(100);
    assert!(exp10(d(subnormal)) <= -308);
}

#[test]
fn test_exp10_f64_boundary_values() {
    assert_eq!(exp10(d(f64::MIN_POSITIVE)), -308);
    assert_eq!(exp10(d(f64::MAX)), 308);
}

#[test]
fn test_exp10_f64_special_values() {
    assert_eq!(exp10(d(0.0)), 0);
    assert_eq!(exp10(d(-0.0)), 0);
    assert_eq!(exp10(d(f64::INFINITY)), 0);
    assert_eq!(exp10(d(f64::NEG_INFINITY)), 0);
    assert_eq!(exp10(d(f64::NAN)), 0);
}

#[test]
fn test_exp10_f32_normalized_numbers() {
    assert_eq!(exp10(s(1.0)), 0);
    assert_eq!(exp10(s(9.9)), 0);
    assert_eq!(exp10(s(10.0)), 1);
    assert_eq!(exp10(s(99.9)), 1);
    assert_eq!(exp10(s(100.0)), 2);
    assert_eq!(exp10(s(1e6)), 6);
    assert_eq!(exp10(s(1e20)), 20);
}

#[test]
fn test_exp10_f32_negative_numbers() {
    assert_eq!(exp10(s(-1.0)), 0);
    assert_eq!(exp10(s(-10.0)), 1);
    assert_eq!(exp10(s(-1e6)), 6);
}

#[test]
fn test_exp10_f32_small_numbers() {
    assert_eq!(exp10(s(0.1)), -1);
    assert_eq!(exp10(s(0.01)), -2);
    assert_eq!(exp10(s(1e-10)), -10);
}

#[test]
fn test_exp10_f32_subnormal_numbers() {
    let min_subnormal = f32::from_bits(1);
    assert_eq!(exp10(s(min_subnormal)), -45);

    let subnormal = f32::from_bits(100);
    assert!(exp10(s(subnormal)) <= -38);
}

#[test]
fn test_exp10_f32_boundary_values() {
    assert_eq!(exp10(s(f32::MIN_POSITIVE)), -38);
    assert_eq!(exp10(s(f32::MAX)), 38);
}

#[test]
fn test_exp10_f32_special_values() {
    assert_eq!(exp10(s(0.0)), 0);
    assert_eq!(exp10(s(-0.0)), 0);
    assert_eq!(exp10(s(f32::INFINITY)), 0);
    assert_eq!(exp10(s(f32::NEG_INFINITY)), 0);
    assert_eq!(exp10(s(f32::NAN)), 0);
}

#[test]
fn test_exp10_digits_f64() {
    assert_eq!(exp10_digits(d(1.0)), 1);
    assert_eq!(exp10_digits(d(10.0)), 1);
    assert_eq!(exp10_digits(d(100.0)), 1);
    assert_eq!(exp10_digits(d(1e10)), 2);
    assert_eq!(exp10_digits(d(1e99)), 2);
    assert_eq!(exp10_digits(d(1e100)), 3);
    assert_eq!(exp10_digits(d(1e-9)), 1);
    assert_eq!(exp10_digits(d(1e-10)), 2);
    assert_eq!(exp10_digits(d(1e-200)), 3);
}

#[test]
fn test_exp10_digits_f32() {
    assert_eq!(exp10_digits(s(1.0)), 1);
    assert_eq!(exp10_digits(s(10.0)), 1);
    assert_eq!(exp10_digits(s(1e10)), 2);
    assert_eq!(exp10_digits(s(1e-9)), 1);
    assert_eq!(exp10_digits(s(1e-10)), 2);
    assert_eq!(exp10_digits(s(1e-20)), 2);
}

#[test]
fn test_exp10_digits_special_values() {
    assert_eq!(exp10_digits(d(0.0)), 0);
    assert_eq!(exp10_digits(d(f64::INFINITY)), 0);
    assert_eq!(exp10_digits(d(f64::NAN)), 0);

    assert_eq!(exp10_digits(s(0.0)), 0);
    assert_eq!(exp10_digits(s(f32::INFINITY)), 0);
    assert_eq!(exp10_digits(s(f32::NAN)), 0);
}

#[test]
fn test_exp10_with_digits_f64() {
    assert_eq!(exp10_with_digits(d(1.0)), (0, 1));
    assert_eq!(exp10_with_digits(d(10.0)), (1, 1));
    assert_eq!(exp10_with_digits(d(1e10)), (10, 2));
    assert_eq!(exp10_with_digits(d(1e100)), (100, 3));
    assert_eq!(exp10_with_digits(d(1e-10)), (-10, 2));
    assert_eq!(exp10_with_digits(d(1e-200)), (-200, 3));
}

#[test]
fn test_exp10_with_digits_f32() {
    assert_eq!(exp10_with_digits(s(1.0)), (0, 1));
    assert_eq!(exp10_with_digits(s(10.0)), (1, 1));
    assert_eq!(exp10_with_digits(s(1e10)), (10, 2));
    assert_eq!(exp10_with_digits(s(1e-10)), (-10, 2));
    assert_eq!(exp10_with_digits(s(1e-20)), (-20, 2));
}

#[test]
fn test_exp10_with_digits_special_values() {
    assert_eq!(exp10_with_digits(d(0.0)), (0, 0));
    assert_eq!(exp10_with_digits(d(f64::INFINITY)), (0, 0));
    assert_eq!(exp10_with_digits(d(f64::NAN)), (0, 0));

    assert_eq!(exp10_with_digits(s(0.0)), (0, 0));
    assert_eq!(exp10_with_digits(s(f32::INFINITY)), (0, 0));
    assert_eq!(exp10_with_digits(s(f32::NAN)), (0, 0));
}
