use mandelbrot::complex::Complex;
use mandelbrot::parse::{parse_complex, parse_frac, parse_i32, parse_pair};
use mandelbrot::rational::Frac;

#[test]
fn test_parse_pair() {
    assert_eq!(parse_pair::<i32>("10,20", ','), Some((10, 20)));
    assert_eq!(parse_pair::<i32>("10x20", 'x'), Some((10, 20)));
    assert_eq!(
        parse_pair::<Frac>("0.5x1.5", 'x'),
        Some((Frac::new(1, 2), Frac::new(3, 2)))
    );
    assert_eq!(parse_pair::<i32>("10,20,30", ','), None);
    assert_eq!(parse_pair::<i32>("10", ','), None);
    assert_eq!(
        parse_pair::<Frac>("10,20", ','),
        Some((Frac::from_int(10), Frac::from_int(20)))
    );
}

#[test]
fn test_parse_complex() {
    assert_eq!(
        parse_complex("1.25,-0.0625"),
        Some(Complex::new(Frac::new(5, 4), Frac::new(-1, 16)))
    );
    assert_eq!(
        parse_complex("0.5,0.5"),
        Some(Complex::new(Frac::new(1, 2), Frac::new(1, 2)))
    );
    assert_eq!(parse_complex("1.0"), None);
}

#[test]
fn parse_pair_rejects_empty_sides() {
    assert_eq!(parse_pair::<i32>(",10", ','), None);
    assert_eq!(parse_pair::<i32>("10,", ','), None);
    assert_eq!(parse_pair::<i32>(",", ','), None);
    assert_eq!(parse_pair::<i32>("", ','), None);
}

#[test]
fn parse_pair_splits_at_first_separator_only() {
    assert_eq!(parse_pair::<i32>("1,2,3", ','), None);
    assert_eq!(parse_pair::<Frac>("1.5x2x3", 'x'), None);
}

#[test]
fn parse_i32_accepts_signs_and_range() {
    assert_eq!(parse_i32("7"), Some(7));
    assert_eq!(parse_i32("+7"), Some(7));
    assert_eq!(parse_i32("-7"), Some(-7));
    assert_eq!(parse_i32("-0"), Some(0));
    assert_eq!(parse_i32("2147483647"), Some(i32::MAX));
    assert_eq!(parse_i32("-2147483648"), Some(i32::MIN));
}

#[test]
fn parse_i32_rejects_malformed_input() {
    assert_eq!(parse_i32(""), None);
    assert_eq!(parse_i32("-"), None);
    assert_eq!(parse_i32("+"), None);
    assert_eq!(parse_i32("12a3"), None);
    assert_eq!(parse_i32(" 12"), None);
    assert_eq!(parse_i32("2147483648"), None);
    assert_eq!(parse_i32("-2147483649"), None);
    assert_eq!(parse_i32("99999999999999999999999999"), None);
}

#[test]
fn parse_frac_accepts_decimal_forms() {
    assert_eq!(parse_frac("5"), Some(Frac::from_int(5)));
    assert_eq!(parse_frac("5."), Some(Frac::from_int(5)));
    assert_eq!(parse_frac(".5"), Some(Frac::new(1, 2)));
    assert_eq!(parse_frac("-.5"), Some(Frac::new(-1, 2)));
    assert_eq!(parse_frac("-0.0625"), Some(Frac::new(-1, 16)));
    assert_eq!(parse_frac("+2.50"), Some(Frac::new(5, 2)));
    assert_eq!(parse_frac("0005"), Some(Frac::from_int(5)));
}

#[test]
fn parse_frac_rejects_malformed_input() {
    assert_eq!(parse_frac(""), None);
    assert_eq!(parse_frac("."), None);
    assert_eq!(parse_frac("-."), None);
    assert_eq!(parse_frac("1.2.3"), None);
    assert_eq!(parse_frac("1e5"), None);
    assert_eq!(parse_frac("--1"), None);
}

#[test]
fn parse_frac_rejects_values_out_of_range() {
    // The mantissa must fit a signed 64-bit integer.
    assert_eq!(parse_frac("10000000000000000000"), None);
    // So must the power-of-ten denominator.
    assert_eq!(parse_frac("0.0000000000000000001"), None);
    assert_eq!(parse_frac("0.000000000000000001"), Some(Frac::new(1, 1000000000000000000)));
}

#[test]
fn parse_complex_repeated_call_agrees() {
    assert_eq!(parse_complex("0.25,-1.5"), parse_complex("0.25,-1.5"));
    assert_eq!(
        parse_complex("0.25,-1.5"),
        Some(Complex::new(Frac::new(1, 4), Frac::new(-3, 2)))
    );
}
