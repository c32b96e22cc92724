use mandelbrot::gcd::gcd;

#[test]
fn test_gcd() {
    assert_eq!(gcd(14, 15), 1);
    assert_eq!(gcd(2 * 3 * 5 * 11 * 17, 3 * 7 * 11 * 13 * 19), 3 * 11);
}

#[test]
fn gcd_of_equal_numbers_is_the_number() {
    assert_eq!(gcd(42, 42), 42);
}

#[test]
fn gcd_with_one_is_one() {
    assert_eq!(gcd(1, 987654321), 1);
    assert_eq!(gcd(987654321, 1), 1);
}

#[test]
fn gcd_of_multiples() {
    assert_eq!(gcd(120, 84), 12);
    assert_eq!(gcd(84, 120), 12);
}

#[test]
fn gcd_repeated_call_agrees() {
    assert_eq!(gcd(1071, 462), gcd(1071, 462));
    assert_eq!(gcd(1071, 462), 21);
}
