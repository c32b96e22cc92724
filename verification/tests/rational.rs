use mandelbrot::complex::Complex;
use mandelbrot::rational::Frac;

#[test]
fn fraction_equality_ignores_representation() {
    assert_eq!(Frac::new(2, 4), Frac::new(1, 2));
    assert_eq!(Frac::new(-3, 6), Frac::new(-1, 2));
    assert_ne!(Frac::new(1, 3), Frac::new(1, 2));
}

#[test]
fn fraction_arithmetic_is_exact() {
    assert_eq!(Frac::new(1, 2).add(&Frac::new(1, 3)), Frac::new(5, 6));
    assert_eq!(Frac::new(1, 2).sub(&Frac::new(1, 2)), Frac::from_int(0));
    assert_eq!(Frac::new(1, 2).mul(&Frac::new(2, 3)), Frac::new(1, 3));
    assert_eq!(Frac::new(1, 2).div_int(2), Frac::new(1, 4));
}

#[test]
fn fraction_comparisons_are_exact() {
    let third = Frac::new(1, 3);
    let almost_third = Frac::new(333333333, 1000000000);
    assert!(almost_third.lt(&third));
    assert!(third.gt(&almost_third));
    assert!(!third.gt(&third));
    assert!(!third.lt(&third));
}

#[test]
fn complex_multiplication_follows_the_rule() {
    // (1 + 2i) * (3 + 4i) == -5 + 10i
    let a = Complex::new(Frac::from_int(1), Frac::from_int(2));
    let b = Complex::new(Frac::from_int(3), Frac::from_int(4));
    assert_eq!(a.mul(&b), Complex::new(Frac::from_int(-5), Frac::from_int(10)));
}

#[test]
fn squared_magnitude_and_escape_test() {
    let c = Complex::new(Frac::from_int(3), Frac::from_int(4));
    assert_eq!(c.norm_sqr(), Frac::from_int(25));
    assert!(c.escaped());
    let inside = Complex::new(Frac::from_int(1), Frac::from_int(1));
    assert!(!inside.escaped());
    // The threshold is strict: squared magnitude exactly 4 does not escape.
    let edge = Complex::new(Frac::from_int(2), Frac::from_int(0));
    assert!(!edge.escaped());
}
