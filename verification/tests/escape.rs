use mandelbrot::complex::Complex;
use mandelbrot::escape::escape_time;
use mandelbrot::rational::Frac;

fn point(re: i64, im: i64) -> Complex {
    Complex::new(Frac::from_int(re), Frac::from_int(im))
}

#[test]
fn origin_never_escapes() {
    let c = point(0, 0);
    assert_eq!(escape_time(c, 0), None);
    assert_eq!(escape_time(c, 1), None);
    assert_eq!(escape_time(c, 1000), None);
}

#[test]
fn zero_limit_reports_no_escape() {
    assert_eq!(escape_time(point(3, 0), 0), None);
    assert_eq!(escape_time(point(0, 3), 0), None);
    assert_eq!(escape_time(point(-100, 100), 0), None);
    assert_eq!(escape_time(Complex::new(Frac::new(1, 4), Frac::from_int(0)), 0), None);
}

#[test]
fn far_constant_escapes_at_step_one() {
    // The magnitude test runs before each update, so |c| > 2 is first seen
    // one step after the update that moves the orbit from 0 to c.
    assert_eq!(escape_time(point(3, 0), 2), Some(1));
    assert_eq!(escape_time(point(3, 0), 10), Some(1));
    assert_eq!(escape_time(point(0, 3), 2), Some(1));
    assert_eq!(escape_time(Complex::new(Frac::new(5, 2), Frac::from_int(0)), 7), Some(1));
}

#[test]
fn far_constant_with_limit_one_is_not_reported() {
    // With limit 1 only step 0 is tested, and the orbit still sits at 0.
    assert_eq!(escape_time(point(3, 0), 1), None);
}

#[test]
fn interior_points_never_escape() {
    // -1 cycles between -1 and 0; -2 settles at 2, whose squared magnitude
    // equals the threshold without exceeding it.
    assert_eq!(escape_time(point(-1, 0), 50), None);
    assert_eq!(escape_time(point(-2, 0), 50), None);
}

#[test]
fn escaping_point_reports_first_step_past_the_circle() {
    // For c = 1 + i: the orbit reaches 1 + 3i after two updates, and its
    // squared magnitude 10 is the first to exceed 4.
    assert_eq!(escape_time(point(1, 1), 10), Some(2));
}

#[test]
fn slow_orbit_stays_bounded_within_small_limit() {
    let c = Complex::new(Frac::new(1, 4), Frac::from_int(0));
    assert_eq!(escape_time(c, 3), None);
}

#[test]
fn escape_time_repeated_call_agrees() {
    let c = point(1, 1);
    assert_eq!(escape_time(c, 10), escape_time(c, 10));
}
