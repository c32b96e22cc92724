use mandelbrot::complex::Complex;
use mandelbrot::pixel::pixel_to_point;
use mandelbrot::rational::Frac;

fn point(re: i64, im: i64) -> Complex {
    Complex::new(Frac::from_int(re), Frac::from_int(im))
}

#[test]
fn test_pixel_to_point() {
    assert_eq!(
        pixel_to_point((100, 100), (25, 75), point(-1, 1), point(1, -1)),
        Complex::new(Frac::new(-1, 2), Frac::new(-1, 2))
    );
    assert_eq!(
        pixel_to_point((200, 100), (100, 50), point(-2, 1), point(1, -1)),
        Complex::new(Frac::new(-1, 2), Frac::from_int(0))
    );
}

#[test]
fn pixel_origin_maps_to_upper_left() {
    let ul = Complex::new(Frac::new(-7, 3), Frac::new(11, 5));
    let lr = Complex::new(Frac::new(5, 2), Frac::new(-9, 4));
    assert_eq!(pixel_to_point((17, 31), (0, 0), ul, lr), ul);
}

#[test]
fn pixel_last_column_stays_inside_right_edge() {
    // Column width-1 maps one pixel step short of the right edge.
    let ul = point(0, 1);
    let lr = point(4, -1);
    assert_eq!(
        pixel_to_point((4, 2), (3, 0), ul, lr),
        Complex::new(Frac::from_int(3), Frac::from_int(1))
    );
}

#[test]
fn pixel_to_point_repeated_call_agrees() {
    let ul = point(-1, 1);
    let lr = point(1, -1);
    assert_eq!(
        pixel_to_point((100, 100), (25, 75), ul, lr),
        pixel_to_point((100, 100), (25, 75), ul, lr)
    );
}
