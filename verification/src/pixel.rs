//! Mapping image pixels to points of the complex plane.
//!
//! An image of `width * height` pixels stands for the rectangle of the
//! complex plane between an upper-left and a lower-right corner.  Column 0
//! maps to the left edge and row 0 to the top edge (the greatest imaginary
//! part); rows grow downward.  The interpolation is linear and, in exact
//! arithmetic, the contract gives the resulting point exactly.

use vstd::prelude::*;
use crate::complex::{CVal, Complex, c_wf};
use crate::rational::{
    Frac, QVal, q_add, q_sub, q_mul, q_div_int, q_eq, q_lt, q_int, q_fits, lemma_mul_zero,
};

verus! {

/// The real part of the mapped point: `ul.re + col * (lr.re - ul.re) / width`.
pub open spec fn pixel_re(ul: CVal, lr: CVal, col: int, width: int) -> QVal {
    q_add(ul.re, q_div_int(q_mul(q_int(col), q_sub(lr.re, ul.re)), width))
}

/// The imaginary part of the mapped point:
/// `ul.im - row * (ul.im - lr.im) / height`.
pub open spec fn pixel_im(ul: CVal, lr: CVal, row: int, height: int) -> QVal {
    q_sub(ul.im, q_div_int(q_mul(q_int(row), q_sub(ul.im, lr.im)), height))
}

/// Every intermediate fraction of the mapping is representable.
pub open spec fn pixel_fits(
    ul: CVal,
    lr: CVal,
    col: int,
    row: int,
    width: int,
    height: int,
) -> bool {
    q_fits(q_sub(lr.re, ul.re)) && q_fits(q_mul(q_int(col), q_sub(lr.re, ul.re))) && q_fits(
        q_div_int(q_mul(q_int(col), q_sub(lr.re, ul.re)), width),
    ) && q_fits(pixel_re(ul, lr, col, width)) && q_fits(q_sub(ul.im, lr.im)) && q_fits(
        q_mul(q_int(row), q_sub(ul.im, lr.im)),
    ) && q_fits(q_div_int(q_mul(q_int(row), q_sub(ul.im, lr.im)), height)) && q_fits(
        pixel_im(ul, lr, row, height),
    )
}

/// Maps a pixel's position in the image to the point of the complex plane it
/// stands for.
///
/// `bounds` is the image size `(width, height)` in pixels, `pixel` the
/// `(column, row)` position, and the two corners give the mapped rectangle.
/// The result is exactly the linear interpolation of the contract.
pub fn pixel_to_point(
    bounds: (usize, usize),
    pixel: (usize, usize),
    upper_left: Complex,
    lower_right: Complex,
) -> (r: Complex)
    requires
        upper_left.wf(),
        lower_right.wf(),
        0 < bounds.0 <= i64::MAX,
        0 < bounds.1 <= i64::MAX,
        pixel.0 < bounds.0,
        pixel.1 < bounds.1,
        q_lt(upper_left@.re, lower_right@.re),
        q_lt(lower_right@.im, upper_left@.im),
        pixel_fits(
            upper_left@,
            lower_right@,
            pixel.0 as int,
            pixel.1 as int,
            bounds.0 as int,
            bounds.1 as int,
        ),
    ensures
        r.wf(),
        r@.re == pixel_re(upper_left@, lower_right@, pixel.0 as int, bounds.0 as int),
        r@.im == pixel_im(upper_left@, lower_right@, pixel.1 as int, bounds.1 as int),
{
    let width = lower_right.re.sub(&upper_left.re);
    let height = upper_left.im.sub(&lower_right.im);
    let col = Frac::from_int(pixel.0 as i64);
    let row = Frac::from_int(pixel.1 as i64);
    let re = upper_left.re.add(&col.mul(&width).div_int(bounds.0 as i64));
    let im = upper_left.im.sub(&row.mul(&height).div_int(bounds.1 as i64));
    Complex::new(re, im)
}

/// Regrouping of a doubly scaled product.
proof fn lemma_scale_regroup(a: int, b: int, s: int) by (nonlinear_arith)
    ensures
        (a * s) * b == a * (b * s),
{
}

/// Pixel `(0, 0)` maps exactly to the upper-left corner, for every image
/// size and every plane rectangle.
pub proof fn lemma_pixel_origin_is_upper_left(ul: CVal, lr: CVal, width: int, height: int)
    requires
        width > 0,
        height > 0,
    ensures
        q_eq(pixel_re(ul, lr, 0, width), ul.re),
        q_eq(pixel_im(ul, lr, 0, height), ul.im),
{
    let s = q_sub(lr.re, ul.re);
    let dv = q_div_int(q_mul(q_int(0), s), width);
    lemma_mul_zero(0, s.n);
    lemma_mul_zero(dv.n, ul.re.d);
    let re = pixel_re(ul, lr, 0, width);
    assert(re.n == ul.re.n * dv.d);
    lemma_scale_regroup(ul.re.n, ul.re.d, dv.d);

    let t = q_sub(ul.im, lr.im);
    let dw = q_div_int(q_mul(q_int(0), t), height);
    lemma_mul_zero(0, t.n);
    lemma_mul_zero(dw.n, ul.im.d);
    let im = pixel_im(ul, lr, 0, height);
    assert(im.n == ul.im.n * dw.d);
    lemma_scale_regroup(ul.im.n, ul.im.d, dw.d);
}

} // verus!
