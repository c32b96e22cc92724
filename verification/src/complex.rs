//! Complex points with exact fraction components.
//!
//! A point of the complex plane is a pair of [`Frac`] components.  Arithmetic
//! follows the standard rules: `(a+bi)(c+di) = (ac-bd) + (ad+bc)i`.  The
//! mathematical value of a point is a [`CVal`], a pair of unbounded rational
//! pairs, and every operation's contract gives the exact resulting value.

use vstd::prelude::*;
use crate::rational::{Frac, QVal, q_add, q_sub, q_mul, q_eq, q_gt, q_int, q_wf, q_fits};

verus! {

/// The mathematical value of a complex point.
#[verifier::ext_equal]
pub struct CVal {
    pub re: QVal,
    pub im: QVal,
}

/// Both components denote rational numbers (positive denominators).
pub open spec fn c_wf(a: CVal) -> bool {
    q_wf(a.re) && q_wf(a.im)
}

/// Both components are representable by `Frac`s.
pub open spec fn c_fits(a: CVal) -> bool {
    q_fits(a.re) && q_fits(a.im)
}

/// The two points are equal, component by component, as rational numbers.
pub open spec fn c_eq(a: CVal, b: CVal) -> bool {
    q_eq(a.re, b.re) && q_eq(a.im, b.im)
}

/// The origin `0 + 0i`.
pub open spec fn c_zero() -> CVal {
    CVal { re: q_int(0), im: q_int(0) }
}

/// Exact complex addition.
pub open spec fn c_add(a: CVal, b: CVal) -> CVal {
    CVal { re: q_add(a.re, b.re), im: q_add(a.im, b.im) }
}

/// Exact complex multiplication.
pub open spec fn c_mul(a: CVal, b: CVal) -> CVal {
    CVal { re: q_sub(q_mul(a.re, b.re), q_mul(a.im, b.im)), im: q_add(
        q_mul(a.re, b.im),
        q_mul(a.im, b.re),
    ) }
}

/// Exact squared magnitude: `re * re + im * im`.
pub open spec fn c_norm_sqr(a: CVal) -> QVal {
    q_add(q_mul(a.re, a.re), q_mul(a.im, a.im))
}

/// The point lies strictly outside the circle of radius 2: `|a|^2 > 4`.
pub open spec fn c_escaped(a: CVal) -> bool {
    q_gt(c_norm_sqr(a), q_int(4))
}

/// Every intermediate fraction of an exact complex product is representable.
pub open spec fn c_mul_fits(a: CVal, b: CVal) -> bool {
    q_fits(q_mul(a.re, b.re)) && q_fits(q_mul(a.im, b.im)) && q_fits(q_mul(a.re, b.im)) && q_fits(
        q_mul(a.im, b.re),
    ) && q_fits(c_mul(a, b).re) && q_fits(c_mul(a, b).im)
}

/// Both components of an exact complex sum are representable.
pub open spec fn c_add_fits(a: CVal, b: CVal) -> bool {
    q_fits(c_add(a, b).re) && q_fits(c_add(a, b).im)
}

/// Every intermediate fraction of the exact squared magnitude is
/// representable.
pub open spec fn c_norm_sqr_fits(a: CVal) -> bool {
    q_fits(q_mul(a.re, a.re)) && q_fits(q_mul(a.im, a.im)) && q_fits(c_norm_sqr(a))
}

/// A point of the complex plane, held as two exact fractions.
#[derive(Clone, Copy, Debug)]
#[verifier::ext_equal]
pub struct Complex {
    pub re: Frac,
    pub im: Frac,
}

impl View for Complex {
    type V = CVal;

    open spec fn view(&self) -> CVal {
        CVal { re: self.re@, im: self.im@ }
    }
}

impl PartialEq for Complex {
    /// Two points are equal when both components stand for the same rational
    /// numbers, whatever their representation.
    fn eq(&self, other: &Complex) -> (r: bool) {
        self.re == other.re && self.im == other.im
    }
}

impl vstd::std_specs::cmp::PartialEqSpecImpl for Complex {
    open spec fn obeys_eq_spec() -> bool {
        true
    }

    open spec fn eq_spec(&self, other: &Complex) -> bool {
        c_eq(self@, other@)
    }
}

impl Complex {
    /// Both components have positive denominators.
    pub open spec fn wf(&self) -> bool {
        c_wf(self@)
    }

    /// The point `re + im * i`.
    pub fn new(re: Frac, im: Frac) -> (r: Complex)
        ensures
            r@ == (CVal { re: re@, im: im@ }),
    {
        Complex { re, im }
    }

    /// The origin `0 + 0i`.
    pub fn zero() -> (r: Complex)
        ensures
            r.wf(),
            r@ == c_zero(),
    {
        Complex { re: Frac::from_int(0), im: Frac::from_int(0) }
    }

    /// Exact complex addition.
    pub fn add(&self, other: &Complex) -> (r: Complex)
        requires
            self.wf(),
            other.wf(),
            c_add_fits(self@, other@),
        ensures
            r.wf(),
            r@ == c_add(self@, other@),
    {
        Complex { re: self.re.add(&other.re), im: self.im.add(&other.im) }
    }

    /// Exact complex multiplication.
    pub fn mul(&self, other: &Complex) -> (r: Complex)
        requires
            self.wf(),
            other.wf(),
            c_mul_fits(self@, other@),
        ensures
            r.wf(),
            r@ == c_mul(self@, other@),
    {
        let rr = self.re.mul(&other.re);
        let ii = self.im.mul(&other.im);
        let ri = self.re.mul(&other.im);
        let ir = self.im.mul(&other.re);
        Complex { re: rr.sub(&ii), im: ri.add(&ir) }
    }

    /// Exact squared magnitude.
    pub fn norm_sqr(&self) -> (r: Frac)
        requires
            self.wf(),
            c_norm_sqr_fits(self@),
        ensures
            r.wf(),
            r@ == c_norm_sqr(self@),
    {
        let rr = self.re.mul(&self.re);
        let ii = self.im.mul(&self.im);
        rr.add(&ii)
    }

    /// Whether the point lies strictly outside the circle of radius 2.
    pub fn escaped(&self) -> (r: bool)
        requires
            self.wf(),
            c_norm_sqr_fits(self@),
        ensures
            r == c_escaped(self@),
    {
        let four = Frac::from_int(4);
        self.norm_sqr().gt(&four)
    }
}

} // verus!
