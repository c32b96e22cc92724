//! Exact fractions over 64-bit integers.
//!
//! A [`Frac`] holds a numerator and a positive denominator.  Its mathematical
//! value is modelled by [`QVal`], a pair of unbounded integers, and every
//! operation's contract states the exact resulting pair.  Nothing is ever
//! rounded: an operation is only callable when its exact result fits the
//! machine representation, which the `q_fits` preconditions express.

use vstd::prelude::*;

verus! {

/// The mathematical value of a fraction: `n / d` with unbounded integers.
#[verifier::ext_equal]
pub struct QVal {
    pub n: int,
    pub d: int,
}

/// The fraction `k / 1`.
pub open spec fn q_int(k: int) -> QVal {
    QVal { n: k, d: 1 }
}

/// Exact sum: `a/b + c/d == (a*d + c*b) / (b*d)`.
pub open spec fn q_add(x: QVal, y: QVal) -> QVal {
    QVal { n: x.n * y.d + y.n * x.d, d: x.d * y.d }
}

/// Exact difference: `a/b - c/d == (a*d - c*b) / (b*d)`.
pub open spec fn q_sub(x: QVal, y: QVal) -> QVal {
    QVal { n: x.n * y.d - y.n * x.d, d: x.d * y.d }
}

/// Exact product: `(a/b) * (c/d) == (a*c) / (b*d)`.
pub open spec fn q_mul(x: QVal, y: QVal) -> QVal {
    QVal { n: x.n * y.n, d: x.d * y.d }
}

/// Exact quotient by a whole number: `(a/b) / k == a / (b*k)`.
pub open spec fn q_div_int(x: QVal, k: int) -> QVal {
    QVal { n: x.n, d: x.d * k }
}

/// The two pairs stand for the same rational number (for positive
/// denominators): cross-multiplication.
pub open spec fn q_eq(x: QVal, y: QVal) -> bool {
    x.n * y.d == y.n * x.d
}

/// `x < y` as rationals, for positive denominators.
pub open spec fn q_lt(x: QVal, y: QVal) -> bool {
    x.n * y.d < y.n * x.d
}

/// `x > y` as rationals, for positive denominators.
pub open spec fn q_gt(x: QVal, y: QVal) -> bool {
    x.n * y.d > y.n * x.d
}

/// The pair has a positive denominator, so it denotes a rational number.
pub open spec fn q_wf(x: QVal) -> bool {
    x.d > 0
}

/// The pair is representable by a `Frac`: both components fit `i64` and the
/// denominator is positive.
pub open spec fn q_fits(x: QVal) -> bool {
    i64::MIN <= x.n <= i64::MAX && 1 <= x.d <= i64::MAX
}

/// A product with a zero factor is zero.
pub(crate) proof fn lemma_mul_zero(x: int, y: int) by (nonlinear_arith)
    ensures
        x == 0 ==> x * y == 0,
        y == 0 ==> x * y == 0,
{
}

/// The product of two `i64`-sized factors stays well inside the `i128` range.
proof fn lemma_i64_product_in_i128(a: int, b: int) by (nonlinear_arith)
    requires
        i64::MIN <= a <= i64::MAX,
        i64::MIN <= b <= i64::MAX,
    ensures
        -0x4000_0000_0000_0000_0000_0000_0000_0000 <= a * b
            <= 0x4000_0000_0000_0000_0000_0000_0000_0000,
{
}

/// An exact fraction: numerator `n` over denominator `d`.
///
/// Every function of this crate keeps the denominator positive; `wf` states
/// that, and the operations require and preserve it.
#[derive(Clone, Copy, Debug)]
#[verifier::ext_equal]
pub struct Frac {
    pub n: i64,
    pub d: i64,
}

impl View for Frac {
    type V = QVal;

    open spec fn view(&self) -> QVal {
        QVal { n: self.n as int, d: self.d as int }
    }
}

impl PartialEq for Frac {
    /// Two fractions are equal when they stand for the same rational number,
    /// whatever their representation.
    fn eq(&self, other: &Frac) -> (r: bool) {
        proof {
            lemma_i64_product_in_i128(self.n as int, other.d as int);
            lemma_i64_product_in_i128(other.n as int, self.d as int);
        }
        (self.n as i128) * (other.d as i128) == (other.n as i128) * (self.d as i128)
    }
}

impl vstd::std_specs::cmp::PartialEqSpecImpl for Frac {
    open spec fn obeys_eq_spec() -> bool {
        true
    }

    open spec fn eq_spec(&self, other: &Frac) -> bool {
        q_eq(self@, other@)
    }
}

impl Frac {
    /// The denominator is positive.
    pub open spec fn wf(&self) -> bool {
        q_wf(self@)
    }

    /// The fraction `n / d`.
    pub fn new(n: i64, d: i64) -> (r: Frac)
        requires
            d > 0,
        ensures
            r.wf(),
            r@ == (QVal { n: n as int, d: d as int }),
    {
        Frac { n, d }
    }

    /// The whole number `k` as a fraction.
    pub fn from_int(k: i64) -> (r: Frac)
        ensures
            r.wf(),
            r@ == q_int(k as int),
    {
        Frac { n: k, d: 1 }
    }

    /// The numerator.
    pub fn numer(&self) -> (r: i64)
        ensures
            r as int == self@.n,
    {
        self.n
    }

    /// The denominator.
    pub fn denom(&self) -> (r: i64)
        ensures
            r as int == self@.d,
    {
        self.d
    }

    /// Exact addition.
    pub fn add(&self, other: &Frac) -> (r: Frac)
        requires
            self.wf(),
            other.wf(),
            q_fits(q_add(self@, other@)),
        ensures
            r.wf(),
            r@ == q_add(self@, other@),
    {
        proof {
            lemma_i64_product_in_i128(self.n as int, other.d as int);
            lemma_i64_product_in_i128(other.n as int, self.d as int);
            lemma_i64_product_in_i128(self.d as int, other.d as int);
        }
        let n: i128 = (self.n as i128) * (other.d as i128) + (other.n as i128) * (self.d as i128);
        let d: i128 = (self.d as i128) * (other.d as i128);
        Frac { n: n as i64, d: d as i64 }
    }

    /// Exact subtraction.
    pub fn sub(&self, other: &Frac) -> (r: Frac)
        requires
            self.wf(),
            other.wf(),
            q_fits(q_sub(self@, other@)),
        ensures
            r.wf(),
            r@ == q_sub(self@, other@),
    {
        proof {
            lemma_i64_product_in_i128(self.n as int, other.d as int);
            lemma_i64_product_in_i128(other.n as int, self.d as int);
            lemma_i64_product_in_i128(self.d as int, other.d as int);
        }
        let n: i128 = (self.n as i128) * (other.d as i128) - (other.n as i128) * (self.d as i128);
        let d: i128 = (self.d as i128) * (other.d as i128);
        Frac { n: n as i64, d: d as i64 }
    }

    /// Exact multiplication.
    pub fn mul(&self, other: &Frac) -> (r: Frac)
        requires
            self.wf(),
            other.wf(),
            q_fits(q_mul(self@, other@)),
        ensures
            r.wf(),
            r@ == q_mul(self@, other@),
    {
        proof {
            lemma_i64_product_in_i128(self.n as int, other.n as int);
            lemma_i64_product_in_i128(self.d as int, other.d as int);
        }
        let n: i128 = (self.n as i128) * (other.n as i128);
        let d: i128 = (self.d as i128) * (other.d as i128);
        Frac { n: n as i64, d: d as i64 }
    }

    /// Exact division by a positive whole number.
    pub fn div_int(&self, k: i64) -> (r: Frac)
        requires
            self.wf(),
            k > 0,
            q_fits(q_div_int(self@, k as int)),
        ensures
            r.wf(),
            r@ == q_div_int(self@, k as int),
    {
        proof {
            lemma_i64_product_in_i128(self.d as int, k as int);
        }
        let d: i128 = (self.d as i128) * (k as i128);
        Frac { n: self.n, d: d as i64 }
    }

    /// Exact comparison: `self > other` as rational numbers.
    pub fn gt(&self, other: &Frac) -> (r: bool)
        ensures
            r == q_gt(self@, other@),
    {
        proof {
            lemma_i64_product_in_i128(self.n as int, other.d as int);
            lemma_i64_product_in_i128(other.n as int, self.d as int);
        }
        (self.n as i128) * (other.d as i128) > (other.n as i128) * (self.d as i128)
    }

    /// Exact comparison: `self < other` as rational numbers.
    pub fn lt(&self, other: &Frac) -> (r: bool)
        ensures
            r == q_lt(self@, other@),
    {
        proof {
            lemma_i64_product_in_i128(self.n as int, other.d as int);
            lemma_i64_product_in_i128(other.n as int, self.d as int);
        }
        (self.n as i128) * (other.d as i128) < (other.n as i128) * (self.d as i128)
    }
}

} // verus!
