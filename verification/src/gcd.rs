//! Greatest common divisor by Euclid's algorithm.
//!
//! The contract pins the result down completely: it divides both inputs, and
//! every common divisor of the inputs divides it (and so is no larger).

use vstd::prelude::*;
use vstd::arithmetic::div_mod::{
    lemma_fundamental_div_mod, lemma_add_mod_noop, lemma_sub_mod_noop, lemma_mul_mod_noop_left,
    lemma_small_mod, lemma_mod_self_0,
};
use vstd::arithmetic::mul::lemma_mul_is_commutative;

verus! {

/// `d` divides `x` with no remainder.  Meaningful for `d > 0`.
pub open spec fn divides(d: int, x: int) -> bool {
    x % d == 0
}

/// `d` is a divisor of both `a` and `b`.
pub open spec fn is_common_divisor(d: int, a: int, b: int) -> bool {
    divides(d, a) && divides(d, b)
}

/// Taking `b` modulo `a` keeps the set of common divisors unchanged.
proof fn lemma_mod_keeps_common_divisors(d: int, a: int, b: int)
    requires
        d > 0,
        a > 0,
        b >= 0,
    ensures
        is_common_divisor(d, a, b) <==> is_common_divisor(d, a, b % a),
{
    let q = b / a;
    let r = b % a;
    lemma_fundamental_div_mod(b, a);
    lemma_small_mod(0nat, d as nat);
    if divides(d, a) {
        lemma_mul_mod_noop_left(a, q, d);
        lemma_mul_is_commutative(a, q);
        assert((a * q) % d == 0);
        if divides(d, b) {
            lemma_sub_mod_noop(b, a * q, d);
            assert(r % d == 0);
        }
        if divides(d, r) {
            lemma_add_mod_noop(a * q, r, d);
            assert(b % d == 0);
        }
    }
}

/// A positive divisor of a positive number is no larger than that number.
proof fn lemma_divisor_bounded(d: int, x: int)
    requires
        d > 0,
        x > 0,
        divides(d, x),
    ensures
        d <= x,
{
    lemma_fundamental_div_mod(x, d);
    assert(x == d * (x / d));
    lemma_quotient_positive(d, x / d, x);
}

/// If a product of `d > 0` and `q` is positive, it is at least `d`.
proof fn lemma_quotient_positive(d: int, q: int, x: int) by (nonlinear_arith)
    requires
        d > 0,
        x > 0,
        x == d * q,
    ensures
        d <= x,
{
}

/// Greatest common divisor of two positive numbers.
///
/// The result divides both inputs, and every positive common divisor of the
/// inputs divides the result; in particular none exceeds it.
pub fn gcd(n: u64, m: u64) -> (r: u64)
    requires
        n != 0,
        m != 0,
    ensures
        r > 0,
        divides(r as int, n as int),
        divides(r as int, m as int),
        forall|d: int|
            d > 0 && is_common_divisor(d, n as int, m as int) ==> divides(d, r as int) && d <= r,
{
    let ghost n0 = n as int;
    let ghost m0 = m as int;
    let mut n = n;
    let mut m = m;
    while m != 0
        invariant
            n > 0,
            forall|d: int|
                d > 0 ==> (#[trigger] is_common_divisor(d, n as int, m as int)
                    <==> is_common_divisor(d, n0, m0)),
        decreases m,
    {
        if m < n {
            let t = m;
            m = n;
            n = t;
        }
        proof {
            assert forall|d: int|
                d > 0 implies (#[trigger] is_common_divisor(d, n as int, m as int)
                    <==> is_common_divisor(d, n0, m0)) by {
                assert(is_common_divisor(d, n as int, m as int) == is_common_divisor(
                    d,
                    m as int,
                    n as int,
                ));
            }
            assert forall|d: int|
                d > 0 implies (#[trigger] is_common_divisor(d, n as int, (m as int) % (n as int))
                    <==> is_common_divisor(d, n0, m0)) by {
                lemma_mod_keeps_common_divisors(d, n as int, m as int);
            }
        }
        m = m % n;
    }
    proof {
        lemma_mod_self_0(n as int);
        lemma_small_mod(0nat, n as nat);
        assert(is_common_divisor(n as int, n as int, m as int));
        assert forall|d: int|
            d > 0 && is_common_divisor(d, n0, m0) implies divides(d, n as int) && d <= n by {
            lemma_small_mod(0nat, d as nat);
            assert(is_common_divisor(d, n as int, m as int));
            lemma_divisor_bounded(d, n as int);
        }
    }
    n
}

} // verus!
