//! Escape-time evaluation for the quadratic map `z <- z * z + c`.
//!
//! The orbit of a constant `c` starts at the origin and repeatedly squares
//! and adds `c`, all in exact arithmetic.  [`escape_time`] reports the first
//! step at which the orbit's squared magnitude exceeds 4, or that no such
//! step exists below the given limit.  The magnitude test of each step is
//! evaluated *before* the update, so a constant far outside the circle is
//! reported at step 1, not 0.

use vstd::prelude::*;
use crate::complex::{
    CVal, Complex, c_add, c_mul, c_zero, c_wf, c_fits, c_escaped, c_norm_sqr, c_mul_fits,
    c_add_fits, c_norm_sqr_fits,
};
use crate::rational::{q_eq, q_gt, q_int, lemma_mul_zero};
use vstd::arithmetic::mul::{lemma_mul_strictly_positive, lemma_mul_basics};

verus! {

/// The exact orbit of `c`: `orbit(c, 0) == 0` and
/// `orbit(c, i + 1) == orbit(c, i)^2 + c`.
pub open spec fn orbit(c: CVal, i: nat) -> CVal
    decreases i,
{
    if i == 0 {
        c_zero()
    } else {
        c_add(c_mul(orbit(c, (i - 1) as nat), orbit(c, (i - 1) as nat)), c)
    }
}

/// The orbit of `c` lies strictly outside the radius-2 circle at step `i`.
pub open spec fn escaped_at(c: CVal, i: nat) -> bool {
    c_escaped(orbit(c, i))
}

/// No step of the orbit before step `i` has escaped.
pub open spec fn no_escape_before(c: CVal, i: int) -> bool {
    forall|j: nat| j < i ==> !escaped_at(c, j)
}

/// Every intermediate fraction of one update `z * z + c` is representable.
pub open spec fn step_fits(z: CVal, c: CVal) -> bool {
    c_mul_fits(z, z) && c_add_fits(c_mul(z, z), c)
}

/// Every value the evaluator computes below `limit` is representable: the
/// magnitude test of each step that is reached, and the update of each such
/// step that does not escape.
pub open spec fn orbit_fits(c: CVal, limit: int) -> bool {
    forall|i: nat|
        #![trigger orbit(c, i)]
        i < limit && no_escape_before(c, i as int) ==> c_norm_sqr_fits(orbit(c, i)) && (!escaped_at(
            c,
            i,
        ) ==> step_fits(orbit(c, i), c))
}

/// The orbit of a well-formed constant keeps positive denominators.
pub proof fn lemma_orbit_wf(c: CVal, i: nat)
    requires
        c_wf(c),
    ensures
        c_wf(orbit(c, i)),
    decreases i,
{
    if i > 0 {
        lemma_orbit_wf(c, (i - 1) as nat);
        let z = orbit(c, (i - 1) as nat);
        assert(orbit(c, i) == c_add(c_mul(z, z), c));
        let a = z.re.d;
        let b = z.im.d;
        assert(a > 0 && b > 0);
        lemma_mul_strictly_positive(a, a);
        lemma_mul_strictly_positive(b, b);
        lemma_mul_strictly_positive(a, b);
        lemma_mul_strictly_positive(b, a);
        lemma_mul_strictly_positive(a * a, b * b);
        lemma_mul_strictly_positive(a * b, b * a);
        lemma_mul_strictly_positive((a * a) * (b * b), c.re.d);
        lemma_mul_strictly_positive((a * b) * (b * a), c.im.d);
    }
}

/// A constant equal to the origin keeps the orbit's numerators at zero.
proof fn lemma_origin_orbit(c: CVal, i: nat)
    requires
        q_eq(c.re, q_int(0)),
        q_eq(c.im, q_int(0)),
    ensures
        orbit(c, i).re.n == 0,
        orbit(c, i).im.n == 0,
    decreases i,
{
    if i > 0 {
        lemma_origin_orbit(c, (i - 1) as nat);
        let z = orbit(c, (i - 1) as nat);
        let m = c_mul(z, z);
        lemma_mul_zero(z.re.n, z.re.n);
        lemma_mul_zero(z.im.n, z.im.n);
        lemma_mul_zero(z.re.n * z.re.n, z.im.d * z.im.d);
        lemma_mul_zero(z.im.n * z.im.n, z.re.d * z.re.d);
        lemma_mul_zero(m.re.n, c.re.d);
        lemma_mul_zero(c.re.n, m.re.d);
        lemma_mul_zero(z.re.n, z.im.n);
        lemma_mul_zero(z.im.n, z.re.n);
        lemma_mul_zero(z.re.n * z.im.n, z.im.d * z.re.d);
        lemma_mul_zero(z.im.n * z.re.n, z.re.d * z.im.d);
        lemma_mul_zero(m.im.n, c.im.d);
        lemma_mul_zero(c.im.n, m.im.d);
    }
}

/// The origin is a fixed point of the map, so it never escapes, whatever the
/// step and whatever the limit.
pub proof fn lemma_origin_never_escapes(c: CVal, i: nat)
    requires
        c_wf(c),
        q_eq(c.re, q_int(0)),
        q_eq(c.im, q_int(0)),
    ensures
        !escaped_at(c, i),
{
    lemma_origin_orbit(c, i);
    lemma_orbit_wf(c, i);
    let z = orbit(c, i);
    let norm = c_norm_sqr(z);
    lemma_mul_zero(z.re.n, z.re.n);
    lemma_mul_zero(z.im.n, z.im.n);
    lemma_mul_zero(z.re.n * z.re.n, z.im.d * z.im.d);
    lemma_mul_zero(z.im.n * z.im.n, z.re.d * z.re.d);
    assert(norm.n == 0);
    lemma_mul_strictly_positive(z.re.d, z.re.d);
    lemma_mul_strictly_positive(z.im.d, z.im.d);
    lemma_mul_strictly_positive(z.re.d * z.re.d, z.im.d * z.im.d);
    assert(norm.d > 0);
}

/// A constant whose squared magnitude exceeds 4 does not escape at step 0
/// (the orbit still sits at the origin) and escapes at step 1 (the first
/// update moves the orbit to `c` itself).
pub proof fn lemma_far_constant_escapes_at_one(c: CVal)
    requires
        c_wf(c),
        q_gt(c_norm_sqr(c), q_int(4)),
    ensures
        !escaped_at(c, 0),
        escaped_at(c, 1),
        orbit(c, 1) == c,
{
    assert(orbit(c, 0nat) == c_zero());
    assert(orbit(c, 1) == c_add(c_mul(c_zero(), c_zero()), c));
    lemma_mul_basics(0);
    lemma_mul_basics(1);
    lemma_mul_basics(4);
    lemma_mul_basics(c.re.n);
    lemma_mul_basics(c.re.d);
    lemma_mul_basics(c.im.n);
    lemma_mul_basics(c.im.d);
    let m = c_mul(c_zero(), c_zero());
    assert(m.re.n == 0 && m.re.d == 1);
    assert(m.im.n == 0 && m.im.d == 1);
    assert(orbit(c, 1).re =~= c.re);
    assert(orbit(c, 1).im =~= c.im);
    assert(orbit(c, 1) =~= c);
}

/// The orbit of the exact origin constant sits at the origin forever.
proof fn lemma_zero_orbit(i: nat)
    ensures
        orbit(c_zero(), i) == c_zero(),
    decreases i,
{
    lemma_mul_basics(0);
    lemma_mul_basics(1);
    if i > 0 {
        lemma_zero_orbit((i - 1) as nat);
        let m = c_mul(c_zero(), c_zero());
        assert(m.re.n == 0 && m.re.d == 1);
        assert(m.im.n == 0 && m.im.d == 1);
        assert(c_add(m, c_zero()).re =~= q_int(0));
        assert(c_add(m, c_zero()).im =~= q_int(0));
        assert(orbit(c_zero(), i) =~= c_zero());
    }
}

/// Everything the evaluator computes for the origin constant is
/// representable, whatever the limit: callers may run `escape_time` on the
/// origin with any limit at all.
pub proof fn lemma_zero_orbit_fits(limit: int)
    ensures
        orbit_fits(c_zero(), limit),
{
    lemma_mul_basics(0);
    lemma_mul_basics(1);
    let z = c_zero();
    let m = c_mul(z, z);
    assert(m.re.n == 0 && m.re.d == 1);
    assert(m.im.n == 0 && m.im.d == 1);
    assert(c_norm_sqr_fits(z));
    assert(step_fits(z, z));
    assert forall|i: nat|
        #![trigger orbit(c_zero(), i)]
        i < limit && no_escape_before(c_zero(), i as int) implies c_norm_sqr_fits(
        orbit(c_zero(), i),
    ) && (!escaped_at(c_zero(), i) ==> step_fits(orbit(c_zero(), i), c_zero())) by {
        lemma_zero_orbit(i);
    }
}

/// Everything the evaluator computes for a constant far outside the circle
/// is representable, whatever the limit: the orbit is only ever inspected at
/// the origin and at the constant itself.
pub proof fn lemma_far_constant_orbit_fits(c: CVal, limit: int)
    requires
        c_wf(c),
        c_fits(c),
        c_norm_sqr_fits(c),
        q_gt(c_norm_sqr(c), q_int(4)),
    ensures
        orbit_fits(c, limit),
{
    lemma_far_constant_escapes_at_one(c);
    lemma_mul_basics(0);
    lemma_mul_basics(1);
    lemma_mul_basics(c.re.n);
    lemma_mul_basics(c.re.d);
    lemma_mul_basics(c.im.n);
    lemma_mul_basics(c.im.d);
    let z = c_zero();
    let m = c_mul(z, z);
    assert(m.re.n == 0 && m.re.d == 1);
    assert(m.im.n == 0 && m.im.d == 1);
    assert(c_norm_sqr_fits(z));
    assert(c_add(m, c).re =~= c.re);
    assert(c_add(m, c).im =~= c.im);
    assert(step_fits(z, c));
    assert forall|i: nat|
        #![trigger orbit(c, i)]
        i < limit && no_escape_before(c, i as int) implies c_norm_sqr_fits(orbit(c, i)) && (
    !escaped_at(c, i) ==> step_fits(orbit(c, i), c)) by {
        if i == 0 {
            assert(orbit(c, 0nat) == c_zero());
        } else if i == 1 {
            assert(c_norm_sqr_fits(orbit(c, 1)));
        } else {
            assert(!escaped_at(c, 1nat));
            assert(false);
        }
    }
}

/// What `escape_time` promises of its result.
pub open spec fn escape_time_post(c: CVal, limit: int, r: Option<usize>) -> bool {
    match r {
        Some(i) => i < limit && escaped_at(c, i as nat) && no_escape_before(c, i as int),
        None => no_escape_before(c, limit),
    }
}

/// The promise of `escape_time` determines the result: two results that both
/// meet it for the same constant and limit are the same.
pub proof fn lemma_escape_time_unique(c: CVal, limit: int, r1: Option<usize>, r2: Option<usize>)
    requires
        escape_time_post(c, limit, r1),
        escape_time_post(c, limit, r2),
    ensures
        r1 == r2,
{
    match (r1, r2) {
        (Some(i1), Some(i2)) => {
            if i1 < i2 {
                assert(!escaped_at(c, i1 as nat));
            }
            if i2 < i1 {
                assert(!escaped_at(c, i2 as nat));
            }
        },
        (Some(i1), None) => {
            assert(!escaped_at(c, i1 as nat));
        },
        (None, Some(i2)) => {
            assert(!escaped_at(c, i2 as nat));
        },
        (None, None) => {},
    }
}

/// Determines whether `c` escapes the radius-2 circle within `limit`
/// iterations of `z <- z * z + c`, starting from `z == 0`.
///
/// Returns `Some(i)` when step `i` is the first whose squared magnitude
/// exceeds 4, and `None` when no step below `limit` does.  The magnitude is
/// tested before each update, so with `limit == 0` nothing is tested at all.
pub fn escape_time(c: Complex, limit: usize) -> (r: Option<usize>)
    requires
        c.wf(),
        orbit_fits(c@, limit as int),
    ensures
        escape_time_post(c@, limit as int, r),
        limit == 0 ==> r is None,
        q_eq(c@.re, q_int(0)) && q_eq(c@.im, q_int(0)) ==> r is None,
        limit >= 2 && q_gt(c_norm_sqr(c@), q_int(4)) ==> r == Some(1usize),
{
    let mut z = Complex::zero();
    let mut i: usize = 0;
    while i < limit
        invariant
            c.wf(),
            z.wf(),
            i <= limit,
            z@ == orbit(c@, i as nat),
            no_escape_before(c@, i as int),
            orbit_fits(c@, limit as int),
        decreases limit - i,
    {
        proof {
            assert(c_norm_sqr_fits(orbit(c@, i as nat)));
        }
        if z.escaped() {
            proof {
                if q_eq(c@.re, q_int(0)) && q_eq(c@.im, q_int(0)) {
                    lemma_origin_never_escapes(c@, i as nat);
                }
                if limit >= 2 && q_gt(c_norm_sqr(c@), q_int(4)) {
                    lemma_far_constant_escapes_at_one(c@);
                    assert(i == 1);
                }
            }
            return Some(i);
        }
        proof {
            assert(step_fits(orbit(c@, i as nat), c@));
            assert(orbit(c@, (i + 1) as nat) == c_add(
                c_mul(orbit(c@, i as nat), orbit(c@, i as nat)),
                c@,
            ));
        }
        let zz = z.mul(&z);
        z = zz.add(&c);
        i = i + 1;
    }
    proof {
        if limit >= 2 && q_gt(c_norm_sqr(c@), q_int(4)) {
            lemma_far_constant_escapes_at_one(c@);
            assert(!escaped_at(c@, 1nat));
            assert(false);
        }
    }
    None
}

} // verus!
