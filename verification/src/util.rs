//! Small verified utilities over slices, vectors and strings.

use vstd::prelude::*;
use vstd::slice::slice_index_get;

verus! {

/// The sum of the elements of `s`, accumulated left to right.
pub open spec fn sum_of(s: Seq<i32>) -> int
    decreases s.len(),
{
    if s.len() == 0 {
        0
    } else {
        sum_of(s.drop_last()) + s.last()
    }
}

/// The smallest and the largest element of a nonempty slice.
pub fn find_min_max(values: &[i32]) -> (r: (i32, i32))
    requires
        values@.len() > 0,
    ensures
        forall|i: int| 0 <= i < values@.len() ==> r.0 <= #[trigger] values@[i] <= r.1,
        exists|i: int| 0 <= i < values@.len() && values@[i] == r.0,
        exists|i: int| 0 <= i < values@.len() && values@[i] == r.1,
{
    let mut min: i32 = *slice_index_get(values, 0);
    let mut max: i32 = *slice_index_get(values, 0);
    let mut idx: usize = 0;
    while idx < values.len()
        invariant
            values@.len() > 0,
            idx <= values@.len(),
            forall|i: int| 0 <= i < idx ==> min <= #[trigger] values@[i] <= max,
            exists|i: int| 0 <= i < values@.len() && values@[i] == min,
            exists|i: int| 0 <= i < values@.len() && values@[i] == max,
        decreases values@.len() - idx,
    {
        let val: i32 = *slice_index_get(values, idx);
        if val < min {
            min = val;
        }
        if val > max {
            max = val;
        }
        idx = idx + 1;
    }
    (min, max)
}

/// Sums a slice; the caller guarantees that no partial sum overflows.
pub fn sum_slice(slice: &[i32]) -> (r: i32)
    requires
        forall|k: int|
            0 <= k <= slice@.len() ==> i32::MIN <= sum_of(#[trigger] slice@.take(k)) <= i32::MAX,
    ensures
        r as int == sum_of(slice@),
{
    let mut total: i32 = 0;
    let mut idx: usize = 0;
    proof {
        assert(slice@.take(0) =~= Seq::<i32>::empty());
    }
    while idx < slice.len()
        invariant
            idx <= slice@.len(),
            total as int == sum_of(slice@.take(idx as int)),
            forall|k: int|
                0 <= k <= slice@.len() ==> i32::MIN <= sum_of(#[trigger] slice@.take(k))
                    <= i32::MAX,
        decreases slice@.len() - idx,
    {
        proof {
            assert(slice@.take(idx as int + 1).drop_last() =~= slice@.take(idx as int));
            assert(slice@.take(idx as int + 1).last() == slice@[idx as int]);
        }
        let val: i32 = *slice_index_get(slice, idx);
        total = total + val;
        idx = idx + 1;
    }
    proof {
        assert(slice@.take(slice@.len() as int) =~= slice@);
    }
    total
}

/// Sums a vector; the caller guarantees that no partial sum overflows.
pub fn sum_vec(v: &Vec<i32>) -> (r: i32)
    requires
        forall|k: int|
            0 <= k <= v@.len() ==> i32::MIN <= sum_of(#[trigger] v@.take(k)) <= i32::MAX,
    ensures
        r as int == sum_of(v@),
{
    sum_slice(v.as_slice())
}

/// Appends `elem` to the vector.
pub fn add_element(v: &mut Vec<i32>, elem: i32)
    ensures
        final(v)@ == old(v)@.push(elem),
{
    v.push(elem);
}

/// Twice the argument.
pub fn double(x: i32) -> (r: i32)
    requires
        i32::MIN <= 2 * x <= i32::MAX,
    ensures
        r == 2 * x,
{
    x * 2
}

/// A fresh string handed to the caller.
pub fn gives_ownership() -> (r: String)
    ensures
        r@ == "transferred"@,
{
    "transferred".to_owned()
}

/// A fresh string built inside the callee.
pub fn create_string() -> (r: String)
    ensures
        r@ == "created"@,
{
    "created".to_owned()
}

} // verus!
