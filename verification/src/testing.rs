//! Small warm-up utilities: squaring and minimum search.

use vstd::prelude::*;

verus! {

/// The square of `x`, widened so it always fits.
pub fn square(x: i16) -> (r: i32)
    ensures
        r == x * x,
{
    proof {
        assert((x as int) * (x as int) <= 32768 * 32768) by (nonlinear_arith)
            requires
                -32768 <= x <= 32767,
        ;
        assert((x as int) * (x as int) >= 0) by (nonlinear_arith);
    }
    (x as i32) * (x as i32)
}

/// The smallest element of a non-empty vector.
pub fn find_minimum(v: Vec<i32>) -> (r: i32)
    requires
        v@.len() > 0,
    ensures
        v@.contains(r),
        forall|i: int| 0 <= i < v@.len() ==> r <= v@[i],
{
    let mut min = v[0];
    let mut i: usize = 1;
    while i < v.len()
        invariant
            1 <= i <= v@.len(),
            v@.contains(min),
            forall|j: int| 0 <= j < i ==> min <= v@[j],
        decreases v@.len() - i,
    {
        if v[i] < min {
            min = v[i];
        }
        i += 1;
    }
    min
}

} // verus!
