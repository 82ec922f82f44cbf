//! Scalar functions on 32-bit numbers: negation, bitwise complement, and
//! absolute value. The two value-changing ones are partial at the type's
//! minimum, whose negation does not exist in the type.

use vstd::prelude::*;

verus! {

/// Negate a 32-bit number.
pub fn neg_int32(a: i32) -> (r: i32)
    requires
        a != i32::MIN,
    ensures
        r == -a,
{
    -a
}

/// The bitwise complement of a 32-bit number.
pub fn bit_not_int32(a: i32) -> (r: i32)
    ensures
        r == !a,
{
    !a
}

/// The absolute value of a 32-bit number.
pub fn abs_int32(a: i32) -> (r: i32)
    requires
        a != i32::MIN,
    ensures
        a >= 0 ==> r == a,
        a < 0 ==> r == -a,
{
    if a < 0 {
        -a
    } else {
        a
    }
}

} // verus!
