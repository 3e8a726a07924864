//! The sample that takes a value out unchecked.

use vstd::prelude::*;

verus! {

/// The value inside `value`. A caller has to show that there is one.
pub fn compute(value: Option<i32>) -> (r: i32)
    requires
        value is Some,
    ensures
        value == Some(r),
{
    value.unwrap()
}

} // verus!
