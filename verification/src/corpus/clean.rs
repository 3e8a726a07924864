//! The sample that turns a missing value into an error.

use vstd::prelude::*;

verus! {

/// The text of the error for a missing value.
pub open spec fn missing() -> Seq<char> {
    "missing value"@
}

/// The value inside `value`, or an error that says that it is missing.
pub fn compute(value: Option<i32>) -> (r: Result<i32, &'static str>)
    ensures
        match value {
            Some(v) => r == Ok::<i32, &'static str>(v),
            None => r matches Err(e) && e@ == missing(),
        },
{
    match value {
        Some(v) => Ok(v),
        None => Err("missing value"),
    }
}

} // verus!
