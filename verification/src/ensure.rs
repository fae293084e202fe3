//! Equality guards used by the test harnesses: check and report instead of
//! panicking.

use vstd::prelude::*;
use crate::fail::{Fail, EINVAL};

verus! {

/// Succeeds exactly when the two values are equal.
pub fn ensure_eq(left: i64, right: i64) -> (r: Result<(), Fail>)
    ensures
        r is Ok <==> left == right,
        r matches Err(e) ==> e.errno == EINVAL,
{
    if left == right {
        Ok(())
    } else {
        Err(Fail::new(EINVAL))
    }
}

/// Succeeds exactly when the two values differ.
pub fn ensure_neq(left: i64, right: i64) -> (r: Result<(), Fail>)
    ensures
        r is Ok <==> left != right,
        r matches Err(e) ==> e.errno == EINVAL,
{
    if left != right {
        Ok(())
    } else {
        Err(Fail::new(EINVAL))
    }
}

} // verus!
