//! Shared handles: the two operations on `Arc` that the containers rely on.

use std::sync::Arc;
use vstd::prelude::*;

verus! {

/// `Arc::ptr_eq`: whether two handles point to the same allocation. Handles
/// to one allocation hold one value, which is all that is claimed here;
/// `false` says nothing about the values.
#[verifier::external_body]
pub(crate) fn same_allocation<T>(a: &Arc<T>, b: &Arc<T>) -> (same: bool)
    ensures
        same ==> *a == *b,
{
    Arc::ptr_eq(a, b)
}

/// `Arc::clone`: a new handle to the same allocation, hence to the same value.
#[verifier::external_body]
pub(crate) fn share<T>(a: &Arc<T>) -> (r: Arc<T>)
    ensures
        *r == *a,
{
    Arc::clone(a)
}

} // verus!
