//! Handles to shared, immutable decoded geometry.
use std::sync::Arc;
use vstd::prelude::*;

verus! {

/// `Arc::clone` (std): a second handle to the same allocation. The contract
/// claims only what std documents, that both handles share one value.
#[verifier::external_body]
pub(crate) fn share<T>(a: &Arc<T>) -> (r: Arc<T>)
    ensures
        r == *a,
{
    Arc::clone(a)
}

} // verus!
