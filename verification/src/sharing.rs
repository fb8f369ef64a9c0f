//! What several readers and requests share: a backend, and the permits that limit how many
//! requests run at once.

use std::sync::Arc;

use async_lock::Semaphore;
use vstd::prelude::*;

verus! {

/// Declares `async_lock::Semaphore`, a counter of permits for concurrent operations.
#[verifier::external_type_specification]
#[verifier::external_body]
pub struct ExSemaphore(Semaphore);

/// The number of concurrent operations that a semaphore was made for.
pub uninterp spec fn semaphore_limit(semaphore: Semaphore) -> nat;

/// `async_lock::Semaphore::new` makes a semaphore for `n` concurrent operations: it starts with
/// `n` permits, none of them taken.
pub assume_specification[ Semaphore::new ](n: usize) -> (semaphore: Semaphore)
    ensures
        semaphore_limit(semaphore) == n,
;

/// `Arc::clone` makes another pointer to the same value.
#[verifier::external_body]
pub(crate) fn share<T>(shared: &Arc<T>) -> (other: Arc<T>)
    ensures
        other == *shared,
{
    shared.clone()
}

} // verus!
