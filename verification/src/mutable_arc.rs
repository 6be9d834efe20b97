//! A shared, reference-counted handle to a datachunk's backing storage.
//! Views dispensed by the accessor hold one of these so the storage
//! outlives every view of it; the absence of runtime locking is justified
//! by the validator's cross-access proof.

use vstd::prelude::*;
use std::sync::Arc;

verus! {

/// A counted handle to shared storage.
#[derive(Debug)]
pub struct MutableArc<T> {
    data: Arc<T>,
}

impl<T> MutableArc<T> {
    pub fn new(data: Arc<T>) -> (r: Self)
        ensures
            r.inner() == data,
    {
        Self { data }
    }

    /// The value behind the handle.
    pub closed spec fn inner(self) -> Arc<T> {
        self.data
    }

    /// Borrow the shared value.
    pub fn get(&self) -> (r: &T)
        ensures
            *r == self.inner(),
    {
        &*self.data
    }
}

impl<T> Clone for MutableArc<T> {
    fn clone(&self) -> (r: Self)
        ensures
            r.inner() == self.inner(),
    {
        Self { data: Arc::clone(&self.data) }
    }
}

} // verus!
