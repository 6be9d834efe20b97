//! A compiled-in lookup table: a fixed array of key/value pairs searched
//! linearly, used as a fallback when dynamic runtime lookups fail.

use vstd::prelude::*;
use crate::errors::CustardUnloadedStaticArrayDoesNotContainElementError;

verus! {

/// A fixed association array.
pub struct UnloadedStaticArray<B, const N: usize> {
    pub elems: [(u64, B); N],
}

impl<B, const N: usize> UnloadedStaticArray<B, N> {
    /// The value stored under `target_key`, or an error naming the key when
    /// the table does not hold it.
    pub fn get(&self, target_key: &u64) -> (r: Result<
        &B,
        CustardUnloadedStaticArrayDoesNotContainElementError<u64>,
    >)
        ensures
            match r {
                Ok(v) => exists|k: int|
                    0 <= k < N && self.elems@[k].0 == *target_key && self.elems@[k].1 == *v,
                Err(e) => e.offending_key == *target_key && forall|k: int|
                    0 <= k < N ==> (#[trigger] self.elems@[k]).0 != *target_key,
            },
    {
        for k in 0..N
            invariant
                forall|k2: int| 0 <= k2 < k ==> (#[trigger] self.elems@[k2]).0 != *target_key,
        {
            if &self.elems[k].0 == target_key {
                return Ok(&self.elems[k].1);
            }
        }
        Err(CustardUnloadedStaticArrayDoesNotContainElementError { offending_key: *target_key })
    }
}

} // verus!
