//! Single-owner stand-in for a lock.  Today's hardware context is
//! single-core, so exclusivity is the owner's: a later multi-core
//! backend can substitute real mutual exclusion without touching the
//! algorithms behind it.

use vstd::prelude::*;

verus! {

/// Owns its data outright; "locking" is simply borrowing it.
pub struct NullLock<T> {
    data: T,
}

impl<T> NullLock<T> {
    pub closed spec fn view_data(&self) -> T {
        self.data
    }

    pub fn new(data: T) -> (r: Self)
        ensures
            r.view_data() == data,
    {
        NullLock { data }
    }

    /// Shared access to the protected data.
    pub fn borrow(&self) -> (r: &T)
        ensures
            *r == self.view_data(),
    {
        &self.data
    }

    /// Gives the data back to the owner.
    pub fn into_inner(self) -> (r: T)
        ensures
            r == self.view_data(),
    {
        self.data
    }
}

} // verus!
