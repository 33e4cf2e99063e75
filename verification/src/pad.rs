//! Prevent false sharing.

use vstd::prelude::*;

verus! {

/// A value that is to have a cache line to itself.
pub struct CacheLine<T>(pub T);

impl<T> CacheLine<T> {
    /// Wraps a value.
    pub fn new(val: T) -> (line: Self)
        ensures
            line.0 == val,
    {
        CacheLine(val)
    }
}

impl<T> core::ops::Deref for CacheLine<T> {
    type Target = T;

    fn deref(&self) -> (val: &T)
        ensures
            *val == self.0,
    {
        &self.0
    }
}

impl<T> core::ops::DerefMut for CacheLine<T> {
    fn deref_mut(&mut self) -> (val: &mut T)
        ensures
            *val == old(self).0,
            final(self).0 == *final(val),
    {
        &mut self.0
    }
}

impl<T> From<T> for CacheLine<T> {
    fn from(value: T) -> (line: Self) {
        CacheLine::new(value)
    }
}

impl<T> vstd::std_specs::convert::FromSpecImpl<T> for CacheLine<T> {
    open spec fn obeys_from_spec() -> bool {
        true
    }

    open spec fn from_spec(value: T) -> Self {
        CacheLine(value)
    }
}

} // verus!
