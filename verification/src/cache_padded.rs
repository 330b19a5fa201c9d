//! A value set apart in a wrapper of its own.

use vstd::prelude::*;

verus! {

/// Wraps a value of type `T`.
#[derive(Debug, Hash, Eq, PartialEq)]
pub struct CachePadded<T>(T);

impl<T> CachePadded<T> {
    /// The value inside.
    pub closed spec fn value(self) -> T {
        self.0
    }

    /// Wraps a value.
    pub fn new(t: T) -> (padded: CachePadded<T>)
        ensures
            padded.value() == t,
    {
        CachePadded(t)
    }

    /// Gives the value back.
    pub fn into_inner(self) -> (t: T)
        ensures
            t == self.value(),
    {
        self.0
    }

    /// A reference to the value inside.
    pub fn get(&self) -> (t: &T)
        ensures
            *t == self.value(),
    {
        &self.0
    }

    /// Puts another value inside.
    pub fn set(&mut self, t: T)
        ensures
            final(self).value() == t,
    {
        self.0 = t;
    }
}

} // verus!
