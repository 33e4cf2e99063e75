//! Values that are dropped, in their order.

use vstd::prelude::*;

verus! {

/// The values that were dropped, in the order in which they were. It exists in proofs alone, and
/// nothing can add to it but to give a value up.
pub struct Discarded<T> {
    values: Ghost<Seq<T>>,
}

impl<T> View for Discarded<T> {
    type V = Seq<T>;

    closed spec fn view(&self) -> Seq<T> {
        self.values@
    }
}

impl<T> Discarded<T> {
    /// Nothing was dropped yet.
    pub fn new() -> (discarded: Self)
        ensures
            discarded@ == Seq::<T>::empty(),
    {
        Discarded { values: Ghost(Seq::empty()) }
    }

    /// Takes the value, which is dropped before this returns.
    pub fn discard(&mut self, value: T)
        ensures
            final(self)@ == old(self)@.push(value),
        opens_invariants none
        no_unwind
    {
        self.values = Ghost(self.values@.push(value));
    }
}

} // verus!
