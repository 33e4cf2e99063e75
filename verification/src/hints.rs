//! Hints to the processor, with a count of how many were given.

use vstd::prelude::*;

verus! {

/// How many hints the processor was given. It exists in proofs alone, and nothing can raise it but to
/// give a hint.
pub struct Hints {
    given: Ghost<nat>,
}

impl View for Hints {
    type V = nat;

    closed spec fn view(&self) -> nat {
        self.given@
    }
}

impl Hints {
    /// No hints yet.
    pub fn new() -> (hints: Self)
        ensures
            hints@ == 0,
    {
        Hints { given: Ghost(0) }
    }
}

/// `core::hint::spin_loop` tells the processor that the caller is in a busy-wait loop. The contract
/// counts the call. What the processor makes of it is not said.
#[verifier::external_body]
pub(crate) fn spin_hint(hints: &mut Hints)
    ensures
        final(hints)@ == old(hints)@ + 1,
{
    core::hint::spin_loop();
}

} // verus!
