//! Simple backoff.

use vstd::prelude::*;
use vstd::arithmetic::power2::pow2;
use vstd::bits::lemma_usize_shl_is_mul;
use crate::hints::spin_hint;
use crate::hints::Hints;

verus! {

/// The number of calls after which a snooze gives the processor away.
pub const YIELD_POINT: usize = 64;

/// How many hints a wait gives after `attempts` earlier ones: 2, 4, 8, up to 256, and then from 2
/// again.
pub open spec fn spin_rounds(attempts: nat) -> nat {
    pow2(1 + attempts % 8)
}

/// A wait gives twice as many hints as the one before it, and every eighth starts over with two.
pub proof fn waits_double(attempts: nat)
    ensures
        attempts % 8 == 0 ==> spin_rounds(attempts) == 2,
        attempts % 8 != 7 ==> spin_rounds(attempts + 1) == 2 * spin_rounds(attempts),
        attempts % 8 == 7 ==> spin_rounds(attempts) == 256,
        spin_rounds(attempts + 8) == spin_rounds(attempts),
{
    vstd::arithmetic::power2::lemma2_to64();
    if attempts % 8 != 7 {
        vstd::arithmetic::power2::lemma_pow2_unfold(2 + attempts % 8);
    }
}

/// Waits briefly, and returns how many hints it gave the processor.
pub fn slight_spin(attempts: usize, hints: &mut Hints) -> (rounds: usize)
    ensures
        final(hints)@ == old(hints)@ + rounds,
        rounds == spin_rounds(attempts as nat),
        2 <= rounds <= 256,
{
    let shift: usize = attempts & 7;
    proof {
        assert(attempts & 7 == attempts % 8) by (bit_vector);
        vstd::arithmetic::power2::lemma2_to64();
        vstd::arithmetic::power2::lemma_pow2_unfold((1 + shift) as nat);
        vstd::layout::unsigned_int_max_values();
        lemma_usize_shl_is_mul(2, shift);
    }
    let rounds: usize = 2usize << shift;
    let mut given: usize = 0;
    while given < rounds
        invariant
            given <= rounds,
            hints@ == old(hints)@ + given,
        decreases rounds - given,
    {
        spin_hint(hints);
        given = given + 1;
    }
    rounds
}

/// What a wait came to.
#[derive(Clone, Copy, Debug, PartialEq, Eq, Structural)]
pub struct Rest {
    /// How many hints the processor was given.
    pub rounds: usize,
    /// Whether the caller is to give the processor away now.
    pub yields: bool,
}

/// Waits that grow with the number of times that one had to wait.
pub struct Backoff {
    /// The number of waits that count towards the next one.
    calls: usize,
    /// The hints that were given.
    hints: Hints,
}

/// The number of waits that count towards the next one.
impl View for Backoff {
    type V = nat;

    closed spec fn view(&self) -> nat {
        self.calls as nat
    }
}

impl Backoff {
    /// How many hints the processor was given in all waits together.
    pub closed spec fn hints(&self) -> nat {
        self.hints@
    }

    /// A backoff that has not waited yet.
    pub fn new() -> (backoff: Self)
        ensures
            backoff@ == 0,
            backoff.hints() == 0,
    {
        Backoff { calls: 0, hints: Hints::new() }
    }

    /// Waits, and counts the wait.
    pub fn spin(&mut self) -> (rest: Rest)
        requires
            old(self)@ < usize::MAX,
        ensures
            final(self)@ == old(self)@ + 1,
            rest.rounds == spin_rounds(old(self)@),
            final(self).hints() == old(self).hints() + rest.rounds,
            !rest.yields,
    {
        let rounds = slight_spin(self.calls, &mut self.hints);
        self.calls = self.calls + 1;
        Rest { rounds, yields: false }
    }

    /// Forgets the waits so far.
    pub fn reset(&mut self)
        ensures
            final(self)@ == 0,
            final(self).hints() == old(self).hints(),
    {
        self.calls = 0;
    }

    /// Waits, and counts the wait. Once the yield point is reached the caller is told to give the
    /// processor away, and the count starts over.
    pub fn snooze(&mut self) -> (rest: Rest)
        ensures
            rest.rounds == spin_rounds(old(self)@),
            final(self).hints() == old(self).hints() + rest.rounds,
            rest.yields == (old(self)@ >= YIELD_POINT),
            final(self)@ == (if rest.yields {
                0
            } else {
                old(self)@ + 1
            }),
    {
        let rounds = slight_spin(self.calls, &mut self.hints);
        if self.calls < YIELD_POINT {
            self.calls = self.calls + 1;
            Rest { rounds, yields: false }
        } else {
            self.reset();
            Rest { rounds, yields: true }
        }
    }
}

} // verus!
