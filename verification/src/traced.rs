//! Atomic words, with a trace of what is done to them.
//!
//! Each access to an atomic is made by a function that notes in a trace which atomic it was given,
//! what it was given to do, and what came of it. Nothing else can write a trace but to begin an
//! empty one.

use core::sync::atomic::AtomicU32;
use core::sync::atomic::Ordering;
use vstd::prelude::*;

verus! {

/// What is done to an atomic word, and what came of it.
pub enum WordAccess {
    /// The atomic was made with the word `first` in it.
    Make { first: u32 },
    /// A load, which gave `seen`.
    Load { seen: u32 },
    /// A compare-and-exchange of `current` for `next`, which succeeded.
    Exchange { current: u32, next: u32 },
    /// A compare-and-exchange of `current` for `next`, which failed and gave `found`.
    Fail { current: u32, next: u32, found: u32 },
    /// The word was lowered by `by`.
    Sub { by: u32 },
    /// The bits outside `mask` were cleared.
    And { mask: u32 },
}

impl WordAccess {
    /// The word that the access leaves behind, if it finds `word`.
    pub open spec fn leaves(self, word: u32) -> u32 {
        match self {
            WordAccess::Make { first } => first,
            WordAccess::Load { .. } | WordAccess::Fail { .. } => word,
            WordAccess::Exchange { next, .. } => next,
            WordAccess::Sub { by } => if by <= word {
                (word - by) as u32
            } else {
                (word - by + 0x1_0000_0000) as u32
            },
            WordAccess::And { mask } => word & mask,
        }
    }
}

/// A load and an exchange that fails leave the word as it is. An exchange that succeeds leaves the
/// new word whatever it finds, and so does making the atomic.
pub proof fn only_successes_change(word: u32, seen: u32, current: u32, next: u32, found: u32)
    ensures
        (WordAccess::Load { seen }).leaves(word) == word,
        (WordAccess::Fail { current, next, found }).leaves(word) == word,
        (WordAccess::Exchange { current, next }).leaves(word) == next,
        (WordAccess::Make { first: next }).leaves(word) == next,
{
}

/// Lowering the word can be undone by raising it by as much, modulo the number of words, and masking
/// keeps exactly the bits of the mask.
pub proof fn lowering_and_masking(word: u32, by: u32, mask: u32)
    ensures
        ((WordAccess::Sub { by }).leaves(word) + by) % 0x1_0000_0000 == word,
        by <= word ==> (WordAccess::Sub { by }).leaves(word) == word - by,
        (WordAccess::And { mask }).leaves(word) & mask == word & mask,
        (WordAccess::And { mask }).leaves(word) & !mask == 0,
{
    assert((word & mask) & mask == word & mask) by (bit_vector);
    assert((word & mask) & !mask == 0) by (bit_vector);
}

/// An access, and the atomic that it was made to.
pub struct Noted {
    /// The atomic.
    pub word: AtomicU32,
    /// The access.
    pub access: WordAccess,
}

/// The accesses that a thread has made, in their order. It exists in proofs alone.
pub struct Trace {
    accesses: Ghost<Seq<Noted>>,
}

impl View for Trace {
    type V = Seq<Noted>;

    closed spec fn view(&self) -> Seq<Noted> {
        self.accesses@
    }
}

impl Trace {
    /// A trace without accesses.
    pub fn new() -> (trace: Self)
        ensures
            trace@ == Seq::<Noted>::empty(),
    {
        Trace { accesses: Ghost(Seq::empty()) }
    }
}

/// `AtomicU32::new` makes an atomic with the word `first` in it. The contract notes the new atomic
/// and the word.
#[verifier::external_body]
pub(crate) fn make(first: u32, trace: &mut Trace) -> (word: AtomicU32)
    ensures
        final(trace)@ == old(trace)@.push(Noted { word, access: WordAccess::Make { first } }),
{
    AtomicU32::new(first)
}

/// `AtomicU32::load` returns the word in the atomic. The contract notes the atomic and what was
/// returned. Which word that is depends on the other threads and is not said.
#[verifier::external_body]
pub(crate) fn load(word: &AtomicU32, trace: &mut Trace) -> (seen: u32)
    ensures
        final(trace)@ == old(trace)@.push(
            Noted { word: *word, access: WordAccess::Load { seen } },
        ),
{
    word.load(Ordering::Acquire)
}

/// `AtomicU32::compare_exchange_weak` puts `next` into the atomic if it finds `current` there, and
/// returns what it found as `Ok`. Otherwise, or by chance, it changes nothing and returns what it
/// found as `Err`. The contract notes the atomic, both words and what came of it, and says that a
/// success found `current`. Whether it succeeds depends on the other threads and on chance and is
/// not said.
#[verifier::external_body]
pub(crate) fn compare_exchange_weak(
    word: &AtomicU32,
    current: u32,
    next: u32,
    trace: &mut Trace,
) -> (result: Result<u32, u32>)
    ensures
        result matches Ok(found) ==> found == current,
        final(trace)@ == old(trace)@.push(
            Noted {
                word: *word,
                access: match result {
                    Ok(_) => WordAccess::Exchange { current, next },
                    Err(found) => WordAccess::Fail { current, next, found },
                },
            },
        ),
{
    word.compare_exchange_weak(current, next, Ordering::SeqCst, Ordering::SeqCst)
}

/// `AtomicU32::fetch_sub` lowers the word in the atomic by `by`, wrapping around. The contract notes
/// the atomic and `by`, and says that the call does not panic. The word that was there before is not
/// used.
#[verifier::external_body]
pub(crate) fn fetch_sub(word: &AtomicU32, by: u32, trace: &mut Trace)
    ensures
        final(trace)@ == old(trace)@.push(Noted { word: *word, access: WordAccess::Sub { by } }),
    opens_invariants none
    no_unwind
{
    word.fetch_sub(by, Ordering::Release);
}

/// `AtomicU32::fetch_and` clears the bits of the word in the atomic that are outside `mask`. The
/// contract notes the atomic and `mask`, and says that the call does not panic. The word that was
/// there before is not used.
#[verifier::external_body]
pub(crate) fn fetch_and(word: &AtomicU32, mask: u32, trace: &mut Trace)
    ensures
        final(trace)@ == old(trace)@.push(Noted { word: *word, access: WordAccess::And { mask } }),
    opens_invariants none
    no_unwind
{
    word.fetch_and(mask, Ordering::Release);
}

} // verus!
