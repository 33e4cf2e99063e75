//! The state word, shared between threads.
//!
//! The word is an atomic that nothing but the functions here can reach, and every access to it is
//! noted in a trace. What an access finds is up to the other threads, so nothing is known of it
//! beforehand. What a request does next, and what it returns, is fixed by what it found: the
//! contracts say which accesses it makes, with which words, for every word that may be found. What
//! an access does to the word is for [`WordAccess::leaves`] to say.

use core::sync::atomic::AtomicU32;
use vstd::prelude::*;
use crate::consts::ATTEMPTS;
use crate::consts::MAX_REFS;
use crate::consts::REF_COUNT_MASK;
use crate::consts::REF_INCR;
use crate::ref_laws::Counter;
use crate::ref_laws::Event;
use crate::ref_laws::Request;
use crate::state::blocked_in;
use crate::state::lemma_unblocked;
use crate::state::lemma_word;
use crate::state::refs_of;
use crate::state::standard_refs;
use crate::state::word_of;
use crate::state::Attempt;
use crate::state::Grab;
use crate::traced::compare_exchange_weak;
use crate::traced::fetch_and;
use crate::traced::fetch_sub;
use crate::traced::load;
use crate::traced::make;
use crate::traced::Noted;
use crate::traced::Trace;
use crate::traced::WordAccess;

verus! {

/// Why a grab was not had.
#[derive(Clone, Copy, Debug, PartialEq, Eq, Structural)]
pub enum Refusal {
    /// The attempts are used up: references are blocked, or other threads were faster.
    Lost,
    /// The word that was found counts as many references as it can.
    NoRoom,
}

/// The attempt that follows after the exchanges of the attempts before it failed and found `founds`.
pub open spec fn attempt_after(grab: Grab, seen: u32, founds: Seq<u32>) -> Attempt
    decreases founds.len(),
{
    if founds.len() == 0 {
        Attempt::first(grab, seen)
    } else {
        attempt_after(grab, seen, founds.drop_last()).then_from(founds.last())
    }
}

/// The accesses of a grab that saw `seen`, and whose exchanges failed and found `founds`: a load,
/// and an exchange for each attempt, each attempt going by the word found last.
pub open spec fn accesses_of(word: AtomicU32, grab: Grab, seen: u32, founds: Seq<u32>) -> Seq<
    Noted,
>
    decreases founds.len(),
{
    if founds.len() == 0 {
        seq![Noted { word, access: WordAccess::Load { seen } }]
    } else {
        let attempt = attempt_after(grab, seen, founds.drop_last());
        accesses_of(word, grab, seen, founds.drop_last()).push(
            Noted {
                word,
                access: WordAccess::Fail {
                    current: attempt.current,
                    next: attempt.next,
                    found: founds.last(),
                },
            },
        )
    }
}

/// Whether the word that was found last has room for what is grabbed.
pub open spec fn room_after(grab: Grab, seen: u32, founds: Seq<u32>) -> bool {
    grab.fits(
        if founds.len() == 0 {
            seen
        } else {
            founds.last()
        },
    )
}

/// What a grab made of a trace, and what it came to, when it saw `seen` and its exchanges failed and
/// found `founds`. An exchange is only attempted with room for what is grabbed.
pub open spec fn grabbed(
    word: AtomicU32,
    grab: Grab,
    seen: u32,
    founds: Seq<u32>,
    before: Seq<Noted>,
    after: Seq<Noted>,
    won: Result<Attempt, Refusal>,
) -> bool {
    let attempt = attempt_after(grab, seen, founds);
    let made = before + accesses_of(word, grab, seen, founds);
    &&& founds.len() <= ATTEMPTS
    &&& forall|k: int|
        0 <= k < founds.len() ==> room_after(grab, seen, #[trigger] founds.take(k))
    &&& match won {
        Ok(last) => {
            &&& last == attempt
            &&& attempt.wf()
            &&& founds.len() < ATTEMPTS
            &&& room_after(grab, seen, founds)
            &&& after == made.push(
                Noted {
                    word,
                    access: WordAccess::Exchange { current: attempt.current, next: attempt.next },
                },
            )
        },
        Err(Refusal::Lost) => {
            &&& founds.len() == ATTEMPTS
            &&& after == made
        },
        Err(Refusal::NoRoom) => {
            &&& founds.len() < ATTEMPTS
            &&& !room_after(grab, seen, founds)
            &&& after == made
        },
    }
}

/// Each failed exchange uses up one attempt.
pub proof fn attempts_are_counted(grab: Grab, seen: u32, founds: Seq<u32>)
    requires
        founds.len() <= ATTEMPTS,
    ensures
        attempt_after(grab, seen, founds).left == ATTEMPTS - founds.len(),
    decreases founds.len(),
{
    if founds.len() > 0 {
        attempts_are_counted(grab, seen, founds.drop_last());
    }
}

/// An attempt goes by the word found last, or by the word seen if none was found yet: it expects that
/// word without the block, so that it fails while references are blocked.
pub proof fn attempts_go_by_the_last_word(grab: Grab, seen: u32, founds: Seq<u32>)
    requires
        founds.len() < ATTEMPTS,
        grab.fits(
            if founds.len() == 0 {
                seen
            } else {
                founds.last()
            },
        ),
    ensures
        ({
            let attempt = attempt_after(grab, seen, founds);
            let last = if founds.len() == 0 {
                seen
            } else {
                founds.last()
            };
            &&& attempt.grab == grab
            &&& attempt.current == last - last % 2
            &&& grab is Reference ==> attempt.next == attempt.current + 2
            &&& grab is Block ==> attempt.next == attempt.current + 1
            &&& last % 2 == 1 ==> attempt.current != last
        }),
    decreases founds.len(),
{
    if founds.len() > 0 {
        attempts_are_counted(grab, seen, founds.drop_last());
        lemma_grab_kept(grab, seen, founds.drop_last());
    }
}

/// All attempts of a grab are for the same.
proof fn lemma_grab_kept(grab: Grab, seen: u32, founds: Seq<u32>)
    ensures
        attempt_after(grab, seen, founds).grab == grab,
    decreases founds.len(),
{
    if founds.len() > 0 {
        lemma_grab_kept(grab, seen, founds.drop_last());
    }
}

/// A grab makes a load and then one exchange after another, all on its own word, and all of them
/// failed but perhaps one that is yet to come: none of these accesses changes the word.
pub proof fn attempts_before_the_last_fail(
    word: AtomicU32,
    grab: Grab,
    seen: u32,
    founds: Seq<u32>,
    k: int,
)
    requires
        0 <= k <= founds.len(),
    ensures
        accesses_of(word, grab, seen, founds).len() == founds.len() + 1,
        accesses_of(word, grab, seen, founds)[k].word == word,
        accesses_of(word, grab, seen, founds)[k].access == (if k == 0 {
            WordAccess::Load { seen }
        } else {
            WordAccess::Fail {
                current: attempt_after(grab, seen, founds.take(k - 1)).current,
                next: attempt_after(grab, seen, founds.take(k - 1)).next,
                found: founds[k - 1],
            }
        }),
    decreases founds.len(),
{
    if founds.len() > 0 {
        let earlier = founds.drop_last();
        if k < founds.len() {
            attempts_before_the_last_fail(word, grab, seen, earlier, k);
            if k > 0 {
                assert(earlier.take(k - 1) =~= founds.take(k - 1));
            }
        } else {
            attempts_before_the_last_fail(word, grab, seen, earlier, 0);
            assert(earlier =~= founds.take(k - 1));
        }
    }
}

/// A grab that succeeds has changed the word: its last access is a successful exchange on that word,
/// from one in which references are not blocked to one with one reference more, or with the block.
/// The accesses before it are kept in the trace, and those that the grab made changed nothing.
pub proof fn success_has_exchanged(
    word: AtomicU32,
    grab: Grab,
    seen: u32,
    founds: Seq<u32>,
    before: Seq<Noted>,
    after: Seq<Noted>,
    attempt: Attempt,
)
    requires
        grabbed(word, grab, seen, founds, before, after, Ok(attempt)),
    ensures
        before.len() + 2 <= after.len() <= before.len() + 1 + ATTEMPTS,
        forall|k: int| 0 <= k < before.len() ==> after[k] == before[k],
        forall|k: int| before.len() <= k < after.len() ==> (#[trigger] after[k]).word == word,
        after[before.len() as int].access is Load,
        forall|k: int|
            before.len() < k < after.len() - 1 ==> (#[trigger] after[k]).access is Fail,
        after.last().access == (WordAccess::Exchange {
            current: attempt.current,
            next: attempt.next,
        }),
        attempt.grab == grab,
        attempt.current % 2 == 0,
        grab is Reference ==> attempt.next == attempt.current + 2,
        grab is Block ==> attempt.next == attempt.current + 1,
        // The exchange expects the very word that the access before it gave.
        match after[after.len() - 2].access {
            WordAccess::Load { seen } => attempt.current == seen - seen % 2,
            WordAccess::Fail { found, .. } => attempt.current == found - found % 2,
            _ => false,
        },
{
    let made = accesses_of(word, grab, seen, founds);
    let n = founds.len() as int;
    attempts_before_the_last_fail(word, grab, seen, founds, 0);
    attempts_before_the_last_fail(word, grab, seen, founds, n);
    attempts_go_by_the_last_word(grab, seen, founds);
    assert forall|k: int| before.len() <= k < after.len() implies (#[trigger] after[k]).word == word
        && (before.len() < k < after.len() - 1 ==> after[k].access is Fail) by {
        if k < after.len() - 1 {
            attempts_before_the_last_fail(word, grab, seen, founds, k - before.len());
            assert(after[k] == made[k - before.len()]);
        }
    }
    assert(after[before.len() as int] == made[0]);
    assert(after[after.len() - 2] == made[n]);
}

/// A grab that is refused has changed nothing: it made a load and exchanges that failed, on its own
/// word. It gave up after the last attempt, or because the word that it found last counts as many
/// references as a word can.
pub proof fn refusal_changes_nothing(
    word: AtomicU32,
    grab: Grab,
    seen: u32,
    founds: Seq<u32>,
    before: Seq<Noted>,
    after: Seq<Noted>,
    refusal: Refusal,
)
    requires
        grabbed(word, grab, seen, founds, before, after, Err(refusal)),
    ensures
        before.len() + 1 <= after.len() <= before.len() + 1 + ATTEMPTS,
        forall|k: int| 0 <= k < before.len() ==> after[k] == before[k],
        forall|k: int| before.len() <= k < after.len() ==> (#[trigger] after[k]).word == word,
        after[before.len() as int].access is Load,
        forall|k: int| before.len() < k < after.len() ==> (#[trigger] after[k]).access is Fail,
        refusal is Lost ==> after.len() == before.len() + 1 + ATTEMPTS,
        refusal is NoRoom ==> grab is Reference && after.len() < before.len() + 1 + ATTEMPTS
            && match after.last().access {
            WordAccess::Load { seen } => seen / 2 == MAX_REFS,
            WordAccess::Fail { found, .. } => found / 2 == MAX_REFS,
            _ => false,
        },
{
    let made = accesses_of(word, grab, seen, founds);
    let n = founds.len() as int;
    attempts_before_the_last_fail(word, grab, seen, founds, 0);
    attempts_before_the_last_fail(word, grab, seen, founds, n);
    assert forall|k: int| before.len() <= k < after.len() implies (#[trigger] after[k]).word == word
        && (before.len() < k ==> after[k].access is Fail) by {
        attempts_before_the_last_fail(word, grab, seen, founds, k - before.len());
        assert(after[k] == made[k - before.len()]);
    }
    assert(after[before.len() as int] == made[0]);
    assert(after.last() == made[n]);
}

/// A grab that loses although no other thread got in between, and no exchange failed by chance, found
/// references blocked.
pub proof fn lost_alone_means_blocked(
    shared: AtomicU32,
    grab: Grab,
    word: u32,
    founds: Seq<u32>,
    before: Seq<Noted>,
    after: Seq<Noted>,
)
    requires
        grabbed(shared, grab, word, founds, before, after, Err(Refusal::Lost)),
        forall|k: int| 0 <= k < founds.len() ==> founds[k] == word,
        forall|k: int|
            0 <= k < founds.len() ==> founds[k] != (#[trigger] attempt_after(
                grab,
                word,
                founds.take(k),
            )).current,
    ensures
        blocked_in(word),
{
    lemma_word(word);
    assert(founds.take(0).len() == 0);
    assert(attempt_after(grab, word, founds.take(0)) == Attempt::first(grab, word));
    assert(founds[0] == word);
}

/// A new shared word is that of a counter on which no request was made.
pub proof fn new_is_fresh(word: u32)
    ensures
        (WordAccess::Make { first: word_of(0, false) as u32 }).leaves(word)
            == Counter::fresh().word,
{
}

/// The exchange of a grab that succeeds does to the word what the laws of the counter say of it, and
/// the request has what it asked for.
pub proof fn exchange_is_a_grab(counter: Counter, id: int)
    requires
        counter.can(id, Event::Exchange { fails: false }),
        counter.word == counter.requests[id]->Attempting_0.current,
    ensures
        ({
            let attempt = counter.requests[id]->Attempting_0;
            let post = counter.after(id, Event::Exchange { fails: false });
            &&& (WordAccess::Exchange { current: attempt.current, next: attempt.next }).leaves(
                counter.word,
            ) == post.word
            &&& post.requests[id] == (match attempt.grab {
                Grab::Reference => Request::Standard,
                Grab::Block => Request::Blocking,
            })
        }),
{
}

/// The load that begins a grab leaves the word as it is, and the request goes on with the attempt
/// that the grab makes first.
pub proof fn load_is_a_begin(counter: Counter, id: int, grab: Grab)
    requires
        counter.can(id, Event::Begin(grab)),
    ensures
        (WordAccess::Load { seen: counter.word }).leaves(counter.word) == counter.after(
            id,
            Event::Begin(grab),
        ).word,
        counter.after(id, Event::Begin(grab)).requests[id] == Request::Attempting(
            attempt_after(grab, counter.word, Seq::empty()),
        ),
{
}

/// An exchange of a grab that fails leaves the word as it is, and the request goes on as the grab
/// does: with the attempt that goes by the word found, or not at all if none is left. So it is
/// whether the exchange fails by chance or finds another word than it expects.
pub proof fn failed_exchange_is_a_retry(
    counter: Counter,
    id: int,
    fails: bool,
    grab: Grab,
    seen: u32,
    founds: Seq<u32>,
)
    requires
        counter.can(id, Event::Exchange { fails }),
        counter.requests[id] == Request::Attempting(attempt_after(grab, seen, founds)),
        fails || counter.word != attempt_after(grab, seen, founds).current,
    ensures
        ({
            let attempt = attempt_after(grab, seen, founds);
            let next = attempt_after(grab, seen, founds.push(counter.word));
            let post = counter.after(id, Event::Exchange { fails });
            &&& (WordAccess::Fail {
                current: attempt.current,
                next: attempt.next,
                found: counter.word,
            }).leaves(counter.word) == post.word
            &&& next == attempt.then_from(counter.word)
            &&& post.requests[id] == (if next.left > 0 {
                Request::Attempting(next)
            } else {
                Request::Denied
            })
        }),
{
    assert(founds.push(counter.word).drop_last() =~= founds);
}

/// What a release does to the word is what the laws of the counter say of it: one reference is
/// counted less, and the block stays as it is.
pub proof fn release_gives_back(counter: Counter, id: int)
    requires
        counter.inv(),
        counter.can(id, Event::Release),
    ensures
        (WordAccess::Sub { by: REF_INCR }).leaves(counter.word) == counter.after(
            id,
            Event::Release,
        ).word,
        (WordAccess::Sub { by: REF_INCR }).leaves(counter.word) == word_of(
            (refs_of(counter.word) - 1) as nat,
            blocked_in(counter.word),
        ),
{
    counter.giving_back_undoes(id, Event::Release);
    lemma_word(counter.word);
}

/// What unblocking does to the word is what the laws of the counter say of it: the block goes, and
/// the references that are held stay counted.
pub proof fn unblock_keeps_the_count(counter: Counter, id: int)
    requires
        counter.inv(),
        counter.can(id, Event::Unblock),
    ensures
        (WordAccess::And { mask: REF_COUNT_MASK }).leaves(counter.word) == counter.after(
            id,
            Event::Unblock,
        ).word,
        (WordAccess::And { mask: REF_COUNT_MASK }).leaves(counter.word) == word_of(
            refs_of(counter.word),
            false,
        ),
{
    lemma_unblocked(counter.word);
}

/// A state word that threads share.
pub struct SharedWord {
    word: AtomicU32,
}

impl SharedWord {
    /// The atomic that the word is in.
    pub closed spec fn id(&self) -> AtomicU32 {
        self.word
    }

    /// An access to the word, as it is noted.
    pub open spec fn noted(&self, access: WordAccess) -> Noted {
        Noted { word: self.id(), access }
    }

    /// A word that counts no references and allows them.
    pub fn new(trace: &mut Trace) -> (shared: Self)
        ensures
            final(trace)@ == old(trace)@.push(
                shared.noted(WordAccess::Make { first: word_of(0, false) as u32 }),
            ),
    {
        SharedWord { word: make(0, trace) }
    }

    /// The word, as it is at the moment.
    pub fn load(&self, trace: &mut Trace) -> (seen: u32)
        ensures
            final(trace)@ == old(trace)@.push(self.noted(WordAccess::Load { seen })),
    {
        load(&self.word, trace)
    }

    /// Attempts a grab as often as attempts are left. The attempt that succeeded is returned.
    pub fn grab(&self, grab: Grab, trace: &mut Trace) -> (won: Result<Attempt, Refusal>)
        ensures
            exists|seen: u32, founds: Seq<u32>| #[trigger]
                grabbed(self.id(), grab, seen, founds, old(trace)@, final(trace)@, won),
            old(trace)@.len() < final(trace)@.len() <= old(trace)@.len() + 1 + ATTEMPTS,
            forall|k: int| 0 <= k < old(trace)@.len() ==> final(trace)@[k] == old(trace)@[k],
            forall|k: int|
                old(trace)@.len() <= k < final(trace)@.len() ==> (
                #[trigger] final(trace)@[k]).word == self.id(),
            final(trace)@[old(trace)@.len() as int].access is Load,
            won matches Ok(attempt) ==> {
                &&& final(trace)@.last() == self.noted(
                    WordAccess::Exchange { current: attempt.current, next: attempt.next },
                )
                &&& attempt.grab == grab
                &&& attempt.current % 2 == 0
                &&& grab is Reference ==> attempt.next == attempt.current + 2
                &&& grab is Block ==> attempt.next == attempt.current + 1
            },
            won is Err ==> forall|k: int|
                old(trace)@.len() < k < final(trace)@.len() ==> (
                #[trigger] final(trace)@[k]).access is Fail,
            won == Err::<Attempt, Refusal>(Refusal::Lost) ==> final(trace)@.len() == old(
                trace,
            )@.len() + 1 + ATTEMPTS,
    {
        let ghost word = self.id();
        let ghost before = trace@;
        let seen = self.load(trace);
        let ghost mut founds: Seq<u32> = Seq::empty();
        assert(before + accesses_of(word, grab, seen, founds) =~= trace@);
        if !has_room(grab, seen) {
            proof {
                refusal_changes_nothing(
                    word,
                    grab,
                    seen,
                    founds,
                    before,
                    trace@,
                    Refusal::NoRoom,
                );
            }
            return Err(Refusal::NoRoom);
        }
        let mut attempt = Attempt::new(grab, seen);
        loop
            invariant
                word == self.id(),
                before == old(trace)@,
                attempt.wf(),
                attempt.left > 0,
                attempt.grab == grab,
                attempt == attempt_after(grab, seen, founds),
                attempt.left == ATTEMPTS - founds.len(),
                forall|k: int|
                    0 <= k < founds.len() ==> room_after(grab, seen, #[trigger] founds.take(k)),
                room_after(grab, seen, founds),
                trace@ == before + accesses_of(word, grab, seen, founds),
            decreases attempt.left,
        {
            match compare_exchange_weak(&self.word, attempt.current, attempt.next, trace) {
                Ok(_) => {
                    proof {
                        success_has_exchanged(word, grab, seen, founds, before, trace@, attempt);
                    }
                    return Ok(attempt);
                },
                Err(found) => {
                    proof {
                        let earlier = founds;
                        founds = founds.push(found);
                        assert(founds.drop_last() =~= earlier);
                        assert(trace@ =~= before + accesses_of(word, grab, seen, founds));
                        assert forall|k: int| 0 <= k < founds.len() implies room_after(
                            grab,
                            seen,
                            #[trigger] founds.take(k),
                        ) by {
                            assert(founds.take(k) =~= earlier.take(k));
                            assert(earlier.take(earlier.len() as int) =~= earlier);
                        }
                    }
                    if attempt.left == 1 {
                        proof {
                            refusal_changes_nothing(
                                word,
                                grab,
                                seen,
                                founds,
                                before,
                                trace@,
                                Refusal::Lost,
                            );
                        }
                        return Err(Refusal::Lost);
                    }
                    if !has_room(grab, found) {
                        proof {
                            refusal_changes_nothing(
                                word,
                                grab,
                                seen,
                                founds,
                                before,
                                trace@,
                                Refusal::NoRoom,
                            );
                        }
                        return Err(Refusal::NoRoom);
                    }
                    attempt = attempt.retry(found);
                },
            }
        }
    }

    /// Counts one reference less, which must have been counted before.
    pub fn release(&self, trace: &mut Trace)
        ensures
            final(trace)@ == old(trace)@.push(self.noted(WordAccess::Sub { by: REF_INCR })),
        opens_invariants none
        no_unwind
    {
        fetch_sub(&self.word, REF_INCR, trace);
    }

    /// Allows references again, which the caller must have blocked. Those that are still held stay
    /// counted.
    pub fn unblock(&self, trace: &mut Trace)
        ensures
            final(trace)@ == old(trace)@.push(self.noted(WordAccess::And { mask: REF_COUNT_MASK })),
        opens_invariants none
        no_unwind
    {
        fetch_and(&self.word, REF_COUNT_MASK, trace);
    }
}

/// A standard reference that a shared word counts. It is given back when it is dropped.
#[must_use]
pub struct HeldRef<'count> {
    word: &'count SharedWord,
    trace: Trace,
}

/// The accesses that were made to give the reference back.
impl<'count> View for HeldRef<'count> {
    type V = Seq<Noted>;

    closed spec fn view(&self) -> Seq<Noted> {
        self.trace@
    }
}

impl<'count> HeldRef<'count> {
    /// The word that counts the reference.
    pub closed spec fn word(&self) -> SharedWord {
        *self.word
    }

    /// A reference that `word` counts already, by a grab that succeeded.
    pub fn new(word: &'count SharedWord) -> (held: Self)
        ensures
            held.word() == *word,
            held@ == Seq::<Noted>::empty(),
    {
        HeldRef { word, trace: Trace::new() }
    }
}

impl<'count> Drop for HeldRef<'count> {
    /// Gives the reference back: its word counts one reference less.
    fn drop(&mut self)
        ensures
            final(self).word() == old(self).word(),
            final(self)@ == old(self)@.push(
                old(self).word().noted(WordAccess::Sub { by: REF_INCR }),
            ),
        opens_invariants none
        no_unwind
    {
        self.word.release(&mut self.trace);
    }
}

/// The block of a shared word. References are allowed again when it is dropped; to wake those that
/// wait is then up to whoever held it.
#[must_use]
pub struct HeldBlock<'count> {
    word: &'count SharedWord,
    trace: Trace,
}

/// The accesses that were made to give the block back.
impl<'count> View for HeldBlock<'count> {
    type V = Seq<Noted>;

    closed spec fn view(&self) -> Seq<Noted> {
        self.trace@
    }
}

impl<'count> HeldBlock<'count> {
    /// The word whose references are blocked.
    pub closed spec fn word(&self) -> SharedWord {
        *self.word
    }

    /// The block of `word`, which a grab that succeeded has put there.
    pub fn new(word: &'count SharedWord) -> (held: Self)
        ensures
            held.word() == *word,
            held@ == Seq::<Noted>::empty(),
    {
        HeldBlock { word, trace: Trace::new() }
    }
}

impl<'count> Drop for HeldBlock<'count> {
    /// Gives the block back: the block bit goes, and the references that are held stay counted.
    fn drop(&mut self)
        ensures
            final(self).word() == old(self).word(),
            final(self)@ == old(self)@.push(
                old(self).word().noted(WordAccess::And { mask: REF_COUNT_MASK }),
            ),
        opens_invariants none
        no_unwind
    {
        self.word.unblock(&mut self.trace);
    }
}

/// Whether the word that a grab puts in place, having seen `seen`, is a state word.
fn has_room(grab: Grab, seen: u32) -> (room: bool)
    ensures
        room == grab.fits(seen),
{
    match grab {
        Grab::Reference => standard_refs(seen) < MAX_REFS,
        Grab::Block => true,
    }
}

} // verus!
