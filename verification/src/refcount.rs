//! The reference counter.

use vstd::prelude::*;
use crate::array_queue::ArrayQueue;
use crate::backoff::slight_spin;
use crate::backoff::Backoff;
use crate::consts::MAX_REFS;
use crate::futures::FutureBlockedRefs;
use crate::futures::FutureExclusiveRef;
use crate::futures::FutureRef;
use crate::futures::MaybeFuture;
use crate::hints::Hints;
use crate::pad::CacheLine;
use crate::poll_steps::exclusive_start;
use crate::poll_steps::BlockingStep;
use crate::poll_steps::ExclusiveStart;
use crate::poll_steps::ExclusiveStep;
use crate::poll_steps::UnblockStep;
use crate::state::all_refs;
use crate::state::block_state;
use crate::state::blocked_in;
use crate::state::lemma_word;
use crate::state::lemma_word_of;
use crate::state::refs_of;
use crate::state::released;
use crate::state::standard_refs;
use crate::state::unblocked;
use crate::state::word_of;
use crate::state::Attempt;
use crate::state::Grab;
use crate::state::State;
use crate::waiter::Waiter;

verus! {

/// What a reference counter counts.
#[verifier::ext_equal]
pub struct Count {
    /// The number of standard references.
    pub refs: nat,
    /// Whether references are blocked.
    pub blocked: bool,
    /// The futures that wait for the block to go, in the order in which they came.
    pub waiting: Seq<Waiter>,
}

impl Count {
    /// No references, and nobody who waits.
    pub open spec fn none() -> Count {
        Count { refs: 0, blocked: false, waiting: Seq::empty() }
    }

    /// The number of references of either kind. A standard reference and an exclusive one never
    /// exist together: while there are standard ones the block is that of a request, which has no
    /// reference yet.
    pub open spec fn total(self) -> nat {
        if self.refs > 0 {
            self.refs
        } else if self.blocked {
            1
        } else {
            0
        }
    }

    /// With one more standard reference.
    pub open spec fn with_ref(self) -> Count {
        Count { refs: self.refs + 1, ..self }
    }

    /// With one standard reference less.
    pub open spec fn without_ref(self) -> Count {
        Count { refs: (self.refs - 1) as nat, ..self }
    }

    /// With references blocked.
    pub open spec fn with_block(self) -> Count {
        Count { blocked: true, ..self }
    }

    /// With references allowed, and nobody who waits.
    pub open spec fn without_block(self) -> Count {
        Count { blocked: false, waiting: Seq::empty(), ..self }
    }

    /// With one more future that waits.
    pub open spec fn with_waiter(self, waiter: Waiter) -> Count {
        Count { waiting: self.waiting.push(waiter), ..self }
    }

    /// To begin with there is nothing to count.
    pub proof fn none_counts_nothing()
        ensures
            Self::none().refs == 0,
            !Self::none().blocked,
            Self::none().waiting.len() == 0,
            Self::none().total() == 0,
    {
    }

    /// The total counts every standard reference. With none left it is one for the block, and it is
    /// zero exactly if there is no reference and no block.
    pub proof fn total_counts_all(self)
        ensures
            !self.blocked ==> self.total() == self.refs,
            self.refs > 0 ==> self.total() == self.refs,
            self.refs == 0 && self.blocked ==> self.total() == 1,
            self.total() == 0 <==> self.refs == 0 && !self.blocked,
            self.total() >= self.refs,
    {
    }

    /// One more standard reference makes the total one more, unless it is the first beside a block,
    /// and does so as often as references are had. Those that wait make no difference.
    pub proof fn total_grows_by_one(self, waiter: Waiter)
        ensures
            !self.blocked || self.refs > 0 ==> self.with_ref().total() == self.total() + 1,
            self.with_ref().with_ref().total() == self.with_ref().total() + 1,
            self.refs > 1 ==> self.without_ref().total() == self.total() - 1,
            self.with_waiter(waiter).total() == self.total(),
            self.refs > 0 ==> self.with_block().total() == self.total(),
            self.without_block().total() == self.refs,
    {
    }

    /// A reference that is had adds itself to the count and nothing else: the block stays, as do
    /// those that wait.
    pub proof fn grant_keeps_the_rest(self)
        ensures
            self.with_ref().refs == self.refs + 1,
            self.with_ref().blocked == self.blocked,
            self.with_ref().waiting == self.waiting,
    {
    }

    /// Blocking references changes nothing but the block, be they blocked already or not: the
    /// references that are held stay counted, and whoever waits goes on waiting. So to block twice
    /// is to block once.
    pub proof fn block_keeps_the_rest(self)
        ensures
            self.with_block().blocked,
            self.with_block().refs == self.refs,
            self.with_block().waiting == self.waiting,
            self.blocked ==> self.with_block() == self,
            self.with_block().with_block() == self.with_block(),
    {
    }

    /// Once references are unblocked they are allowed, however many wait: nobody waits then, and the
    /// references that are held stay counted.
    pub proof fn unblock_allows(self)
        ensures
            !self.without_block().blocked,
            self.without_block().refs == self.refs,
            self.without_block().waiting.len() == 0,
            self.without_block() == self.with_block().without_block(),
    {
    }

    /// Whoever comes to wait waits behind all others, and changes nothing else.
    pub proof fn waiter_keeps_the_rest(self, waiter: Waiter)
        ensures
            self.with_waiter(waiter).refs == self.refs,
            self.with_waiter(waiter).blocked == self.blocked,
            self.with_waiter(waiter).waiting.len() == self.waiting.len() + 1,
            self.with_waiter(waiter).waiting.last() == waiter,
            self.with_waiter(waiter).waiting.drop_last() == self.waiting,
    {
    }

    /// Giving a reference back undoes getting it, be references blocked or not, and whether or not
    /// they were blocked or others came to wait in between.
    pub proof fn release_undoes_grant(self)
        ensures
            self.with_ref().without_ref() == self,
            self.with_ref().with_block().without_ref() == self.with_block(),
            forall|waiter: Waiter|
                #[trigger] self.with_ref().with_waiter(waiter).without_ref() == self.with_waiter(
                    waiter,
                ),
    {
    }

    /// A standard reference that is given back takes nothing but itself out of the count: the
    /// others stay, as do the block and those that wait.
    pub proof fn release_keeps_the_rest(self)
        requires
            self.refs > 0,
        ensures
            self.without_ref().refs == self.refs - 1,
            self.without_ref().blocked == self.blocked,
            self.without_ref().waiting == self.waiting,
            self.without_ref().with_ref() == self,
    {
    }

    /// Allowing references again undoes blocking them, if nobody waited before, and leaves the
    /// references that are held counted.
    pub proof fn unblock_undoes_block(self)
        requires
            !self.blocked,
            self.waiting == Seq::<Waiter>::empty(),
        ensures
            self.with_block().without_block() == self,
            forall|waiter: Waiter|
                #[trigger] self.with_block().with_waiter(waiter).without_block() == self,
    {
    }
}

/// A reference counter with standard and exclusive references, and a queue of at most
/// `MAX_WAITING` futures that wait for references to be allowed again.
///
/// Many standard references can be had at once. An exclusive one blocks all new references, and is
/// had once no standard one is left.
pub struct RefCount<const MAX_WAITING: usize> {
    /// The state word.
    count: CacheLine<u32>,
    /// The futures that wait.
    waiter_queue: ArrayQueue<Waiter, MAX_WAITING>,
    /// Tells this counter from others.
    id: Ghost<int>,
}

impl<const MAX_WAITING: usize> View for RefCount<MAX_WAITING> {
    type V = Count;

    closed spec fn view(&self) -> Count {
        Count {
            refs: refs_of(self.count.0),
            blocked: blocked_in(self.count.0),
            waiting: self.waiter_queue@,
        }
    }
}

/// Some number.
proof fn some_id() -> (id: int) {
    0
}

impl<const MAX_WAITING: usize> RefCount<MAX_WAITING> {
    /// Which counter this is.
    pub closed spec fn id(&self) -> int {
        self.id@
    }

    /// The counter is in order: futures wait only while references are blocked.
    pub closed spec fn wf(&self) -> bool {
        &&& self.waiter_queue.wf()
        &&& !blocked_in(self.count.0) ==> self.waiter_queue@.len() == 0
    }

    /// What holds of every counter.
    pub proof fn lemma_count(&self)
        requires
            self.wf(),
        ensures
            self@.refs <= MAX_REFS,
            self@.waiting.len() <= MAX_WAITING,
            !self@.blocked ==> self@.waiting == Seq::<Waiter>::empty(),
    {
        self.waiter_queue.lemma_bounded();
        lemma_word(self.count.0);
        assert(!self@.blocked ==> self@.waiting =~= Seq::<Waiter>::empty());
    }

    /// A counter without references.
    #[must_use]
    pub fn new() -> (counter: Self)
        requires
            0 < MAX_WAITING <= usize::MAX / 2,
        ensures
            counter.wf(),
            counter@ == Count::none(),
            counter@.refs == 0,
            !counter@.blocked,
            counter@.waiting.len() == 0,
    {
        RefCount {
            count: CacheLine::new(0),
            waiter_queue: ArrayQueue::new(),
            id: Ghost(some_id()),
        }
    }

    /// A counter without references.
    pub fn default() -> (counter: Self)
        requires
            0 < MAX_WAITING <= usize::MAX / 2,
        ensures
            counter.wf(),
            counter@ == Count::none(),
            counter@.refs == 0,
            !counter@.blocked,
            counter@.waiting.len() == 0,
    {
        Self::new()
    }

    /// The number of references, be they standard or exclusive. A request for an exclusive
    /// reference does not count while standard ones are left.
    #[must_use]
    pub fn ref_count(&self) -> (refs: u32)
        ensures
            refs == self@.total(),
            self@.refs > 0 ==> refs == self@.refs,
            self@.refs == 0 ==> refs == (if self@.blocked {
                1u32
            } else {
                0u32
            }),
    {
        all_refs(self.count.0)
    }

    /// Whether there are no references of any kind.
    #[must_use]
    pub fn no_refs(&self) -> (none: bool)
        ensures
            none == (self@.total() == 0),
            none == (self@.refs == 0 && !self@.blocked),
    {
        self.ref_count() == 0
    }

    /// The number of standard references.
    #[must_use]
    pub fn standard_ref_count(&self) -> (refs: u32)
        ensures
            refs == self@.refs,
    {
        standard_refs(self.count.0)
    }

    /// Whether there are no standard references. An exclusive one does not count.
    #[must_use]
    pub fn no_standard_refs(&self) -> (none: bool)
        ensures
            none == (self@.refs == 0),
    {
        self.standard_ref_count() == 0
    }

    /// 1 if references are blocked, and 0 if they are allowed.
    #[must_use]
    pub fn raw_state(&self) -> (raw: u32)
        ensures
            raw == (if self@.blocked {
                1u32
            } else {
                0u32
            }),
    {
        block_state(self.count.0)
    }

    /// Whether references are blocked.
    #[must_use]
    pub fn is_blocked(&self) -> (blocked: bool)
        ensures
            blocked == self@.blocked,
    {
        self.raw_state() == 1
    }

    /// Whether references are allowed.
    #[must_use]
    pub fn is_allowed(&self) -> (allowed: bool)
        ensures
            allowed == !self@.blocked,
    {
        self.raw_state() == 0
    }

    /// Whether references are allowed or blocked.
    #[must_use]
    pub fn state(&self) -> (state: State)
        ensures
            state == (if self@.blocked {
                State::Blocked
            } else {
                State::Allowed
            }),
    {
        State::from_raw(self.raw_state())
    }

    /// Compares the state word with the one that an attempt expects, and changes it if they are
    /// equal. Otherwise the word that was found is returned.
    fn exchange(&mut self, attempt: Attempt) -> (found: Result<(), u32>)
        requires
            old(self).wf(),
            attempt.wf(),
        ensures
            final(self).wf(),
            final(self).id() == old(self).id(),
            found is Ok <==> old(self).count.0 == attempt.current,
            found is Ok ==> final(self).count.0 == attempt.next,
            found matches Err(word) ==> word == old(self).count.0 && *final(self) == *old(self),
            final(self).waiter_queue == old(self).waiter_queue,
    {
        let word = self.count.0;
        if word == attempt.current {
            self.count.0 = attempt.next;
            Ok(())
        } else {
            Err(word)
        }
    }

    /// Attempts to change the state word as often as attempts are left.
    fn grab(&mut self, grab: Grab) -> (done: bool)
        requires
            old(self).wf(),
            grab is Reference ==> old(self)@.refs < MAX_REFS,
        ensures
            final(self).wf(),
            final(self).id() == old(self).id(),
            done == !old(self)@.blocked,
            final(self)@ == (if !done {
                old(self)@
            } else {
                match grab {
                    Grab::Reference => old(self)@.with_ref(),
                    Grab::Block => old(self)@.with_block(),
                }
            }),
    {
        let mut attempt = Attempt::new(grab, self.count.0);
        proof {
            lemma_word(self.count.0);
        }
        while attempt.left > 0
            invariant
                attempt.wf(),
                attempt.grab == grab,
                grab.fits(self.count.0),
                *self == *old(self),
                old(self).wf(),
                attempt.left > 0 ==> attempt.current == grab.expects(self.count.0),
                attempt.left == 0 ==> blocked_in(self.count.0),
            decreases attempt.left,
        {
            match self.exchange(attempt) {
                Ok(()) => {
                    proof {
                        lemma_word(old(self).count.0);
                    }
                    return true;
                },
                Err(found) => {
                    attempt = attempt.retry(found);
                },
            }
        }
        false
    }

    /// Attempts to block references. If that succeeds no reference can be had until they are
    /// unblocked, which is then up to the caller.
    #[must_use]
    pub fn try_block_refs(&mut self) -> (blocked: bool)
        requires
            old(self).wf(),
        ensures
            final(self).wf(),
            final(self).id() == old(self).id(),
            blocked == !old(self)@.blocked,
            final(self)@ == old(self)@.with_block(),
            final(self)@.blocked,
            final(self)@.refs == old(self)@.refs,
            final(self)@.waiting == old(self)@.waiting,
    {
        self.grab(Grab::Block)
    }

    /// Blocks references. Unless that can be done at once, a future is returned that does it. To
    /// unblock them is then up to the caller.
    pub fn block_refs(&mut self) -> (blocked: MaybeFuture<(), FutureBlockedRefs<MAX_WAITING>>)
        requires
            old(self).wf(),
        ensures
            final(self).wf(),
            final(self).id() == old(self).id(),
            final(self)@ == old(self)@.with_block(),
            final(self)@.blocked,
            final(self)@.refs == old(self)@.refs,
            final(self)@.waiting == old(self)@.waiting,
            blocked is Ready <==> !old(self)@.blocked,
            blocked matches MaybeFuture::Future(fut) ==> fut.src@ == old(self).id()
                && !fut.registered,
    {
        if !self.try_block_refs() {
            return MaybeFuture::Future(FutureBlockedRefs::new(self));
        }
        MaybeFuture::Ready(())
    }

    /// Allows references again, and returns the futures to wake, in the order in which they came to
    /// wait. References that are still held stay counted.
    #[must_use]
    pub fn unblock_refs(&mut self) -> (woken: ArrayQueue<Waiter, MAX_WAITING>)
        requires
            old(self).wf(),
        ensures
            final(self).wf(),
            final(self).id() == old(self).id(),
            final(self)@ == old(self)@.without_block(),
            !final(self)@.blocked,
            final(self)@.refs == old(self)@.refs,
            final(self)@.waiting.len() == 0,
            woken.wf(),
            woken@ == old(self)@.waiting,
    {
        let ghost waiting = self.waiter_queue@;
        proof {
            self.waiter_queue.lemma_bounded();
            lemma_word_of(refs_of(self.count.0), false);
        }
        let mut woken: ArrayQueue<Waiter, MAX_WAITING> = ArrayQueue::new();
        let mut popped: Option<Waiter> = None;
        let mut step = UnblockStep::Clear;
        assert(woken@ + self.waiter_queue@ =~= waiting);
        loop
            invariant
                self.waiter_queue.wf(),
                woken.wf(),
                waiting.len() <= MAX_WAITING,
                self.id == old(self).id,
                step is Clear ==> self.count == old(self).count,
                step !is Clear ==> self.count.0 == word_of(refs_of(old(self).count.0), false),
                step is Wake <==> popped is Some,
                match popped {
                    Some(waiter) => woken@.push(waiter) + self.waiter_queue@ == waiting,
                    None => woken@ + self.waiter_queue@ == waiting,
                },
                step is Over ==> self.waiter_queue@.len() == 0,
            ensures
                step is Over,
            decreases self.waiter_queue@.len(), unblock_rank(step),
        {
            let ghost left = self.waiter_queue@;
            let yes = match step {
                UnblockStep::Clear => {
                    self.count.0 = unblocked(self.count.0);
                    true
                },
                UnblockStep::Pop { .. } => {
                    popped = self.waiter_queue.pop();
                    proof {
                        if left.len() > 0 {
                            assert(woken@.push(left[0]) + left.drop_first() =~= woken@ + left);
                        }
                    }
                    popped.is_some()
                },
                UnblockStep::Spin => {
                    slight_spin(0, &mut Hints::new());
                    true
                },
                UnblockStep::Wake => {
                    match popped {
                        Some(waiter) => {
                            let pushed = woken.push(waiter);
                            assert(pushed is Ok);
                        },
                        None => {},
                    }
                    popped = None;
                    true
                },
                UnblockStep::Over => break ,
            };
            step = step.advance(yes);
        }
        proof {
            assert(self.waiter_queue@ =~= Seq::<Waiter>::empty());
            assert(woken@ =~= waiting);
        }
        woken
    }

    /// Pushes a waiter to the waiter queue, which it may join while references are blocked.
    pub(crate) fn enqueue(&mut self, waiter: Waiter) -> (joined: bool)
        requires
            old(self).wf(),
            old(self)@.blocked,
        ensures
            final(self).wf(),
            final(self).id() == old(self).id(),
            joined == (old(self)@.waiting.len() < MAX_WAITING),
            final(self)@ == (if joined {
                old(self)@.with_waiter(waiter)
            } else {
                old(self)@
            }),
    {
        proof {
            self.waiter_queue.lemma_bounded();
        }
        self.waiter_queue.push(waiter).is_ok()
    }

    /// Requests an exclusive reference. References are blocked from then on. Unless that can be
    /// done at once with no standard reference left, a future is returned.
    pub fn get_exclusive_ref(&mut self) -> (requested: MaybeFuture<
        ExclusiveRef<MAX_WAITING>,
        FutureExclusiveRef<MAX_WAITING>,
    >)
        requires
            old(self).wf(),
        ensures
            final(self).wf(),
            final(self).id() == old(self).id(),
            final(self)@ == old(self)@.with_block(),
            final(self)@.blocked,
            final(self)@.refs == old(self)@.refs,
            final(self)@.waiting == old(self)@.waiting,
            requested is Ready <==> !old(self)@.blocked && old(self)@.refs == 0,
            requested matches MaybeFuture::Ready(r) ==> r.src() == old(self).id(),
            requested matches MaybeFuture::Future(fut) ==> {
                &&& fut.wf()
                &&& fut.src@ == old(self).id()
                &&& fut.blocked_fut is Some <==> old(self)@.blocked
                &&& fut.blocked_fut matches Some(blocked_fut) ==> !blocked_fut.registered
            },
    {
        let blocked = self.try_block_refs();
        match exclusive_start(blocked, self.no_standard_refs()) {
            ExclusiveStart::Ready => MaybeFuture::Ready(ExclusiveRef::new(self)),
            ExclusiveStart::AwaitRefs => MaybeFuture::Future(FutureExclusiveRef::new(self, None)),
            ExclusiveStart::AwaitBlock => MaybeFuture::Future(
                FutureExclusiveRef::new(self, Some(FutureBlockedRefs::new(self))),
            ),
        }
    }

    /// Attempts to get an exclusive reference, without waiting for more than a moment.
    pub fn try_get_exclusive_ref(&mut self) -> (granted: Option<ExclusiveRef<MAX_WAITING>>)
        requires
            old(self).wf(),
        ensures
            final(self).wf(),
            final(self).id() == old(self).id(),
            granted is Some <==> !old(self)@.blocked && old(self)@.refs == 0,
            granted matches Some(r) ==> r.src() == old(self).id(),
            final(self)@ == (if granted is Some {
                old(self)@.with_block()
            } else {
                old(self)@
            }),
            final(self)@.blocked == (granted is Some || old(self)@.blocked),
            final(self)@.refs == old(self)@.refs,
            final(self)@.waiting == old(self)@.waiting,
    {
        let mut step = ExclusiveStep::Block;
        proof {
            self.lemma_count();
        }
        loop
            invariant
                self.wf(),
                self.id() == old(self).id(),
                old(self)@.blocked || old(self)@.waiting == Seq::<Waiter>::empty(),
                match step {
                    ExclusiveStep::Block => self@ == old(self)@,
                    ExclusiveStep::Look { .. } => !old(self)@.blocked && self@
                        == old(self)@.with_block(),
                    ExclusiveStep::Wait { .. } => !old(self)@.blocked && old(self)@.refs > 0
                        && self@ == old(self)@.with_block(),
                    ExclusiveStep::Unblock => !old(self)@.blocked && old(self)@.refs > 0 && self@
                        == old(self)@.with_block(),
                    ExclusiveStep::Granted => !old(self)@.blocked && old(self)@.refs == 0 && self@
                        == old(self)@.with_block(),
                    ExclusiveStep::Denied => (old(self)@.blocked || old(self)@.refs > 0) && self@
                        == old(self)@,
                },
            ensures
                step is Granted || step is Denied,
            decreases step.steps_left(),
        {
            let yes = match step {
                ExclusiveStep::Block => self.try_block_refs(),
                ExclusiveStep::Look { .. } => self.no_standard_refs(),
                ExclusiveStep::Wait { looks } => {
                    slight_spin(looks as usize, &mut Hints::new());
                    true
                },
                ExclusiveStep::Unblock => {
                    // Nobody can have come to wait for the block in between.
                    let woken = self.unblock_refs();
                    assert(woken@.len() == 0);
                    true
                },
                ExclusiveStep::Granted | ExclusiveStep::Denied => break ,
            };
            step = step.advance(yes);
        }
        match step {
            ExclusiveStep::Granted => Some(ExclusiveRef::new(self)),
            _ => None,
        }
    }

    /// Gets an exclusive reference, which must not be held back by any reference: with one of
    /// either kind in the caller's hands this would wait forever.
    pub fn blocking_get_exclusive_ref(&mut self) -> (granted: ExclusiveRef<MAX_WAITING>)
        requires
            old(self).wf(),
            !old(self)@.blocked,
            old(self)@.refs == 0,
        ensures
            final(self).wf(),
            final(self).id() == old(self).id(),
            final(self)@ == old(self)@.with_block(),
            final(self)@.blocked,
            final(self)@.refs == old(self)@.refs,
            final(self)@.waiting == old(self)@.waiting,
            granted.src() == old(self).id(),
    {
        let mut backoff = Backoff::new();
        let mut step = BlockingStep::TryGrab;
        loop
            invariant
                self.wf(),
                self.id() == old(self).id(),
                !old(self)@.blocked,
                old(self)@.refs == 0,
                match step {
                    BlockingStep::TryGrab => self@ == old(self)@,
                    BlockingStep::LookRefs | BlockingStep::Granted => self@
                        == old(self)@.with_block(),
                    BlockingStep::WaitGrab | BlockingStep::WaitRefs => false,
                },
            ensures
                step is Granted,
            decreases step.steps_left(Grab::Block),
        {
            let yes = match step {
                BlockingStep::TryGrab => self.try_block_refs(),
                BlockingStep::LookRefs => self.no_standard_refs(),
                BlockingStep::WaitGrab | BlockingStep::WaitRefs => {
                    backoff.snooze();
                    true
                },
                BlockingStep::Granted => break ,
            };
            step = step.advance(Grab::Block, yes);
        }
        ExclusiveRef::new(self)
    }

    /// Gets a standard reference. While references are blocked, a future is returned instead.
    pub fn get_ref(&mut self) -> (requested: MaybeFuture<
        Ref<MAX_WAITING>,
        FutureRef<MAX_WAITING>,
    >)
        requires
            old(self).wf(),
            old(self)@.refs < MAX_REFS,
        ensures
            final(self).wf(),
            final(self).id() == old(self).id(),
            requested is Ready <==> !old(self)@.blocked,
            requested matches MaybeFuture::Ready(r) ==> r.src() == old(self).id() && final(self)@
                == old(self)@.with_ref(),
            requested matches MaybeFuture::Future(fut) ==> fut.src@ == old(self).id()
                && !fut.registered && final(self)@ == old(self)@,
            final(self)@.refs == old(self)@.refs + (if requested is Ready {
                1int
            } else {
                0
            }),
            final(self)@.blocked == old(self)@.blocked,
            final(self)@.waiting == old(self)@.waiting,
    {
        if self.grab(Grab::Reference) {
            return MaybeFuture::Ready(Ref::new(self));
        }
        MaybeFuture::Future(FutureRef::new(self))
    }

    /// Attempts to get a standard reference. While references are blocked there is none.
    pub fn try_get_ref(&mut self) -> (granted: Option<Ref<MAX_WAITING>>)
        requires
            old(self).wf(),
            old(self)@.refs < MAX_REFS,
        ensures
            final(self).wf(),
            final(self).id() == old(self).id(),
            granted is Some <==> !old(self)@.blocked,
            granted matches Some(r) ==> r.src() == old(self).id(),
            final(self)@ == (if granted is Some {
                old(self)@.with_ref()
            } else {
                old(self)@
            }),
            final(self)@.refs == old(self)@.refs + (if granted is Some {
                1int
            } else {
                0
            }),
            final(self)@.blocked == old(self)@.blocked,
            final(self)@.waiting == old(self)@.waiting,
    {
        if self.grab(Grab::Reference) {
            return Some(Ref::new(self));
        }
        None
    }

    /// Gets a standard reference, which must not be blocked: with an exclusive reference in the
    /// caller's hands this would wait forever.
    pub fn blocking_get_ref(&mut self) -> (granted: Ref<MAX_WAITING>)
        requires
            old(self).wf(),
            !old(self)@.blocked,
            old(self)@.refs < MAX_REFS,
        ensures
            final(self).wf(),
            final(self).id() == old(self).id(),
            final(self)@ == old(self)@.with_ref(),
            final(self)@.refs == old(self)@.refs + 1,
            final(self)@.blocked == old(self)@.blocked,
            final(self)@.waiting == old(self)@.waiting,
            granted.src() == old(self).id(),
    {
        let mut backoff = Backoff::new();
        let mut step = BlockingStep::TryGrab;
        loop
            invariant
                self.wf(),
                self.id() == old(self).id(),
                !old(self)@.blocked,
                old(self)@.refs < MAX_REFS,
                match step {
                    BlockingStep::TryGrab => self@ == old(self)@,
                    BlockingStep::Granted => self@ == old(self)@.with_ref(),
                    _ => false,
                },
            ensures
                step is Granted,
            decreases step.steps_left(Grab::Reference),
        {
            let yes = match step {
                BlockingStep::TryGrab => self.grab(Grab::Reference),
                BlockingStep::LookRefs => self.no_standard_refs(),
                BlockingStep::WaitGrab | BlockingStep::WaitRefs => {
                    backoff.snooze();
                    true
                },
                BlockingStep::Granted => break ,
            };
            step = step.advance(Grab::Reference, yes);
        }
        Ref::new(self)
    }
}

/// How many steps an unblocking thread that pops nothing more has left at most.
spec fn unblock_rank(step: UnblockStep) -> nat {
    match step {
        UnblockStep::Clear => 5,
        UnblockStep::Pop { first } => if first {
            3
        } else {
            1
        },
        UnblockStep::Spin | UnblockStep::Wake => 2,
        UnblockStep::Over => 0,
    }
}

/// A standard reference to a counter. Many of these can exist at once.
///
/// It counts until it is given back with [`release`]. The counter belongs to whoever has it to
/// itself, so that dropping the reference alone does not reach it. Where threads share the counter's
/// word, [`HeldRef`] gives itself back when it is dropped.
///
/// [`HeldRef`]: crate::shared::HeldRef
/// [`release`]: Ref::release
#[must_use]
pub struct Ref<const MAX_WAITING: usize> {
    src: Ghost<int>,
}

impl<const MAX_WAITING: usize> Ref<MAX_WAITING> {
    /// Which counter this is a reference to.
    pub closed spec fn src(&self) -> int {
        self.src@
    }

    /// A reference to `counter`, which must have counted it before.
    pub fn new(counter: &RefCount<MAX_WAITING>) -> (reference: Self)
        requires
            counter@.refs > 0,
        ensures
            reference.src() == counter.id(),
    {
        Ref { src: Ghost(counter.id()) }
    }

    /// Gives the reference back: it is counted no longer.
    pub fn release(self, counter: &mut RefCount<MAX_WAITING>)
        requires
            old(counter).wf(),
            old(counter).id() == self.src(),
            old(counter)@.refs > 0,
        ensures
            final(counter).wf(),
            final(counter).id() == old(counter).id(),
            final(counter)@ == old(counter)@.without_ref(),
            final(counter)@.refs == old(counter)@.refs - 1,
            final(counter)@.blocked == old(counter)@.blocked,
            final(counter)@.waiting == old(counter)@.waiting,
    {
        counter.count.0 = released(counter.count.0);
    }
}

/// An exclusive reference to a counter. While it exists no other reference does.
///
/// It blocks references until it is given back with [`release`]. Dropping it alone does not reach the
/// counter. Where threads share the counter's word, [`HeldBlock`] gives itself back when it is
/// dropped.
///
/// [`HeldBlock`]: crate::shared::HeldBlock
/// [`release`]: ExclusiveRef::release
#[must_use]
pub struct ExclusiveRef<const MAX_WAITING: usize> {
    src: Ghost<int>,
}

impl<const MAX_WAITING: usize> ExclusiveRef<MAX_WAITING> {
    /// Which counter this is a reference to.
    pub closed spec fn src(&self) -> int {
        self.src@
    }

    /// An exclusive reference to `counter`, whose references must be blocked, with none left.
    pub fn new(counter: &RefCount<MAX_WAITING>) -> (reference: Self)
        requires
            counter@.blocked,
            counter@.refs == 0,
        ensures
            reference.src() == counter.id(),
    {
        ExclusiveRef { src: Ghost(counter.id()) }
    }

    /// Gives the reference back: references are allowed again. The futures to wake are returned, in
    /// the order in which they came to wait.
    #[must_use]
    pub fn release(self, counter: &mut RefCount<MAX_WAITING>) -> (woken: ArrayQueue<Waiter, MAX_WAITING>)
        requires
            old(counter).wf(),
            old(counter).id() == self.src(),
            old(counter)@.blocked,
        ensures
            final(counter).wf(),
            final(counter).id() == old(counter).id(),
            final(counter)@ == old(counter)@.without_block(),
            !final(counter)@.blocked,
            final(counter)@.refs == old(counter)@.refs,
            final(counter)@.waiting.len() == 0,
            woken.wf(),
            woken@ == old(counter)@.waiting,
    {
        counter.unblock_refs()
    }
}

} // verus!
