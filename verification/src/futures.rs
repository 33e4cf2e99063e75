//! Futures for references.

use vstd::prelude::*;
use crate::consts::MAX_REFS;
use crate::poll_steps::ExclusivePollStep;
use crate::poll_steps::PollStep;
use crate::refcount::Count;
use crate::refcount::ExclusiveRef;
use crate::refcount::Ref;
use crate::refcount::RefCount;
use crate::state::Grab;
use crate::waiter::Waiter;

verus! {

/// Either ready, or a future, to avoid polling where that is not needed.
pub enum MaybeFuture<R, F> {
    /// The result is there.
    Ready(R),
    /// The result is to be waited for.
    Future(F),
}

/// What a poll came to.
pub enum Poll<R> {
    /// The result is there.
    Ready(R),
    /// The result is not there yet. The task in `wake`, if any, is to be woken now.
    Pending { wake: Option<usize> },
}

/// A future for a standard reference.
pub struct FutureRef<const MAX_WAITING: usize> {
    /// The counter that the reference is of.
    pub src: Ghost<int>,
    /// Whether the future is registered in the waiter queue.
    pub registered: bool,
}

/// A future that blocks references.
pub struct FutureBlockedRefs<const MAX_WAITING: usize> {
    /// The counter whose references are to be blocked.
    pub src: Ghost<int>,
    /// Whether the future is registered in the waiter queue.
    pub registered: bool,
}

/// A future for an exclusive reference.
pub struct FutureExclusiveRef<const MAX_WAITING: usize> {
    /// The future that blocks references, until it has.
    pub blocked_fut: Option<FutureBlockedRefs<MAX_WAITING>>,
    /// The counter that the reference is of.
    pub src: Ghost<int>,
}

/// Whether the future is registered after it found references blocked: it joins the queue unless it
/// is in it or the queue is full.
pub open spec fn joins(registered: bool, before: Count, max_waiting: usize) -> bool {
    registered || before.waiting.len() < max_waiting
}

/// The counter after a future found references blocked.
pub open spec fn after_wait(
    registered: bool,
    before: Count,
    max_waiting: usize,
    waiter: Waiter,
) -> Count {
    if !registered && before.waiting.len() < max_waiting {
        before.with_waiter(waiter)
    } else {
        before
    }
}

/// The task to wake after a future found references blocked: its own, if the queue is full.
pub open spec fn wake_after_wait(
    registered: bool,
    before: Count,
    max_waiting: usize,
    waiter: Waiter,
) -> Option<usize> {
    if !registered && before.waiting.len() >= max_waiting {
        Some(waiter.waker)
    } else {
        None
    }
}

/// Nobody is forgotten: a future that finds references blocked, and is not in the queue, is woken at
/// once or is among those that are woken when references are allowed again.
pub proof fn who_waits_is_woken(before: Count, max_waiting: usize, waiter: Waiter)
    requires
        before.blocked,
    ensures
        wake_after_wait(false, before, max_waiting, waiter) == Some(waiter.waker) || after_wait(
            false,
            before,
            max_waiting,
            waiter,
        ).waiting.contains(waiter),
        joins(false, before, max_waiting) <==> after_wait(
            false,
            before,
            max_waiting,
            waiter,
        ).waiting == before.waiting.push(waiter),
{
    let after = before.waiting.push(waiter);
    assert(after[before.waiting.len() as int] == waiter);
    assert(after.len() != before.waiting.len());
}

/// A poll that finds references blocked disturbs nobody: the references that are held stay counted,
/// the block stays, and whoever waited before the poll still waits after it, in the same place. At
/// most the polled future joins them, behind all others, and only while there is room.
pub proof fn who_waits_stays(
    registered: bool,
    before: Count,
    max_waiting: usize,
    waiter: Waiter,
    k: int,
)
    ensures
        ({
            let after = after_wait(registered, before, max_waiting, waiter);
            &&& after.refs == before.refs
            &&& after.blocked == before.blocked
            &&& after.waiting.len() == before.waiting.len() || after.waiting.len()
                == before.waiting.len() + 1
            &&& 0 <= k < before.waiting.len() ==> after.waiting[k] == before.waiting[k]
            &&& after.waiting.len() > before.waiting.len() ==> after.waiting.last() == waiter
            &&& after.waiting.len() > before.waiting.len() ==> after.waiting.len() <= max_waiting
        }),
{
}

/// A future that is registered waits already: to poll it while references are blocked changes
/// nothing, and nobody is woken.
pub proof fn registered_poll_changes_nothing(before: Count, max_waiting: usize, waiter: Waiter)
    ensures
        after_wait(true, before, max_waiting, waiter) == before,
        joins(true, before, max_waiting),
        wake_after_wait(true, before, max_waiting, waiter) is None,
{
}

/// A future that is not registered joins the queue if there is room and is then registered and not
/// woken. Otherwise nothing changes but that its own task is to be woken at once.
pub proof fn new_waiter_joins_or_is_woken(before: Count, max_waiting: usize, waiter: Waiter)
    ensures
        before.waiting.len() < max_waiting ==> {
            let after = after_wait(false, before, max_waiting, waiter);
            &&& after.waiting.len() == before.waiting.len() + 1
            &&& after.waiting.last() == waiter
            &&& joins(false, before, max_waiting)
            &&& wake_after_wait(false, before, max_waiting, waiter) is None
        },
        before.waiting.len() >= max_waiting ==> {
            &&& after_wait(false, before, max_waiting, waiter) == before
            &&& !joins(false, before, max_waiting)
            &&& wake_after_wait(false, before, max_waiting, waiter) == Some(waiter.waker)
        },
{
}

/// To poll twice while references are blocked is to poll once: the second poll leaves the queue and
/// the flag as the first left them, and wakes whom the first woke.
pub proof fn second_poll_changes_nothing(
    registered: bool,
    before: Count,
    max_waiting: usize,
    waiter: Waiter,
)
    ensures
        ({
            let joined = joins(registered, before, max_waiting);
            let after = after_wait(registered, before, max_waiting, waiter);
            &&& after_wait(joined, after, max_waiting, waiter) == after
            &&& joins(joined, after, max_waiting) == joined
            &&& wake_after_wait(joined, after, max_waiting, waiter) == wake_after_wait(
                registered,
                before,
                max_waiting,
                waiter,
            )
        }),
{
}

impl<const MAX_WAITING: usize> FutureRef<MAX_WAITING> {
    /// A future for a reference of `counter`, not registered yet.
    #[must_use]
    pub fn new(counter: &RefCount<MAX_WAITING>) -> (fut: Self)
        ensures
            fut.src@ == counter.id(),
            !fut.registered,
    {
        FutureRef { src: Ghost(counter.id()), registered: false }
    }

    /// Polls the future. While references are blocked it waits in the waiter queue as `waiter`;
    /// otherwise it gets its reference.
    pub fn poll(&mut self, counter: &mut RefCount<MAX_WAITING>, waiter: Waiter) -> (polled: Poll<
        Ref<MAX_WAITING>,
    >)
        requires
            old(counter).wf(),
            old(counter).id() == old(self).src@,
            !old(counter)@.blocked ==> old(counter)@.refs < MAX_REFS,
        ensures
            final(counter).wf(),
            final(counter).id() == old(counter).id(),
            final(self).src == old(self).src,
            !old(counter)@.blocked ==> {
                &&& polled matches Poll::Ready(r) && r.src() == old(counter).id()
                &&& final(counter)@ == old(counter)@.with_ref()
                &&& final(self).registered == old(self).registered
            },
            old(counter)@.blocked ==> {
                &&& polled matches Poll::Pending { wake } && wake == wake_after_wait(
                    old(self).registered,
                    old(counter)@,
                    MAX_WAITING,
                    waiter,
                )
                &&& final(counter)@ == after_wait(
                    old(self).registered,
                    old(counter)@,
                    MAX_WAITING,
                    waiter,
                )
                &&& final(self).registered == joins(
                    old(self).registered,
                    old(counter)@,
                    MAX_WAITING,
                )
            },
            polled is Ready <==> !old(counter)@.blocked,
            final(counter)@.blocked == old(counter)@.blocked,
            final(counter)@.refs == old(counter)@.refs + (if polled is Ready {
                1int
            } else {
                0
            }),
            final(counter)@.waiting.len() >= old(counter)@.waiting.len(),
            forall|k: int|
                0 <= k < old(counter)@.waiting.len() ==> #[trigger] final(counter)@.waiting[k]
                    == old(counter)@.waiting[k],
            old(counter)@.blocked && !old(self).registered && old(counter)@.waiting.len()
                < MAX_WAITING ==> {
                &&& final(self).registered
                &&& final(counter)@.waiting == old(counter)@.waiting.push(waiter)
                &&& polled matches Poll::Pending { wake } && wake is None
            },
            old(counter)@.blocked && !old(self).registered && old(counter)@.waiting.len()
                >= MAX_WAITING ==> {
                &&& !final(self).registered
                &&& final(counter)@ == old(counter)@
                &&& polled matches Poll::Pending { wake } && wake == Some(waiter.waker)
            },
            old(counter)@.blocked && old(self).registered ==> {
                &&& final(self).registered
                &&& final(counter)@ == old(counter)@
                &&& polled matches Poll::Pending { wake } && wake is None
            },
    {
        let mut step = PollStep::start(Grab::Reference);
        let mut wake: Option<usize> = None;
        let mut reference: Option<Ref<MAX_WAITING>> = None;
        let ghost before = counter@;
        let ghost was = self.registered;
        proof {
            counter.lemma_count();
        }
        loop
            invariant
                counter.wf(),
                counter.id() == old(counter).id(),
                before == old(counter)@,
                was == old(self).registered,
                !before.blocked ==> before.refs < MAX_REFS,
                before.waiting.len() <= MAX_WAITING,
                self.src == old(self).src,
                wait_stage(
                    Grab::Reference,
                    before,
                    was,
                    MAX_WAITING,
                    waiter,
                    step,
                    counter@,
                    self.registered,
                    wake,
                ),
                step is Ready <==> reference is Some,
                reference matches Some(r) ==> r.src() == counter.id(),
            ensures
                step is Ready || step is Pending,
            decreases step.steps_left(Grab::Reference),
        {
            let yes = match step {
                PollStep::LookBlocked => counter.is_blocked(),
                PollStep::TryGrab => {
                    reference = counter.try_get_ref();
                    reference.is_some()
                },
                PollStep::LookRegistered => self.registered,
                PollStep::Register => {
                    self.registered = true;
                    true
                },
                PollStep::Enqueue => counter.enqueue(waiter),
                PollStep::LookAgain => counter.is_blocked(),
                PollStep::WakeWaiter => {
                    wake = Some(waiter.wake(&mut self.registered));
                    true
                },
                PollStep::WakeSelf => {
                    wake = Some(waiter.waker);
                    true
                },
                PollStep::Ready | PollStep::Pending => break ,
            };
            step = step.advance(Grab::Reference, yes);
        }
        match reference {
            Some(r) => Poll::Ready(r),
            None => Poll::Pending { wake },
        }
    }
}

/// How far a poll by one thread alone has come at a step: `before` and `was` are the count and the
/// flag that it found, `now`, `registered` and `wake` are the count, the flag and the task to wake
/// at that step.
spec fn wait_stage(
    grab: Grab,
    before: Count,
    was: bool,
    max_waiting: usize,
    waiter: Waiter,
    step: PollStep,
    now: Count,
    registered: bool,
    wake: Option<usize>,
) -> bool {
    let full = before.waiting.len() >= max_waiting;
    match step {
        PollStep::LookBlocked => now == before && registered == was && wake is None && (
        grab is Block ==> before.blocked),
        PollStep::TryGrab => now == before && registered == was && wake is None && (
        grab is Reference ==> !before.blocked),
        PollStep::LookRegistered => before.blocked && now == before && registered == was
            && wake is None,
        PollStep::Register => before.blocked && now == before && !was && !registered
            && wake is None,
        PollStep::Enqueue => before.blocked && now == before && !was && registered && wake is None,
        PollStep::LookAgain => before.blocked && !was && !full && now == before.with_waiter(
            waiter,
        ) && registered && wake is None,
        PollStep::WakeWaiter => before.blocked && !was && full && now == before && registered
            && wake is None,
        PollStep::WakeSelf => false,
        PollStep::Ready => !before.blocked && registered == was && wake is None && now == (match grab {
            Grab::Reference => before.with_ref(),
            Grab::Block => before.with_block(),
        }),
        PollStep::Pending => before.blocked && now == after_wait(was, before, max_waiting, waiter)
            && registered == joins(was, before, max_waiting) && wake == wake_after_wait(
            was,
            before,
            max_waiting,
            waiter,
        ),
    }
}

impl<const MAX_WAITING: usize> FutureBlockedRefs<MAX_WAITING> {
    /// A future that blocks the references of `counter`, not registered yet.
    pub fn new(counter: &RefCount<MAX_WAITING>) -> (fut: Self)
        ensures
            fut.src@ == counter.id(),
            !fut.registered,
    {
        FutureBlockedRefs { src: Ghost(counter.id()), registered: false }
    }

    /// Polls the future. While references are blocked already it waits in the waiter queue as
    /// `waiter`; otherwise it blocks them.
    pub fn poll(&mut self, counter: &mut RefCount<MAX_WAITING>, waiter: Waiter) -> (polled: Poll<()>)
        requires
            old(counter).wf(),
            old(counter).id() == old(self).src@,
        ensures
            final(counter).wf(),
            final(counter).id() == old(counter).id(),
            final(self).src == old(self).src,
            !old(counter)@.blocked ==> {
                &&& polled is Ready
                &&& final(counter)@ == old(counter)@.with_block()
                &&& final(self).registered == old(self).registered
            },
            old(counter)@.blocked ==> {
                &&& polled matches Poll::Pending { wake } && wake == wake_after_wait(
                    old(self).registered,
                    old(counter)@,
                    MAX_WAITING,
                    waiter,
                )
                &&& final(counter)@ == after_wait(
                    old(self).registered,
                    old(counter)@,
                    MAX_WAITING,
                    waiter,
                )
                &&& final(self).registered == joins(
                    old(self).registered,
                    old(counter)@,
                    MAX_WAITING,
                )
            },
            polled is Ready <==> !old(counter)@.blocked,
            final(counter)@.blocked,
            final(counter)@.refs == old(counter)@.refs,
            final(counter)@.waiting.len() >= old(counter)@.waiting.len(),
            forall|k: int|
                0 <= k < old(counter)@.waiting.len() ==> #[trigger] final(counter)@.waiting[k]
                    == old(counter)@.waiting[k],
            old(counter)@.blocked && !old(self).registered && old(counter)@.waiting.len()
                < MAX_WAITING ==> {
                &&& final(self).registered
                &&& final(counter)@.waiting == old(counter)@.waiting.push(waiter)
                &&& polled matches Poll::Pending { wake } && wake is None
            },
            old(counter)@.blocked && !old(self).registered && old(counter)@.waiting.len()
                >= MAX_WAITING ==> {
                &&& !final(self).registered
                &&& final(counter)@ == old(counter)@
                &&& polled matches Poll::Pending { wake } && wake == Some(waiter.waker)
            },
            old(counter)@.blocked && old(self).registered ==> {
                &&& final(self).registered
                &&& final(counter)@ == old(counter)@
                &&& polled matches Poll::Pending { wake } && wake is None
            },
    {
        let mut step = PollStep::start(Grab::Block);
        let mut wake: Option<usize> = None;
        let ghost before = counter@;
        let ghost was = self.registered;
        proof {
            counter.lemma_count();
        }
        loop
            invariant
                counter.wf(),
                counter.id() == old(counter).id(),
                before == old(counter)@,
                was == old(self).registered,
                before.waiting.len() <= MAX_WAITING,
                self.src == old(self).src,
                wait_stage(
                    Grab::Block,
                    before,
                    was,
                    MAX_WAITING,
                    waiter,
                    step,
                    counter@,
                    self.registered,
                    wake,
                ),
            ensures
                step is Ready || step is Pending,
            decreases step.steps_left(Grab::Block),
        {
            let yes = match step {
                PollStep::LookBlocked => counter.is_blocked(),
                PollStep::TryGrab => counter.try_block_refs(),
                PollStep::LookRegistered => self.registered,
                PollStep::Register => {
                    self.registered = true;
                    true
                },
                PollStep::Enqueue => counter.enqueue(waiter),
                PollStep::LookAgain => counter.is_blocked(),
                PollStep::WakeWaiter => {
                    wake = Some(waiter.wake(&mut self.registered));
                    true
                },
                PollStep::WakeSelf => {
                    wake = Some(waiter.waker);
                    true
                },
                PollStep::Ready | PollStep::Pending => break ,
            };
            step = step.advance(Grab::Block, yes);
        }
        match step {
            PollStep::Ready => Poll::Ready(()),
            _ => Poll::Pending { wake },
        }
    }
}

impl<const MAX_WAITING: usize> FutureExclusiveRef<MAX_WAITING> {
    /// The block that the future awaits is that of its own counter.
    pub open spec fn wf(&self) -> bool {
        self.blocked_fut matches Some(fut) ==> fut.src@ == self.src@
    }

    /// A future for an exclusive reference of `counter`. Unless references are blocked for it
    /// already, it awaits `blocked_fut` first.
    pub fn new(
        counter: &RefCount<MAX_WAITING>,
        blocked_fut: Option<FutureBlockedRefs<MAX_WAITING>>,
    ) -> (fut: Self)
        ensures
            fut.src@ == counter.id(),
            fut.blocked_fut == blocked_fut,
    {
        FutureExclusiveRef { blocked_fut, src: Ghost(counter.id()) }
    }

    /// Polls the future. It first blocks references, waiting in the waiter queue as `waiter` while
    /// they are blocked already; then it is ready as soon as no standard reference is left.
    pub fn poll(&mut self, counter: &mut RefCount<MAX_WAITING>, waiter: Waiter) -> (polled: Poll<
        ExclusiveRef<MAX_WAITING>,
    >)
        requires
            old(counter).wf(),
            old(self).wf(),
            old(counter).id() == old(self).src@,
            old(self).blocked_fut is None ==> old(counter)@.blocked,
        ensures
            final(counter).wf(),
            final(self).wf(),
            final(counter).id() == old(counter).id(),
            final(self).src == old(self).src,
            final(counter)@.blocked,
            // The block is still awaited if and only if it was, and another holds it.
            final(self).blocked_fut is Some <==> old(self).blocked_fut is Some && old(
                counter,
            )@.blocked,
            final(self).blocked_fut matches Some(fut) ==> {
                let was = old(self).blocked_fut->Some_0.registered;
                &&& polled matches Poll::Pending { wake } && wake == wake_after_wait(
                    was,
                    old(counter)@,
                    MAX_WAITING,
                    waiter,
                )
                &&& final(counter)@ == after_wait(was, old(counter)@, MAX_WAITING, waiter)
                &&& fut.registered == joins(was, old(counter)@, MAX_WAITING)
            },
            final(self).blocked_fut is None ==> {
                &&& final(counter)@ == old(counter)@.with_block()
                &&& match polled {
                    Poll::Ready(r) => old(counter)@.refs == 0 && r.src() == old(counter).id(),
                    Poll::Pending { wake } => old(counter)@.refs > 0 && wake == Some(waiter.waker),
                }
            },
            final(counter)@.refs == old(counter)@.refs,
            polled is Ready <==> old(counter)@.refs == 0 && (old(self).blocked_fut is None || !old(
                counter,
            )@.blocked),
            final(counter)@.waiting.len() >= old(counter)@.waiting.len(),
            forall|k: int|
                0 <= k < old(counter)@.waiting.len() ==> #[trigger] final(counter)@.waiting[k]
                    == old(counter)@.waiting[k],
            final(self).blocked_fut is None ==> final(counter)@.waiting == old(counter)@.waiting,
            final(self).blocked_fut is Some ==> final(counter)@.waiting == (if old(
                self,
            ).blocked_fut->Some_0.registered || old(counter)@.waiting.len() >= MAX_WAITING {
                old(counter)@.waiting
            } else {
                old(counter)@.waiting.push(waiter)
            }),
    {
        let mut step = ExclusivePollStep::start(self.blocked_fut.is_some());
        let mut wake: Option<usize> = None;
        loop
            invariant
                counter.wf(),
                self.wf(),
                counter.id() == old(counter).id(),
                counter.id() == self.src@,
                self.src == old(self).src,
                old(self).blocked_fut is None ==> old(counter)@.blocked,
                exclusive_stage(
                    *old(self),
                    *self,
                    old(counter)@,
                    counter@,
                    waiter,
                    MAX_WAITING,
                    step,
                    wake,
                ),
            ensures
                step is Ready || step is Pending,
            decreases step.steps_left(),
        {
            let yes = match step {
                ExclusivePollStep::PollBlock => match &mut self.blocked_fut {
                    Some(fut) => match fut.poll(counter, waiter) {
                        Poll::Ready(()) => {
                            self.blocked_fut = None;
                            true
                        },
                        Poll::Pending { wake: woken } => {
                            wake = woken;
                            false
                        },
                    },
                    None => true,
                },
                ExclusivePollStep::LookRefs => counter.no_standard_refs(),
                ExclusivePollStep::WakeSelf => {
                    wake = Some(waiter.waker);
                    true
                },
                ExclusivePollStep::Ready | ExclusivePollStep::Pending => break ,
            };
            step = step.advance(yes);
        }
        match step {
            ExclusivePollStep::Ready => Poll::Ready(ExclusiveRef::new(counter)),
            _ => Poll::Pending { wake },
        }
    }
}

/// How far a poll for an exclusive reference by one thread alone has come at a step.
spec fn exclusive_stage<const MAX_WAITING: usize>(
    was: FutureExclusiveRef<MAX_WAITING>,
    fut: FutureExclusiveRef<MAX_WAITING>,
    before: Count,
    now: Count,
    waiter: Waiter,
    max_waiting: usize,
    step: ExclusivePollStep,
    wake: Option<usize>,
) -> bool {
    let awaits = was.blocked_fut is Some && before.blocked;
    let blocked = before.with_block();
    match step {
        ExclusivePollStep::PollBlock => was.blocked_fut is Some && fut == was && now == before
            && wake is None,
        ExclusivePollStep::LookRefs => !awaits && fut.blocked_fut is None && now == blocked
            && wake is None,
        ExclusivePollStep::WakeSelf => !awaits && fut.blocked_fut is None && now == blocked
            && before.refs > 0,
        ExclusivePollStep::Ready => !awaits && fut.blocked_fut is None && now == blocked
            && before.refs == 0,
        ExclusivePollStep::Pending => if awaits {
            let registered = was.blocked_fut->Some_0.registered;
            &&& fut.blocked_fut is Some
            &&& fut.blocked_fut->Some_0.registered == joins(registered, before, max_waiting)
            &&& now == after_wait(registered, before, max_waiting, waiter)
            &&& wake == wake_after_wait(registered, before, max_waiting, waiter)
        } else {
            &&& fut.blocked_fut is None
            &&& now == blocked
            &&& before.refs > 0
            &&& wake == Some(waiter.waker)
        },
    }
}

} // verus!
