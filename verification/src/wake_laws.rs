//! What holds of the futures that wait for a counter that many threads share.
//!
//! Threads poll futures and allow references again, step by step, and between any two steps others
//! may make any number of theirs. All steps take effect one after another. The waiter queue is seen
//! as what its own laws make of it: values go in at the back and come out at the front, one at a
//! time. The laws hold after every step, in whichever order they come.

use vstd::prelude::*;
use crate::poll_steps::PollStep;
use crate::poll_steps::UnblockStep;
use crate::state::Grab;

verus! {

/// A future that waits for a reference or for the block.
pub struct Future {
    /// What it waits to grab.
    pub grab: Grab,
    /// Where its poll is. One that is pending is not polled at the moment.
    pub step: PollStep,
    /// The flag that tells the future whether it is registered.
    pub registered: bool,
    /// Whether its task was woken since it was last polled, so that it is polled again.
    pub woken: bool,
}

/// A thread that allows references again.
pub struct Unblocker {
    /// Where it is.
    pub step: UnblockStep,
    /// The future whose waiter it has popped and is to wake.
    pub carried: Option<int>,
    /// Whether it has lowered the flag of that future.
    pub lowered: bool,
}

impl Unblocker {
    /// Whether the thread has cleared the block bit and is still popping waiters.
    pub open spec fn drains(self) -> bool {
        self.step !is Clear && self.step !is Over
    }

    /// Whether the thread is to wake the future `id`.
    pub open spec fn carries(self, id: int) -> bool {
        self.step is Wake && self.carried == Some(id)
    }

    /// The thread has a waiter in hand exactly while it is to wake it.
    pub open spec fn wf(self) -> bool {
        (self.step is Wake) == (self.carried is Some)
    }
}

/// The block bit, the waiter queue, and all futures and threads that were at them.
pub struct Waiting {
    /// Whether references are blocked.
    pub blocked: bool,
    /// The futures whose waiters are in the waiter queue.
    pub queue: Seq<int>,
    /// How many waiters the queue has room for.
    pub capacity: nat,
    /// The futures.
    pub futures: Map<int, Future>,
    /// The threads that allow references again.
    pub unblockers: Map<int, Unblocker>,
}

/// What happens next.
pub enum Happening {
    /// A future is made that waits for `grab`, and its first poll begins.
    Begin { id: int, grab: Grab },
    /// A future that is pending is polled again, be it woken or not.
    Poll { id: int },
    /// The poll of a future makes its next step. An attempt to grab fails whatever it finds if
    /// `fails`.
    Step { id: int, fails: bool },
    /// References are blocked other than by a future.
    Block,
    /// The thread that holds the block begins to allow references again.
    Unblock { id: int },
    /// A thread that allows references again makes its next step.
    Advance { id: int },
}

impl Waiting {
    /// Nobody has blocked references, and there are no futures yet.
    pub open spec fn fresh(capacity: nat) -> Self {
        Waiting {
            blocked: false,
            queue: Seq::empty(),
            capacity,
            futures: Map::empty(),
            unblockers: Map::empty(),
        }
    }

    /// Whether this can happen next.
    pub open spec fn can(self, next: Happening) -> bool {
        match next {
            Happening::Begin { id, .. } => !self.futures.contains_key(id),
            Happening::Poll { id } => self.futures.contains_key(id)
                && self.futures[id].step is Pending,
            Happening::Step { id, .. } => self.futures.contains_key(id) && self.futures[id].step
                !is Pending && self.futures[id].step !is Ready,
            Happening::Block => !self.blocked,
            Happening::Unblock { id } => self.blocked && !self.unblockers.contains_key(id),
            Happening::Advance { id } => self.unblockers.contains_key(id)
                && self.unblockers[id].step !is Over,
        }
    }

    /// What a step of a poll finds.
    pub open spec fn answer(self, id: int, fails: bool) -> bool {
        match self.futures[id].step {
            PollStep::LookBlocked | PollStep::LookAgain => self.blocked,
            PollStep::TryGrab => !fails && !self.blocked,
            PollStep::LookRegistered => self.futures[id].registered,
            PollStep::Enqueue => self.queue.len() < self.capacity,
            _ => true,
        }
    }

    /// What a step of a poll leaves behind.
    pub open spec fn stepped(self, id: int, fails: bool) -> Self {
        let yes = self.answer(id, fails);
        let fut = self.futures[id];
        let next = fut.step.after(fut.grab, yes);
        Waiting {
            blocked: self.blocked || (fut.step is TryGrab && fut.grab is Block && yes),
            queue: if fut.step is Enqueue && yes {
                self.queue.push(id)
            } else {
                self.queue
            },
            futures: self.futures.insert(
                id,
                Future {
                    step: next,
                    registered: match fut.step {
                        PollStep::Register => true,
                        PollStep::WakeWaiter => false,
                        _ => fut.registered,
                    },
                    woken: fut.woken || fut.step is WakeWaiter || fut.step is WakeSelf,
                    ..fut
                },
            ),
            ..self
        }
    }

    /// What a step of a thread that allows references again leaves behind. To wake a waiter is to
    /// lower the flag of its future, and then to wake the task.
    pub open spec fn advanced(self, id: int) -> Self {
        let thread = self.unblockers[id];
        match thread.step {
            UnblockStep::Pop { .. } => if self.queue.len() > 0 {
                Waiting {
                    queue: self.queue.drop_first(),
                    unblockers: self.unblockers.insert(
                        id,
                        Unblocker {
                            step: thread.step.after(true),
                            carried: Some(self.queue[0]),
                            lowered: false,
                        },
                    ),
                    ..self
                }
            } else {
                Waiting {
                    unblockers: self.unblockers.insert(
                        id,
                        Unblocker { step: thread.step.after(false), ..thread },
                    ),
                    ..self
                }
            },
            UnblockStep::Wake => {
                let carried = thread.carried->Some_0;
                let fut = self.futures[carried];
                if !thread.lowered {
                    Waiting {
                        futures: self.futures.insert(carried, Future { registered: false, ..fut }),
                        unblockers: self.unblockers.insert(
                            id,
                            Unblocker { lowered: true, ..thread },
                        ),
                        ..self
                    }
                } else {
                    Waiting {
                        futures: self.futures.insert(carried, Future { woken: true, ..fut }),
                        unblockers: self.unblockers.insert(
                            id,
                            Unblocker {
                                step: thread.step.after(true),
                                carried: None,
                                lowered: false,
                            },
                        ),
                        ..self
                    }
                }
            },
            _ => Waiting {
                unblockers: self.unblockers.insert(
                    id,
                    Unblocker { step: thread.step.after(true), ..thread },
                ),
                ..self
            },
        }
    }

    /// What comes of it.
    pub open spec fn after(self, next: Happening) -> Self {
        match next {
            Happening::Begin { id, grab } => Waiting {
                futures: self.futures.insert(
                    id,
                    Future {
                        grab,
                        step: PollStep::starts(grab),
                        registered: false,
                        woken: false,
                    },
                ),
                ..self
            },
            Happening::Poll { id } => Waiting {
                futures: self.futures.insert(
                    id,
                    Future {
                        step: PollStep::starts(self.futures[id].grab),
                        woken: false,
                        ..self.futures[id]
                    },
                ),
                ..self
            },
            Happening::Step { id, fails } => self.stepped(id, fails),
            Happening::Block => Waiting { blocked: true, ..self },
            // Clearing the block bit is the first step of the thread.
            Happening::Unblock { id } => Waiting {
                blocked: false,
                unblockers: self.unblockers.insert(
                    id,
                    Unblocker {
                        step: UnblockStep::Clear.after(true),
                        carried: None,
                        lowered: false,
                    },
                ),
                ..self
            },
            Happening::Advance { id } => self.advanced(id),
        }
    }

    /// Whether some thread is still popping waiters.
    pub open spec fn draining(self) -> bool {
        exists|id: int| #[trigger] self.unblockers.contains_key(id) && self.unblockers[id].drains()
    }

    /// Whether some thread is to wake the future `id`.
    pub open spec fn owed(self, id: int) -> bool {
        exists|thread: int| #[trigger]
            self.unblockers.contains_key(thread) && self.unblockers[thread].carries(id)
    }

    /// Whether some thread is to lower the flag of the future `id` and to wake it.
    pub open spec fn popped(self, id: int) -> bool {
        exists|thread: int| #[trigger]
            self.unblockers.contains_key(thread) && self.unblockers[thread].carries(id)
                && !self.unblockers[thread].lowered
    }

    /// Whether the future `id` is sure to be polled again once references are allowed: it is woken,
    /// some thread is to wake it, or its waiter is in the queue, which will be popped until it is
    /// empty.
    pub open spec fn remembered(self, id: int) -> bool {
        ||| self.futures[id].woken
        ||| self.owed(id)
        ||| self.queue.contains(id) && (self.blocked || self.draining())
    }

    /// A future's flag tells whether its waiter is in the queue or in the hands of a thread that has
    /// yet to lower the flag, or is about to join the queue.
    pub open spec fn flag_ok(self, id: int) -> bool {
        let fut = self.futures[id];
        let away = self.queue.contains(id) || self.popped(id);
        let joining = fut.step is Enqueue || fut.step is WakeWaiter;
        &&& fut.registered <==> away || joining
        &&& fut.step is Register || joining ==> !away
    }

    /// What holds of a future at each step of its poll.
    pub open spec fn future_ok(self, id: int) -> bool {
        let fut = self.futures[id];
        &&& self.flag_ok(id)
        &&& fut.step is LookRegistered && fut.registered ==> self.remembered(id)
        &&& fut.step is LookAgain ==> fut.woken || self.owed(id) || self.queue.contains(id)
        &&& fut.step is Pending ==> self.remembered(id)
    }

    /// Everything is in order.
    pub open spec fn inv(self) -> bool {
        &&& self.queue.no_duplicates()
        &&& forall|k: int| 0 <= k < self.queue.len() ==> self.futures.contains_key(
            #[trigger] self.queue[k],
        )
        &&& forall|thread: int| #[trigger]
            self.unblockers.contains_key(thread) ==> {
                &&& self.unblockers[thread].wf()
                &&& self.unblockers[thread].step !is Clear
                &&& self.unblockers[thread].carried matches Some(id) ==> {
                    &&& self.futures.contains_key(id)
                    &&& !self.unblockers[thread].lowered ==> !self.queue.contains(id)
                }
            }
        &&& forall|one: int, other: int|
            #![trigger self.unblockers.contains_key(one), self.unblockers.contains_key(other)]
            self.unblockers.contains_key(one) && self.unblockers.contains_key(other) && one != other
                && self.unblockers[one].step is Wake && self.unblockers[other].step is Wake
                && !self.unblockers[one].lowered && !self.unblockers[other].lowered
                ==> self.unblockers[one].carried != self.unblockers[other].carried
        &&& forall|id: int| #[trigger] self.futures.contains_key(id) ==> self.future_ok(id)
    }

    /// At first everything is in order.
    pub proof fn fresh_is_in_order(capacity: nat)
        ensures
            Self::fresh(capacity).inv(),
    {
    }

    /// A future that is remembered stays so, unless it is polled: no thread stops before the queue is
    /// empty, and none drops a waiter that it has popped.
    proof fn lemma_remembered(self, post: Self, id: int)
        requires
            self.futures.contains_key(id),
            self.remembered(id),
            post.futures.contains_key(id),
            self.futures[id].woken ==> post.futures[id].woken,
            self.owed(id) ==> post.owed(id) || post.futures[id].woken,
            self.queue.contains(id) ==> post.queue.contains(id) || post.owed(id),
            self.blocked ==> post.blocked || post.draining(),
            self.draining() ==> post.draining() || post.queue.len() == 0,
        ensures
            post.remembered(id),
    {
    }

    /// A thread that is not the one that makes a step goes on draining, and still carries what it
    /// carried.
    proof fn lemma_others(self, post: Self, mover: int)
        requires
            forall|thread: int|
                thread != mover && #[trigger] self.unblockers.contains_key(thread)
                    ==> post.unblockers.contains_key(thread) && post.unblockers[thread]
                    == self.unblockers[thread],
            self.unblockers.contains_key(mover) && self.unblockers[mover].drains()
                ==> post.unblockers.contains_key(mover) && post.unblockers[mover].drains(),
        ensures
            self.draining() ==> post.draining(),
            forall|id: int| #[trigger]
                self.owed(id) ==> post.owed(id) || (self.unblockers.contains_key(mover)
                    && self.unblockers[mover].carries(id)),
    {
        if self.draining() {
            let thread = choose|thread: int| #[trigger]
                self.unblockers.contains_key(thread) && self.unblockers[thread].drains();
            assert(post.unblockers.contains_key(thread));
        }
        assert forall|id: int| #[trigger] self.owed(id) implies post.owed(id) || (
        self.unblockers.contains_key(mover) && self.unblockers[mover].carries(id)) by {
            let thread = choose|thread: int| #[trigger]
                self.unblockers.contains_key(thread) && self.unblockers[thread].carries(id);
            if thread != mover {
                assert(post.unblockers.contains_key(thread));
            }
        }
    }

    /// A step of a poll keeps everything in order.
    proof fn lemma_step(self, id: int, fails: bool)
        requires
            self.inv(),
            self.can(Happening::Step { id, fails }),
        ensures
            self.stepped(id, fails).inv(),
    {
        let post = self.stepped(id, fails);
        let fut = self.futures[id];
        assert(self.future_ok(id));
        assert(post.unblockers == self.unblockers);
        assert forall|k: int| 0 <= k < self.queue.len() implies post.queue[k] == self.queue[k] by {}
        if fut.step is Enqueue && self.answer(id, fails) {
            assert(!self.queue.contains(id));
            assert(post.queue[self.queue.len() as int] == id);
            assert(post.queue.contains(id));
            assert forall|thread: int| #[trigger]
                post.unblockers.contains_key(thread) && post.unblockers[thread].carried == Some(id)
                implies post.unblockers[thread].lowered by {
                assert(self.unblockers.contains_key(thread));
                assert(!self.popped(id));
            }
        }
        assert forall|other: int| self.queue.contains(other) implies #[trigger] post.queue.contains(
            other,
        ) by {
            let k = choose|k: int| 0 <= k < self.queue.len() && self.queue[k] == other;
            assert(post.queue[k] == other);
        }
        assert forall|other: int| #[trigger]
            post.queue.contains(other) && other != id implies self.queue.contains(other) by {
            let k = choose|k: int| 0 <= k < post.queue.len() && post.queue[k] == other;
            assert(self.queue[k] == other);
        }
        assert(self.draining() == post.draining());
        assert forall|other: int| #[trigger] post.futures.contains_key(other) implies post.future_ok(
            other,
        ) by {
            assert(self.futures.contains_key(other));
            assert(self.future_ok(other));
            assert(self.popped(other) == post.popped(other));
            assert(self.owed(other) == post.owed(other));
        }
    }

    /// Whose flags are still to be lowered after a step of a thread that allows references again.
    proof fn lemma_popped(self, id: int, fut: int)
        requires
            self.inv(),
            self.can(Happening::Advance { id }),
        ensures
            ({
                let thread = self.unblockers[id];
                self.advanced(id).popped(fut) == if thread.step is Pop && self.queue.len() > 0
                    && self.queue[0] == fut {
                    true
                } else if thread.carries(fut) && !thread.lowered {
                    false
                } else {
                    self.popped(fut)
                }
            }),
    {
        let post = self.advanced(id);
        let thread = self.unblockers[id];
        assert(self.unblockers.contains_key(id));
        assert(post.unblockers.contains_key(id));
        if self.popped(fut) {
            let other = choose|other: int| #[trigger]
                self.unblockers.contains_key(other) && self.unblockers[other].carries(fut)
                    && !self.unblockers[other].lowered;
            assert(post.unblockers.contains_key(other));
        }
        if post.popped(fut) {
            let other = choose|other: int| #[trigger]
                post.unblockers.contains_key(other) && post.unblockers[other].carries(fut)
                    && !post.unblockers[other].lowered;
            assert(self.unblockers.contains_key(other));
        }
    }

    /// A step of a thread that allows references again keeps everything in order.
    proof fn lemma_advance(self, id: int)
        requires
            self.inv(),
            self.can(Happening::Advance { id }),
        ensures
            self.advanced(id).inv(),
    {
        let post = self.advanced(id);
        let thread = self.unblockers[id];
        assert(self.unblockers.contains_key(id));
        assert(post.unblockers.contains_key(id));
        assert forall|other: int|
            other != id && #[trigger] self.unblockers.contains_key(other) implies
            post.unblockers.contains_key(other) && post.unblockers[other]
            == self.unblockers[other] by {}
        if thread.step is Pop && self.queue.len() > 0 {
            let first = self.queue[0];
            assert(self.queue.contains(first));
            assert(post.unblockers[id].carries(first));
            assert(post.popped(first));
            assert(post.owed(first));
            assert forall|other: int| #[trigger] post.queue.contains(other) <==> self.queue.contains(
                other,
            ) && other != first by {
                if post.queue.contains(other) {
                    let k = choose|k: int| 0 <= k < post.queue.len() && post.queue[k] == other;
                    assert(self.queue[k + 1] == other);
                }
                if self.queue.contains(other) && other != first {
                    let k = choose|k: int| 0 <= k < self.queue.len() && self.queue[k] == other;
                    assert(post.queue[k - 1] == other);
                }
            }
        }
        if !(thread.step is Pop && self.queue.len() == 0) {
            self.lemma_others(post, id);
        }
        assert forall|other: int| #[trigger] post.futures.contains_key(other) implies post.future_ok(
            other,
        ) by {
            assert(self.futures.contains_key(other));
            assert(self.future_ok(other));
            self.lemma_popped(id, other);
            if self.remembered(other) && !(thread.step is Pop && self.queue.len() == 0) {
                self.lemma_remembered(post, other);
            }
        }
    }

    /// Whatever happens next, everything stays in order.
    pub proof fn next_keeps_order(self, next: Happening)
        requires
            self.inv(),
            self.can(next),
        ensures
            self.after(next).inv(),
    {
        let post = self.after(next);
        match next {
            Happening::Step { id, fails } => {
                self.lemma_step(id, fails);
            },
            Happening::Advance { id } => {
                self.lemma_advance(id);
            },
            Happening::Unblock { id } => {
                assert(post.unblockers.contains_key(id));
                self.lemma_others(post, id);
                assert(post.draining());
                assert forall|fut: int| #[trigger]
                    post.futures.contains_key(fut) implies post.future_ok(fut) by {
                    assert(self.futures.contains_key(fut));
                    assert(self.future_ok(fut));
                    self.lemma_same_hands(post, fut);
                }
            },
            _ => {
                assert(post.unblockers == self.unblockers);
                assert(self.draining() == post.draining());
                assert forall|fut: int| #[trigger]
                    post.futures.contains_key(fut) implies post.future_ok(fut) by {
                    if self.futures.contains_key(fut) {
                        assert(self.future_ok(fut));
                    } else {
                        assert(!self.queue.contains(fut));
                        assert(!self.popped(fut));
                    }
                    self.lemma_same_hands(post, fut);
                }
            },
        }
    }

    /// Threads that have no waiter in hand make no difference to whose waiters are in hand.
    proof fn lemma_same_hands(self, post: Self, fut: int)
        requires
            forall|thread: int| #[trigger]
                self.unblockers.contains_key(thread) ==> post.unblockers.contains_key(thread)
                    && post.unblockers[thread] == self.unblockers[thread],
            forall|thread: int| #[trigger]
                post.unblockers.contains_key(thread) ==> self.unblockers.contains_key(thread)
                    || post.unblockers[thread].step !is Wake,
        ensures
            self.popped(fut) == post.popped(fut),
            self.owed(fut) == post.owed(fut),
    {
        if self.owed(fut) {
            let thread = choose|thread: int| #[trigger]
                self.unblockers.contains_key(thread) && self.unblockers[thread].carries(fut);
            assert(post.unblockers.contains_key(thread));
        }
        if self.popped(fut) {
            let thread = choose|thread: int| #[trigger]
                self.unblockers.contains_key(thread) && self.unblockers[thread].carries(fut)
                    && !self.unblockers[thread].lowered;
            assert(post.unblockers.contains_key(thread));
        }
        if post.owed(fut) {
            let thread = choose|thread: int| #[trigger]
                post.unblockers.contains_key(thread) && post.unblockers[thread].carries(fut);
            assert(self.unblockers.contains_key(thread));
        }
        if post.popped(fut) {
            let thread = choose|thread: int| #[trigger]
                post.unblockers.contains_key(thread) && post.unblockers[thread].carries(fut)
                    && !post.unblockers[thread].lowered;
            assert(self.unblockers.contains_key(thread));
        }
    }

    /// No wake-up is lost: a future that is pending while references are allowed, with no thread
    /// left that is still waking others, was woken since it was last polled.
    pub proof fn nobody_is_forgotten(self, id: int)
        requires
            self.inv(),
            self.futures.contains_key(id),
            self.futures[id].step is Pending,
            !self.blocked,
            !self.draining(),
        ensures
            self.futures[id].woken,
    {
        assert(self.future_ok(id));
        assert(!self.owed(id)) by {
            if self.owed(id) {
                let thread = choose|thread: int| #[trigger]
                    self.unblockers.contains_key(thread) && self.unblockers[thread].carries(id);
                assert(self.unblockers[thread].drains());
            }
        }
    }

    /// A future that sleeps is in line: while it is pending and not woken, its waiter is in the queue
    /// with references blocked or a thread popping the queue, or in the hands of a thread that is to
    /// wake it.
    pub proof fn who_sleeps_is_in_line(self, id: int)
        requires
            self.inv(),
            self.futures.contains_key(id),
            self.futures[id].step is Pending,
            !self.futures[id].woken,
        ensures
            self.owed(id) || (self.queue.contains(id) && (self.blocked || self.draining())),
    {
        assert(self.future_ok(id));
    }

    /// A thread that allows references again does not stop before it has found the queue empty, and
    /// wakes whom it pops in the order in which they came to wait.
    pub proof fn queue_is_emptied(self, id: int)
        requires
            self.inv(),
            self.can(Happening::Advance { id }),
        ensures
            self.advanced(id).unblockers[id].step is Over ==> self.queue.len() == 0,
            self.advanced(id).queue == self.queue || (self.advanced(id).queue
                == self.queue.drop_first() && self.advanced(id).unblockers[id].carries(
                self.queue[0],
            )),
            self.unblockers[id].step is Wake && self.unblockers[id].lowered ==> self.advanced(
                id,
            ).futures[self.unblockers[id].carried->Some_0].woken,
    {
        assert(self.unblockers.contains_key(id));
    }

    /// A future is in the queue at most once, and one that is in it is registered.
    pub proof fn nobody_waits_twice(self, j: int, k: int)
        requires
            self.inv(),
            0 <= j < k < self.queue.len(),
        ensures
            self.queue[j] != self.queue[k],
            self.futures[self.queue[j]].registered,
    {
        let id = self.queue[j];
        assert(self.futures.contains_key(id));
        assert(self.future_ok(id));
        assert(self.queue.contains(id));
    }

    /// Whether `post` comes right after this.
    pub open spec fn leads_to(self, post: Self) -> bool {
        exists|next: Happening| self.can(next) && post == #[trigger] self.after(next)
    }

    /// Whether `run` is what can happen from the start on, one thing after another.
    pub open spec fn is_run(run: Seq<Self>, capacity: nat) -> bool {
        &&& run.len() > 0
        &&& run[0] == Self::fresh(capacity)
        &&& forall|i: int| 0 <= i < run.len() - 1 ==> (#[trigger] run[i]).leads_to(run[i + 1])
    }

    /// Whatever the threads do, and in whichever order, everything is in order all the time.
    pub proof fn always_in_order(run: Seq<Self>, capacity: nat, i: int)
        requires
            Self::is_run(run, capacity),
            0 <= i < run.len(),
        ensures
            run[i].inv(),
        decreases i,
    {
        if i == 0 {
            Self::fresh_is_in_order(capacity);
        } else {
            let pre = run[i - 1];
            Self::always_in_order(run, capacity, i - 1);
            assert(pre.leads_to(run[i - 1 + 1]));
            let next = choose|next: Happening|
                pre.can(next) && run[i] == #[trigger] pre.after(next);
            pre.next_keeps_order(next);
        }
    }

    /// No wake-up is ever lost: in whichever order polls and unblocking threads make their steps, a
    /// future that is pending at some moment while references are allowed, with no thread left that
    /// is still waking others, was woken since it was last polled.
    pub proof fn no_wake_up_is_lost(run: Seq<Self>, capacity: nat, i: int, id: int)
        requires
            Self::is_run(run, capacity),
            0 <= i < run.len(),
            run[i].futures.contains_key(id),
            run[i].futures[id].step is Pending,
            !run[i].blocked,
            !run[i].draining(),
        ensures
            run[i].futures[id].woken,
    {
        Self::always_in_order(run, capacity, i);
        run[i].nobody_is_forgotten(id);
    }
}

} // verus!
