//! A bounded queue on a ring of stamped slots.

use vstd::prelude::*;
use crate::backoff::Backoff;
use crate::discard::Discarded;
use crate::pad::CacheLine;
use crate::queue_steps::Access;
use crate::queue_steps::LenStep;
use crate::queue_steps::OnFull;
use crate::queue_steps::Pause;
use crate::queue_steps::PopStep;
use crate::queue_steps::PushStep;
use crate::queue_steps::Reply;
use crate::ring::lags_one_lap;
use crate::ring::lemma_span;
use crate::ring::span;
use crate::ring::Memory;
use crate::stamp::Layout;

verus! {

/// A slot in a queue.
struct Slot<T> {
    /// The current stamp.
    ///
    /// If the stamp equals the tail, this slot is written to next. If it equals the head plus one,
    /// this slot is read from next.
    stamp: usize,
    /// The value in this slot.
    value: Option<T>,
}

impl<T> Slot<T> {
    /// A slot that is written to next at the place `{ lap: 0, index: index }`.
    fn empty(index: usize) -> (slot: Self)
        ensures
            slot.stamp == index,
            slot.value is None,
    {
        Slot { stamp: index, value: None }
    }
}

/// Calls `core::array::from_fn`, which calls the closure with each index in turn and collects the
/// results in an array. So the slot at each index is the empty slot of that index.
#[verifier::external_body]
fn empty_slots<T, const C: usize>() -> (slots: [Slot<T>; C])
    ensures
        forall|i: int|
            0 <= i < C ==> (#[trigger] slots@[i]).stamp == i && slots@[i].value is None,
{
    core::array::from_fn(|index| Slot::empty(index))
}

/// The values in a queue with room for `capacity` after a push that replaces the oldest value if the
/// queue is full.
pub open spec fn forced<T>(items: Seq<T>, capacity: nat, value: T) -> Seq<T> {
    if items.len() < capacity {
        items.push(value)
    } else {
        items.drop_first().push(value)
    }
}

/// The values after one such push for each of `values`, in their order.
pub open spec fn forced_all<T>(items: Seq<T>, capacity: nat, values: Seq<T>) -> Seq<T>
    decreases values.len(),
{
    if values.len() == 0 {
        items
    } else {
        forced(forced_all(items, capacity, values.drop_last()), capacity, values.last())
    }
}

/// The values after `n` pops.
pub open spec fn after_pops<T>(items: Seq<T>, n: nat) -> Seq<T>
    decreases n,
{
    if n == 0 {
        items
    } else {
        after_pops(items, (n - 1) as nat).drop_first()
    }
}

/// A push that replaces the oldest value never overfills the queue, and puts the value behind all
/// others. No value but the oldest leaves, and it leaves only a full queue.
pub proof fn forced_replaces_the_oldest<T>(items: Seq<T>, capacity: nat, value: T)
    requires
        0 < capacity,
        items.len() <= capacity,
    ensures
        forced(items, capacity, value).len() <= capacity,
        forced(items, capacity, value).last() == value,
        items.len() < capacity ==> forced(items, capacity, value).drop_last() == items,
        items.len() == capacity ==> forced(items, capacity, value).drop_last()
            == items.drop_first(),
{
    assert(items.len() < capacity ==> forced(items, capacity, value).drop_last() =~= items);
    assert(items.len() == capacity ==> forced(items, capacity, value).drop_last()
        =~= items.drop_first());
}

/// A queue that is only pushed to in this way is a ring buffer: it holds the newest values, as many
/// as it has room for, in the order in which they came.
pub proof fn forced_keeps_newest<T>(items: Seq<T>, capacity: nat, values: Seq<T>)
    requires
        capacity > 0,
        items.len() <= capacity,
    ensures
        forced_all(items, capacity, values) == (if items.len() + values.len() <= capacity {
            items + values
        } else {
            (items + values).skip(items.len() + values.len() - capacity)
        }),
    decreases values.len(),
{
    if values.len() == 0 {
        assert(items + values =~= items);
        assert((items + values).skip(0) =~= items);
    } else {
        let init = values.drop_last();
        forced_keeps_newest(items, capacity, init);
        let before = forced_all(items, capacity, init);
        let after = forced_all(items, capacity, values);
        assert(items + values =~= (items + init).push(values.last()));
        if items.len() + values.len() <= capacity {
            assert(after =~= items + values);
        } else {
            let k = items.len() + values.len() - capacity;
            assert(before.len() == capacity);
            assert(after =~= before.drop_first().push(values.last()));
            assert((items + values).skip(k) =~= after);
        }
    }
}

/// First in, first out: a value comes out right after all the values that were in the queue when it
/// was pushed, whatever is pushed after it.
pub proof fn first_in_first_out<T>(items: Seq<T>, value: T, later: Seq<T>)
    ensures
        after_pops(items.push(value) + later, items.len())[0] == value,
        after_pops(items.push(value) + later, items.len() + 1) == later,
        forall|n: nat|
            n < items.len() ==> (#[trigger] after_pops(items.push(value) + later, n))[0]
                == items[n as int],
{
    let all = items.push(value) + later;
    assert forall|n: nat| n <= all.len() implies #[trigger] after_pops(all, n) == all.skip(
        n as int,
    ) by {
        lemma_after_pops(all, n);
    }
    assert(all.skip((items.len() + 1) as int) =~= later);
}

/// Pops drop values from the front.
proof fn lemma_after_pops<T>(items: Seq<T>, n: nat)
    requires
        n <= items.len(),
    ensures
        after_pops(items, n) == items.skip(n as int),
    decreases n,
{
    if n == 0 {
        assert(items.skip(0) =~= items);
    } else {
        lemma_after_pops(items, (n - 1) as nat);
        assert(items.skip(n - 1).drop_first() =~= items.skip(n as int));
    }
}

/// A bounded queue.
///
/// The queue has room for a fixed number of values. A push into a full queue fails;
/// [`force_push`] replaces the oldest value instead.
///
/// [`force_push`]: ArrayQueue::force_push
pub struct ArrayQueue<T, const C: usize> {
    /// The stamp of the place that is popped next.
    head: CacheLine<usize>,
    /// The stamp of the place that is pushed next.
    tail: CacheLine<usize>,
    /// The slots.
    buffer: [Slot<T>; C],
    /// How the stamps are laid out.
    layout: Layout,
    /// The values that were dropped with the queue.
    discarded: Discarded<T>,
}

/// The values in the queue, the oldest first.
impl<T, const C: usize> View for ArrayQueue<T, C> {
    type V = Seq<T>;

    closed spec fn view(&self) -> Seq<T> {
        self.memory().items(self.layout)
    }
}

impl<T, const C: usize> ArrayQueue<T, C> {
    /// The queue's memory.
    closed spec fn memory(&self) -> Memory<T> {
        Memory {
            head: self.head.0,
            tail: self.tail.0,
            stamps: Seq::new(C as nat, |i: int| self.buffer@[i].stamp),
            values: Seq::new(C as nat, |i: int| self.buffer@[i].value),
        }
    }

    /// The slots from the head up to the tail hold a value each, and the other slots hold none. This
    /// is so in a queue in order, and in one that an iterator has begun to empty.
    pub closed spec fn holds(&self) -> bool {
        &&& self.layout.capacity == C
        &&& self.memory().holds(self.layout)
    }

    /// The queue is in order: its head, its tail and its slots fit together.
    pub closed spec fn wf(&self) -> bool {
        &&& self.layout.capacity == C
        &&& self.memory().wf(self.layout)
    }

    /// No slot holds a value.
    pub closed spec fn hollow(&self) -> bool {
        forall|i: int| 0 <= i < C ==> (#[trigger] self.buffer@[i]).value is None
    }

    /// The values that were dropped with the queue, in the order in which they were.
    pub closed spec fn discarded(&self) -> Seq<T> {
        self.discarded@
    }

    /// A queue has room for at most its capacity, which is not zero.
    pub proof fn lemma_bounded(&self)
        requires
            self.wf(),
        ensures
            self@.len() <= C,
            0 < C <= usize::MAX / 2,
            self.holds(),
    {
        self.layout.lemma_capacity();
    }

    /// No slot holds a value exactly if no value is in the queue.
    pub proof fn hollow_is_empty(&self)
        requires
            self.holds(),
        ensures
            self.hollow() <==> self@.len() == 0,
    {
        let memory = self.memory();
        let layout = self.layout;
        memory.lemma_slots(layout);
        if self@.len() == 0 {
            assert forall|j: int| 0 <= j < C implies (#[trigger] self.buffer@[j]).value is None by {
                let first = memory.slot(layout, 0);
                let k = if j >= first {
                    j - first
                } else {
                    j - first + C
                };
                assert(memory.slot(layout, k) == j);
                assert(memory.values[j] is None);
            }
        } else {
            let i = memory.slot(layout, 0);
            assert(memory.values[i] is Some);
            assert(self.buffer@[i].value is Some);
        }
    }

    /// Creates a queue with room for `C` values.
    #[must_use]
    pub fn new() -> (queue: Self)
        requires
            0 < C <= usize::MAX / 2,
        ensures
            queue.wf(),
            queue@ == Seq::<T>::empty(),
            queue.discarded() == Seq::<T>::empty(),
    {
        // The head and the tail are `{ lap: 0, index: 0 }`.
        let queue = ArrayQueue {
            head: CacheLine::new(0),
            tail: CacheLine::new(0),
            buffer: empty_slots(),
            layout: Layout::new(C),
            discarded: Discarded::new(),
        };
        proof {
            let layout = queue.layout;
            vstd::arithmetic::div_mod::lemma_small_mod(0, layout.one_lap as nat);
            lemma_span(layout, 0, 0);
            layout.lemma_ahead(0, 0);
            assert forall|k: int| 0 <= k < C implies #[trigger] queue.memory().slot(layout, k) == k
                && layout.ahead(0, k) == k by {
                layout.lemma_ahead(0, k);
                vstd::arithmetic::div_mod::lemma_small_mod(k as nat, layout.one_lap as nat);
            }
            assert(queue@ =~= Seq::<T>::empty());
        }
        queue
    }

    /// Creates a queue with room for `C` values.
    pub fn default() -> (queue: Self)
        requires
            0 < C <= usize::MAX / 2,
        ensures
            queue.wf(),
            queue@ == Seq::<T>::empty(),
            queue.discarded() == Seq::<T>::empty(),
    {
        Self::new()
    }

    /// Makes one access to the queue's memory.
    fn perform(&mut self, access: Access, hand: &mut Option<T>) -> (reply: Reply)
        requires
            access matches Access::LoadStamp { index } ==> index < C,
            access matches Access::StoreStamp { index, .. } ==> index < C,
            access matches Access::Write { index } ==> index < C,
            access matches Access::Swap { index } ==> index < C,
            access matches Access::Take { index } ==> index < C,
        ensures
            (final(self).memory(), *final(hand), reply) == old(self).memory().apply(
                access,
                *old(hand),
            ),
            final(self).layout == old(self).layout,
            final(self).discarded() == old(self).discarded(),
    {
        let ghost before = self.memory();
        let reply = match access {
            Access::LoadHead => Reply::Word(self.head.0),
            Access::LoadTail => Reply::Word(self.tail.0),
            Access::LoadStamp { index } => Reply::Word(self.buffer[index].stamp),
            Access::ExchangeHead { current, new } => if self.head.0 == current {
                self.head.0 = new;
                Reply::Exchanged
            } else {
                Reply::Found(self.head.0)
            },
            Access::ExchangeTail { current, new } => if self.tail.0 == current {
                self.tail.0 = new;
                Reply::Exchanged
            } else {
                Reply::Found(self.tail.0)
            },
            Access::StoreTail { tail } => {
                self.tail.0 = tail;
                Reply::Made
            },
            Access::StoreStamp { index, stamp } => {
                self.buffer[index].stamp = stamp;
                Reply::Made
            },
            Access::Write { index } => {
                self.buffer[index].value = hand.take();
                Reply::Made
            },
            Access::Swap { index } => {
                core::mem::swap(&mut self.buffer[index].value, hand);
                Reply::Made
            },
            Access::Take { index } => {
                *hand = self.buffer[index].value.take();
                Reply::Made
            },
            Access::Done => Reply::Made,
        };
        proof {
            let (after, _, _) = before.apply(access, *old(hand));
            assert(self.memory().stamps =~= after.stamps);
            assert(self.memory().values =~= after.values);
        }
        reply
    }

    /// Pushes a value, and does as `on_full` says if the queue is full.
    fn push_or_else(&mut self, value: T, on_full: OnFull) -> (result: Result<(), T>)
        requires
            old(self).wf(),
        ensures
            final(self).wf(),
            final(self).discarded() == old(self).discarded(),
            old(self)@.len() < C ==> result is Ok && final(self)@ == old(self)@.push(value),
            old(self)@.len() >= C && on_full is Refuse ==> result == Err::<(), T>(value)
                && final(self)@ == old(self)@,
            old(self)@.len() >= C && on_full is Replace ==> result == Err::<(), T>(old(self)@[0])
                && final(self)@ == old(self)@.drop_first().push(value),
    {
        let layout = self.layout;
        let mut backoff = Backoff::new();
        let mut hand = Some(value);
        let mut step = PushStep::LoadTail;
        let ghost memory = self.memory();
        loop
            invariant
                memory == old(self).memory(),
                memory.wf(layout),
                layout == old(self).layout,
                self.layout == layout,
                self.discarded() == old(self).discarded(),
                layout.capacity == C,
                push_stage(memory, layout, value, on_full, step, self.memory(), hand),
            ensures
                step is Stored || step is Refused || step is Replaced,
            decreases push_rank(step),
        {
            proof {
                memory.lemma_slots(layout);
                layout.lemma_stamp(memory.tail);
                layout.lemma_stamp(memory.head);
                layout.lemma_lap_shift(memory.head, 1);
                assert(memory.slot(layout, 0) == layout.index_of(memory.head));
                if memory.len(layout) < C {
                    memory.lemma_pushed(layout, value);
                } else {
                    memory.lemma_replaced(layout, value);
                }
            }
            let access = step.access(layout);
            if let Access::Done = access {
                break ;
            }
            let reply = self.perform(access, &mut hand);
            let (next, pause) = step.advance(layout, on_full, reply);
            match pause {
                Pause::No => {},
                Pause::Spin => {
                    backoff.spin();
                },
                Pause::Snooze => {
                    backoff.snooze();
                },
            }
            step = next;
        }
        proof {
            if memory.len(layout) < C {
                memory.lemma_pushed(layout, value);
            } else {
                memory.lemma_replaced(layout, value);
            }
        }
        match hand {
            None => Ok(()),
            Some(given_back) => Err(given_back),
        }
    }

    /// Pushes a value. If the queue is full, the value is given back as an error.
    pub fn push(&mut self, value: T) -> (result: Result<(), T>)
        requires
            old(self).wf(),
        ensures
            final(self).wf(),
            final(self).discarded() == old(self).discarded(),
            old(self)@.len() < C ==> result is Ok && final(self)@ == old(self)@.push(value),
            old(self)@.len() >= C ==> result == Err::<(), T>(value) && final(self)@ == old(self)@,
    {
        self.push_or_else(value, OnFull::Refuse)
    }

    /// Pushes a value, replacing the oldest one if the queue is full. The replaced value, if any,
    /// is returned.
    pub fn force_push(&mut self, value: T) -> (replaced: Option<T>)
        requires
            old(self).wf(),
        ensures
            final(self).wf(),
            final(self).discarded() == old(self).discarded(),
            final(self)@ == forced(old(self)@, C as nat, value),
            old(self)@.len() < C ==> final(self)@ == old(self)@.push(value),
            old(self)@.len() >= C ==> final(self)@ == old(self)@.drop_first().push(value),
            replaced == (if old(self)@.len() < C {
                None
            } else {
                Some(old(self)@[0])
            }),
    {
        match self.push_or_else(value, OnFull::Replace) {
            Ok(()) => None,
            Err(oldest) => Some(oldest),
        }
    }

    /// Pops the oldest value. If the queue is empty, there is none.
    pub fn pop(&mut self) -> (popped: Option<T>)
        requires
            old(self).wf(),
        ensures
            final(self).wf(),
            final(self).discarded() == old(self).discarded(),
            old(self)@.len() == 0 ==> popped is None && final(self)@ == old(self)@,
            old(self)@.len() > 0 ==> popped == Some(old(self)@[0]) && final(self)@ == old(
                self,
            )@.drop_first(),
    {
        let layout = self.layout;
        let mut backoff = Backoff::new();
        let mut hand: Option<T> = None;
        let mut step = PopStep::LoadHead;
        let ghost memory = self.memory();
        loop
            invariant
                memory == old(self).memory(),
                memory.wf(layout),
                layout == old(self).layout,
                self.layout == layout,
                self.discarded() == old(self).discarded(),
                layout.capacity == C,
                pop_stage(memory, layout, step, self.memory(), hand),
            ensures
                step is Popped || step is Empty,
            decreases pop_rank(step),
        {
            proof {
                memory.lemma_slots(layout);
                layout.lemma_stamp(memory.head);
                layout.lemma_ahead(memory.head, 0);
                assert(memory.slot(layout, 0) == layout.index_of(memory.head));
                if memory.len(layout) > 0 {
                    memory.lemma_popped(layout);
                }
            }
            let access = step.access(layout);
            if let Access::Done = access {
                break ;
            }
            let reply = self.perform(access, &mut hand);
            let (next, pause) = step.advance(layout, reply);
            match pause {
                Pause::No => {},
                Pause::Spin => {
                    backoff.spin();
                },
                Pause::Snooze => {
                    backoff.snooze();
                },
            }
            step = next;
        }
        proof {
            if memory.len(layout) > 0 {
                memory.lemma_popped(layout);
            }
        }
        hand
    }

    /// The number of values that the queue has room for.
    pub fn capacity(&self) -> (capacity: usize)
        ensures
            capacity == C,
    {
        C
    }

    /// Whether the queue is empty.
    pub fn is_empty(&self) -> (empty: bool)
        requires
            self.wf(),
        ensures
            empty == (self@.len() == 0),
    {
        proof {
            self.memory().lemma_slots(self.layout);
        }
        let head = self.head.0;
        let tail = self.tail.0;
        tail == head
    }

    /// Whether the queue is full.
    pub fn is_full(&self) -> (full: bool)
        requires
            self.wf(),
        ensures
            full == (self@.len() == C),
    {
        proof {
            self.memory().lemma_slots(self.layout);
        }
        let tail = self.tail.0;
        let head = self.head.0;
        lags_one_lap(self.layout, head, tail)
    }

    /// The number of values in the queue.
    pub fn len(&self) -> (len: usize)
        requires
            self.wf(),
        ensures
            len == self@.len(),
    {
        let layout = self.layout;
        let mut step = LenStep::LoadTail;
        proof {
            self.memory().lemma_slots(layout);
        }
        loop
            invariant
                layout == self.layout,
                layout.wf(),
                layout.valid(self.head.0),
                layout.valid(self.tail.0),
                self@.len() == span(layout, self.head.0, self.tail.0) <= C,
                match step {
                    LenStep::LoadTail => true,
                    LenStep::LoadHead { tail } => tail == self.tail.0,
                    LenStep::CheckTail { tail, head } => tail == self.tail.0 && head == self.head.0,
                    LenStep::Counted { len } => len == self@.len(),
                },
            decreases
                    match step {
                        LenStep::LoadTail => 3int,
                        LenStep::LoadHead { .. } => 2,
                        LenStep::CheckTail { .. } => 1,
                        LenStep::Counted { .. } => 0,
                    },
        {
            let word = match step {
                LenStep::LoadHead { .. } => self.head.0,
                LenStep::LoadTail | LenStep::CheckTail { .. } => self.tail.0,
                LenStep::Counted { len } => {
                    return len;
                },
            };
            step = step.advance(layout, word);
        }
    }

    /// Turns the queue into an iterator over its values, the oldest first.
    pub fn into_iter(self) -> (iter: IntoIter<T, C>)
        requires
            self.wf(),
        ensures
            iter.wf(),
            iter@ == self@,
            iter.discarded() == self.discarded(),
    {
        IntoIter { value: self }
    }
}

/// How far a push by one thread alone has come at a step: `before` is the memory that it found, and
/// `now` and `hand` are the memory and the value at hand at that step.
spec fn push_stage<T>(
    before: Memory<T>,
    layout: Layout,
    value: T,
    on_full: OnFull,
    step: PushStep,
    now: Memory<T>,
    hand: Option<T>,
) -> bool {
    let room = before.len(layout) < layout.capacity;
    let i = layout.index_of(before.tail);
    let end = layout.next(before.tail);
    match step {
        PushStep::LoadTail => now == before && hand == Some(value),
        PushStep::LoadStamp { tail } => tail == before.tail && now == before && hand == Some(value),
        PushStep::ClaimTail { tail } => room && tail == before.tail && now == before && hand
            == Some(value),
        PushStep::WriteValue { tail } => room && tail == before.tail && now == (Memory {
            tail: end,
            ..before
        }) && hand == Some(value),
        PushStep::Publish { tail } => room && tail == before.tail && now == (Memory {
            tail: end,
            values: before.values.update(i, Some(value)),
            ..before
        }) && hand is None,
        PushStep::Stored => room && now == before.pushed(layout, value) && hand is None,
        PushStep::LoadHead { tail } => !room && on_full is Refuse && tail == before.tail && now
            == before && hand == Some(value),
        PushStep::Refused => !room && on_full is Refuse && now == before && hand == Some(value),
        PushStep::ClaimHead { tail } => !room && on_full is Replace && tail == before.tail && now
            == before && hand == Some(value),
        PushStep::MoveTail { tail } => !room && on_full is Replace && tail == before.tail && now
            == (Memory { head: layout.next(before.head), ..before }) && hand == Some(value),
        PushStep::SwapValue { tail } => !room && on_full is Replace && tail == before.tail && now
            == (Memory { head: layout.next(before.head), tail: end, ..before }) && hand == Some(
            value,
        ),
        PushStep::PublishSwapped { tail } => !room && on_full is Replace && tail == before.tail
            && now == (Memory {
            head: layout.next(before.head),
            tail: end,
            values: before.values.update(i, Some(value)),
            ..before
        }) && hand == Some(before.items(layout)[0]),
        PushStep::Replaced => !room && on_full is Replace && now == before.replaced(layout, value)
            && hand == Some(before.items(layout)[0]),
    }
}

/// How many steps a push by one thread alone has left at most.
spec fn push_rank(step: PushStep) -> nat {
    match step {
        PushStep::LoadTail => 7,
        PushStep::LoadStamp { .. } => 6,
        PushStep::ClaimTail { .. } | PushStep::ClaimHead { .. } => 5,
        PushStep::WriteValue { .. } | PushStep::MoveTail { .. } => 4,
        PushStep::SwapValue { .. } => 3,
        PushStep::Publish { .. } | PushStep::PublishSwapped { .. } | PushStep::LoadHead { .. } => 2,
        PushStep::Stored | PushStep::Refused | PushStep::Replaced => 0,
    }
}

/// How far a pop by one thread alone has come at a step: `before` is the memory that it found, and
/// `now` and `hand` are the memory and the value at hand at that step.
spec fn pop_stage<T>(
    before: Memory<T>,
    layout: Layout,
    step: PopStep,
    now: Memory<T>,
    hand: Option<T>,
) -> bool {
    let some = before.len(layout) > 0;
    let i = layout.index_of(before.head);
    match step {
        PopStep::LoadHead => now == before && hand is None,
        PopStep::LoadStamp { head } => head == before.head && now == before && hand is None,
        PopStep::ClaimHead { head } => some && head == before.head && now == before && hand is None,
        PopStep::TakeValue { head } => some && head == before.head && now == (Memory {
            head: layout.next(before.head),
            ..before
        }) && hand is None,
        PopStep::Release { head } => some && head == before.head && now == (Memory {
            head: layout.next(before.head),
            values: before.values.update(i, None),
            ..before
        }) && hand == Some(before.items(layout)[0]),
        PopStep::Popped => some && now == before.popped(layout) && hand == Some(
            before.items(layout)[0],
        ),
        PopStep::LoadTail { head } => !some && head == before.head && now == before && hand is None,
        PopStep::Empty => !some && now == before && hand is None,
    }
}

/// How many steps a pop by one thread alone has left at most.
spec fn pop_rank(step: PopStep) -> nat {
    match step {
        PopStep::LoadHead => 5,
        PopStep::LoadStamp { .. } => 4,
        PopStep::ClaimHead { .. } => 3,
        PopStep::TakeValue { .. } => 2,
        PopStep::Release { .. } | PopStep::LoadTail { .. } => 1,
        PopStep::Popped | PopStep::Empty => 0,
    }
}

impl<T, const C: usize> Drop for ArrayQueue<T, C> {
    /// Drops the values that are left, the oldest first.
    fn drop(&mut self)
        ensures
            old(self).holds() ==> final(self).hollow() && final(self).discarded() == old(
                self,
            ).discarded() + old(self)@,
        opens_invariants none
        no_unwind
    {
        let ghost memory = self.memory();
        let ghost layout = self.layout;
        let ghost ordered = self.holds();
        let ghost before = self.discarded@;
        let ghost items = self@;
        let mask = if self.layout.one_lap > 0 {
            self.layout.one_lap - 1
        } else {
            0
        };
        let head_idx = self.head.0 & mask;
        let tail_idx = self.tail.0 & mask;
        proof {
            if ordered {
                memory.lemma_slots(layout);
                layout.lemma_mask(self.head.0);
                layout.lemma_mask(self.tail.0);
            }
        }
        if head_idx < C && tail_idx < C {
            let len = if head_idx < tail_idx {
                tail_idx - head_idx
            } else if head_idx > tail_idx {
                C - head_idx + tail_idx
            } else if self.tail.0 == self.head.0 {
                0
            } else {
                C
            };
            // Each slot that holds a value, from the head on.
            let mut i: usize = 0;
            while i < len
                invariant
                    i <= len <= C,
                    head_idx < C,
                    ordered ==> memory.holds(layout) && layout.capacity == C && len == memory.len(
                        layout,
                    ) && head_idx == memory.slot(layout, 0),
                    memory == old(self).memory(),
                    items == memory.items(layout),
                    memory.values.len() == C,
                    forall|j: int|
                        0 <= j < C && memory.values[j] is None ==> (
                        #[trigger] self.buffer@[j]).value is None,
                    ordered ==> forall|k: int|
                        0 <= k < i ==> self.buffer@[#[trigger] memory.slot(layout, k)].value is None,
                    ordered ==> forall|k: int|
                        i <= k < len ==> self.buffer@[#[trigger] memory.slot(layout, k)].value
                            == memory.values[memory.slot(layout, k)],
                    ordered ==> self.discarded@ == before + items.take(i as int),
                decreases len - i,
            {
                let index = if i < C - head_idx {
                    head_idx + i
                } else {
                    i - (C - head_idx)
                };
                proof {
                    if ordered {
                        memory.lemma_slots(layout);
                        assert(memory.slot(layout, i as int) == index);
                    }
                }
                let mut value: Option<T> = None;
                core::mem::swap(&mut self.buffer[index].value, &mut value);
                if let Some(value) = value {
                    self.discarded.discard(value);
                }
                proof {
                    if ordered {
                        assert(items.take(i + 1) =~= items.take(i as int).push(items[i as int]));
                    }
                }
                i = i + 1;
            }
        }
        proof {
            if ordered {
                assert forall|j: int| 0 <= j < C implies (
                #[trigger] self.buffer@[j]).value is None by {
                    let k = if j >= head_idx {
                        j - head_idx
                    } else {
                        j - head_idx + C
                    };
                    assert(memory.slot(layout, k) == j);
                }
            }
        }
    }
}

/// An iterator over the values of a queue, the oldest first.
pub struct IntoIter<T, const C: usize> {
    value: ArrayQueue<T, C>,
}

/// The values that are yet to come.
impl<T, const C: usize> View for IntoIter<T, C> {
    type V = Seq<T>;

    closed spec fn view(&self) -> Seq<T> {
        self.value@
    }
}

impl<T, const C: usize> IntoIter<T, C> {
    /// The iterator is in order. Its queue holds the values that are yet to come and no others, and
    /// drops them with it, the oldest first.
    pub closed spec fn wf(&self) -> bool {
        self.value.holds()
    }

    /// The values that were dropped with the iterator.
    pub closed spec fn discarded(&self) -> Seq<T> {
        self.value.discarded()
    }

    /// The next value, if there is one left.
    pub fn next(&mut self) -> (item: Option<T>)
        requires
            old(self).wf(),
        ensures
            final(self).wf(),
            final(self).discarded() == old(self).discarded(),
            old(self)@.len() == 0 ==> item is None && final(self)@ == old(self)@,
            old(self)@.len() > 0 ==> item == Some(old(self)@[0]) && final(self)@ == old(
                self,
            )@.drop_first(),
    {
        let layout = self.value.layout;
        let head = self.value.head.0;
        let ghost memory = self.value.memory();
        proof {
            memory.lemma_slots(layout);
        }
        if head == self.value.tail.0 {
            None
        } else {
            proof {
                memory.lemma_taken(layout);
            }
            let index = layout.index(head);
            let item = self.value.buffer[index].value.take();
            self.value.head.0 = layout.following(head);
            assert(self.value.memory() =~= memory.taken(layout));
            item
        }
    }
}

} // verus!
