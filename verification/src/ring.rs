//! The memory of a ring of stamped slots, and what it means when nobody is in the middle of an
//! operation.

use vstd::prelude::*;
use crate::queue_steps::Access;
use crate::queue_steps::Reply;
use crate::stamp::Layout;

verus! {

/// The words and slots of a ring.
#[verifier::ext_equal]
pub struct Memory<T> {
    /// The stamp of the place that is popped next.
    pub head: usize,
    /// The stamp of the place that is pushed next.
    pub tail: usize,
    /// The stamp of each slot.
    pub stamps: Seq<usize>,
    /// The value in each slot.
    pub values: Seq<Option<T>>,
}

/// How many places lie between `head` and `tail`.
pub open spec fn span(layout: Layout, head: usize, tail: usize) -> int {
    let h = layout.index_of(head);
    let t = layout.index_of(tail);
    if h < t {
        t - h
    } else if h > t {
        layout.capacity - h + t
    } else if tail == head {
        0
    } else {
        layout.capacity as int
    }
}

/// The places between `head` and the place `n` places later are `n`.
pub proof fn lemma_span(layout: Layout, head: usize, n: int)
    requires
        layout.wf(),
        layout.valid(head),
        0 <= n <= layout.capacity,
    ensures
        span(layout, head, layout.ahead(head, n)) == n,
{
    layout.lemma_ahead(head, n);
    layout.lemma_stamp(head);
}

/// Counts the places between `head` and `tail`.
pub fn distance(layout: Layout, head: usize, tail: usize) -> (places: usize)
    requires
        layout.wf(),
        layout.valid(head),
        layout.valid(tail),
    ensures
        places == span(layout, head, tail),
        places <= layout.capacity,
{
    let head_idx = layout.index(head);
    let tail_idx = layout.index(tail);
    if head_idx < tail_idx {
        tail_idx - head_idx
    } else if head_idx > tail_idx {
        layout.capacity - head_idx + tail_idx
    } else if tail == head {
        0
    } else {
        layout.capacity
    }
}

/// Whether the head lags one lap behind the tail.
pub fn lags_one_lap(layout: Layout, head: usize, tail: usize) -> (lags: bool)
    ensures
        lags == (layout.lap_after(head) == tail),
        lags == (head + layout.one_lap == tail || head + layout.one_lap == tail + usize::MAX + 1),
{
    head.wrapping_add(layout.one_lap) == tail
}

impl<T> Memory<T> {
    /// The memory after an access, the value then at hand, and what the access gives, when `hand`
    /// is the value at hand before it.
    pub open spec fn apply(self, access: Access, hand: Option<T>) -> (Memory<T>, Option<T>, Reply) {
        match access {
            Access::LoadHead => (self, hand, Reply::Word(self.head)),
            Access::LoadTail => (self, hand, Reply::Word(self.tail)),
            Access::LoadStamp { index } => (self, hand, Reply::Word(self.stamps[index as int])),
            Access::ExchangeHead { current, new } => if self.head == current {
                (Memory { head: new, ..self }, hand, Reply::Exchanged)
            } else {
                (self, hand, Reply::Found(self.head))
            },
            Access::ExchangeTail { current, new } => if self.tail == current {
                (Memory { tail: new, ..self }, hand, Reply::Exchanged)
            } else {
                (self, hand, Reply::Found(self.tail))
            },
            Access::StoreTail { tail } => (Memory { tail, ..self }, hand, Reply::Made),
            Access::StoreStamp { index, stamp } => (
                Memory { stamps: self.stamps.update(index as int, stamp), ..self },
                hand,
                Reply::Made,
            ),
            Access::Write { index } => (
                Memory { values: self.values.update(index as int, hand), ..self },
                None,
                Reply::Made,
            ),
            Access::Swap { index } => (
                Memory { values: self.values.update(index as int, hand), ..self },
                self.values[index as int],
                Reply::Made,
            ),
            Access::Take { index } => (
                Memory { values: self.values.update(index as int, None), ..self },
                self.values[index as int],
                Reply::Made,
            ),
            Access::Done => (self, hand, Reply::Made),
        }
    }

    /// The number of values in the ring.
    pub open spec fn len(self, layout: Layout) -> int {
        span(layout, self.head, self.tail)
    }

    /// The index of the slot `k` places after the head.
    pub open spec fn slot(self, layout: Layout, k: int) -> int {
        layout.index_of(layout.ahead(self.head, k))
    }

    /// The slots from the head up to the tail hold a value each and no other slot holds one, and the
    /// tail lies at most one lap after the head.
    pub open spec fn holds(self, layout: Layout) -> bool {
        &&& layout.wf()
        &&& self.stamps.len() == layout.capacity
        &&& self.values.len() == layout.capacity
        &&& layout.valid(self.head)
        &&& 0 <= self.len(layout) <= layout.capacity
        &&& self.tail == layout.ahead(self.head, self.len(layout))
        &&& forall|k: int|
            0 <= k < layout.capacity ==> (self.values[#[trigger] self.slot(layout, k)] is Some <==> k
                < self.len(layout))
    }

    /// Nobody is in the middle of an operation. Besides what the ring holds, each slot's stamp says
    /// at which place it is popped next, or pushed next.
    pub open spec fn wf(self, layout: Layout) -> bool {
        &&& self.holds(layout)
        &&& forall|k: int|
            0 <= k < layout.capacity ==> self.stamps[#[trigger] self.slot(layout, k)] == (if k
                < self.len(layout) {
                layout.ahead(self.head, k) + 1
            } else {
                layout.ahead(self.head, k) as int
            })
    }

    /// The values in the ring, the oldest first.
    pub open spec fn items(self, layout: Layout) -> Seq<T> {
        Seq::new(
            self.len(layout) as nat,
            |k: int| self.values[self.slot(layout, k)]->Some_0,
        )
    }

    /// Each slot is the one of exactly one place after the head.
    pub proof fn lemma_slots(self, layout: Layout)
        requires
            self.holds(layout),
        ensures
            forall|k: int|
                0 <= k < layout.capacity ==> 0 <= #[trigger] self.slot(layout, k)
                    < layout.capacity,
            forall|j: int, k: int|
                0 <= j < k < layout.capacity ==> #[trigger] self.slot(layout, j)
                    != #[trigger] self.slot(layout, k),
            forall|k: int|
                0 <= k < layout.capacity ==> #[trigger] self.slot(layout, k) == (if self.slot(
                    layout,
                    0,
                ) + k < layout.capacity {
                    self.slot(layout, 0) + k
                } else {
                    self.slot(layout, 0) + k - layout.capacity
                }),
            self.slot(layout, 0) == layout.index_of(self.head),
            self.len(layout) < layout.capacity ==> self.slot(layout, self.len(layout))
                == layout.index_of(self.tail),
            layout.valid(self.tail),
            self.len(layout) == 0 <==> self.tail == self.head,
            self.len(layout) == layout.capacity <==> self.tail == layout.lap_after(self.head),
    {
        layout.lemma_stamp(self.head);
        layout.lemma_ahead(self.head, 0);
        layout.lemma_ahead(self.head, self.len(layout));
        layout.lemma_ahead(self.head, layout.capacity as int);
        lemma_span(layout, self.head, layout.capacity as int);
        lemma_span(layout, self.head, 0);
        assert forall|k: int| 0 <= k < layout.capacity implies 0 <= #[trigger] self.slot(layout, k)
            < layout.capacity && self.slot(layout, k) == (if self.slot(layout, 0) + k
            < layout.capacity {
            self.slot(layout, 0) + k
        } else {
            self.slot(layout, 0) + k - layout.capacity
        }) by {
            layout.lemma_ahead(self.head, k);
            layout.lemma_stamp(layout.ahead(self.head, k));
        }
    }

    /// What a push that finds room leaves behind.
    pub open spec fn pushed(self, layout: Layout, value: T) -> Memory<T> {
        let i = layout.index_of(self.tail);
        Memory {
            head: self.head,
            tail: layout.next(self.tail),
            stamps: self.stamps.update(i, (self.tail + 1) as usize),
            values: self.values.update(i, Some(value)),
        }
    }

    /// A push that finds room puts the value behind the others.
    pub proof fn lemma_pushed(self, layout: Layout, value: T)
        requires
            self.wf(layout),
            self.len(layout) < layout.capacity,
        ensures
            self.pushed(layout, value).wf(layout),
            self.pushed(layout, value).items(layout) == self.items(layout).push(value),
    {
        let n = self.len(layout);
        let m = self.pushed(layout, value);
        self.lemma_slots(layout);
        layout.lemma_ahead(self.head, n);
        layout.lemma_stamp(self.tail);
        lemma_span(layout, self.head, n + 1);
        assert(m.len(layout) == n + 1);
        assert forall|k: int| #[trigger] m.slot(layout, k) == self.slot(layout, k) by {}
        assert(m.wf(layout));
        assert(m.items(layout) =~= self.items(layout).push(value));
    }

    /// What a pop that finds a value leaves behind.
    pub open spec fn popped(self, layout: Layout) -> Memory<T> {
        let i = layout.index_of(self.head);
        Memory {
            head: layout.next(self.head),
            tail: self.tail,
            stamps: self.stamps.update(i, layout.lap_after(self.head)),
            values: self.values.update(i, None),
        }
    }

    /// Dropping the first place moves every other one up.
    proof fn lemma_next_slots(self, layout: Layout)
        requires
            self.holds(layout),
        ensures
            layout.valid(layout.next(self.head)),
            forall|k: int|
                0 <= k < layout.capacity ==> #[trigger] layout.ahead(layout.next(self.head), k)
                    == layout.ahead(self.head, k + 1),
            layout.ahead(self.head, layout.capacity as int) == layout.lap_after(self.head),
            layout.index_of(layout.lap_after(self.head)) == layout.index_of(self.head),
    {
        layout.lemma_ahead(self.head, 1);
        layout.lemma_lap(self.head);
        layout.lemma_ahead(self.head, layout.capacity as int);
        assert forall|k: int| 0 <= k < layout.capacity implies #[trigger] layout.ahead(
            layout.next(self.head),
            k,
        ) == layout.ahead(self.head, k + 1) by {
            layout.lemma_ahead(self.head, k);
        }
    }

    /// A pop that finds a value takes the oldest.
    pub proof fn lemma_popped(self, layout: Layout)
        requires
            self.wf(layout),
            self.len(layout) > 0,
        ensures
            self.values[layout.index_of(self.head)] == Some(self.items(layout)[0]),
            self.popped(layout).wf(layout),
            self.popped(layout).items(layout) == self.items(layout).drop_first(),
    {
        let n = self.len(layout);
        let m = self.popped(layout);
        self.lemma_slots(layout);
        self.lemma_next_slots(layout);
        lemma_span(layout, m.head, n - 1);
        assert(m.tail == layout.ahead(m.head, n - 1));
        assert forall|k: int| 0 <= k < layout.capacity implies #[trigger] m.slot(layout, k) == (if k
            + 1 < layout.capacity {
            self.slot(layout, k + 1)
        } else {
            self.slot(layout, 0)
        }) by {
            assert(layout.ahead(m.head, k) == layout.ahead(self.head, k + 1));
        }
        assert(m.wf(layout));
        assert(m.items(layout) =~= self.items(layout).drop_first());
    }

    /// What taking the oldest value out leaves behind when the stamps are not kept up.
    pub open spec fn taken(self, layout: Layout) -> Memory<T> {
        let i = layout.index_of(self.head);
        Memory {
            head: layout.next(self.head),
            values: self.values.update(i, None),
            ..self
        }
    }

    /// Taking the oldest value out keeps the others in their order.
    pub proof fn lemma_taken(self, layout: Layout)
        requires
            self.holds(layout),
            self.len(layout) > 0,
        ensures
            self.values[layout.index_of(self.head)] == Some(self.items(layout)[0]),
            self.taken(layout).holds(layout),
            self.taken(layout).items(layout) == self.items(layout).drop_first(),
    {
        let n = self.len(layout);
        let m = self.taken(layout);
        self.lemma_slots(layout);
        self.lemma_next_slots(layout);
        lemma_span(layout, m.head, n - 1);
        assert(m.tail == layout.ahead(m.head, n - 1));
        assert forall|k: int| 0 <= k < layout.capacity implies #[trigger] m.slot(layout, k) == (if k
            + 1 < layout.capacity {
            self.slot(layout, k + 1)
        } else {
            self.slot(layout, 0)
        }) by {
            assert(layout.ahead(m.head, k) == layout.ahead(self.head, k + 1));
        }
        assert(m.holds(layout));
        assert(m.items(layout) =~= self.items(layout).drop_first());
    }

    /// What a push that replaces the oldest value leaves behind.
    pub open spec fn replaced(self, layout: Layout, value: T) -> Memory<T> {
        let i = layout.index_of(self.tail);
        Memory {
            head: layout.next(self.head),
            tail: layout.next(self.tail),
            stamps: self.stamps.update(i, (self.tail + 1) as usize),
            values: self.values.update(i, Some(value)),
        }
    }

    /// A push that replaces the oldest value takes it out and puts the new one behind the others.
    pub proof fn lemma_replaced(self, layout: Layout, value: T)
        requires
            self.wf(layout),
            self.len(layout) == layout.capacity,
        ensures
            self.values[layout.index_of(self.tail)] == Some(self.items(layout)[0]),
            layout.lap_before(self.tail) == self.head,
            layout.lap_before(layout.next(self.tail)) == layout.next(self.head),
            self.replaced(layout, value).wf(layout),
            self.replaced(layout, value).items(layout) == self.items(layout).drop_first().push(
                value,
            ),
    {
        let m = self.replaced(layout, value);
        self.lemma_slots(layout);
        self.lemma_next_slots(layout);
        layout.lemma_next_lap(self.head);
        layout.lemma_lap(self.head);
        layout.lemma_stamp(self.tail);
        layout.lemma_ahead(m.head, layout.capacity as int);
        lemma_span(layout, m.head, layout.capacity as int);
        assert(m.len(layout) == layout.capacity);
        assert forall|k: int| 0 <= k < layout.capacity implies #[trigger] m.slot(layout, k) == (if k
            + 1 < layout.capacity {
            self.slot(layout, k + 1)
        } else {
            self.slot(layout, 0)
        }) by {
            assert(layout.ahead(m.head, k) == layout.ahead(self.head, k + 1));
        }
        assert(m.wf(layout));
        assert(m.items(layout) =~= self.items(layout).drop_first().push(value));
    }
}

} // verus!
