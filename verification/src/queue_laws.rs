//! What holds of a ring that many threads push to and pop from at once.
//!
//! Each thread makes the accesses of its operation one at a time, as the steps say, and between any
//! two of them other threads may make any number of theirs. All accesses take effect one after
//! another, and a compare-and-exchange may fail even though it finds the word that it expects. The
//! laws hold after every access of every thread, in whichever order they come, as long as the laps
//! have not been counted through.

use vstd::prelude::*;
use crate::queue_steps::Access;
use crate::queue_steps::OnFull;
use crate::queue_steps::PopStep;
use crate::queue_steps::PushStep;
use crate::queue_steps::Reply;
use crate::ring::lemma_span;
use crate::ring::span;
use crate::ring::Memory;
use crate::stamp::Layout;

verus! {

/// What an operation is, and where it is.
pub enum Kind<T> {
    /// A push of a value.
    Push { step: PushStep, on_full: OnFull, value: T },
    /// A pop.
    Pop { at: PopStep },
}

/// An operation that was begun.
pub struct Operation<T> {
    /// What it is, and where it is.
    pub kind: Kind<T>,
    /// The value that it has at hand.
    pub hand: Option<T>,
    /// If it has moved the tail: how many operations had done so before.
    pub insertion: Option<nat>,
    /// If it has moved the head: how many operations had done so before.
    pub removal: Option<nat>,
}

/// A ring, and all operations that were begun on it.
pub struct System<T> {
    /// How the stamps are laid out.
    pub layout: Layout,
    /// The memory that the operations share.
    pub memory: Memory<T>,
    /// The operations.
    pub operations: Map<int, Operation<T>>,
    /// The values of the pushes that have moved the tail, in the order in which they did.
    pub pushed: Seq<T>,
    /// The operations that have moved the tail, in the order in which they did.
    pub inserted: Seq<int>,
    /// The operations that have moved the head, in the order in which they did.
    pub removed: Seq<int>,
}

impl<T> Operation<T> {
    /// A push at its beginning.
    pub open spec fn push(value: T, on_full: OnFull) -> Self {
        Operation {
            kind: Kind::Push { step: PushStep::LoadTail, on_full, value },
            hand: Some(value),
            insertion: None,
            removal: None,
        }
    }

    /// A pop at its beginning.
    pub open spec fn pop() -> Self {
        Operation {
            kind: Kind::Pop { at: PopStep::LoadHead },
            hand: None,
            insertion: None,
            removal: None,
        }
    }

    /// The access that the operation makes next.
    pub open spec fn access(self, layout: Layout) -> Access {
        match self.kind {
            Kind::Push { step, .. } => step.accesses(layout),
            Kind::Pop { at: step } => step.accesses(layout),
        }
    }

    /// Where the operation is after its access gave `reply`.
    pub open spec fn after(self, layout: Layout, reply: Reply) -> Kind<T> {
        match self.kind {
            Kind::Push { step, on_full, value } => Kind::Push {
                step: step.after(layout, on_full, reply).0,
                on_full,
                value,
            },
            Kind::Pop { at: step } => Kind::Pop { at: step.after(reply).0 },
        }
    }

    /// The index of the slot whose value the operation accesses next, if it does.
    pub open spec fn value_slot(self, layout: Layout) -> Option<usize> {
        match self.access(layout) {
            Access::Write { index } | Access::Swap { index } | Access::Take { index } => Some(
                index,
            ),
            _ => None,
        }
    }
}

impl<T> System<T> {
    /// A new ring, on which no operation was begun.
    pub open spec fn fresh(layout: Layout) -> Self {
        System {
            layout,
            memory: Memory {
                head: 0,
                tail: 0,
                stamps: Seq::new(layout.capacity as nat, |i: int| i as usize),
                values: Seq::new(layout.capacity as nat, |i: int| None),
            },
            operations: Map::empty(),
            pushed: Seq::empty(),
            inserted: Seq::empty(),
            removed: Seq::empty(),
        }
    }

    /// The laps of the tail are not near the last one.
    pub open spec fn in_range(self) -> bool {
        self.memory.tail + 2 * self.layout.one_lap <= usize::MAX
    }

    /// The system after the operation `id` is begun.
    pub open spec fn begun(self, id: int, operation: Operation<T>) -> Self {
        System { operations: self.operations.insert(id, operation), ..self }
    }

    /// The memory, the value at hand and the reply after the next access of the operation `id`. If
    /// `fails` and the access is a compare-and-exchange, it fails whatever it finds.
    pub open spec fn accessed(self, id: int, fails: bool) -> (Memory<T>, Option<T>, Reply) {
        let operation = self.operations[id];
        match operation.access(self.layout) {
            Access::ExchangeHead { .. } if fails => (
                self.memory,
                operation.hand,
                Reply::Found(self.memory.head),
            ),
            Access::ExchangeTail { .. } if fails => (
                self.memory,
                operation.hand,
                Reply::Found(self.memory.tail),
            ),
            access => self.memory.apply(access, operation.hand),
        }
    }

    /// The system after the next access of the operation `id`.
    pub open spec fn stepped(self, id: int, fails: bool) -> Self {
        let operation = self.operations[id];
        let access = operation.access(self.layout);
        let (memory, hand, reply) = self.accessed(id, fails);
        let moves_head = access is ExchangeHead && reply is Exchanged;
        let moves_tail = access is StoreTail || (access is ExchangeTail && reply is Exchanged);
        System {
            layout: self.layout,
            memory,
            operations: self.operations.insert(
                id,
                Operation {
                    kind: operation.after(self.layout, reply),
                    hand,
                    insertion: if moves_tail {
                        Some(self.inserted.len())
                    } else {
                        operation.insertion
                    },
                    removal: if moves_head {
                        Some(self.removed.len())
                    } else {
                        operation.removal
                    },
                },
            ),
            pushed: if moves_tail {
                self.pushed.push(operation.kind->value)
            } else {
                self.pushed
            },
            inserted: if moves_tail {
                self.inserted.push(id)
            } else {
                self.inserted
            },
            removed: if moves_head {
                self.removed.push(id)
            } else {
                self.removed
            },
        }
    }
}

/// Who has a slot.
pub enum Owner {
    /// Nobody: it holds no value, and waits for a push.
    Free,
    /// A push that is about to put a value into it, or to say so.
    Filling(int),
    /// Nobody: it holds a value, and waits for a pop.
    Full,
    /// A pop that is about to take the value out of it, or to say so.
    Draining(int),
    /// A push that is about to replace the value in it, or to say so.
    Replacing(int),
}

impl<T> System<T> {
    /// The head and the tail are stamps of places, at most one lap apart, and count the values.
    pub open spec fn words_ok(self) -> bool {
        let m = self.memory;
        &&& self.layout.wf()
        &&& m.stamps.len() == self.layout.capacity
        &&& m.values.len() == self.layout.capacity
        &&& self.layout.valid(m.head)
        &&& self.layout.valid(m.tail)
        &&& m.head <= m.tail <= m.head + self.layout.one_lap
        &&& self.in_range()
        &&& self.pushed.len() == self.layout.number(m.tail)
        &&& self.inserted.len() == self.layout.number(m.tail)
        &&& self.removed.len() == self.layout.number(m.head)
    }

    /// The value that was pushed at a place.
    pub open spec fn value_at(self, stamp: usize) -> Option<T> {
        Some(self.pushed[self.layout.number(stamp) as int])
    }

    /// What holds of a slot, given who has it.
    pub open spec fn slot_ok(self, owner: Owner, i: int) -> bool {
        let layout = self.layout;
        let m = self.memory;
        let l = layout.one_lap;
        let s = m.stamps[i];
        // The place whose value a slot holds that says so.
        let p = (s - 1) as usize;
        match owner {
            Owner::Free => {
                &&& layout.index_of(s) == i
                &&& m.tail <= s < m.head + l
                &&& m.values[i] is None
            },
            Owner::Filling(id) => {
                &&& layout.index_of(s) == i
                &&& m.head <= s < m.tail <= s + l
                &&& self.operations.contains_key(id)
                &&& self.operations[id].kind matches Kind::Push { step, .. } && {
                    ||| step == (PushStep::WriteValue { tail: s }) && m.values[i] is None
                    ||| step == (PushStep::Publish { tail: s }) && m.values[i] == self.value_at(s)
                }
            },
            Owner::Full => {
                &&& s > 0
                &&& layout.index_of(p) == i
                &&& m.head <= p < m.tail
                &&& m.values[i] == self.value_at(p)
            },
            Owner::Draining(id) => {
                &&& s > 0
                &&& layout.index_of(p) == i
                &&& p < m.head
                &&& m.tail <= p + l
                &&& self.operations.contains_key(id)
                &&& self.operations[id].kind matches Kind::Pop { at: step } && {
                    ||| step == (PopStep::TakeValue { head: p }) && m.values[i] == self.value_at(p)
                    ||| step == (PopStep::Release { head: p }) && m.values[i] is None
                }
            },
            Owner::Replacing(id) => {
                let q = (p + l) as usize;
                &&& s > 0
                &&& layout.index_of(p) == i
                &&& p < m.head
                &&& p + l <= usize::MAX
                &&& self.operations.contains_key(id)
                &&& self.operations[id].kind matches Kind::Push { step, .. } && {
                    ||| step == (PushStep::MoveTail { tail: q }) && m.tail == q && m.values[i]
                        == self.value_at(p)
                    ||| step == (PushStep::SwapValue { tail: q }) && m.head <= q < m.tail <= q + l
                        && m.values[i] == self.value_at(p)
                    ||| step == (PushStep::PublishSwapped { tail: q }) && m.head <= q < m.tail <= q
                        + l && m.values[i] == self.value_at(q)
                }
            },
        }
    }

    /// What holds of an operation, given who has the slots.
    pub open spec fn operation_ok(self, owners: Seq<Owner>, id: int) -> bool {
        let layout = self.layout;
        let m = self.memory;
        let l = layout.one_lap;
        let operation = self.operations[id];
        match operation.kind {
            Kind::Push { step, on_full, value } => match step {
                PushStep::LoadTail => self.has_begun(id),
                PushStep::LoadStamp { tail } => {
                    &&& self.has_begun(id)
                    &&& layout.valid(tail)
                    &&& tail <= m.tail
                },
                PushStep::ClaimTail { tail } => {
                    &&& self.has_begun(id)
                    &&& layout.valid(tail)
                    &&& tail <= m.tail
                    &&& tail == m.tail ==> owners[layout.index_of(tail)] is Free
                },
                PushStep::WriteValue { tail } => {
                    &&& layout.valid(tail)
                    &&& owners[layout.index_of(tail)] == Owner::Filling(id)
                    &&& m.stamps[layout.index_of(tail)] == tail
                    &&& operation.hand == Some(value)
                    &&& operation.insertion == Some(layout.number(tail))
                    &&& operation.removal is None
                    &&& self.inserts(id)
                },
                PushStep::Publish { tail } => {
                    &&& layout.valid(tail)
                    &&& owners[layout.index_of(tail)] == Owner::Filling(id)
                    &&& m.stamps[layout.index_of(tail)] == tail
                    &&& operation.hand is None
                    &&& operation.insertion == Some(layout.number(tail))
                    &&& operation.removal is None
                    &&& self.inserts(id)
                },
                PushStep::LoadHead { tail } => {
                    &&& self.has_begun(id)
                    &&& on_full is Refuse
                    &&& layout.valid(tail)
                    &&& tail <= m.tail
                },
                PushStep::ClaimHead { tail } => {
                    &&& self.has_begun(id)
                    &&& on_full is Replace
                    &&& layout.valid(tail)
                    &&& l <= tail <= m.tail
                    &&& m.stamps[layout.index_of(tail)] >= tail - l + 1
                },
                PushStep::MoveTail { tail } => {
                    &&& on_full is Replace
                    &&& layout.valid(tail)
                    &&& l <= tail
                    &&& owners[layout.index_of(tail)] == Owner::Replacing(id)
                    &&& m.stamps[layout.index_of(tail)] == tail - l + 1
                    &&& operation.hand == Some(value)
                    &&& operation.insertion is None
                    &&& operation.removal == Some(layout.number((tail - l) as usize))
                    &&& self.removes(id)
                },
                PushStep::SwapValue { tail } => {
                    &&& on_full is Replace
                    &&& layout.valid(tail)
                    &&& l <= tail
                    &&& owners[layout.index_of(tail)] == Owner::Replacing(id)
                    &&& m.stamps[layout.index_of(tail)] == tail - l + 1
                    &&& operation.hand == Some(value)
                    &&& operation.insertion == Some(layout.number(tail))
                    &&& operation.removal == Some(layout.number((tail - l) as usize))
                    &&& self.inserts(id)
                    &&& self.removes(id)
                },
                PushStep::PublishSwapped { tail } => {
                    &&& on_full is Replace
                    &&& layout.valid(tail)
                    &&& l <= tail
                    &&& owners[layout.index_of(tail)] == Owner::Replacing(id)
                    &&& m.stamps[layout.index_of(tail)] == tail - l + 1
                    &&& operation.insertion == Some(layout.number(tail))
                    &&& operation.removal == Some(layout.number((tail - l) as usize))
                    &&& self.inserts(id)
                    &&& self.has_removed(id)
                },
                PushStep::Stored => {
                    &&& operation.hand is None
                    &&& operation.removal is None
                    &&& self.inserts(id)
                },
                PushStep::Refused => self.has_begun(id) && on_full is Refuse,
                PushStep::Replaced => {
                    &&& on_full is Replace
                    &&& self.inserts(id)
                    &&& self.has_removed(id)
                },
            },
            Kind::Pop { at: step } => operation.insertion is None && match step {
                PopStep::LoadHead => self.has_begun(id),
                PopStep::LoadStamp { head } => {
                    &&& self.has_begun(id)
                    &&& layout.valid(head)
                    &&& head <= m.head
                },
                PopStep::ClaimHead { head } => {
                    &&& self.has_begun(id)
                    &&& layout.valid(head)
                    &&& head <= m.head
                    &&& head == m.head ==> owners[layout.index_of(head)] is Full
                },
                PopStep::TakeValue { head } => {
                    &&& layout.valid(head)
                    &&& owners[layout.index_of(head)] == Owner::Draining(id)
                    &&& m.stamps[layout.index_of(head)] == head + 1
                    &&& operation.hand is None
                    &&& operation.removal == Some(layout.number(head))
                    &&& self.removes(id)
                },
                PopStep::Release { head } => {
                    &&& layout.valid(head)
                    &&& owners[layout.index_of(head)] == Owner::Draining(id)
                    &&& m.stamps[layout.index_of(head)] == head + 1
                    &&& operation.removal == Some(layout.number(head))
                    &&& self.has_removed(id)
                },
                PopStep::LoadTail { head } => {
                    &&& self.has_begun(id)
                    &&& layout.valid(head)
                    &&& head <= m.head
                },
                PopStep::Popped => self.has_removed(id),
                PopStep::Empty => self.has_begun(id),
            },
        }
    }

    /// The operation has moved neither the head nor the tail, and has at hand what it began with.
    pub open spec fn has_begun(self, id: int) -> bool {
        let operation = self.operations[id];
        &&& operation.insertion is None
        &&& operation.removal is None
        &&& operation.hand == (match operation.kind {
            Kind::Push { value, .. } => Some(value),
            Kind::Pop { .. } => None,
        })
    }

    /// The operation has moved the tail, the number that it goes by is its own, and its value is the
    /// one that was pushed with that number.
    pub open spec fn inserts(self, id: int) -> bool {
        &&& self.operations[id].insertion matches Some(n) && n < self.inserted.len()
            && self.inserted[n as int] == id && self.operations[id].kind is Push
            && self.pushed[n as int] == self.operations[id].kind->value
    }

    /// The operation has moved the head, and the number that it goes by is its own.
    pub open spec fn removes(self, id: int) -> bool {
        &&& self.operations[id].removal matches Some(n) && n < self.removed.len()
            && self.removed[n as int] == id
    }

    /// The operation has moved the head, and has the value at hand that was pushed with the same
    /// number.
    pub open spec fn has_removed(self, id: int) -> bool {
        let operation = self.operations[id];
        &&& self.removes(id)
        &&& operation.removal->Some_0 < self.pushed.len()
        &&& operation.hand == Some(self.pushed[operation.removal->Some_0 as int])
    }

    /// Each number is that of an operation.
    pub open spec fn numbers_ok(self) -> bool {
        &&& forall|n: int|
            0 <= n < self.inserted.len() ==> self.operations.contains_key(
                #[trigger] self.inserted[n],
            ) && self.operations[self.inserted[n]].insertion == Some(n as nat)
        &&& forall|n: int|
            0 <= n < self.removed.len() ==> self.operations.contains_key(
                #[trigger] self.removed[n],
            ) && self.operations[self.removed[n]].removal == Some(n as nat)
    }

    /// What holds of the whole system, given who has the slots.
    pub open spec fn inv_with(self, owners: Seq<Owner>) -> bool {
        &&& self.words_ok()
        &&& owners.len() == self.layout.capacity
        &&& forall|i: int|
            0 <= i < self.layout.capacity ==> self.slot_ok(#[trigger] owners[i], i)
        &&& forall|id: int| #[trigger]
            self.operations.contains_key(id) ==> self.operation_ok(owners, id)
        &&& self.numbers_ok()
    }

    /// What holds of the whole system.
    pub open spec fn inv(self) -> bool {
        exists|owners: Seq<Owner>| self.inv_with(owners)
    }

    /// A new ring is in order.
    pub proof fn fresh_is_in_order(layout: Layout)
        requires
            layout.wf(),
            2 * layout.one_lap <= usize::MAX,
        ensures
            Self::fresh(layout).inv(),
    {
        let sys = Self::fresh(layout);
        let owners = Seq::new(layout.capacity as nat, |i: int| Owner::Free);
        vstd::arithmetic::div_mod::lemma_small_mod(0, layout.one_lap as nat);
        layout.lemma_stamp(0);
        assert(layout.lap_of(0) == 0) by {
            vstd::arithmetic::div_mod::lemma_div_of0(layout.one_lap as int);
        }
        assert(layout.number(0) == 0);
        assert forall|i: int| 0 <= i < layout.capacity implies sys.slot_ok(
            #[trigger] owners[i],
            i,
        ) by {
            vstd::arithmetic::div_mod::lemma_small_mod(i as nat, layout.one_lap as nat);
        }
        assert(sys.inv_with(owners));
    }

    /// An operation can begin at any time.
    pub proof fn begin_keeps_order(self, id: int, operation: Operation<T>)
        requires
            self.inv(),
            !self.operations.contains_key(id),
            operation == Operation::<T>::pop() || exists|value: T, on_full: OnFull|
                operation == #[trigger] Operation::push(value, on_full),
        ensures
            self.begun(id, operation).inv(),
    {
        let owners = choose|owners: Seq<Owner>| self.inv_with(owners);
        let sys = self.begun(id, operation);
        assert forall|i: int| 0 <= i < self.layout.capacity implies sys.slot_ok(
            #[trigger] owners[i],
            i,
        ) by {
            assert(self.slot_ok(owners[i], i));
        }
        assert forall|other: int| #[trigger]
            sys.operations.contains_key(other) implies sys.operation_ok(owners, other) by {
            if other != id {
                assert(self.operations.contains_key(other));
                assert(self.operation_ok(owners, other));
            }
        }
        assert(sys.inv_with(owners));
    }

    /// A step that changes nothing but where its operation is.
    proof fn lemma_quiet(self, owners: Seq<Owner>, id: int, fails: bool)
        requires
            self.inv_with(owners),
            self.operations.contains_key(id),
            self.has_begun(id),
            self.stepped(id, fails).memory == self.memory,
            self.stepped(id, fails).pushed == self.pushed,
            self.stepped(id, fails).removed == self.removed,
            self.stepped(id, fails).inserted == self.inserted,
            self.stepped(id, fails).has_begun(id),
            self.stepped(id, fails).operation_ok(owners, id),
        ensures
            self.stepped(id, fails).inv_with(owners),
    {
        let post = self.stepped(id, fails);
        assert(self.operation_ok(owners, id));
        assert forall|i: int| 0 <= i < self.layout.capacity implies post.slot_ok(
            #[trigger] owners[i],
            i,
        ) by {
            assert(self.slot_ok(owners[i], i));
        }
        assert forall|other: int| #[trigger]
            post.operations.contains_key(other) implies post.operation_ok(owners, other) by {
            if other != id {
                assert(self.operations.contains_key(other));
                assert(self.operation_ok(owners, other));
            }
        }
    }

    /// What follows for the stamp of a slot.
    proof fn lemma_slot(self, owners: Seq<Owner>, i: int)
        requires
            self.inv_with(owners),
            0 <= i < self.layout.capacity,
        ensures
            self.slot_ok(owners[i], i),
            ({
                let layout = self.layout;
                let m = self.memory;
                let l = layout.one_lap;
                let s = m.stamps[i];
                let p = (s - 1) as usize;
                let empty = owners[i] is Free || owners[i] is Filling;
                &&& s <= m.tail + l
                &&& empty ==> layout.index_of(s) == i
                &&& owners[i] is Free ==> s + l <= usize::MAX
                &&& owners[i] is Filling ==> layout.index_of((s + l) as usize) == i
                    && layout.number(s) < self.pushed.len()
                &&& !empty ==> {
                    &&& layout.index_of(s) == i + 1
                    &&& layout.index_of(p) == i
                    &&& p + l <= usize::MAX
                    &&& layout.index_of((p + l) as usize) == i
                    &&& layout.lap_after(p) == p + l
                    &&& layout.lap_before((p + l) as usize) == p
                    &&& p < m.tail
                    &&& layout.number(p) < self.pushed.len()
                }
                &&& owners[i] is Replacing ==> layout.index_of((p + 2 * l) as usize) == i
            }),
    {
        let layout = self.layout;
        let m = self.memory;
        let l = layout.one_lap;
        let s = m.stamps[i];
        let p = (s - 1) as usize;
        assert(self.slot_ok(owners[i], i));
        layout.lemma_stamp(s);
        layout.lemma_stamp(m.tail);
        match owners[i] {
            Owner::Free => {},
            Owner::Filling(_) => {
                layout.lemma_order(s, m.tail);
                layout.lemma_next(s);
                layout.lemma_lap(s);
            },
            _ => {
                layout.lemma_shift(p, 1);
                layout.lemma_order(p, m.tail);
                layout.lemma_next(p);
                layout.lemma_lap(p);
                layout.lemma_lap(layout.lap_after(p));
            },
        }
    }

    /// The loads of a push, and its failed exchanges.
    proof fn lemma_push_quiet(self, owners: Seq<Owner>, id: int, fails: bool)
        requires
            self.inv_with(owners),
            self.operations.contains_key(id),
            self.operations[id].kind matches Kind::Push { step, .. } && match step {
                PushStep::LoadTail | PushStep::LoadStamp { .. } | PushStep::LoadHead { .. } => true,
                PushStep::ClaimTail { .. } | PushStep::ClaimHead { .. } => self.accessed(
                    id,
                    fails,
                ).2 is Found,
                _ => false,
            },
        ensures
            self.stepped(id, fails).inv_with(owners),
    {
        let layout = self.layout;
        let m = self.memory;
        assert(self.operation_ok(owners, id));
        match self.operations[id].kind->step {
            PushStep::LoadStamp { tail } => {
                let i = layout.index_of(tail);
                layout.lemma_stamp(tail);
                self.lemma_slot(owners, i);
                layout.lemma_stamp(m.stamps[i]);
                if tail < layout.one_lap {
                    vstd::arithmetic::div_mod::lemma_small_mod(tail as nat, layout.one_lap as nat);
                }
            },
            _ => {},
        }
        self.lemma_quiet(owners, id, fails);
    }

    /// The loads of a pop, and its failed exchanges.
    proof fn lemma_pop_quiet(self, owners: Seq<Owner>, id: int, fails: bool)
        requires
            self.inv_with(owners),
            self.operations.contains_key(id),
            self.operations[id].kind matches Kind::Pop { at } && match at {
                PopStep::LoadHead | PopStep::LoadStamp { .. } | PopStep::LoadTail { .. } => true,
                PopStep::ClaimHead { .. } => self.accessed(id, fails).2 is Found,
                _ => false,
            },
        ensures
            self.stepped(id, fails).inv_with(owners),
    {
        let layout = self.layout;
        let m = self.memory;
        assert(self.operation_ok(owners, id));
        match self.operations[id].kind->at {
            PopStep::LoadStamp { head } => {
                let i = layout.index_of(head);
                layout.lemma_stamp(head);
                layout.lemma_shift(head, 1);
                self.lemma_slot(owners, i);
            },
            _ => {},
        }
        self.lemma_quiet(owners, id, fails);
    }

    /// When the tail moves on, every slot but the one at the tail stays in order.
    #[verifier::rlimit(60)]
    #[verifier::spinoff_prover]
    proof fn lemma_tail_moves(self, owners: Seq<Owner>, id: int, fails: bool, j: int)
        requires
            self.inv_with(owners),
            self.operations.contains_key(id),
            self.operations[id].kind matches Kind::Push { step, .. } && {
                ||| step is ClaimTail && self.accessed(id, fails).2 is Exchanged
                ||| step is MoveTail
            },
            self.stepped(id, fails).memory.tail == self.layout.next(self.memory.tail),
            self.stepped(id, fails).words_ok(),
            0 <= j < self.layout.capacity,
            j != self.layout.index_of(self.memory.tail),
        ensures
            self.stepped(id, fails).slot_ok(owners[j], j),
    {
        let layout = self.layout;
        let m = self.memory;
        let l = layout.one_lap;
        assert(self.operation_ok(owners, id));
        layout.lemma_stamp(m.tail);
        layout.lemma_next(m.tail);
        self.lemma_slot(owners, j);
        let s = m.stamps[j];
        let p = (s - 1) as usize;
        match owners[j] {
            Owner::Free => {
                layout.lemma_order(m.tail, s);
            },
            Owner::Filling(_) => {
                layout.lemma_order(m.tail, (s + l) as usize);
            },
            Owner::Draining(_) => {
                layout.lemma_order(m.tail, (p + l) as usize);
            },
            Owner::Replacing(_) => {
                assert((p + l) as usize != m.tail);
                layout.lemma_next((p + l) as usize);
                layout.lemma_lap((p + l) as usize);
                layout.lemma_order((p + l) as usize, m.tail);
                layout.lemma_order(m.tail, (p + 2 * l) as usize);
            },
            Owner::Full => {},
        }
    }

    /// When the head moves on, every slot but the one at the head stays in order.
    #[verifier::rlimit(60)]
    #[verifier::spinoff_prover]
    proof fn lemma_head_moves(self, owners: Seq<Owner>, id: int, fails: bool, j: int)
        requires
            self.inv_with(owners),
            self.operations.contains_key(id),
            self.accessed(id, fails).2 is Exchanged,
            match self.operations[id].kind {
                Kind::Push { step, .. } => step is ClaimHead,
                Kind::Pop { at } => at is ClaimHead,
            },
            self.stepped(id, fails).memory.head == self.layout.next(self.memory.head),
            self.stepped(id, fails).words_ok(),
            0 <= j < self.layout.capacity,
            j != self.layout.index_of(self.memory.head),
        ensures
            self.stepped(id, fails).slot_ok(owners[j], j),
    {
        let layout = self.layout;
        let m = self.memory;
        let l = layout.one_lap;
        assert(self.operation_ok(owners, id));
        layout.lemma_stamp(m.head);
        layout.lemma_next(m.head);
        self.lemma_slot(owners, j);
        let s = m.stamps[j];
        let p = (s - 1) as usize;
        match owners[j] {
            Owner::Filling(_) => {
                layout.lemma_order(m.head, s);
            },
            Owner::Full => {
                layout.lemma_order(m.head, p);
            },
            Owner::Replacing(_) => {
                assert((p + l) as usize != m.head);
                if m.head < p + l {
                    layout.lemma_order(m.head, (p + l) as usize);
                }
            },
            _ => {},
        }
    }

    /// A push claims the place at the tail.
    #[verifier::rlimit(60)]
    #[verifier::spinoff_prover]
    proof fn lemma_claim_tail(self, owners: Seq<Owner>, id: int, fails: bool) -> (after: Seq<Owner>)
        requires
            self.inv_with(owners),
            self.operations.contains_key(id),
            self.stepped(id, fails).in_range(),
            self.operations[id].kind matches Kind::Push { step, .. } && step is ClaimTail
                && self.accessed(id, fails).2 is Exchanged,
        ensures
            self.stepped(id, fails).inv_with(after),
    {
        let layout = self.layout;
        let m = self.memory;
        let post = self.stepped(id, fails);
        assert(self.operation_ok(owners, id));
        let i = layout.index_of(m.tail);
        layout.lemma_stamp(m.tail);
        layout.lemma_stamp(m.head);
        self.lemma_slot(owners, i);
        if m.stamps[i] != m.tail {
            layout.lemma_same_index(m.tail, m.stamps[i]);
        }
        layout.lemma_next(m.tail);
        layout.lemma_next(m.head);
        layout.lemma_order(m.tail, layout.lap_after(m.head));
        let after = owners.update(i, Owner::Filling(id));
        assert(post.words_ok());
        assert forall|j: int| 0 <= j < layout.capacity implies post.slot_ok(
            #[trigger] after[j],
            j,
        ) by {
            if j != i {
                self.lemma_tail_moves(owners, id, fails, j);
            }
        }
        assert forall|other: int| #[trigger]
            post.operations.contains_key(other) implies post.operation_ok(after, other) by {
            assert(self.operations.contains_key(other));
            assert(self.operation_ok(owners, other));
        }
        assert(post.numbers_ok());
        after
    }

    /// A pop claims the place at the head.
    #[verifier::rlimit(60)]
    #[verifier::spinoff_prover]
    proof fn lemma_claim_head(self, owners: Seq<Owner>, id: int, fails: bool) -> (after: Seq<Owner>)
        requires
            self.inv_with(owners),
            self.operations.contains_key(id),
            self.stepped(id, fails).in_range(),
            self.operations[id].kind matches Kind::Pop { at } && at is ClaimHead
                && self.accessed(id, fails).2 is Exchanged,
        ensures
            self.stepped(id, fails).inv_with(after),
    {
        let layout = self.layout;
        let m = self.memory;
        let post = self.stepped(id, fails);
        assert(self.operation_ok(owners, id));
        let i = layout.index_of(m.head);
        layout.lemma_stamp(m.head);
        self.lemma_slot(owners, i);
        let place = (m.stamps[i] - 1) as usize;
        if place != m.head {
            layout.lemma_same_index(m.head, place);
        }
        layout.lemma_next(m.head);
        layout.lemma_order(m.head, m.tail);
        let after = owners.update(i, Owner::Draining(id));
        assert(post.words_ok());
        assert forall|j: int| 0 <= j < layout.capacity implies post.slot_ok(
            #[trigger] after[j],
            j,
        ) by {
            if j != i {
                self.lemma_head_moves(owners, id, fails, j);
            }
        }
        assert forall|other: int| #[trigger]
            post.operations.contains_key(other) implies post.operation_ok(after, other) by {
            assert(self.operations.contains_key(other));
            assert(self.operation_ok(owners, other));
        }
        assert(post.numbers_ok());
        after
    }

    /// A push claims the place at the head, whose slot is the one at the tail.
    #[verifier::rlimit(60)]
    #[verifier::spinoff_prover]
    proof fn lemma_claim_oldest(self, owners: Seq<Owner>, id: int, fails: bool) -> (after: Seq<Owner>)
        requires
            self.inv_with(owners),
            self.operations.contains_key(id),
            self.stepped(id, fails).in_range(),
            self.operations[id].kind matches Kind::Push { step, .. } && step is ClaimHead
                && self.accessed(id, fails).2 is Exchanged,
        ensures
            self.stepped(id, fails).inv_with(after),
    {
        let layout = self.layout;
        let m = self.memory;
        let post = self.stepped(id, fails);
        assert(self.operation_ok(owners, id));
        let w = self.operations[id].kind->step->ClaimHead_tail;
        let i = layout.index_of(w);
        layout.lemma_stamp(w);
        layout.lemma_stamp(m.head);
        layout.lemma_lap(w);
        layout.lemma_lap(m.head);
        assert(m.head == w - layout.one_lap);
        assert(m.tail == w);
        assert(layout.index_of(m.head) == i);
        self.lemma_slot(owners, i);
        let place = (m.stamps[i] - 1) as usize;
        if owners[i] is Filling && m.stamps[i] != m.head {
            layout.lemma_same_index(m.head, m.stamps[i]);
        }
        assert(owners[i] is Full);
        if place != m.head {
            layout.lemma_same_index(m.head, place);
        }
        layout.lemma_next(m.head);
        layout.lemma_next_lap(m.head);
        layout.lemma_order(m.head, m.tail);
        let after = owners.update(i, Owner::Replacing(id));
        assert(post.words_ok());
        assert forall|j: int| 0 <= j < layout.capacity implies post.slot_ok(
            #[trigger] after[j],
            j,
        ) by {
            if j != i {
                self.lemma_head_moves(owners, id, fails, j);
            }
        }
        assert forall|other: int| #[trigger]
            post.operations.contains_key(other) implies post.operation_ok(after, other) by {
            assert(self.operations.contains_key(other));
            assert(self.operation_ok(owners, other));
        }
        assert(post.numbers_ok());
        after
    }

    /// A push that replaces a value moves the tail.
    #[verifier::rlimit(60)]
    #[verifier::spinoff_prover]
    proof fn lemma_move_tail(self, owners: Seq<Owner>, id: int, fails: bool)
        requires
            self.inv_with(owners),
            self.operations.contains_key(id),
            self.stepped(id, fails).in_range(),
            self.operations[id].kind matches Kind::Push { step, .. } && step is MoveTail,
        ensures
            self.stepped(id, fails).inv_with(owners),
    {
        let layout = self.layout;
        let m = self.memory;
        let post = self.stepped(id, fails);
        assert(self.operation_ok(owners, id));
        let w = self.operations[id].kind->step->MoveTail_tail;
        let i = layout.index_of(w);
        layout.lemma_stamp(w);
        self.lemma_slot(owners, i);
        let place = (m.stamps[i] - 1) as usize;
        assert(w == place + layout.one_lap);
        assert(m.tail == w);
        layout.lemma_next(m.tail);
        layout.lemma_next(place);
        layout.lemma_next_lap(place);
        layout.lemma_order(place, m.head);
        layout.lemma_next(layout.next(place));
        assert(post.words_ok());
        assert forall|j: int| 0 <= j < layout.capacity implies post.slot_ok(
            #[trigger] owners[j],
            j,
        ) by {
            if j != i {
                self.lemma_tail_moves(owners, id, fails, j);
            }
        }
        assert forall|other: int| #[trigger]
            post.operations.contains_key(other) implies post.operation_ok(owners, other) by {
            assert(self.operations.contains_key(other));
            assert(self.operation_ok(owners, other));
        }
        assert(post.numbers_ok());
    }

    /// An operation puts a value into the slot that it has, takes one out of it, or says what the
    /// slot holds now.
    #[verifier::rlimit(60)]
    #[verifier::spinoff_prover]
    proof fn lemma_own_slot(self, owners: Seq<Owner>, id: int, fails: bool) -> (after: Seq<Owner>)
        requires
            self.inv_with(owners),
            self.operations.contains_key(id),
            self.stepped(id, fails).in_range(),
            match self.operations[id].kind {
                Kind::Push { step, .. } => step is WriteValue || step is Publish || step
                    is SwapValue || step is PublishSwapped,
                Kind::Pop { at } => at is TakeValue || at is Release,
            },
        ensures
            self.stepped(id, fails).inv_with(after),
    {
        let layout = self.layout;
        let post = self.stepped(id, fails);
        assert(self.operation_ok(owners, id));
        // The stamp of the slot's place, and who has the slot afterwards.
        let (w, owner) = match self.operations[id].kind {
            Kind::Push { step, .. } => match step {
                PushStep::WriteValue { tail } => (tail, Owner::Filling(id)),
                PushStep::SwapValue { tail } => (tail, Owner::Replacing(id)),
                PushStep::Publish { tail } | PushStep::PublishSwapped { tail } => (
                    tail,
                    Owner::Full,
                ),
                _ => (0, Owner::Full),
            },
            Kind::Pop { at } => match at {
                PopStep::TakeValue { head } => (head, Owner::Draining(id)),
                PopStep::Release { head } => (head, Owner::Free),
                _ => (0, Owner::Free),
            },
        };
        let i = layout.index_of(w);
        layout.lemma_stamp(w);
        self.lemma_slot(owners, i);
        let after = owners.update(i, owner);
        assert(post.words_ok());
        assert forall|j: int| 0 <= j < layout.capacity implies post.slot_ok(
            #[trigger] after[j],
            j,
        ) by {
            self.lemma_slot(owners, j);
        }
        assert forall|other: int| #[trigger]
            post.operations.contains_key(other) implies post.operation_ok(after, other) by {
            assert(self.operations.contains_key(other));
            assert(self.operation_ok(owners, other));
        }
        assert(post.numbers_ok());
        after
    }

    /// Whether an operation is over.
    pub open spec fn is_over(self, id: int) -> bool {
        self.operations[id].access(self.layout) is Done
    }

    /// Whatever access comes next, of whichever operation, the ring stays in order.
    pub proof fn step_keeps_order(self, id: int, fails: bool)
        requires
            self.inv(),
            self.operations.contains_key(id),
            !self.is_over(id),
            self.stepped(id, fails).in_range(),
        ensures
            self.stepped(id, fails).inv(),
    {
        let owners = choose|owners: Seq<Owner>| self.inv_with(owners);
        assert(self.operation_ok(owners, id));
        let exchanged = self.accessed(id, fails).2 is Exchanged;
        let after = match self.operations[id].kind {
            Kind::Push { step, .. } => match step {
                PushStep::ClaimTail { .. } if exchanged => self.lemma_claim_tail(owners, id, fails),
                PushStep::ClaimHead { .. } if exchanged => self.lemma_claim_oldest(
                    owners,
                    id,
                    fails,
                ),
                PushStep::MoveTail { .. } => {
                    self.lemma_move_tail(owners, id, fails);
                    owners
                },
                PushStep::WriteValue { .. }
                | PushStep::Publish { .. }
                | PushStep::SwapValue { .. }
                | PushStep::PublishSwapped { .. } => self.lemma_own_slot(owners, id, fails),
                _ => {
                    self.lemma_push_quiet(owners, id, fails);
                    owners
                },
            },
            Kind::Pop { at } => match at {
                PopStep::ClaimHead { .. } if exchanged => self.lemma_claim_head(owners, id, fails),
                PopStep::TakeValue { .. } | PopStep::Release { .. } => self.lemma_own_slot(
                    owners,
                    id,
                    fails,
                ),
                _ => {
                    self.lemma_pop_quiet(owners, id, fails);
                    owners
                },
            },
        };
        assert(self.stepped(id, fails).inv_with(after));
    }

    /// The head and the tail only ever move on.
    pub proof fn words_move_on(self, id: int, fails: bool)
        requires
            self.inv(),
            self.operations.contains_key(id),
            !self.is_over(id),
            self.stepped(id, fails).in_range(),
        ensures
            self.memory.head <= self.stepped(id, fails).memory.head,
            self.memory.tail <= self.stepped(id, fails).memory.tail,
    {
        let owners = choose|owners: Seq<Owner>| self.inv_with(owners);
        let layout = self.layout;
        let m = self.memory;
        assert(self.operation_ok(owners, id));
        layout.lemma_stamp(m.head);
        layout.lemma_stamp(m.tail);
        layout.lemma_next(m.head);
        layout.lemma_next(m.tail);
        match self.operations[id].kind {
            Kind::Push { step, .. } => match step {
                PushStep::ClaimHead { tail } => {
                    layout.lemma_stamp(tail);
                    layout.lemma_lap(tail);
                    layout.lemma_next_lap(m.head);
                },
                PushStep::MoveTail { tail } => {
                    layout.lemma_stamp(tail);
                    self.lemma_slot(owners, layout.index_of(tail));
                },
                _ => {},
            },
            _ => {},
        }
    }

    /// The ring never holds more values than it has slots: at most so many more places were pushed
    /// than popped, and never fewer.
    pub proof fn never_overfull(self)
        requires
            self.inv(),
        ensures
            self.removed.len() <= self.pushed.len() <= self.removed.len() + self.layout.capacity,
    {
        let layout = self.layout;
        let m = self.memory;
        layout.lemma_stamp(m.head);
        layout.lemma_next(m.head);
        if m.head < m.tail {
            layout.lemma_order(m.head, m.tail);
        }
        if m.tail < m.head + layout.one_lap {
            layout.lemma_order(m.tail, layout.lap_after(m.head));
        }
    }

    /// First in, first out: the operation that takes the `n`-th value out of the ring, counted as
    /// the head is moved, gets the value that was pushed as the `n`-th, counted as the tail is
    /// moved.
    pub proof fn first_in_first_out(self, id: int)
        requires
            self.inv(),
            self.operations.contains_key(id),
            self.operations[id].kind matches Kind::Pop { at } ==> at is Popped,
            self.operations[id].kind matches Kind::Push { step, .. } ==> step is Replaced,
        ensures
            self.operations[id].removal matches Some(n) && n < self.pushed.len()
                && self.operations[id].hand == Some(self.pushed[n as int]),
    {
        let owners = choose|owners: Seq<Owner>| self.inv_with(owners);
        assert(self.operation_ok(owners, id));
    }

    /// Each value that a push was told to be stored is in the ring, or was, under the number of that
    /// push.
    pub proof fn stored_is_pushed(self, id: int)
        requires
            self.inv(),
            self.operations.contains_key(id),
            self.operations[id].kind matches Kind::Push { step, .. } && (step is Stored
                || step is Replaced),
        ensures
            self.operations[id].insertion matches Some(n) && n < self.pushed.len()
                && self.pushed[n as int] == self.operations[id].kind->value,
    {
        let owners = choose|owners: Seq<Owner>| self.inv_with(owners);
        assert(self.operation_ok(owners, id));
    }

    /// A push that is refused has its value back.
    pub proof fn refused_is_given_back(self, id: int)
        requires
            self.inv(),
            self.operations.contains_key(id),
            self.operations[id].kind matches Kind::Push { step, .. } && step is Refused,
        ensures
            self.operations[id].hand == Some(self.operations[id].kind->value),
            self.operations[id].insertion is None,
            self.operations[id].removal is None,
    {
        let owners = choose|owners: Seq<Owner>| self.inv_with(owners);
        assert(self.operation_ok(owners, id));
    }

    /// No value is pushed twice or taken out twice, and none is taken out that nobody has: every
    /// number is that of exactly one operation.
    pub proof fn numbers_are_unique(self, one: int, other: int)
        requires
            self.inv(),
            self.operations.contains_key(one),
            self.operations.contains_key(other),
            one != other,
        ensures
            self.operations[one].insertion is Some ==> self.operations[one].insertion
                != self.operations[other].insertion,
            self.operations[one].removal is Some ==> self.operations[one].removal
                != self.operations[other].removal,
            forall|n: int|
                0 <= n < self.pushed.len() ==> self.operations.contains_key(
                    #[trigger] self.inserted[n],
                ) && self.operations[self.inserted[n]].insertion == Some(n as nat),
            forall|n: int|
                0 <= n < self.removed.len() ==> self.operations.contains_key(
                    #[trigger] self.removed[n],
                ) && self.operations[self.removed[n]].removal == Some(n as nat),
    {
        let owners = choose|owners: Seq<Owner>| self.inv_with(owners);
        assert(self.operation_ok(owners, one));
        assert(self.operation_ok(owners, other));
    }

    /// A push is refused only at a moment at which the ring is full.
    pub proof fn refused_only_when_full(self, id: int, fails: bool)
        requires
            self.inv(),
            self.operations.contains_key(id),
            self.operations[id].kind matches Kind::Push { step, .. } && step !is Refused,
            self.stepped(id, fails).operations[id].kind matches Kind::Push { step, .. }
                && step is Refused,
        ensures
            self.pushed.len() == self.removed.len() + self.layout.capacity,
            self.stepped(id, fails).pushed == self.pushed,
            self.stepped(id, fails).removed == self.removed,
    {
        let owners = choose|owners: Seq<Owner>| self.inv_with(owners);
        assert(self.operation_ok(owners, id));
        let layout = self.layout;
        let m = self.memory;
        layout.lemma_stamp(m.head);
        layout.lemma_next(m.head);
    }

    /// A pop finds nothing only at a moment at which the ring is empty.
    pub proof fn empty_only_when_empty(self, id: int, fails: bool)
        requires
            self.inv(),
            self.operations.contains_key(id),
            self.operations[id].kind matches Kind::Pop { at } && at !is Empty,
            self.stepped(id, fails).operations[id].kind matches Kind::Pop { at } && at is Empty,
        ensures
            self.pushed.len() == self.removed.len(),
            self.stepped(id, fails).pushed == self.pushed,
            self.stepped(id, fails).removed == self.removed,
    {
        let owners = choose|owners: Seq<Owner>| self.inv_with(owners);
        assert(self.operation_ok(owners, id));
    }

    /// An operation loses a race for the head or the tail only because another operation has won it:
    /// unless a compare-and-exchange fails by chance, the word that it finds lies ahead of the one
    /// that it expects.
    pub proof fn lost_race_is_progress(self, id: int)
        requires
            self.inv(),
            self.operations.contains_key(id),
            self.accessed(id, false).2 is Found,
        ensures
            match self.operations[id].access(self.layout) {
                Access::ExchangeHead { current, .. } => current < self.memory.head,
                Access::ExchangeTail { current, .. } => current < self.memory.tail,
                _ => false,
            },
    {
        let owners = choose|owners: Seq<Owner>| self.inv_with(owners);
        assert(self.operation_ok(owners, id));
    }

    /// No two operations ever are about to access the value in one slot.
    pub proof fn slots_are_exclusive(self, one: int, other: int)
        requires
            self.inv(),
            self.operations.contains_key(one),
            self.operations.contains_key(other),
            self.operations[one].value_slot(self.layout) is Some,
            self.operations[one].value_slot(self.layout) == self.operations[other].value_slot(
                self.layout,
            ),
        ensures
            one == other,
    {
        let owners = choose|owners: Seq<Owner>| self.inv_with(owners);
        assert(self.operation_ok(owners, one));
        assert(self.operation_ok(owners, other));
        let layout = self.layout;
        assert forall|stamp: usize| 0 <= #[trigger] layout.index_of(stamp) < layout.one_lap by {
            layout.lemma_stamp(stamp);
        }
    }

    /// Whoever takes or replaces the value in a slot finds one there, and whoever puts one into a
    /// slot finds none there.
    pub proof fn slots_are_as_expected(self, id: int)
        requires
            self.inv(),
            self.operations.contains_key(id),
        ensures
            match self.operations[id].access(self.layout) {
                Access::Write { index } => index < self.layout.capacity
                    && self.memory.values[index as int] is None && self.operations[id].hand is Some,
                Access::Take { index } => index < self.layout.capacity
                    && self.memory.values[index as int] is Some && self.operations[id].hand is None,
                Access::Swap { index } => index < self.layout.capacity
                    && self.memory.values[index as int] is Some && self.operations[id].hand is Some,
                Access::LoadStamp { index } => index < self.layout.capacity,
                Access::StoreStamp { index, .. } => index < self.layout.capacity,
                _ => true,
            },
    {
        let owners = choose|owners: Seq<Owner>| self.inv_with(owners);
        let layout = self.layout;
        assert(self.operation_ok(owners, id));
        assert forall|stamp: usize| 0 <= #[trigger] layout.index_of(stamp) < layout.one_lap by {
            layout.lemma_stamp(stamp);
        }
        match self.operations[id].kind {
            Kind::Push { step, .. } => match step {
                PushStep::WriteValue { tail } => {
                    assert(self.slot_ok(owners[layout.index_of(tail)], layout.index_of(tail)));
                },
                PushStep::SwapValue { tail } => {
                    assert(self.slot_ok(owners[layout.index_of(tail)], layout.index_of(tail)));
                },
                _ => {},
            },
            Kind::Pop { at } => match at {
                PopStep::TakeValue { head } => {
                    assert(self.slot_ok(owners[layout.index_of(head)], layout.index_of(head)));
                },
                _ => {},
            },
        }
    }

    /// The places between the head and the tail are those of the values that were pushed and not
    /// taken out.
    pub proof fn lemma_span_counts(self)
        requires
            self.inv(),
        ensures
            span(self.layout, self.memory.head, self.memory.tail) == self.pushed.len()
                - self.removed.len(),
            self.memory.tail == self.layout.ahead(
                self.memory.head,
                self.pushed.len() - self.removed.len(),
            ),
    {
        let layout = self.layout;
        let m = self.memory;
        self.never_overfull();
        let n = self.pushed.len() - self.removed.len();
        layout.lemma_ahead_number(m.head, n);
        let end = layout.ahead(m.head, n);
        if end < m.tail {
            layout.lemma_order(end, m.tail);
        }
        if m.tail < end {
            layout.lemma_order(m.tail, end);
        }
        lemma_span(layout, m.head, n);
    }

    /// Once every operation is over, the ring is as one thread alone would leave it, and holds what
    /// was pushed and not taken out, the oldest first.
    pub proof fn at_rest(self)
        requires
            self.inv(),
            forall|id: int| #[trigger] self.operations.contains_key(id) ==> self.is_over(id),
        ensures
            self.memory.wf(self.layout),
            self.memory.items(self.layout) == self.pushed.subrange(
                self.removed.len() as int,
                self.pushed.len() as int,
            ),
    {
        let owners = choose|owners: Seq<Owner>| self.inv_with(owners);
        let layout = self.layout;
        let m = self.memory;
        let l = layout.one_lap;
        self.never_overfull();
        self.lemma_span_counts();
        let n = self.pushed.len() - self.removed.len();
        assert forall|k: int| 0 <= k < layout.capacity implies {
            let a = layout.ahead(m.head, k);
            let i = #[trigger] m.slot(layout, k);
            &&& m.stamps[i] == (if k < n {
                a + 1
            } else {
                a as int
            })
            &&& m.values[i] == (if k < n {
                Some(self.pushed[self.removed.len() + k])
            } else {
                None
            })
        } by {
            let a = layout.ahead(m.head, k);
            let i = m.slot(layout, k);
            layout.lemma_ahead_number(m.head, k);
            layout.lemma_stamp(a);
            self.lemma_slot(owners, i);
            let s = m.stamps[i];
            let p = (s - 1) as usize;
            if k < n {
                if a >= m.tail {
                    if a > m.tail {
                        layout.lemma_order(m.tail, a);
                    }
                    assert(false);
                }
                if owners[i] is Free {
                    layout.lemma_same_index(a, s);
                    assert(false);
                }
                assert(owners[i] is Full);
                if p < a {
                    layout.lemma_same_index(p, a);
                }
                if a < p {
                    layout.lemma_same_index(a, p);
                }
            } else {
                if a < m.tail {
                    layout.lemma_order(a, m.tail);
                    assert(false);
                }
                if owners[i] is Full {
                    layout.lemma_same_index(p, a);
                    assert(false);
                }
                assert(owners[i] is Free);
                if s < a {
                    layout.lemma_same_index(s, a);
                }
                if a < s {
                    layout.lemma_same_index(a, s);
                }
            }
        }
        assert(m.wf(layout));
        assert(m.items(layout) =~= self.pushed.subrange(
            self.removed.len() as int,
            self.pushed.len() as int,
        ));
    }

    /// Whether `post` comes right after this system: an operation was begun, or one made its next
    /// access.
    pub open spec fn leads_to(self, post: Self) -> bool {
        ||| exists|id: int, operation: Operation<T>|
            {
                &&& !self.operations.contains_key(id)
                &&& operation == Operation::<T>::pop() || exists|value: T, on_full: OnFull|
                    operation == #[trigger] Operation::push(value, on_full)
                &&& post == #[trigger] self.begun(id, operation)
            }
        ||| exists|id: int, fails: bool|
            {
                &&& self.operations.contains_key(id)
                &&& !self.is_over(id)
                &&& post == #[trigger] self.stepped(id, fails)
                &&& post.in_range()
            }
    }

    /// Whether `run` is what becomes of a new ring, access by access.
    pub open spec fn is_run(run: Seq<Self>, layout: Layout) -> bool {
        &&& layout.wf()
        &&& 2 * layout.one_lap <= usize::MAX
        &&& run.len() > 0
        &&& run[0] == Self::fresh(layout)
        &&& forall|i: int| 0 <= i < run.len() - 1 ==> (#[trigger] run[i]).leads_to(run[i + 1])
    }

    /// What comes right after a ring that is in order is in order, with the same layout, and its
    /// head and tail have not moved back. From a full ring, and from an empty one, the head moves
    /// only if the ring then is neither.
    proof fn lemma_leads(self, post: Self)
        requires
            self.inv(),
            self.leads_to(post),
        ensures
            post.inv(),
            post.layout == self.layout,
            self.memory.head <= post.memory.head,
            self.memory.tail <= post.memory.tail,
            self.memory.head != post.memory.head ==> self.memory.head < self.memory.tail
                && self.memory.tail == post.memory.tail,
    {
        if exists|id: int, operation: Operation<T>|
            {
                &&& !self.operations.contains_key(id)
                &&& operation == Operation::<T>::pop() || exists|value: T, on_full: OnFull|
                    operation == #[trigger] Operation::push(value, on_full)
                &&& post == #[trigger] self.begun(id, operation)
            } {
            let (id, operation) = choose|id: int, operation: Operation<T>|
                {
                    &&& !self.operations.contains_key(id)
                    &&& operation == Operation::<T>::pop() || exists|value: T, on_full: OnFull|
                        operation == #[trigger] Operation::push(value, on_full)
                    &&& post == #[trigger] self.begun(id, operation)
                };
            self.begin_keeps_order(id, operation);
        } else {
            let (id, fails) = choose|id: int, fails: bool|
                {
                    &&& self.operations.contains_key(id)
                    &&& !self.is_over(id)
                    &&& post == #[trigger] self.stepped(id, fails)
                    &&& post.in_range()
                };
            self.step_keeps_order(id, fails);
            self.words_move_on(id, fails);
            let owners = choose|owners: Seq<Owner>| self.inv_with(owners);
            assert(self.operation_ok(owners, id));
            let layout = self.layout;
            layout.lemma_stamp(self.memory.head);
            match self.operations[id].kind {
                Kind::Push { step, .. } => match step {
                    PushStep::ClaimHead { tail } => {
                        layout.lemma_stamp(tail);
                        layout.lemma_lap(tail);
                    },
                    _ => {},
                },
                Kind::Pop { at } => match at {
                    PopStep::ClaimHead { head } => {
                        let i = layout.index_of(self.memory.head);
                        assert(head == self.memory.head ==> self.slot_ok(owners[i], i));
                    },
                    _ => {},
                },
            }
        }
    }

    /// Whatever the threads do, and in whichever order, the ring is in order all the time.
    pub proof fn always_in_order(run: Seq<Self>, layout: Layout, i: int)
        requires
            Self::is_run(run, layout),
            0 <= i < run.len(),
        ensures
            run[i].inv(),
            run[i].layout == layout,
        decreases i,
    {
        if i == 0 {
            Self::fresh_is_in_order(layout);
        } else {
            Self::always_in_order(run, layout, i - 1);
            assert(run[i - 1].leads_to(run[i - 1 + 1]));
            run[i - 1].lemma_leads(run[i]);
        }
    }

    /// The head and the tail never move back.
    pub proof fn always_moving_on(run: Seq<Self>, layout: Layout, i: int, j: int)
        requires
            Self::is_run(run, layout),
            0 <= i <= j < run.len(),
        ensures
            run[i].memory.head <= run[j].memory.head,
            run[i].memory.tail <= run[j].memory.tail,
        decreases j - i,
    {
        if i < j {
            Self::always_moving_on(run, layout, i, j - 1);
            Self::always_in_order(run, layout, j - 1);
            assert(run[j - 1].leads_to(run[j - 1 + 1]));
            run[j - 1].lemma_leads(run[j]);
        }
    }

    /// A length that is counted from a tail, a head that is loaded later, and a tail that then still
    /// is the same, is the number of values in the ring at the moment at which the head was loaded.
    pub proof fn length_is_of_one_moment(run: Seq<Self>, layout: Layout, i: int, j: int, k: int)
        requires
            Self::is_run(run, layout),
            0 <= i <= j <= k < run.len(),
            run[i].memory.tail == run[k].memory.tail,
        ensures
            span(layout, run[j].memory.head, run[i].memory.tail) == run[j].pushed.len()
                - run[j].removed.len(),
    {
        Self::always_moving_on(run, layout, i, j);
        Self::always_moving_on(run, layout, j, k);
        Self::always_in_order(run, layout, j);
        run[j].lemma_span_counts();
    }

    /// If a head, and a tail that is loaded later, are the same, then the ring is empty at the
    /// moment at which the tail is loaded. If they differ, there was a moment in between at which
    /// the ring was not empty.
    pub proof fn emptiness_is_of_one_moment(run: Seq<Self>, layout: Layout, i: int, j: int)
        requires
            Self::is_run(run, layout),
            0 <= i <= j < run.len(),
        ensures
            run[i].memory.head == run[j].memory.tail ==> run[j].pushed.len()
                == run[j].removed.len(),
            run[i].memory.head != run[j].memory.tail ==> exists|k: int|
                i <= k <= j && (#[trigger] run[k]).pushed.len() != run[k].removed.len(),
    {
        Self::always_moving_on(run, layout, i, j);
        Self::always_in_order(run, layout, j);
        if forall|k: int|
            i <= k <= j ==> (#[trigger] run[k]).pushed.len() == run[k].removed.len() {
            Self::lemma_stays_empty(run, layout, i, j);
            assert(run[j].pushed.len() == run[j].removed.len());
            run[j].lemma_span_counts();
            layout.lemma_ahead(run[j].memory.head, 0);
        }
    }

    /// The head of a ring that stays empty does not move.
    proof fn lemma_stays_empty(run: Seq<Self>, layout: Layout, i: int, j: int)
        requires
            Self::is_run(run, layout),
            0 <= i <= j < run.len(),
            forall|k: int| i <= k <= j ==> (#[trigger] run[k]).pushed.len() == run[k].removed.len(),
        ensures
            run[i].memory.head == run[j].memory.head,
        decreases j - i,
    {
        if i < j {
            Self::lemma_stays_empty(run, layout, i, j - 1);
            Self::always_in_order(run, layout, j - 1);
            let pre = run[j - 1];
            assert(pre.leads_to(run[j - 1 + 1]));
            pre.lemma_leads(run[j]);
            pre.lemma_span_counts();
            layout.lemma_ahead(pre.memory.head, 0);
        }
    }

    /// If a head lags one lap behind a tail that was loaded earlier, then the ring is full at the
    /// moment at which the head is loaded. If it does not, there was a moment in between at which
    /// the ring was not full.
    pub proof fn fullness_is_of_one_moment(run: Seq<Self>, layout: Layout, i: int, j: int)
        requires
            Self::is_run(run, layout),
            0 <= i <= j < run.len(),
        ensures
            layout.lap_after(run[j].memory.head) == run[i].memory.tail ==> run[j].pushed.len()
                == run[j].removed.len() + layout.capacity,
            layout.lap_after(run[j].memory.head) != run[i].memory.tail ==> exists|k: int|
                i <= k <= j && (#[trigger] run[k]).pushed.len() != run[k].removed.len()
                    + layout.capacity,
    {
        Self::always_moving_on(run, layout, i, j);
        Self::always_in_order(run, layout, j);
        let head = run[j].memory.head;
        layout.lemma_stamp(head);
        layout.lemma_next(head);
        layout.lemma_ahead(head, layout.capacity as int);
        if forall|k: int|
            i <= k <= j ==> (#[trigger] run[k]).pushed.len() == run[k].removed.len()
                + layout.capacity {
            Self::lemma_stays_full(run, layout, i, j);
            Self::always_in_order(run, layout, i);
            assert(run[i].pushed.len() == run[i].removed.len() + layout.capacity);
            run[i].lemma_span_counts();
        }
    }

    /// The head of a ring that stays full does not move.
    proof fn lemma_stays_full(run: Seq<Self>, layout: Layout, i: int, j: int)
        requires
            Self::is_run(run, layout),
            0 <= i <= j < run.len(),
            forall|k: int|
                i <= k <= j ==> (#[trigger] run[k]).pushed.len() == run[k].removed.len()
                    + layout.capacity,
        ensures
            run[i].memory.head == run[j].memory.head,
        decreases j - i,
    {
        if i < j {
            Self::lemma_stays_full(run, layout, i, j - 1);
            Self::always_in_order(run, layout, j - 1);
            Self::always_in_order(run, layout, j);
            let pre = run[j - 1];
            assert(pre.leads_to(run[j - 1 + 1]));
            pre.lemma_leads(run[j]);
            if pre.memory.head != run[j].memory.head {
                layout.lemma_order(pre.memory.head, run[j].memory.head);
            }
        }
    }
}

} // verus!
