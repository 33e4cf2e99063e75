//! The steps of pushing to and popping from a ring of stamped slots.
//!
//! Many threads may push to and pop from one ring at once, so an operation is a sequence of single
//! accesses to the words and slots that they share. A step names the next access. Whoever owns the
//! memory makes the access and hands back what it gave, and `advance` decides what comes next. The
//! words that a step carries are the ones that the operation has read; another thread may have
//! changed the memory since.

use vstd::prelude::*;
use crate::ring::distance;
use crate::ring::lemma_span;
use crate::ring::span;
use crate::stamp::Layout;

verus! {

/// One access to the words and slots of a ring.
#[derive(Clone, Copy, Debug, PartialEq, Eq, Structural)]
pub enum Access {
    /// Load the head.
    LoadHead,
    /// Load the tail.
    LoadTail,
    /// Load the stamp of a slot.
    LoadStamp { index: usize },
    /// Compare the head with `current`, and set it to `new` if they are equal.
    ExchangeHead { current: usize, new: usize },
    /// Compare the tail with `current`, and set it to `new` if they are equal.
    ExchangeTail { current: usize, new: usize },
    /// Set the tail.
    StoreTail { tail: usize },
    /// Set the stamp of a slot.
    StoreStamp { index: usize, stamp: usize },
    /// Put the value at hand into a slot that holds none.
    Write { index: usize },
    /// Exchange the value at hand with the value in a slot.
    Swap { index: usize },
    /// Take the value out of a slot.
    Take { index: usize },
    /// Nothing: the operation is over.
    Done,
}

/// What an access to the shared memory gave.
#[derive(Clone, Copy, Debug, PartialEq, Eq)]
pub enum Reply {
    /// A store, or an access to the value in a slot, was made.
    Made,
    /// A load gave this word.
    Word(usize),
    /// A compare-and-exchange succeeded.
    Exchanged,
    /// A compare-and-exchange failed and gave the word that it found.
    Found(usize),
}

/// How to wait before the next access.
#[derive(Clone, Copy, Debug, PartialEq, Eq, Structural)]
pub enum Pause {
    /// Go on at once.
    No,
    /// Spin, because another thread was faster.
    Spin,
    /// Snooze, because another thread has to finish first.
    Snooze,
}

/// What a push does when it finds the ring full.
#[derive(Clone, Copy, Debug, PartialEq, Eq, Structural)]
pub enum OnFull {
    /// It gives the value back.
    Refuse,
    /// It takes the place of the oldest value.
    Replace,
}

/// Where a push is. It has the value to push at hand until `WriteValue` or `SwapValue`.
#[derive(Clone, Copy, Debug, PartialEq, Eq, Structural)]
pub enum PushStep {
    /// Load the tail.
    LoadTail,
    /// Load the stamp of the slot at the tail.
    LoadStamp { tail: usize },
    /// Move the tail on by one place, if it still is `tail`.
    ClaimTail { tail: usize },
    /// Put the value into the slot at `tail`.
    WriteValue { tail: usize },
    /// Set the stamp of the slot at `tail` to the word behind `tail`.
    Publish { tail: usize },
    /// Load the head.
    LoadHead { tail: usize },
    /// Move the head on by one place, if it lags one lap behind `tail`.
    ClaimHead { tail: usize },
    /// Set the tail to the place behind `tail`.
    MoveTail { tail: usize },
    /// Exchange the value with the one in the slot at `tail`.
    SwapValue { tail: usize },
    /// Set the stamp of the slot at `tail` to the word behind `tail`, holding the replaced value.
    PublishSwapped { tail: usize },
    /// The value is in the ring.
    Stored,
    /// The ring was full, and the value is given back.
    Refused,
    /// The value is in the ring, and the oldest value is given back in its place.
    Replaced,
}

/// Where a pop is. It has the value at hand after `TakeValue`.
#[derive(Clone, Copy, Debug, PartialEq, Eq, Structural)]
pub enum PopStep {
    /// Load the head.
    LoadHead,
    /// Load the stamp of the slot at the head.
    LoadStamp { head: usize },
    /// Move the head on by one place, if it still is `head`.
    ClaimHead { head: usize },
    /// Take the value out of the slot at `head`.
    TakeValue { head: usize },
    /// Set the stamp of the slot at `head` to the stamp one lap after `head`.
    Release { head: usize },
    /// Load the tail.
    LoadTail { head: usize },
    /// The value was taken.
    Popped,
    /// The ring was empty.
    Empty,
}

impl PushStep {
    /// The access that this step makes.
    pub open spec fn accesses(self, layout: Layout) -> Access {
        match self {
            PushStep::LoadTail => Access::LoadTail,
            PushStep::LoadStamp { tail } => Access::LoadStamp {
                index: layout.index_of(tail) as usize,
            },
            PushStep::ClaimTail { tail } => Access::ExchangeTail {
                current: tail,
                new: layout.next(tail),
            },
            PushStep::WriteValue { tail } => Access::Write {
                index: layout.index_of(tail) as usize,
            },
            PushStep::Publish { tail } | PushStep::PublishSwapped { tail } => Access::StoreStamp {
                index: layout.index_of(tail) as usize,
                stamp: (tail + 1) as usize,
            },
            PushStep::LoadHead { .. } => Access::LoadHead,
            PushStep::ClaimHead { tail } => Access::ExchangeHead {
                current: layout.lap_before(tail),
                new: layout.lap_before(layout.next(tail)),
            },
            PushStep::MoveTail { tail } => Access::StoreTail { tail: layout.next(tail) },
            PushStep::SwapValue { tail } => Access::Swap {
                index: layout.index_of(tail) as usize,
            },
            PushStep::Stored | PushStep::Refused | PushStep::Replaced => Access::Done,
        }
    }

    /// The word that this step carries is the stamp of a place.
    pub open spec fn wf(self, layout: Layout) -> bool {
        match self {
            PushStep::LoadStamp { tail } | PushStep::ClaimTail { tail } | PushStep::WriteValue {
                tail,
            } | PushStep::Publish { tail } | PushStep::LoadHead { tail } | PushStep::ClaimHead {
                tail,
            } | PushStep::MoveTail { tail } | PushStep::SwapValue { tail }
            | PushStep::PublishSwapped { tail } => layout.valid(tail),
            PushStep::LoadTail | PushStep::Stored | PushStep::Refused | PushStep::Replaced => true,
        }
    }

    /// The access that this step makes.
    pub fn access(self, layout: Layout) -> (access: Access)
        requires
            layout.wf(),
            self.wf(layout),
        ensures
            access == self.accesses(layout),
    {
        match self {
            PushStep::LoadTail => Access::LoadTail,
            PushStep::LoadStamp { tail } => Access::LoadStamp { index: layout.index(tail) },
            PushStep::ClaimTail { tail } => Access::ExchangeTail {
                current: tail,
                new: layout.following(tail),
            },
            PushStep::WriteValue { tail } => Access::Write { index: layout.index(tail) },
            PushStep::Publish { tail } | PushStep::PublishSwapped { tail } => {
                proof {
                    layout.lemma_stamp(tail);
                }
                Access::StoreStamp { index: layout.index(tail), stamp: tail + 1 }
            },
            PushStep::LoadHead { .. } => Access::LoadHead,
            PushStep::ClaimHead { tail } => Access::ExchangeHead {
                current: tail.wrapping_sub(layout.one_lap),
                new: layout.following(tail).wrapping_sub(layout.one_lap),
            },
            PushStep::MoveTail { tail } => Access::StoreTail { tail: layout.following(tail) },
            PushStep::SwapValue { tail } => Access::Swap { index: layout.index(tail) },
            PushStep::Stored | PushStep::Refused | PushStep::Replaced => Access::Done,
        }
    }

    /// Whether `reply` is what the access of this step can give: words are stamps of places.
    pub open spec fn takes(self, layout: Layout, reply: Reply) -> bool {
        match self {
            PushStep::LoadTail => reply matches Reply::Word(w) && layout.valid(w),
            PushStep::LoadStamp { .. } => reply is Word,
            PushStep::ClaimTail { .. } => reply is Exchanged || (reply matches Reply::Found(w)
                && layout.valid(w)),
            PushStep::LoadHead { .. } => reply is Word,
            PushStep::ClaimHead { .. } => reply is Exchanged || reply is Found,
            PushStep::WriteValue { .. } | PushStep::Publish { .. } | PushStep::MoveTail { .. }
            | PushStep::SwapValue { .. } | PushStep::PublishSwapped { .. } => reply is Made,
            PushStep::Stored | PushStep::Refused | PushStep::Replaced => false,
        }
    }

    /// What comes after this step, and how to wait before it, when the access gave `reply`.
    pub open spec fn after(self, layout: Layout, on_full: OnFull, reply: Reply) -> (PushStep, Pause) {
        match self {
            PushStep::LoadTail => (PushStep::LoadStamp { tail: reply->Word_0 }, Pause::No),
            PushStep::LoadStamp { tail } => {
                let stamp = reply->Word_0;
                if stamp == tail {
                    // The slot waits for this very place to be pushed.
                    (PushStep::ClaimTail { tail }, Pause::No)
                } else if layout.lap_after(stamp) == tail + 1 {
                    // The slot holds what was pushed one lap earlier.
                    match on_full {
                        OnFull::Refuse => (PushStep::LoadHead { tail }, Pause::No),
                        OnFull::Replace => (PushStep::ClaimHead { tail }, Pause::No),
                    }
                } else {
                    (PushStep::LoadTail, Pause::Snooze)
                }
            },
            PushStep::ClaimTail { tail } => match reply {
                Reply::Found(found) => (PushStep::LoadStamp { tail: found }, Pause::Spin),
                _ => (PushStep::WriteValue { tail }, Pause::No),
            },
            PushStep::WriteValue { tail } => (PushStep::Publish { tail }, Pause::No),
            PushStep::Publish { .. } => (PushStep::Stored, Pause::No),
            PushStep::LoadHead { tail } => if layout.lap_after(reply->Word_0) == tail {
                (PushStep::Refused, Pause::No)
            } else {
                (PushStep::LoadTail, Pause::Spin)
            },
            PushStep::ClaimHead { tail } => match reply {
                Reply::Found(_) => (PushStep::LoadTail, Pause::Spin),
                _ => (PushStep::MoveTail { tail }, Pause::No),
            },
            PushStep::MoveTail { tail } => (PushStep::SwapValue { tail }, Pause::No),
            PushStep::SwapValue { tail } => (PushStep::PublishSwapped { tail }, Pause::No),
            PushStep::PublishSwapped { .. } => (PushStep::Replaced, Pause::No),
            PushStep::Stored | PushStep::Refused | PushStep::Replaced => (self, Pause::No),
        }
    }

    /// A push that starts over waits first, and one that gets on does not.
    pub proof fn pushes_pause_when_they_start_over(
        self,
        layout: Layout,
        on_full: OnFull,
        reply: Reply,
    )
        requires
            self.takes(layout, reply),
        ensures
            self.after(layout, on_full, reply).1 !is No <==> {
                ||| self.after(layout, on_full, reply).0 is LoadTail
                ||| reply is Found
            },
            reply is Found ==> self.after(layout, on_full, reply).1 is Spin,
            self is LoadStamp && self.after(layout, on_full, reply).0 is LoadTail ==> self.after(
                layout,
                on_full,
                reply,
            ).1 is Snooze,
    {
    }

    /// A push goes on with the place that it loaded or claimed, from step to step, and with the word
    /// that it found when it lost a race.
    pub proof fn pushes_keep_their_place(layout: Layout, on_full: OnFull, tail: usize, word: usize)
        requires
            layout.wf(),
            layout.valid(tail),
        ensures
            PushStep::LoadTail.after(layout, on_full, Reply::Word(word)).0 == (
            PushStep::LoadStamp { tail: word }),
            (PushStep::LoadStamp { tail }).after(layout, on_full, Reply::Word(tail)).0 == (
            PushStep::ClaimTail { tail }),
            (PushStep::ClaimTail { tail }).after(layout, on_full, Reply::Exchanged).0 == (
            PushStep::WriteValue { tail }),
            (PushStep::ClaimTail { tail }).after(layout, on_full, Reply::Found(word)).0 == (
            PushStep::LoadStamp { tail: word }),
            (PushStep::WriteValue { tail }).after(layout, on_full, Reply::Made).0 == (
            PushStep::Publish { tail }),
            (PushStep::Publish { tail }).after(layout, on_full, Reply::Made).0 is Stored,
            (PushStep::ClaimHead { tail }).after(layout, on_full, Reply::Exchanged).0 == (
            PushStep::MoveTail { tail }),
            (PushStep::ClaimHead { tail }).after(layout, on_full, Reply::Found(word)).0 is LoadTail,
            (PushStep::MoveTail { tail }).after(layout, on_full, Reply::Made).0 == (
            PushStep::SwapValue { tail }),
            (PushStep::SwapValue { tail }).after(layout, on_full, Reply::Made).0 == (
            PushStep::PublishSwapped { tail }),
            (PushStep::PublishSwapped { tail }).after(layout, on_full, Reply::Made).0 is Replaced,
            // A head one lap behind the tail, and no other, means that the ring is full.
            (PushStep::LoadHead { tail }).after(
                layout,
                on_full,
                Reply::Word(layout.lap_before(tail)),
            ).0 is Refused,
            word != layout.lap_before(tail) ==> (PushStep::LoadHead { tail }).after(
                layout,
                on_full,
                Reply::Word(word),
            ).0 is LoadTail,
    {
        layout.lemma_lap(tail);
        layout.lemma_lap(word);
    }

    /// A push stores its value only after it has moved the tail, put the value into the slot and said
    /// so; it is refused only after it found the head one lap behind the tail, and only if it is to
    /// be; and it replaces a value only after it has moved the head and the tail.
    pub proof fn pushes_are_sound(self, layout: Layout, on_full: OnFull, reply: Reply)
        requires
            self.takes(layout, reply),
        ensures
            ({
                let next = self.after(layout, on_full, reply).0;
                &&& next is Stored ==> self is Publish
                &&& next is Publish ==> self is WriteValue
                &&& next is WriteValue ==> self is ClaimTail && reply is Exchanged
                &&& next is Refused ==> self is LoadHead
                &&& next is LoadHead ==> self is LoadStamp && on_full is Refuse
                &&& next is Replaced ==> self is PublishSwapped
                &&& next is PublishSwapped ==> self is SwapValue
                &&& next is SwapValue ==> self is MoveTail
                &&& next is MoveTail ==> self is ClaimHead && reply is Exchanged
                &&& next is ClaimHead ==> self is LoadStamp && on_full is Replace
                &&& next is ClaimTail ==> self is LoadStamp && reply == Reply::Word(
                    self->LoadStamp_tail,
                )
            }),
    {
    }

    /// Decides what comes after this step, and how to wait before it.
    pub fn advance(self, layout: Layout, on_full: OnFull, reply: Reply) -> (next: (PushStep, Pause))
        requires
            layout.wf(),
            self.wf(layout),
            self.takes(layout, reply),
        ensures
            next == self.after(layout, on_full, reply),
            next.0.wf(layout),
    {
        match (self, reply) {
            (PushStep::LoadTail, Reply::Word(tail)) => (PushStep::LoadStamp { tail }, Pause::No),
            (PushStep::LoadStamp { tail }, Reply::Word(stamp)) => {
                proof {
                    layout.lemma_stamp(tail);
                }
                if stamp == tail {
                    // The tail and the stamp match, so the push may go on.
                    (PushStep::ClaimTail { tail }, Pause::No)
                } else if stamp.wrapping_add(layout.one_lap) == tail + 1 {
                    match on_full {
                        OnFull::Refuse => (PushStep::LoadHead { tail }, Pause::No),
                        OnFull::Replace => (PushStep::ClaimHead { tail }, Pause::No),
                    }
                } else {
                    // The stamp has yet to be updated.
                    (PushStep::LoadTail, Pause::Snooze)
                }
            },
            (PushStep::ClaimTail { tail }, Reply::Exchanged) => (
                PushStep::WriteValue { tail },
                Pause::No,
            ),
            (PushStep::ClaimTail { .. }, Reply::Found(tail)) => (
                PushStep::LoadStamp { tail },
                Pause::Spin,
            ),
            (PushStep::WriteValue { tail }, _) => (PushStep::Publish { tail }, Pause::No),
            (PushStep::Publish { .. }, _) => (PushStep::Stored, Pause::No),
            (PushStep::LoadHead { tail }, Reply::Word(head)) => {
                // If the head lags one lap behind the tail as well, then the ring is full.
                if head.wrapping_add(layout.one_lap) == tail {
                    (PushStep::Refused, Pause::No)
                } else {
                    (PushStep::LoadTail, Pause::Spin)
                }
            },
            (PushStep::ClaimHead { tail }, Reply::Exchanged) => (
                PushStep::MoveTail { tail },
                Pause::No,
            ),
            (PushStep::ClaimHead { .. }, _) => (PushStep::LoadTail, Pause::Spin),
            (PushStep::MoveTail { tail }, _) => (PushStep::SwapValue { tail }, Pause::No),
            (PushStep::SwapValue { tail }, _) => (PushStep::PublishSwapped { tail }, Pause::No),
            (PushStep::PublishSwapped { .. }, _) => (PushStep::Replaced, Pause::No),
            (done, _) => (done, Pause::No),
        }
    }
}

impl PopStep {
    /// The access that this step makes.
    pub open spec fn accesses(self, layout: Layout) -> Access {
        match self {
            PopStep::LoadHead => Access::LoadHead,
            PopStep::LoadStamp { head } => Access::LoadStamp {
                index: layout.index_of(head) as usize,
            },
            PopStep::ClaimHead { head } => Access::ExchangeHead {
                current: head,
                new: layout.next(head),
            },
            PopStep::TakeValue { head } => Access::Take { index: layout.index_of(head) as usize },
            PopStep::Release { head } => Access::StoreStamp {
                index: layout.index_of(head) as usize,
                stamp: layout.lap_after(head),
            },
            PopStep::LoadTail { .. } => Access::LoadTail,
            PopStep::Popped | PopStep::Empty => Access::Done,
        }
    }

    /// The word that this step carries is the stamp of a place.
    pub open spec fn wf(self, layout: Layout) -> bool {
        match self {
            PopStep::LoadStamp { head } | PopStep::ClaimHead { head } | PopStep::TakeValue { head }
            | PopStep::Release { head } | PopStep::LoadTail { head } => layout.valid(head),
            PopStep::LoadHead | PopStep::Popped | PopStep::Empty => true,
        }
    }

    /// The access that this step makes.
    pub fn access(self, layout: Layout) -> (access: Access)
        requires
            layout.wf(),
            self.wf(layout),
        ensures
            access == self.accesses(layout),
    {
        match self {
            PopStep::LoadHead => Access::LoadHead,
            PopStep::LoadStamp { head } => Access::LoadStamp { index: layout.index(head) },
            PopStep::ClaimHead { head } => Access::ExchangeHead {
                current: head,
                new: layout.following(head),
            },
            PopStep::TakeValue { head } => Access::Take { index: layout.index(head) },
            PopStep::Release { head } => Access::StoreStamp {
                index: layout.index(head),
                stamp: head.wrapping_add(layout.one_lap),
            },
            PopStep::LoadTail { .. } => Access::LoadTail,
            PopStep::Popped | PopStep::Empty => Access::Done,
        }
    }

    /// Whether `reply` is what the access of this step can give: words are stamps of places.
    pub open spec fn takes(self, layout: Layout, reply: Reply) -> bool {
        match self {
            PopStep::LoadHead => reply matches Reply::Word(w) && layout.valid(w),
            PopStep::LoadStamp { .. } => reply is Word,
            PopStep::ClaimHead { .. } => reply is Exchanged || (reply matches Reply::Found(w)
                && layout.valid(w)),
            PopStep::LoadTail { .. } => reply is Word,
            PopStep::TakeValue { .. } | PopStep::Release { .. } => reply is Made,
            PopStep::Popped | PopStep::Empty => false,
        }
    }

    /// What comes after this step, and how to wait before it, when the access gave `reply`.
    pub open spec fn after(self, reply: Reply) -> (PopStep, Pause) {
        match self {
            PopStep::LoadHead => (PopStep::LoadStamp { head: reply->Word_0 }, Pause::No),
            PopStep::LoadStamp { head } => {
                let stamp = reply->Word_0;
                if stamp == head + 1 {
                    // The slot holds what was pushed at this very place.
                    (PopStep::ClaimHead { head }, Pause::No)
                } else if stamp == head {
                    // The slot waits for this very place to be pushed.
                    (PopStep::LoadTail { head }, Pause::No)
                } else {
                    (PopStep::LoadHead, Pause::Snooze)
                }
            },
            PopStep::ClaimHead { head } => match reply {
                Reply::Found(found) => (PopStep::LoadStamp { head: found }, Pause::Spin),
                _ => (PopStep::TakeValue { head }, Pause::No),
            },
            PopStep::TakeValue { head } => (PopStep::Release { head }, Pause::No),
            PopStep::Release { .. } => (PopStep::Popped, Pause::No),
            PopStep::LoadTail { head } => if reply->Word_0 == head {
                (PopStep::Empty, Pause::No)
            } else {
                (PopStep::LoadHead, Pause::Spin)
            },
            PopStep::Popped | PopStep::Empty => (self, Pause::No),
        }
    }

    /// A pop that starts over waits first, and one that gets on does not.
    pub proof fn pops_pause_when_they_start_over(self, layout: Layout, reply: Reply)
        requires
            self.takes(layout, reply),
        ensures
            self.after(reply).1 !is No <==> self.after(reply).0 is LoadHead || reply is Found,
            reply is Found ==> self.after(reply).1 is Spin,
            self is LoadStamp && self.after(reply).0 is LoadHead ==> self.after(reply).1 is Snooze,
    {
    }

    /// A pop goes on with the place that it loaded or claimed, from step to step, and with the word
    /// that it found when it lost a race.
    pub proof fn pops_keep_their_place(layout: Layout, head: usize, word: usize)
        requires
            layout.wf(),
            layout.valid(head),
        ensures
            PopStep::LoadHead.after(Reply::Word(word)).0 == (PopStep::LoadStamp { head: word }),
            word == head + 1 ==> (PopStep::LoadStamp { head }).after(Reply::Word(word)).0 == (
            PopStep::ClaimHead { head }),
            (PopStep::LoadStamp { head }).after(Reply::Word(head)).0 == (PopStep::LoadTail {
                head,
            }),
            word != head && word != head + 1 ==> (PopStep::LoadStamp { head }).after(
                Reply::Word(word),
            ).0 is LoadHead,
            (PopStep::ClaimHead { head }).after(Reply::Exchanged).0 == (PopStep::TakeValue {
                head,
            }),
            (PopStep::ClaimHead { head }).after(Reply::Found(word)).0 == (PopStep::LoadStamp {
                head: word,
            }),
            (PopStep::TakeValue { head }).after(Reply::Made).0 == (PopStep::Release { head }),
            (PopStep::Release { head }).after(Reply::Made).0 is Popped,
            (PopStep::LoadTail { head }).after(Reply::Word(head)).0 is Empty,
            word != head ==> (PopStep::LoadTail { head }).after(Reply::Word(word)).0 is LoadHead,
    {
    }

    /// A pop has a value only after it has moved the head, taken the value out of the slot and said
    /// so. It finds nothing only after it found the tail at the head.
    pub proof fn pops_are_sound(self, layout: Layout, reply: Reply)
        requires
            self.takes(layout, reply),
        ensures
            ({
                let next = self.after(reply).0;
                &&& next is Popped ==> self is Release
                &&& next is Release ==> self is TakeValue
                &&& next is TakeValue ==> self is ClaimHead && reply is Exchanged
                &&& next is Empty ==> self is LoadTail && reply == Reply::Word(self->LoadTail_head)
                &&& next is LoadTail ==> self is LoadStamp && reply == Reply::Word(
                    self->LoadStamp_head,
                )
                &&& next is ClaimHead ==> self is LoadStamp && reply is Word && reply->Word_0
                    == self->LoadStamp_head + 1
            }),
    {
    }

    /// Decides what comes after this step, and how to wait before it.
    pub fn advance(self, layout: Layout, reply: Reply) -> (next: (PopStep, Pause))
        requires
            layout.wf(),
            self.wf(layout),
            self.takes(layout, reply),
        ensures
            next == self.after(reply),
            next.0.wf(layout),
    {
        match (self, reply) {
            (PopStep::LoadHead, Reply::Word(head)) => (PopStep::LoadStamp { head }, Pause::No),
            (PopStep::LoadStamp { head }, Reply::Word(stamp)) => {
                proof {
                    layout.lemma_stamp(head);
                }
                if head + 1 == stamp {
                    // The stamp is ahead of the head by one, so the pop may go on.
                    (PopStep::ClaimHead { head }, Pause::No)
                } else if stamp == head {
                    (PopStep::LoadTail { head }, Pause::No)
                } else {
                    // The stamp has yet to be updated.
                    (PopStep::LoadHead, Pause::Snooze)
                }
            },
            (PopStep::ClaimHead { head }, Reply::Exchanged) => (
                PopStep::TakeValue { head },
                Pause::No,
            ),
            (PopStep::ClaimHead { .. }, Reply::Found(head)) => (
                PopStep::LoadStamp { head },
                Pause::Spin,
            ),
            (PopStep::TakeValue { head }, _) => (PopStep::Release { head }, Pause::No),
            (PopStep::Release { .. }, _) => (PopStep::Popped, Pause::No),
            (PopStep::LoadTail { head }, Reply::Word(tail)) => {
                // If the tail equals the head, then the ring is empty.
                if tail == head {
                    (PopStep::Empty, Pause::No)
                } else {
                    (PopStep::LoadHead, Pause::Spin)
                }
            },
            (done, _) => (done, Pause::No),
        }
    }
}

/// Where counting the values in a ring is.
#[derive(Clone, Copy, Debug, PartialEq, Eq, Structural)]
pub enum LenStep {
    /// Load the tail.
    LoadTail,
    /// Load the head.
    LoadHead { tail: usize },
    /// Load the tail once more.
    CheckTail { tail: usize, head: usize },
    /// The values are counted.
    Counted { len: usize },
}

impl LenStep {
    /// The words that this step carries are stamps of places.
    pub open spec fn wf(self, layout: Layout) -> bool {
        match self {
            LenStep::LoadHead { tail } => layout.valid(tail),
            LenStep::CheckTail { tail, head } => layout.valid(tail) && layout.valid(head),
            LenStep::LoadTail | LenStep::Counted { .. } => true,
        }
    }

    /// The access that this step makes.
    pub open spec fn accesses(self) -> Access {
        match self {
            LenStep::LoadTail | LenStep::CheckTail { .. } => Access::LoadTail,
            LenStep::LoadHead { .. } => Access::LoadHead,
            LenStep::Counted { .. } => Access::Done,
        }
    }

    /// What comes after this step when it loaded `word`. If the tail did not change, the head and
    /// the tail are consistent.
    pub open spec fn after(self, layout: Layout, word: usize) -> LenStep {
        match self {
            LenStep::LoadTail => LenStep::LoadHead { tail: word },
            LenStep::LoadHead { tail } => LenStep::CheckTail { tail, head: word },
            LenStep::CheckTail { tail, head } => if word == tail {
                LenStep::Counted { len: span(layout, head, tail) as usize }
            } else {
                LenStep::LoadTail
            },
            LenStep::Counted { .. } => self,
        }
    }

    /// The values are counted from a tail, a head that is loaded after it, and a tail that then still
    /// is the same: as many as the places by which that tail lies ahead of that head. If the tail has
    /// moved, the count starts over.
    pub proof fn counts_go_by_one_tail(layout: Layout, tail: usize, head: usize, word: usize, n: int)
        requires
            layout.wf(),
            layout.valid(head),
            0 <= n <= layout.capacity,
            tail == layout.ahead(head, n),
        ensures
            LenStep::LoadTail.after(layout, word) == (LenStep::LoadHead { tail: word }),
            (LenStep::LoadHead { tail }).after(layout, head) == (LenStep::CheckTail { tail, head }),
            (LenStep::CheckTail { tail, head }).after(layout, tail) == (LenStep::Counted {
                len: n as usize,
            }),
            word != tail ==> (LenStep::CheckTail { tail, head }).after(layout, word) is LoadTail,
            LenStep::LoadTail.accesses() is LoadTail,
            (LenStep::LoadHead { tail }).accesses() is LoadHead,
            (LenStep::CheckTail { tail, head }).accesses() is LoadTail,
    {
        lemma_span(layout, head, n);
    }

    /// The access that this step makes.
    pub fn access(self) -> (access: Access)
        ensures
            access == self.accesses(),
    {
        match self {
            LenStep::LoadTail | LenStep::CheckTail { .. } => Access::LoadTail,
            LenStep::LoadHead { .. } => Access::LoadHead,
            LenStep::Counted { .. } => Access::Done,
        }
    }

    /// Decides what comes after this step when it loaded `word`.
    pub fn advance(self, layout: Layout, word: usize) -> (next: LenStep)
        requires
            layout.wf(),
            self.wf(layout),
            layout.valid(word),
        ensures
            next == self.after(layout, word),
            next.wf(layout),
    {
        match self {
            LenStep::LoadTail => LenStep::LoadHead { tail: word },
            LenStep::LoadHead { tail } => LenStep::CheckTail { tail, head: word },
            LenStep::CheckTail { tail, head } => if word == tail {
                LenStep::Counted { len: distance(layout, head, tail) }
            } else {
                LenStep::LoadTail
            },
            LenStep::Counted { len } => LenStep::Counted { len },
        }
    }
}

} // verus!
