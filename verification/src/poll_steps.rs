//! The steps of polling a future that waits for a reference or for the block, of asking for a
//! reference, and of allowing references again.
//!
//! As with the queue, a step names the next thing to do, whoever owns the memory does it and hands
//! back what came of it, and `advance` decides what comes next.

use vstd::prelude::*;
use crate::consts::LOOKS;
use crate::state::Grab;

verus! {

/// Where a poll of a future is that waits to grab a reference or the block.
#[derive(Clone, Copy, Debug, PartialEq, Eq, Structural)]
pub enum PollStep {
    /// Look whether references are blocked.
    LookBlocked,
    /// Attempt the grab.
    TryGrab,
    /// Look whether the future is registered.
    LookRegistered,
    /// Note that the future is registered.
    Register,
    /// Push the waiter to the waiter queue.
    Enqueue,
    /// Look once more whether references are blocked, now that the waiter is in the queue.
    LookAgain,
    /// Wake the waiter that the full queue gave back.
    WakeWaiter,
    /// Ask to be polled again.
    WakeSelf,
    /// The future is ready.
    Ready,
    /// The future is not ready.
    Pending,
}

impl PollStep {
    /// Where a poll starts. A reference is not attempted while references are blocked; the block is
    /// attempted at once.
    pub open spec fn starts(grab: Grab) -> PollStep {
        match grab {
            Grab::Reference => PollStep::LookBlocked,
            Grab::Block => PollStep::TryGrab,
        }
    }

    /// What comes after this step, when `yes` is the answer to what it looked for or attempted.
    pub open spec fn after(self, grab: Grab, yes: bool) -> PollStep {
        match self {
            PollStep::LookBlocked => if yes {
                PollStep::LookRegistered
            } else {
                match grab {
                    Grab::Reference => PollStep::TryGrab,
                    // The attempt failed for contention alone.
                    Grab::Block => PollStep::WakeSelf,
                }
            },
            PollStep::TryGrab => if yes {
                PollStep::Ready
            } else {
                match grab {
                    // The attempt failed for contention alone.
                    Grab::Reference => PollStep::WakeSelf,
                    Grab::Block => PollStep::LookBlocked,
                }
            },
            PollStep::LookRegistered => if yes {
                PollStep::Pending
            } else {
                PollStep::Register
            },
            PollStep::Register => PollStep::Enqueue,
            PollStep::Enqueue => if yes {
                PollStep::LookAgain
            } else {
                PollStep::WakeWaiter
            },
            PollStep::LookAgain => if yes {
                PollStep::Pending
            } else {
                // The queue may have been emptied before the waiter joined it.
                PollStep::WakeSelf
            },
            PollStep::WakeWaiter | PollStep::WakeSelf => PollStep::Pending,
            PollStep::Ready | PollStep::Pending => self,
        }
    }

    /// How many steps are left at most.
    pub open spec fn steps_left(self, grab: Grab) -> nat {
        match self {
            PollStep::TryGrab => match grab {
                Grab::Block => 7,
                Grab::Reference => 2,
            },
            PollStep::LookBlocked => 6,
            PollStep::LookRegistered => 5,
            PollStep::Register => 4,
            PollStep::Enqueue => 3,
            PollStep::LookAgain => 2,
            PollStep::WakeWaiter | PollStep::WakeSelf => 1,
            PollStep::Ready | PollStep::Pending => 0,
        }
    }

    /// A poll neither blocks nor spins: it is over after a few steps, whatever it finds and whatever
    /// other threads do.
    pub proof fn polls_are_short(self, grab: Grab, yes: bool)
        ensures
            self !is Ready && self !is Pending ==> self.after(grab, yes).steps_left(grab)
                < self.steps_left(grab),
            self.steps_left(grab) == 0 <==> self is Ready || self is Pending,
            Self::starts(grab).steps_left(grab) <= 7,
    {
    }

    /// A poll is ready only if the grab was attempted and succeeded, and joins the queue only if it
    /// found references blocked and itself not registered, and says so before it joins.
    pub proof fn polls_are_sound(self, grab: Grab, yes: bool)
        ensures
            self.after(grab, yes) is Ready ==> self is Ready || (self is TryGrab && yes),
            self.after(grab, yes) is Enqueue ==> self is Register,
            self.after(grab, yes) is Register ==> self is LookRegistered && !yes,
            self.after(grab, yes) is LookAgain ==> self is Enqueue && yes,
            self.after(grab, yes) is LookRegistered ==> self is LookBlocked && yes,
    {
    }

    /// A poll attempts a grab only where it may succeed, and one that succeeds makes the future ready.
    /// A reference is attempted only after references were found allowed. A poll that fails to grab
    /// though references are allowed asks to be polled again, and is never left to sleep.
    pub proof fn polls_grab_when_allowed(grab: Grab)
        ensures
            PollStep::TryGrab.after(grab, true) is Ready,
            Self::starts(Grab::Reference) is LookBlocked,
            PollStep::LookBlocked.after(Grab::Reference, false) is TryGrab,
            PollStep::TryGrab.after(Grab::Reference, false) is WakeSelf,
            Self::starts(Grab::Block) is TryGrab,
            PollStep::TryGrab.after(Grab::Block, false) is LookBlocked,
            PollStep::LookBlocked.after(Grab::Block, false) is WakeSelf,
    {
    }

    /// A poll that finds references blocked waits: it is pending at once if it is registered, and
    /// otherwise raises its flag and joins the queue. It sleeps only if it is in the queue and found
    /// references still blocked, and is woken at once if the queue is full or they are allowed.
    pub proof fn polls_wait_when_blocked(grab: Grab, yes: bool)
        ensures
            PollStep::LookBlocked.after(grab, true) is LookRegistered,
            PollStep::LookRegistered.after(grab, true) is Pending,
            PollStep::LookRegistered.after(grab, false) is Register,
            PollStep::Register.after(grab, yes) is Enqueue,
            PollStep::Enqueue.after(grab, true) is LookAgain,
            PollStep::Enqueue.after(grab, false) is WakeWaiter,
            PollStep::LookAgain.after(grab, true) is Pending,
            PollStep::LookAgain.after(grab, false) is WakeSelf,
            PollStep::WakeWaiter.after(grab, yes) is Pending,
            PollStep::WakeSelf.after(grab, yes) is Pending,
            PollStep::Ready.after(grab, yes) is Ready,
            PollStep::Pending.after(grab, yes) is Pending,
    {
    }

    /// Where a poll starts.
    pub fn start(grab: Grab) -> (step: Self)
        ensures
            step == Self::starts(grab),
    {
        match grab {
            Grab::Reference => PollStep::LookBlocked,
            Grab::Block => PollStep::TryGrab,
        }
    }

    /// Decides what comes after this step.
    pub fn advance(self, grab: Grab, yes: bool) -> (next: Self)
        ensures
            next == self.after(grab, yes),
    {
        match (self, grab, yes) {
            (PollStep::LookBlocked, _, true) => PollStep::LookRegistered,
            (PollStep::LookBlocked, Grab::Reference, false) => PollStep::TryGrab,
            (PollStep::LookBlocked, Grab::Block, false) => PollStep::WakeSelf,
            (PollStep::TryGrab, _, true) => PollStep::Ready,
            (PollStep::TryGrab, Grab::Reference, false) => PollStep::WakeSelf,
            (PollStep::TryGrab, Grab::Block, false) => PollStep::LookBlocked,
            (PollStep::LookRegistered, _, true) => PollStep::Pending,
            (PollStep::LookRegistered, _, false) => PollStep::Register,
            (PollStep::Register, _, _) => PollStep::Enqueue,
            (PollStep::Enqueue, _, true) => PollStep::LookAgain,
            (PollStep::Enqueue, _, false) => PollStep::WakeWaiter,
            (PollStep::LookAgain, _, true) => PollStep::Pending,
            (PollStep::LookAgain, _, false) => PollStep::WakeSelf,
            (PollStep::Ready, _, _) => PollStep::Ready,
            (_, _, _) => PollStep::Pending,
        }
    }
}

/// Where a request for an exclusive reference is that does not wait.
#[derive(Clone, Copy, Debug, PartialEq, Eq, Structural)]
pub enum ExclusiveStep {
    /// Attempt to block references.
    Block,
    /// Look whether no standard references are left, after `looks` looks that found some.
    Look { looks: u32 },
    /// Wait briefly, after `looks` looks.
    Wait { looks: u32 },
    /// Give the block back.
    Unblock,
    /// The exclusive reference is had.
    Granted,
    /// The exclusive reference is not had.
    Denied,
}

impl ExclusiveStep {
    /// How many steps are left at most.
    pub open spec fn steps_left(self) -> nat {
        match self {
            ExclusiveStep::Block => 2 * LOOKS as nat + 2,
            ExclusiveStep::Look { looks } => 2 * Self::looks_left(looks) + 1,
            ExclusiveStep::Wait { looks } => 2 * Self::looks_left(looks),
            ExclusiveStep::Unblock => 1,
            ExclusiveStep::Granted | ExclusiveStep::Denied => 0,
        }
    }

    /// How many looks are left after `looks` looks, with the next one.
    pub open spec fn looks_left(looks: u32) -> nat {
        if looks < LOOKS {
            (LOOKS - looks) as nat
        } else {
            1
        }
    }

    /// A request that does not wait is over after a few steps, whatever it finds and whatever other
    /// threads do.
    pub proof fn requests_are_short(self, yes: bool)
        ensures
            self !is Granted && self !is Denied ==> self.after(yes).steps_left()
                < self.steps_left(),
            self.steps_left() == 0 <==> self is Granted || self is Denied,
    {
    }

    /// An exclusive reference is had only with the block in hand and no standard reference left, and
    /// a request that is denied leaves no block behind.
    pub proof fn requests_are_sound(self, yes: bool)
        ensures
            self.after(yes) is Granted ==> self is Granted || (self is Look && yes),
            self.after(yes) is Look ==> (self is Block && yes) || self is Wait,
            self.after(yes) is Wait ==> self is Look && !yes,
            self.after(yes) is Denied ==> self is Denied || self is Unblock || (self is Block
                && !yes),
    {
    }

    /// A request that does not get the block is denied at once. One that has it looks, is granted at
    /// the first look that finds no standard reference, whichever that is, and otherwise looks as
    /// often as there are looks before it gives the block back and is denied.
    pub proof fn requests_look_often_enough(looks: u32)
        ensures
            ExclusiveStep::Block.after(false) is Denied,
            ExclusiveStep::Block.after(true) == (ExclusiveStep::Look { looks: 0 }),
            (ExclusiveStep::Look { looks }).after(true) is Granted,
            (ExclusiveStep::Look { looks }).after(false) == (ExclusiveStep::Wait { looks }),
            looks < LOOKS - 1 ==> (ExclusiveStep::Wait { looks }).after(true) == (
            ExclusiveStep::Look { looks: (looks + 1) as u32 }),
            looks >= LOOKS - 1 ==> (ExclusiveStep::Wait { looks }).after(true) is Unblock,
            (ExclusiveStep::Wait { looks }).after(true) == (ExclusiveStep::Wait { looks }).after(
                false,
            ),
            ExclusiveStep::Unblock.after(true) is Denied,
            ExclusiveStep::Granted.after(true) is Granted,
            ExclusiveStep::Denied.after(true) is Denied,
    {
    }

    /// What comes after this step, when `yes` is the answer to what it looked for or attempted.
    pub open spec fn after(self, yes: bool) -> ExclusiveStep {
        match self {
            ExclusiveStep::Block => if yes {
                ExclusiveStep::Look { looks: 0 }
            } else {
                ExclusiveStep::Denied
            },
            ExclusiveStep::Look { looks } => if yes {
                ExclusiveStep::Granted
            } else {
                ExclusiveStep::Wait { looks }
            },
            ExclusiveStep::Wait { looks } => if looks + 1 < LOOKS {
                ExclusiveStep::Look { looks: (looks + 1) as u32 }
            } else {
                ExclusiveStep::Unblock
            },
            ExclusiveStep::Unblock => ExclusiveStep::Denied,
            ExclusiveStep::Granted | ExclusiveStep::Denied => self,
        }
    }

    /// Decides what comes after this step.
    pub fn advance(self, yes: bool) -> (next: Self)
        ensures
            next == self.after(yes),
    {
        match self {
            ExclusiveStep::Block => if yes {
                ExclusiveStep::Look { looks: 0 }
            } else {
                ExclusiveStep::Denied
            },
            ExclusiveStep::Look { looks } => if yes {
                ExclusiveStep::Granted
            } else {
                ExclusiveStep::Wait { looks }
            },
            ExclusiveStep::Wait { looks } => if looks < LOOKS - 1 {
                ExclusiveStep::Look { looks: looks + 1 }
            } else {
                // There still are references.
                ExclusiveStep::Unblock
            },
            ExclusiveStep::Unblock => ExclusiveStep::Denied,
            ExclusiveStep::Granted => ExclusiveStep::Granted,
            ExclusiveStep::Denied => ExclusiveStep::Denied,
        }
    }
}

/// Where a request is that waits in a loop until it has its reference.
#[derive(Clone, Copy, Debug, PartialEq, Eq, Structural)]
pub enum BlockingStep {
    /// Attempt the grab.
    TryGrab,
    /// Wait before the next attempt.
    WaitGrab,
    /// Look whether no standard references are left.
    LookRefs,
    /// Wait before the next look.
    WaitRefs,
    /// The reference is had.
    Granted,
}

impl BlockingStep {
    /// What comes after this step, when `yes` is the answer to what it looked for or attempted. A
    /// standard reference is had with the grab; an exclusive one waits for the standard ones to go.
    pub open spec fn after(self, grab: Grab, yes: bool) -> BlockingStep {
        match self {
            BlockingStep::TryGrab => if !yes {
                BlockingStep::WaitGrab
            } else {
                match grab {
                    Grab::Reference => BlockingStep::Granted,
                    Grab::Block => BlockingStep::LookRefs,
                }
            },
            BlockingStep::WaitGrab => BlockingStep::TryGrab,
            BlockingStep::LookRefs => if yes {
                BlockingStep::Granted
            } else {
                BlockingStep::WaitRefs
            },
            BlockingStep::WaitRefs => BlockingStep::LookRefs,
            BlockingStep::Granted => self,
        }
    }

    /// How many steps are left at least.
    pub open spec fn steps_left(self, grab: Grab) -> nat {
        let looks: nat = if grab is Block {
            1
        } else {
            0
        };
        match self {
            BlockingStep::TryGrab => 1 + looks,
            BlockingStep::WaitGrab => 2 + looks,
            BlockingStep::LookRefs => 1,
            BlockingStep::WaitRefs => 2,
            BlockingStep::Granted => 0,
        }
    }

    /// A reference is had only with the grab in hand and, if it is exclusive, with no standard
    /// reference left. A request that is answered with no waits and asks again, and one that is
    /// answered with yes gets on.
    pub proof fn requests_are_sound(self, grab: Grab, yes: bool)
        ensures
            self.after(grab, yes) is Granted ==> self is Granted || (yes && match grab {
                Grab::Reference => self is TryGrab || self is LookRefs,
                Grab::Block => self is LookRefs,
            }),
            self.after(grab, yes) is LookRefs ==> self is WaitRefs || (self is TryGrab && yes
                && grab is Block),
            self is TryGrab || self is LookRefs ==> self.after(grab, false).after(grab, yes)
                == self,
            self !is Granted ==> self.after(grab, true).steps_left(grab) < self.steps_left(grab),
    {
    }

    /// A standard reference is had as soon as it is grabbed, and an exclusive one as soon as, with the
    /// block grabbed, no standard reference is left.
    pub proof fn requests_end_when_they_can(grab: Grab)
        ensures
            BlockingStep::TryGrab.after(Grab::Reference, true) is Granted,
            BlockingStep::TryGrab.after(Grab::Block, true) is LookRefs,
            BlockingStep::LookRefs.after(grab, true) is Granted,
            BlockingStep::TryGrab.after(grab, false) is WaitGrab,
            BlockingStep::LookRefs.after(grab, false) is WaitRefs,
            BlockingStep::Granted.after(grab, true) is Granted,
            BlockingStep::Granted.after(grab, false) is Granted,
    {
    }

    /// Decides what comes after this step.
    pub fn advance(self, grab: Grab, yes: bool) -> (next: Self)
        ensures
            next == self.after(grab, yes),
    {
        match (self, grab, yes) {
            (BlockingStep::TryGrab, _, false) => BlockingStep::WaitGrab,
            (BlockingStep::TryGrab, Grab::Reference, true) => BlockingStep::Granted,
            (BlockingStep::TryGrab, Grab::Block, true) => BlockingStep::LookRefs,
            (BlockingStep::WaitGrab, _, _) => BlockingStep::TryGrab,
            (BlockingStep::LookRefs, _, true) => BlockingStep::Granted,
            (BlockingStep::LookRefs, _, false) => BlockingStep::WaitRefs,
            (BlockingStep::WaitRefs, _, _) => BlockingStep::LookRefs,
            (BlockingStep::Granted, _, _) => BlockingStep::Granted,
        }
    }
}

/// Where a thread is that allows references again and wakes those that wait.
#[derive(Clone, Copy, Debug, PartialEq, Eq, Structural)]
pub enum UnblockStep {
    /// Clear the block bit.
    Clear,
    /// Pop a waiter from the waiter queue, as the `first` or not.
    Pop { first: bool },
    /// Wait briefly, for there was no first waiter.
    Spin,
    /// Wake the waiter that was popped.
    Wake,
    /// All are woken.
    Over,
}

impl UnblockStep {
    /// What comes after this step, when `yes` says whether a waiter was popped. The queue is popped
    /// until it is found empty.
    pub open spec fn after(self, yes: bool) -> UnblockStep {
        match self {
            UnblockStep::Clear => UnblockStep::Pop { first: true },
            UnblockStep::Pop { first } => if yes {
                UnblockStep::Wake
            } else if first {
                UnblockStep::Spin
            } else {
                UnblockStep::Over
            },
            UnblockStep::Spin | UnblockStep::Wake => UnblockStep::Pop { first: false },
            UnblockStep::Over => self,
        }
    }

    /// Each waiter that is popped is woken before the next is popped, and the thread does not stop
    /// before it popped in vain. A first pop in vain is made once more.
    pub proof fn all_are_woken(self, first: bool, yes: bool)
        ensures
            UnblockStep::Clear.after(yes) == (UnblockStep::Pop { first: true }),
            (UnblockStep::Pop { first }).after(true) is Wake,
            UnblockStep::Wake.after(yes) == (UnblockStep::Pop { first: false }),
            (UnblockStep::Pop { first: true }).after(false) is Spin,
            UnblockStep::Spin.after(yes) == (UnblockStep::Pop { first: false }),
            self.after(yes) is Over <==> self is Over || (self is Pop && !yes && self
                != (UnblockStep::Pop { first: true })),
    {
    }

    /// Decides what comes after this step.
    pub fn advance(self, yes: bool) -> (next: Self)
        ensures
            next == self.after(yes),
    {
        match (self, yes) {
            (UnblockStep::Clear, _) => UnblockStep::Pop { first: true },
            (UnblockStep::Pop { .. }, true) => UnblockStep::Wake,
            (UnblockStep::Pop { first: true }, false) => UnblockStep::Spin,
            (UnblockStep::Pop { first: false }, false) => UnblockStep::Over,
            (UnblockStep::Spin, _) | (UnblockStep::Wake, _) => UnblockStep::Pop { first: false },
            (UnblockStep::Over, _) => UnblockStep::Over,
        }
    }
}

/// How a request for an exclusive reference that may wait begins.
#[derive(Clone, Copy, Debug, PartialEq, Eq, Structural)]
pub enum ExclusiveStart {
    /// The exclusive reference is had.
    Ready,
    /// References are blocked, and the standard ones that are left are to be waited for.
    AwaitRefs,
    /// The block is to be waited for first.
    AwaitBlock,
}

/// How a request begins: `blocked` says whether the request has blocked references, and `no_refs`
/// whether no standard references are left.
pub fn exclusive_start(blocked: bool, no_refs: bool) -> (start: ExclusiveStart)
    ensures
        start == (if !blocked {
            ExclusiveStart::AwaitBlock
        } else if no_refs {
            ExclusiveStart::Ready
        } else {
            ExclusiveStart::AwaitRefs
        }),
{
    if blocked {
        if no_refs {
            ExclusiveStart::Ready
        } else {
            ExclusiveStart::AwaitRefs
        }
    } else {
        ExclusiveStart::AwaitBlock
    }
}

/// Where a poll of a future is that waits for an exclusive reference.
#[derive(Clone, Copy, Debug, PartialEq, Eq, Structural)]
pub enum ExclusivePollStep {
    /// Poll the future that waits for the block.
    PollBlock,
    /// Look whether no standard references are left.
    LookRefs,
    /// Ask to be polled again.
    WakeSelf,
    /// The future is ready.
    Ready,
    /// The future is not ready.
    Pending,
}

impl ExclusivePollStep {
    /// Where a poll starts: with the block, if it is still `awaited`.
    pub open spec fn starts(awaited: bool) -> ExclusivePollStep {
        if awaited {
            ExclusivePollStep::PollBlock
        } else {
            ExclusivePollStep::LookRefs
        }
    }

    /// What comes after this step, when `yes` is the answer to what it looked for or attempted.
    pub open spec fn after(self, yes: bool) -> ExclusivePollStep {
        match self {
            ExclusivePollStep::PollBlock => if yes {
                ExclusivePollStep::LookRefs
            } else {
                ExclusivePollStep::Pending
            },
            ExclusivePollStep::LookRefs => if yes {
                ExclusivePollStep::Ready
            } else {
                // The future holds the block, and just waits for the count to reach zero.
                ExclusivePollStep::WakeSelf
            },
            ExclusivePollStep::WakeSelf => ExclusivePollStep::Pending,
            ExclusivePollStep::Ready | ExclusivePollStep::Pending => self,
        }
    }

    /// How many steps are left at most.
    pub open spec fn steps_left(self) -> nat {
        match self {
            ExclusivePollStep::PollBlock => 3,
            ExclusivePollStep::LookRefs => 2,
            ExclusivePollStep::WakeSelf => 1,
            ExclusivePollStep::Ready | ExclusivePollStep::Pending => 0,
        }
    }

    /// A poll neither blocks nor spins: it is over after a few steps, whatever it finds and whatever
    /// other threads do.
    pub proof fn polls_are_short(self, yes: bool)
        ensures
            self !is Ready && self !is Pending ==> self.after(yes).steps_left()
                < self.steps_left(),
            self.steps_left() == 0 <==> self is Ready || self is Pending,
    {
    }

    /// A poll is ready only once the block is had, with no standard reference left.
    pub proof fn polls_are_sound(self, yes: bool)
        ensures
            self.after(yes) is Ready ==> self is Ready || (self is LookRefs && yes),
            self.after(yes) is LookRefs ==> self is PollBlock && yes,
    {
    }

    /// A poll awaits the block first, if it is still to be had. Once it is had the future is ready as
    /// soon as no standard reference is left, and until then it asks to be polled again.
    pub proof fn polls_end_when_they_can(yes: bool)
        ensures
            Self::starts(true) is PollBlock,
            Self::starts(false) is LookRefs,
            ExclusivePollStep::PollBlock.after(true) is LookRefs,
            ExclusivePollStep::PollBlock.after(false) is Pending,
            ExclusivePollStep::LookRefs.after(true) is Ready,
            ExclusivePollStep::LookRefs.after(false) is WakeSelf,
            ExclusivePollStep::WakeSelf.after(yes) is Pending,
            ExclusivePollStep::Ready.after(yes) is Ready,
            ExclusivePollStep::Pending.after(yes) is Pending,
    {
    }

    /// Where a poll starts.
    pub fn start(awaited: bool) -> (step: Self)
        ensures
            step == Self::starts(awaited),
    {
        if awaited {
            ExclusivePollStep::PollBlock
        } else {
            ExclusivePollStep::LookRefs
        }
    }

    /// Decides what comes after this step.
    pub fn advance(self, yes: bool) -> (next: Self)
        ensures
            next == self.after(yes),
    {
        match (self, yes) {
            (ExclusivePollStep::PollBlock, true) => ExclusivePollStep::LookRefs,
            (ExclusivePollStep::LookRefs, true) => ExclusivePollStep::Ready,
            (ExclusivePollStep::LookRefs, false) => ExclusivePollStep::WakeSelf,
            (ExclusivePollStep::Ready, _) => ExclusivePollStep::Ready,
            (_, _) => ExclusivePollStep::Pending,
        }
    }
}

} // verus!
