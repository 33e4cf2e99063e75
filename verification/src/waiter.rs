//! Futures that wait.

use vstd::prelude::*;

verus! {

/// A future that waits to be woken: the task that polls it, and the flag that tells the future
/// whether it is registered in the waiter queue. Both are known by a number that whoever runs the
/// tasks gives them.
///
/// Whenever the waiter is woken its flag is lowered, so that the future registers again if it still
/// is not ready when it is polled next.
#[derive(Clone, Copy, Debug, PartialEq, Eq, Structural)]
pub struct Waiter {
    /// The task to wake.
    pub waker: usize,
    /// The flag of the future.
    pub registered: usize,
}

impl Waiter {
    /// A waiter for the task `waker` and the flag `registered`.
    pub fn new(waker: usize, registered: usize) -> (waiter: Self)
        ensures
            waiter.waker == waker,
            waiter.registered == registered,
    {
        Waiter { waker, registered }
    }

    /// Sets the flag of the future, which it reads when it is polled next.
    pub fn set_registered(&self, flag: &mut bool, is_registered: bool)
        ensures
            *final(flag) == is_registered,
    {
        *flag = is_registered;
    }

    /// Lowers the flag of the future, and says which task to wake.
    pub fn wake(self, flag: &mut bool) -> (task: usize)
        ensures
            !*final(flag),
            task == self.waker,
    {
        self.set_registered(flag, false);
        self.waker
    }

    /// Says which task to wake, and leaves the flag of the future alone.
    pub fn inner_wake(self) -> (task: usize)
        ensures
            task == self.waker,
    {
        self.waker
    }
}

} // verus!
