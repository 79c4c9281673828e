//! Giving the worker back once.
use vstd::prelude::*;

verus! {

/// What one poll of a yielding task comes to.
#[derive(Clone, Copy, Debug, PartialEq, Eq, Structural)]
pub enum Turn {
    /// Wake the task that polled, then report that it is not ready.
    WakeAndWait,
    /// The task has been around once: it is ready.
    Ready,
}

/// A future that is pending exactly once, having woken its own task first.
#[derive(Debug)]
pub struct YieldNow {
    yielded: bool,
}

/// A yield that has not been polled yet.
pub fn yield_now() -> (result: YieldNow)
    ensures
        !result.yielded(),
{
    YieldNow { yielded: false }
}

impl YieldNow {
    /// Whether the task has already been sent round once.
    pub closed spec fn yielded(&self) -> bool {
        self.yielded
    }

    /// The first poll sends the task round; every later one is ready.
    pub fn poll(&mut self) -> (turn: Turn)
        ensures
            turn == (if old(self).yielded() { Turn::Ready } else { Turn::WakeAndWait }),
            final(self).yielded(),
    {
        if self.yielded {
            Turn::Ready
        } else {
            self.yielded = true;
            Turn::WakeAndWait
        }
    }
}

} // verus!
