//! Driving one future on the thread that asked.
use vstd::prelude::*;

verus! {

/// A one-shot signal from a waker to the thread that drives a future.
#[derive(Debug)]
pub struct Signal {
    woken: bool,
}

/// What the driving thread does next.
#[derive(Debug, Clone, Copy, PartialEq, Eq, Structural)]
pub enum DriveStep {
    /// Poll the future.
    Poll,
    /// Park until unparked. An unpark before the park is not lost, and a park
    /// may end for no reason.
    Park,
}

/// What came of the last step, short of the future's being ready.
#[derive(Debug, Clone, Copy, PartialEq, Eq, Structural)]
pub enum DriveEvent {
    /// Nothing has been done yet.
    Start,
    /// The poll came back pending.
    Pending,
    /// The park ended.
    Unparked,
}

impl View for Signal {
    type V = bool;

    /// A wake has arrived that no poll has answered.
    closed spec fn view(&self) -> bool {
        self.woken
    }
}

impl Signal {
    /// No wake yet.
    pub fn new() -> (signal: Self)
        ensures
            !signal@,
    {
        Signal { woken: false }
    }

    /// Wake the thread, which is to be unparked.
    pub fn wake(&mut self)
        ensures
            final(self)@,
    {
        self.woken = true;
    }

    /// Decide what the thread does next. A pending future is polled again only
    /// after a wake, and a wake that arrived during the poll counts.
    pub fn block_on(&mut self, event: DriveEvent) -> (step: DriveStep)
        ensures
            step == (if event is Start || old(self)@ {
                DriveStep::Poll
            } else {
                DriveStep::Park
            }),
            final(self)@ == (event is Start && old(self)@),
    {
        match event {
            DriveEvent::Start => DriveStep::Poll,
            _ => {
                if self.woken {
                    self.woken = false;
                    DriveStep::Poll
                } else {
                    DriveStep::Park
                }
            },
        }
    }
}

} // verus!
