//! Counters for the calls into the kernel that the reactor makes.
//!
//! They answer the question a latency benchmark cannot, which is whether a gap
//! is how many calls were made or what each of them cost.
use vstd::prelude::*;

verus! {

/// How many calls were made since the counters were last taken.
#[derive(Debug, Clone, Copy, PartialEq, Eq, Structural)]
pub struct Counters {
    /// Every `recv`.
    pub recv: u64,
    /// Those that would have blocked, so the task had to park.
    pub recv_would_block: u64,
    /// Every wait in the poller.
    pub wait: u64,
    /// Every `sendmsg`.
    pub send: u64,
    /// Those that would have blocked.
    pub send_would_block: u64,
    /// Every wake of the poller.
    pub wake: u64,
}

/// One more, wrapping at the width of the counter.
pub open spec fn one_more(count: u64) -> u64 {
    if count == u64::MAX {
        0
    } else {
        (count + 1) as u64
    }
}

impl Counters {
    /// Nothing counted.
    pub fn new() -> (counters: Self)
        ensures
            counters == (Counters {
                recv: 0,
                recv_would_block: 0,
                wait: 0,
                send: 0,
                send_would_block: 0,
                wake: 0,
            }),
    {
        Counters { recv: 0, recv_would_block: 0, wait: 0, send: 0, send_would_block: 0, wake: 0 }
    }

    /// A `recv` was made.
    pub fn received(&mut self, would_block: bool)
        ensures
            *final(self) == (Counters {
                recv: one_more(old(self).recv),
                recv_would_block: if would_block {
                    one_more(old(self).recv_would_block)
                } else {
                    old(self).recv_would_block
                },
                ..*old(self)
            }),
    {
        self.recv = self.recv.wrapping_add(1);
        if would_block {
            self.recv_would_block = self.recv_would_block.wrapping_add(1);
        }
    }

    /// A `sendmsg` was made.
    pub fn sent(&mut self, would_block: bool)
        ensures
            *final(self) == (Counters {
                send: one_more(old(self).send),
                send_would_block: if would_block {
                    one_more(old(self).send_would_block)
                } else {
                    old(self).send_would_block
                },
                ..*old(self)
            }),
    {
        self.send = self.send.wrapping_add(1);
        if would_block {
            self.send_would_block = self.send_would_block.wrapping_add(1);
        }
    }

    /// The poller was waited in.
    pub fn waited(&mut self)
        ensures
            *final(self) == (Counters { wait: one_more(old(self).wait), ..*old(self) }),
    {
        self.wait = self.wait.wrapping_add(1);
    }

    /// The poller was woken.
    pub fn woken(&mut self)
        ensures
            *final(self) == (Counters { wake: one_more(old(self).wake), ..*old(self) }),
    {
        self.wake = self.wake.wrapping_add(1);
    }
}

/// Read and clear the counts of reads and waits.
pub fn take(counters: &mut Counters) -> (counts: (u64, u64, u64))
    ensures
        counts == (old(counters).recv, old(counters).recv_would_block, old(counters).wait),
        *final(counters) == (Counters { recv: 0, recv_would_block: 0, wait: 0, ..*old(counters) }),
{
    let counts: (u64, u64, u64) = (counters.recv, counters.recv_would_block, counters.wait);
    counters.recv = 0;
    counters.recv_would_block = 0;
    counters.wait = 0;
    counts
}

/// Read and clear the counts of writes.
pub fn take_writes(counters: &mut Counters) -> (counts: (u64, u64))
    ensures
        counts == (old(counters).send, old(counters).send_would_block),
        *final(counters) == (Counters { send: 0, send_would_block: 0, ..*old(counters) }),
{
    let counts: (u64, u64) = (counters.send, counters.send_would_block);
    counters.send = 0;
    counters.send_would_block = 0;
    counts
}

/// A call that is counted raises its counter by one; only a full counter starts
/// over.
pub proof fn law_calls_are_counted_one_by_one(count: u64)
    ensures
        count < u64::MAX ==> one_more(count) == count + 1,
        one_more(u64::MAX) == 0,
{
}

} // verus!
