//! The readiness poller: what it is asked to watch, how long it waits, and
//! what its answers mean.
//!
//! Edge triggered: a wakeup arrives when readiness changes, so whoever is woken
//! uses the readiness up before waiting again. A reader has when the kernel says
//! that it would block; a writer has then too, or once a write has shown that
//! the buffer is full.
use vstd::prelude::*;

use crate::reactor::error::{Errno, Result};
use crate::reactor::platform::{epollerr, epollet, epollhup, epollin, epollout, epollrdhup};

verus! {

/// What a caller is waiting for.
#[derive(Debug, Clone, Copy, PartialEq, Eq, Structural)]
pub struct Interest {
    /// Wake when the descriptor becomes readable.
    pub readable: bool,
    /// Wake when the descriptor becomes writable.
    pub writable: bool,
}

impl Interest {
    /// Readable only.
    pub fn readable() -> (interest: Self)
        ensures
            interest == (Interest { readable: true, writable: false }),
    {
        Interest { readable: true, writable: false }
    }

    /// Writable only.
    pub fn writable() -> (interest: Self)
        ensures
            interest == (Interest { readable: false, writable: true }),
    {
        Interest { readable: false, writable: true }
    }

    /// Both directions.
    pub fn both() -> (interest: Self)
        ensures
            interest == (Interest { readable: true, writable: true }),
    {
        Interest { readable: true, writable: true }
    }
}

/// A readiness notification for one descriptor.
#[derive(Debug, Clone, Copy, PartialEq, Eq, Structural)]
pub struct Event {
    /// The token registered alongside the descriptor.
    pub token: u64,
    /// The descriptor may be readable. Treat as a hint: read until it blocks.
    pub readable: bool,
    /// The descriptor may be writable. Treat as a hint: write until it blocks.
    pub writable: bool,
    /// The peer hung up, or the descriptor failed.
    ///
    /// Reported beside `readable` rather than folded into it: readability is
    /// consumed by a read, a hang-up is permanent, and the two can arrive on
    /// one edge.
    pub hangup: bool,
}

/// One event as the kernel writes it.
#[derive(Debug, Clone, Copy, PartialEq, Eq, Structural)]
pub struct RawEvent {
    /// What happened, as a mask.
    pub events: u32,
    /// The token of the descriptor it happened to.
    pub token: u64,
}

/// The token of the descriptor that only serves to interrupt a wait.
pub const WAKE_TOKEN: u64 = u64::MAX;

impl RawEvent {
    /// The descriptor failed or the peer is gone for good.
    pub open spec fn failed(self) -> bool {
        self.events & 0x18u32 != 0
    }

    /// What the event means. A failure is readiness in both directions, so
    /// that the next read or write meets the real error on its normal path. A
    /// half-close sets the hang-up flag but is no readiness of its own.
    pub open spec fn meaning(self) -> Event {
        Event {
            token: self.token,
            readable: self.failed() || self.events & 1u32 != 0,
            writable: self.failed() || self.events & 4u32 != 0,
            hangup: self.failed() || self.events & 0x2000u32 != 0,
        }
    }
}

/// What the events in `raw` mean, in order, leaving out those that only
/// interrupted the wait.
pub open spec fn meanings(raw: Seq<RawEvent>) -> Seq<Event>
    decreases raw.len(),
{
    if raw.len() == 0 {
        Seq::empty()
    } else if raw.last().token == WAKE_TOKEN {
        meanings(raw.drop_last())
    } else {
        meanings(raw.drop_last()).push(raw.last().meaning())
    }
}

/// What to watch a descriptor for, as a mask: changes rather than states, and
/// a half-close along with readability, since without it an ordinary
/// half-close is indistinguishable from data.
pub fn mask(interest: Interest) -> (bits: u32)
    ensures
        bits == 0x8000_0000 + (if interest.readable {
            0x2001int
        } else {
            0
        }) + (if interest.writable {
            4int
        } else {
            0
        }),
{
    let mut bits: u32 = epollet();
    if interest.readable {
        bits = bits | (epollin() | epollrdhup());
    }
    if interest.writable {
        bits = bits | epollout();
    }
    assert(0x8000_0000u32 | (1u32 | 0x2000u32) == 0x8000_2001u32) by (bit_vector);
    assert(0x8000_2001u32 | 4u32 == 0x8000_2005u32) by (bit_vector);
    assert(0x8000_0000u32 | 4u32 == 0x8000_0004u32) by (bit_vector);
    bits
}

/// A timeout in the unit of the wait: milliseconds, rounded up, and -1 to wait
/// for as long as it takes.
///
/// Rounding a part of a millisecond down to zero would spin; firing a timer a
/// fraction late is the lesser error.
pub fn timeout_ms(timeout_ns: Option<u64>) -> (timeout: i32)
    ensures
        timeout == (match timeout_ns {
            None => -1int,
            Some(ns) => if (ns + 999_999) / 1_000_000 > i32::MAX {
                i32::MAX as int
            } else {
                (ns + 999_999) / 1_000_000
            },
        }),
{
    match timeout_ns {
        None => -1,
        Some(ns) => {
            let whole: u64 = ns / 1_000_000;
            let ms: u64 = if ns % 1_000_000 == 0 {
                whole
            } else {
                whole + 1
            };
            assert(ms == (ns + 999_999) / 1_000_000);
            if ms > i32::MAX as u64 {
                i32::MAX
            } else {
                ms as i32
            }
        },
    }
}

/// Wait for readiness: append to `out` what the kernel's answer means. Whether
/// the interrupting descriptor was among it, and so has to be drained, comes
/// back.
///
/// No events are normal: the timeout expired, or a signal cut the wait short,
/// or the wait was interrupted on purpose.
pub fn wait(answer: Result<Vec<RawEvent>>, out: &mut Vec<Event>) -> (result: Result<bool>)
    ensures
        (match answer {
            Err(error) => {
                &&& final(out)@ == old(out)@
                &&& result == (if error.is_interrupted() {
                    Ok::<bool, Errno>(false)
                } else {
                    Err::<bool, Errno>(error)
                })
            },
            Ok(raw) => {
                &&& final(out)@ == old(out)@ + meanings(raw@)
                &&& result is Ok
                &&& result->Ok_0 == exists|i: int|
                    0 <= i < raw@.len() && (#[trigger] raw@[i]).token == WAKE_TOKEN
            },
        }),
{
    let raw: Vec<RawEvent> = match answer {
        Err(error) => {
            return if error.interrupted() {
                Ok(false)
            } else {
                Err(error)
            };
        },
        Ok(raw) => raw,
    };
    let mut drain = false;
    let mut i: usize = 0;
    assert(raw@.take(0) =~= Seq::<RawEvent>::empty());
    assert(out@ =~= old(out)@ + meanings(raw@.take(0)));
    while i < raw.len()
        invariant
            i <= raw@.len(),
            out@ == old(out)@ + meanings(raw@.take(i as int)),
            drain == exists|k: int| 0 <= k < i && (#[trigger] raw@[k]).token == WAKE_TOKEN,
        decreases raw@.len() - i,
    {
        let event = raw[i];
        proof {
            assert(raw@.take(i + 1).drop_last() =~= raw@.take(i as int));
            assert(raw@.take(i + 1).last() == event);
            assert(8u32 | 0x10u32 == 0x18u32) by (bit_vector);
            assert(0x10u32 | 8u32 == 0x18u32) by (bit_vector);
        }
        if event.token == WAKE_TOKEN {
            drain = true;
        } else {
            let flags: u32 = event.events;
            let failed = flags & (epollhup() | epollerr()) != 0;
            out.push(
                Event {
                    token: event.token,
                    readable: failed || flags & epollin() != 0,
                    writable: failed || flags & epollout() != 0,
                    hangup: failed || flags & epollrdhup() != 0,
                },
            );
        }
        i = i + 1;
        assert(out@ =~= old(out)@ + meanings(raw@.take(i as int)));
    }
    assert(raw@.take(i as int) =~= raw@);
    Ok(drain)
}

/// Interrupt a wait: decide on what the write that does so returned. A counter
/// that is full already means that a wake is pending.
pub fn wake(answer: isize, errno: i32) -> (result: Result<()>)
    ensures
        result == (if answer < 0 && !Errno(errno).is_would_block() {
            Err(Errno(errno))
        } else {
            Ok(())
        }),
{
    if answer < 0 {
        let error = Errno(errno);
        if error.would_block() {
            return Ok(());
        }
        return Err(error);
    }
    Ok(())
}

/// A half-close or a failure that arrives with the last of the data is
/// reported beside it, never instead of it.
pub proof fn law_a_hangup_is_reported_beside_the_data(raw: RawEvent)
    requires
        raw.events & 1u32 != 0,
    ensures
        raw.meaning().readable,
        raw.meaning().hangup <==> raw.failed() || raw.events & 0x2000u32 != 0,
{
}

/// What the kernel's bits mean, one by one: readable, writable, failed, hung up
/// and half-closed. A failure or a hang-up is readiness both ways.
pub proof fn law_each_bit_has_its_meaning(raw: RawEvent)
    ensures
        raw.meaning().token == raw.token,
        raw.meaning().readable <==> (raw.events & 1u32 != 0 || raw.events & 8u32 != 0
            || raw.events & 0x10u32 != 0),
        raw.meaning().writable <==> (raw.events & 4u32 != 0 || raw.events & 8u32 != 0
            || raw.events & 0x10u32 != 0),
        raw.meaning().hangup <==> (raw.events & 0x2000u32 != 0 || raw.events & 8u32 != 0
            || raw.events & 0x10u32 != 0),
{
    let bits = raw.events;
    assert(bits & 0x18u32 != 0 <==> (bits & 8u32 != 0 || bits & 0x10u32 != 0)) by (bit_vector);
}

/// Every event that the kernel reports is passed on, wherever in the answer it
/// stands, except those that only interrupted the wait; and nothing else is.
pub proof fn law_every_report_is_passed_on(raw: Seq<RawEvent>, event: Event)
    ensures
        meanings(raw).contains(event) <==> exists|i: int|
            0 <= i < raw.len() && (#[trigger] raw[i]).token != u64::MAX && raw[i].meaning()
                == event,
    decreases raw.len(),
{
    if raw.len() > 0 {
        let fewer = raw.drop_last();
        law_every_report_is_passed_on(fewer, event);
        assert(raw[raw.len() - 1] == raw.last());
        assert forall|i: int| 0 <= i < fewer.len() implies #[trigger] fewer[i] == raw[i] by {}
        let all = meanings(raw);
        let before = meanings(fewer);
        if raw.last().token != WAKE_TOKEN {
            assert(all[before.len() as int] == raw.last().meaning());
        }
        if before.contains(event) {
            assert(all[before.index_of(event)] == event);
        }
        if all.contains(event) {
            let k = all.index_of(event);
            if k < before.len() {
                assert(before[k] == event);
            } else {
                assert(raw[raw.len() - 1].meaning() == event);
            }
        }
        if exists|i: int|
            0 <= i < raw.len() && (#[trigger] raw[i]).token != u64::MAX && raw[i].meaning()
                == event {
            let i = choose|i: int|
                0 <= i < raw.len() && (#[trigger] raw[i]).token != u64::MAX && raw[i].meaning()
                    == event;
            if i < fewer.len() {
                assert(fewer[i] == raw[i]);
            }
        }
    }
}

/// An answer means what its parts mean, in the order the kernel has them; one
/// event means one event, or nothing where it only interrupted the wait.
pub proof fn law_an_answer_means_what_its_parts_mean(
    first: Seq<RawEvent>,
    second: Seq<RawEvent>,
    one: RawEvent,
)
    ensures
        meanings(first + second) == meanings(first) + meanings(second),
        meanings(seq![one]) == (if one.token == u64::MAX {
            Seq::<Event>::empty()
        } else {
            seq![one.meaning()]
        }),
    decreases second.len(),
{
    reveal_with_fuel(meanings, 2);
    assert(seq![one].drop_last() =~= Seq::<RawEvent>::empty());
    assert(meanings(seq![one]) =~= (if one.token == u64::MAX {
        Seq::<Event>::empty()
    } else {
        seq![one.meaning()]
    }));
    if second.len() == 0 {
        assert(first + second =~= first);
        assert(meanings(first) + meanings(second) =~= meanings(first));
    } else {
        law_an_answer_means_what_its_parts_mean(first, second.drop_last(), one);
        assert((first + second).drop_last() =~= first + second.drop_last());
        assert((first + second).last() == second.last());
        assert(meanings(first + second) =~= meanings(first) + meanings(second));
    }
}

} // verus!
