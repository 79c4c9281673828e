//! Readiness in, wakers out.
//!
//! The reactor does not run tasks and does not touch sockets: it turns what
//! the poller reports into wakers to be called, and it fires timers.
//!
//! Timers are not consulted on every wakeup. The next deadline is cached, and
//! the registry of timers is touched only when that deadline has arrived or a
//! new one was armed, so socket traffic and timer work are independent.
use std::collections::HashMap;
use vstd::prelude::*;

use crate::reactor::error::Result;
use crate::reactor::poller::{Event, WAKE_TOKEN};
use crate::time::{law_a_round_calls_who_waits_for_what_is_due, law_a_round_fires_what_is_due};
use crate::time::{poll, Timers, TimersView};

verus! {

broadcast use vstd::std_specs::hash::group_hash_axioms;

/// Stands for "no timer armed". A real deadline is a nanosecond clock reading,
/// which does not reach this for any running system.
pub const NO_DEADLINE: u64 = u64::MAX;

/// How many indices a token has room for below its generation.
pub const INDICES: u64 = 0x1_0000_0000_0000;

/// How many generations it has room for above.
pub const GENERATIONS: u64 = 0x1_0000;

/// A token for a slot and its generation: the generation in the high 16 bits,
/// the index in the 48 below.
pub fn make_token(index: u64, generation: u64) -> (token: u64)
    requires
        index < INDICES,
        generation < GENERATIONS,
    ensures
        token == generation * INDICES + index,
{
    assert((generation << 48u64) | index == generation * 0x1_0000_0000_0000u64 + index)
        by (bit_vector)
        requires
            index < 0x1_0000_0000_0000u64,
            generation < 0x1_0000u64,
    ;
    (generation << 48u64) | index
}

/// Split a token into its slot index and generation.
pub fn split_token(token: u64) -> (parts: (u64, u64))
    ensures
        parts.0 == token % INDICES,
        parts.1 == token / INDICES,
{
    assert(token & 0xffff_ffff_ffffu64 == token % 0x1_0000_0000_0000u64) by (bit_vector);
    assert(token >> 48u64 == token / 0x1_0000_0000_0000u64) by (bit_vector);
    (token & 0xffff_ffff_ffff, token >> 48u64)
}

/// A token names the slot and the generation that it was made of.
pub proof fn law_a_token_splits_into_its_parts(index: u64, generation: u64)
    requires
        index < INDICES,
        generation < GENERATIONS,
    ensures
        generation * INDICES + index <= u64::MAX,
        (generation * INDICES + index) % (INDICES as int) == index,
        (generation * INDICES + index) / (INDICES as int) == generation,
{
}

/// The token that only serves to interrupt a wait is that of the very last slot
/// in its very last generation: no other slot has an event mistaken for it.
pub proof fn law_a_wake_is_no_slots_event(index: u64, generation: u64)
    requires
        index < INDICES,
        generation < GENERATIONS,
    ensures
        generation * INDICES + index == WAKE_TOKEN <==> index == INDICES - 1 && generation
            == GENERATIONS - 1,
{
}

/// Who waits for one descriptor, and what is known of it.
pub struct Wakers<W> {
    pub reader: Option<W>,
    pub writer: Option<W>,
    /// An edge has been seen since the last read drained the descriptor.
    pub readable: bool,
    /// An edge has been seen since the last write filled it.
    pub writable: bool,
    /// The peer has hung up. Never cleared: every later read finds the end.
    pub hangup: bool,
}

/// What came of asking for readiness.
pub struct Taken<W> {
    /// The descriptor may be ready, and the readiness is the caller's.
    pub ready: bool,
    /// A waker that is no longer held, to be destroyed.
    pub dropped: Option<W>,
    /// The waker that was offered, where it was not needed.
    pub unused: Option<W>,
}

/// The waker that is held once `offered` has been offered.
pub open spec fn held_after<W>(held: Option<W>, offered: Option<W>) -> Option<W> {
    if offered is Some {
        offered
    } else {
        held
    }
}

/// The waker that is let go once `offered` has been offered.
pub open spec fn let_go<W>(held: Option<W>, offered: Option<W>) -> Option<W> {
    if offered is Some {
        held
    } else {
        None
    }
}

/// Hold `offered`, unless it is `None`, and hand back what it replaces.
fn hold<W>(held: &mut Option<W>, offered: Option<W>) -> (dropped: Option<W>)
    ensures
        *final(held) == held_after(*old(held), offered),
        dropped == let_go(*old(held), offered),
{
    if offered.is_some() {
        let dropped = held.take();
        *held = offered;
        dropped
    } else {
        None
    }
}

impl<W> Wakers<W> {
    /// A descriptor that was just registered. It counts as ready both ways,
    /// because nobody knows: the poller reports changes, and whatever arrived
    /// before the registration is a change that is already gone.
    pub open spec fn fresh() -> Self {
        Wakers { reader: None, writer: None, readable: true, writable: true, hangup: false }
    }

    /// The descriptor is worth reading. A hung-up one always is: a read answers
    /// with the end rather than with "not yet".
    pub open spec fn worth_reading(self) -> bool {
        self.readable || self.hangup
    }

    /// What an event leaves.
    pub open spec fn after(self, event: Event) -> Self {
        let reads = event.readable || event.hangup;
        Wakers {
            reader: if reads { None } else { self.reader },
            writer: if event.writable { None } else { self.writer },
            readable: self.readable || reads,
            writable: self.writable || event.writable,
            hangup: self.hangup || event.hangup,
        }
    }

    /// The wakers that an event calls, the reader's first.
    pub open spec fn called(self, index: u64, event: Event) -> Seq<(u64, W)> {
        let reads = event.readable || event.hangup;
        let readers = if reads && self.reader is Some {
            seq![(index, self.reader->0)]
        } else {
            Seq::empty()
        };
        let writers = if event.writable && self.writer is Some {
            seq![(index, self.writer->0)]
        } else {
            Seq::empty()
        };
        readers + writers
    }

    fn new() -> (wakers: Self)
        ensures
            wakers == Self::fresh(),
    {
        Wakers { reader: None, writer: None, readable: true, writable: true, hangup: false }
    }

    /// Take readiness if there is any, and park `waker` if there is not.
    ///
    /// The caller reads only when this says so, and when it does not the waker
    /// is already parked, so no edge can arrive between the decision and the
    /// park.
    ///
    /// `waker` is `None` where the reader parked already would wake the same
    /// task.
    pub fn take_readable_or_park(&mut self, waker: Option<W>) -> (taken: Taken<W>)
        ensures
            taken.ready == old(self).worth_reading(),
            taken.ready ==> {
                &&& *final(self) == (Wakers { readable: false, ..*old(self) })
                &&& taken.dropped is None
                &&& taken.unused == waker
            },
            !taken.ready ==> {
                &&& *final(self) == (Wakers {
                    reader: held_after(old(self).reader, waker),
                    ..*old(self)
                })
                &&& taken.dropped == let_go(old(self).reader, waker)
                &&& taken.unused is None
            },
    {
        if self.readable || self.hangup {
            self.readable = false;
            return Taken { ready: true, dropped: None, unused: waker };
        }
        let dropped = hold(&mut self.reader, waker);
        Taken { ready: false, dropped, unused: None }
    }

    /// Note that the descriptor may still have data, for a caller that filled
    /// its buffer and so never proved it drained.
    pub fn mark_readable(&mut self)
        ensures
            *final(self) == (Wakers { readable: true, ..*old(self) }),
    {
        self.readable = true;
    }

    /// Park `waker` until the descriptor is readable. A waker that is no longer
    /// held is handed back.
    pub fn poll_readable(&mut self, waker: Option<W>) -> (dropped: Option<W>)
        ensures
            *final(self) == (Wakers {
                reader: held_after(old(self).reader, waker),
                ..*old(self)
            }),
            dropped == let_go(old(self).reader, waker),
    {
        hold(&mut self.reader, waker)
    }

    /// Take writable readiness, or park `waker` for the next edge.
    pub fn take_writable_or_park(&mut self, waker: Option<W>) -> (taken: Taken<W>)
        ensures
            taken.ready == old(self).writable,
            taken.ready ==> {
                &&& *final(self) == (Wakers { writable: false, ..*old(self) })
                &&& taken.dropped is None
                &&& taken.unused == waker
            },
            !taken.ready ==> {
                &&& *final(self) == (Wakers {
                    writer: held_after(old(self).writer, waker),
                    ..*old(self)
                })
                &&& taken.dropped == let_go(old(self).writer, waker)
                &&& taken.unused is None
            },
    {
        if self.writable {
            self.writable = false;
            return Taken { ready: true, dropped: None, unused: waker };
        }
        let dropped = hold(&mut self.writer, waker);
        Taken { ready: false, dropped, unused: None }
    }

    /// Note that the descriptor may still have room, for a caller whose write
    /// was accepted whole and so never proved the buffer full.
    pub fn mark_writable(&mut self)
        ensures
            *final(self) == (Wakers { writable: true, ..*old(self) }),
    {
        self.writable = true;
    }

    /// Park `waker` until the descriptor is writable. A waker that is no longer
    /// held is handed back.
    pub fn poll_writable(&mut self, waker: Option<W>) -> (dropped: Option<W>)
        ensures
            *final(self) == (Wakers {
                writer: held_after(old(self).writer, waker),
                ..*old(self)
            }),
            dropped == let_go(old(self).writer, waker),
    {
        hold(&mut self.writer, waker)
    }

    /// Take note of an event, and append the wakers it calls.
    ///
    /// The hang-up is latched together with the readiness, so a reader that
    /// wakes on this edge sees both.
    fn deliver(&mut self, index: u64, event: &Event, pending: &mut Vec<(u64, W)>)
        ensures
            *final(self) == old(self).after(*event),
            final(pending)@ == old(pending)@ + old(self).called(index, *event),
    {
        if event.hangup {
            self.hangup = true;
        }
        if event.readable || event.hangup {
            self.readable = true;
            if let Some(waker) = self.reader.take() {
                pending.push((index, waker));
            }
        }
        if event.writable {
            self.writable = true;
            if let Some(waker) = self.writer.take() {
                pending.push((index, waker));
            }
        }
        assert(pending@ =~= old(pending)@ + old(self).called(index, *event));
    }
}

/// One registered descriptor.
pub struct Slot<W> {
    /// Told apart from earlier users of the index by this number.
    pub generation: u64,
    pub wakers: Wakers<W>,
}

/// A descriptor's registration.
#[derive(Debug)]
pub struct Registration {
    fd: i32,
    index: u64,
    token: u64,
}

impl Registration {
    /// The descriptor.
    pub closed spec fn fd(self) -> i32 {
        self.fd
    }

    /// The slot it has.
    pub closed spec fn index(self) -> u64 {
        self.index
    }

    /// The token that the poller reports for it.
    pub closed spec fn token(self) -> u64 {
        self.token
    }

    /// The descriptor and the token, for telling the poller about.
    pub fn watched(&self) -> (watched: (i32, u64))
        ensures
            watched.0 == self.fd(),
            watched.1 == self.token(),
    {
        (self.fd, self.token)
    }
}

/// The registered descriptors, and when the next timer is due.
pub struct Reactor<W> {
    slots: HashMap<u64, Slot<W>>,
    next_index: u64,
    running: bool,
    /// When the earliest known timer is due, or [`NO_DEADLINE`].
    next_deadline: u64,
}

/// A [`Reactor`] as its users see it.
#[verifier::ext_equal]
pub struct ReactorView<W> {
    /// The registered descriptors, by index.
    pub slots: Map<u64, Slot<W>>,
    /// The index that the next one gets.
    pub next_index: u64,
    pub running: bool,
    /// When the earliest known timer is due, or [`NO_DEADLINE`].
    pub next_deadline: u64,
}

impl<W> View for Reactor<W> {
    type V = ReactorView<W>;

    closed spec fn view(&self) -> ReactorView<W> {
        ReactorView {
            slots: self.slots@,
            next_index: self.next_index,
            running: self.running,
            next_deadline: self.next_deadline,
        }
    }
}

/// The slot that a token names.
pub open spec fn token_index(token: u64) -> u64 {
    token % INDICES
}

/// The generation that a token names.
pub open spec fn token_generation(token: u64) -> u64 {
    token / INDICES
}

impl<W> ReactorView<W> {
    /// A reactor with nothing registered and no timer armed.
    pub open spec fn empty() -> Self {
        ReactorView {
            slots: Map::empty(),
            next_index: 0,
            running: true,
            next_deadline: NO_DEADLINE,
        }
    }

    /// What holds of every reactor: an index in use was handed out, and every
    /// slot is in its first generation.
    pub open spec fn consistent(self) -> bool {
        &&& self.next_index <= INDICES
        &&& forall|index: u64| #[trigger]
            self.slots.contains_key(index) ==> index < self.next_index
                && self.slots[index].generation == 1
    }

    /// A token that names a slot in use, in the generation it is in.
    pub open spec fn current(self, token: u64) -> bool {
        &&& self.slots.contains_key(token_index(token))
        &&& self.slots[token_index(token)].generation == token_generation(token)
    }

    /// One more descriptor is registered.
    pub open spec fn registered(self) -> Self {
        ReactorView {
            slots: self.slots.insert(
                self.next_index,
                Slot { generation: 1, wakers: Wakers::fresh() },
            ),
            next_index: (self.next_index + 1) as u64,
            ..self
        }
    }

    /// The descriptor is gone.
    pub open spec fn deregistered(self, index: u64) -> Self {
        ReactorView { slots: self.slots.remove(index), ..self }
    }

    /// The same reactor with other wakers at `index`.
    pub open spec fn with_wakers(self, index: u64, wakers: Wakers<W>) -> Self {
        ReactorView {
            slots: self.slots.insert(
                index,
                Slot { generation: self.slots[index].generation, wakers },
            ),
            ..self
        }
    }

    /// What an event leaves. An event for a slot that is gone, or of another
    /// generation, is stale and leaves everything as it was.
    pub open spec fn after(self, event: Event) -> Self {
        if self.current(event.token) {
            let index = token_index(event.token);
            self.with_wakers(index, self.slots[index].wakers.after(event))
        } else {
            self
        }
    }

    /// The wakers that an event calls, each with the index it comes from.
    pub open spec fn called(self, event: Event) -> Seq<(u64, W)> {
        if self.current(event.token) {
            let index = token_index(event.token);
            self.slots[index].wakers.called(index, event)
        } else {
            Seq::empty()
        }
    }

    /// What a batch of events leaves.
    pub open spec fn after_all(self, events: Seq<Event>) -> Self
        decreases events.len(),
    {
        if events.len() == 0 {
            self
        } else {
            self.after_all(events.drop_last()).after(events.last())
        }
    }

    /// The wakers that a batch of events calls, in order.
    pub open spec fn all_called(self, events: Seq<Event>) -> Seq<(u64, W)>
        decreases events.len(),
    {
        if events.len() == 0 {
            Seq::empty()
        } else {
            self.all_called(events.drop_last()) + self.after_all(events.drop_last()).called(
                events.last(),
            )
        }
    }

    /// The timers have to be asked: a deadline has come, or none is known.
    pub open spec fn timers_due(self, now: u64) -> bool {
        self.next_deadline == NO_DEADLINE || self.next_deadline <= now
    }
}

/// What the cache holds when this is the next deadline.
pub open spec fn cached(next: Option<u64>) -> u64 {
    match next {
        Some(deadline) => deadline,
        None => NO_DEADLINE,
    }
}

/// How long it is from `now` to the next deadline.
pub open spec fn time_left(next: Option<u64>, now: u64) -> Option<u64> {
    match next {
        Some(deadline) => Some(
            if deadline > now {
                (deadline - now) as u64
            } else {
                0
            },
        ),
        None => None,
    }
}

/// Milliseconds in nanoseconds, held at the largest there are.
pub open spec fn millis_as_nanos(millis: u64) -> u64 {
    if millis * 1_000_000 > u64::MAX {
        u64::MAX
    } else {
        (millis * 1_000_000) as u64
    }
}

/// The shorter of two waits, where `None` is a wait without end.
pub open spec fn shorter(a: Option<u64>, b: Option<u64>) -> Option<u64> {
    match (a, b) {
        (Some(x), Some(y)) => Some(if x < y { x } else { y }),
        (Some(x), None) => Some(x),
        (None, y) => y,
    }
}

/// A round of timers at `now` handed back `wakers`.
pub open spec fn timers_served<W>(
    before: TimersView<W>,
    after: TimersView<W>,
    now: u64,
    wakers: Seq<W>,
) -> bool {
    &&& after == before.fired(now)
    &&& exists|order: Seq<usize>| #[trigger]
        before.firing_order(now, order) && wakers == before.wakers_in(order)
}

impl<W> Reactor<W> {
    /// Well-formedness.
    pub closed spec fn wf(self) -> bool {
        self@.consistent()
    }

    /// Every reactor is consistent as its users see it.
    pub proof fn lemma_consistent(self)
        requires
            self.wf(),
        ensures
            self@.consistent(),
    {
    }

    /// Putting the wakers of a slot back as they were changes nothing.
    pub proof fn lemma_same_wakers(self, index: u64)
        requires
            self@.slots.contains_key(index),
        ensures
            self@.with_wakers(index, self@.slots[index].wakers) == self@,
    {
        assert(self@.with_wakers(index, self@.slots[index].wakers).slots =~= self@.slots);
    }

    /// A reactor with nothing registered.
    pub fn new() -> (reactor: Self)
        ensures
            reactor.wf(),
            reactor@ == ReactorView::<W>::empty(),
    {
        let reactor = Reactor {
            slots: HashMap::new(),
            next_index: 0,
            running: true,
            next_deadline: NO_DEADLINE,
        };
        assert(reactor@ =~= ReactorView::<W>::empty());
        reactor
    }

    /// The soonest deadline this reactor will wake for, in nanoseconds, or
    /// [`NO_DEADLINE`] when no timer is armed.
    pub fn next_deadline(&self) -> (deadline: u64)
        ensures
            deadline == self@.next_deadline,
    {
        self.next_deadline
    }

    /// Whether another descriptor can be registered. Indices are not handed out
    /// twice, so they run out in the end.
    pub fn has_room(&self) -> (room: bool)
        ensures
            room == (self@.next_index < INDICES),
    {
        self.next_index < INDICES
    }

    /// Make a slot for `fd`, before the poller is told about it: an event may
    /// arrive as soon as it is.
    pub fn reserve(&mut self, fd: i32) -> (registration: Registration)
        requires
            old(self).wf(),
            old(self)@.next_index < INDICES,
        ensures
            final(self).wf(),
            final(self)@ == old(self)@.registered(),
            registration.fd() == fd,
            registration.index() == old(self)@.next_index,
            registration.token() == INDICES + registration.index(),
            !old(self)@.slots.contains_key(registration.index()),
            final(self)@.current(registration.token()),
    {
        let index: u64 = self.next_index;
        self.next_index = index + 1;
        let generation: u64 = 1;
        self.slots.insert(index, Slot { generation, wakers: Wakers::new() });
        let token: u64 = make_token(index, generation);
        proof {
            law_a_token_splits_into_its_parts(index, generation);
            assert(self@ =~= old(self)@.registered());
        }
        Registration { fd, index, token }
    }

    /// Keep the registration if the poller took the descriptor, and give its
    /// slot up if it did not.
    pub fn register(&mut self, registration: Registration, added: Result<()>) -> (result: Result<
        Registration,
    >)
        requires
            old(self).wf(),
        ensures
            final(self).wf(),
            (match added {
                Ok(_) => result == Ok::<Registration, crate::io::StreamError>(registration)
                    && final(self)@ == old(self)@,
                Err(error) => result == Err::<Registration, crate::io::StreamError>(error)
                    && final(self)@ == old(self)@.deregistered(registration.index()),
            }),
    {
        match added {
            Ok(_) => Ok(registration),
            Err(error) => {
                let _dropped = self.deregister(registration);
                Err(error)
            },
        }
    }

    /// Give a registration up. What was parked there is handed back to be
    /// destroyed. The index is not handed out again, so an event still in
    /// flight for it finds nothing.
    pub fn deregister(&mut self, registration: Registration) -> (dropped: Option<Wakers<W>>)
        requires
            old(self).wf(),
        ensures
            final(self).wf(),
            final(self)@ == old(self)@.deregistered(registration.index()),
            dropped == (if old(self)@.slots.contains_key(registration.index()) {
                Some(old(self)@.slots[registration.index()].wakers)
            } else {
                None
            }),
    {
        let removed = self.slots.remove(&registration.index);
        assert(self@ =~= old(self)@.deregistered(registration.index));
        match removed {
            Some(slot) => Some(slot.wakers),
            None => None,
        }
    }

    fn take_slot(&mut self, index: u64) -> (slot: Slot<W>)
        requires
            old(self)@.slots.contains_key(index),
        ensures
            slot == old(self)@.slots[index],
            final(self)@ == old(self)@.deregistered(index),
    {
        match self.slots.remove(&index) {
            Some(slot) => {
                assert(self@ =~= old(self)@.deregistered(index));
                slot
            },
            None => vstd::pervasive::unreached(),
        }
    }

    fn put_slot(&mut self, index: u64, slot: Slot<W>)
        ensures
            final(self)@ == (ReactorView { slots: old(self)@.slots.insert(index, slot), ..old(self)@ }),
    {
        self.slots.insert(index, slot);
        assert(self@ =~= (ReactorView { slots: old(self)@.slots.insert(index, slot), ..old(self)@ }));
    }

    /// Take note of a batch of events. The wakers handed back are to be called,
    /// in order, once the reactor is no longer locked: a waker runs arbitrary
    /// code, which may register another descriptor or come back here. Each is
    /// paired with the index of the descriptor it waited for.
    pub fn dispatch(&mut self, events: &[Event]) -> (pending: Vec<(u64, W)>)
        requires
            old(self).wf(),
        ensures
            final(self).wf(),
            final(self)@ == old(self)@.after_all(events@),
            pending@ == old(self)@.all_called(events@),
            forall|i: int|
                #![trigger events@[i]]
                0 <= i < events@.len() && old(self)@.slots.contains_key(
                    events@[i].token % INDICES,
                ) && old(self)@.slots[events@[i].token % INDICES].generation == events@[i].token
                    / INDICES ==> {
                    let index = events@[i].token % INDICES;
                    let before = old(self)@.slots[index].wakers;
                    let now = final(self)@.slots[index].wakers;
                    &&& events@[i].readable || events@[i].hangup ==> {
                        &&& now.readable
                        &&& now.reader is None
                        &&& before.reader is Some ==> pending@.contains((index, before.reader->0))
                    }
                    &&& events@[i].hangup ==> now.hangup
                    &&& events@[i].writable ==> {
                        &&& now.writable
                        &&& now.writer is None
                        &&& before.writer is Some ==> pending@.contains((index, before.writer->0))
                    }
                },
    {
        let mut pending: Vec<(u64, W)> = Vec::new();
        let ghost before = self@;
        let mut i: usize = 0;
        assert(events@.take(0) =~= Seq::<Event>::empty());
        while i < events.len()
            invariant
                i <= events@.len(),
                self.wf(),
                self@ == before.after_all(events@.take(i as int)),
                pending@ == before.all_called(events@.take(i as int)),
            decreases events@.len() - i,
        {
            let event = &events[i];
            let ghost stage = self@;
            let ghost called = pending@;
            proof {
                assert(events@.take(i + 1).drop_last() =~= events@.take(i as int));
            }
            let (index, generation) = split_token(event.token);
            if self.slots.contains_key(&index) {
                let mut slot = self.take_slot(index);
                // A stale event is for another user of the index.
                if slot.generation == generation {
                    slot.wakers.deliver(index, event, &mut pending);
                }
                self.put_slot(index, slot);
            }
            proof {
                assert(self@.slots =~= stage.after(*event).slots);
                assert(self@ =~= stage.after(*event));
                assert(pending@ =~= called + stage.called(*event));
            }
            i = i + 1;
        }
        assert(events@.take(i as int) =~= events@);
        proof {
            assert forall|k: int|
                #![trigger events@[k]]
                0 <= k < events@.len() && before.slots.contains_key(events@[k].token % INDICES)
                    && before.slots[events@[k].token % INDICES].generation == events@[k].token
                    / INDICES implies ({
                let index = events@[k].token % INDICES;
                let was = before.slots[index].wakers;
                let now = self@.slots[index].wakers;
                &&& events@[k].readable || events@[k].hangup ==> {
                    &&& now.readable
                    &&& now.reader is None
                    &&& was.reader is Some ==> pending@.contains((index, was.reader->0))
                }
                &&& events@[k].hangup ==> now.hangup
                &&& events@[k].writable ==> {
                    &&& now.writable
                    &&& now.writer is None
                    &&& was.writer is Some ==> pending@.contains((index, was.writer->0))
                }
            }) by {
                law_every_event_of_a_batch_is_delivered(before, events@, k);
            }
        }
        pending
    }

    /// Take note that a timer was armed for `deadline`. Whether a wait has to
    /// be interrupted comes back: it does where the wait is for a later one.
    ///
    /// A deadline further out than the one already cached changes nothing.
    pub fn timer_armed(&mut self, deadline: u64) -> (interrupt: bool)
        requires
            old(self).wf(),
        ensures
            final(self).wf(),
            interrupt == (deadline < old(self)@.next_deadline),
            final(self)@ == (ReactorView {
                next_deadline: if deadline < old(self)@.next_deadline {
                    deadline
                } else {
                    old(self)@.next_deadline
                },
                ..old(self)@
            }),
    {
        if self.next_deadline <= deadline {
            return false;
        }
        self.next_deadline = deadline;
        true
    }

    /// Fire any due timers and say how long the next wait may block. `None`
    /// means until an event arrives: there is no deadline to wake for.
    ///
    /// The timers are only asked when the cached deadline says that something
    /// is due, or that nothing is known.
    pub fn service_timers(&mut self, timers: &mut Timers<W>, now: u64) -> (result: (
        Vec<W>,
        Option<u64>,
    ))
        requires
            old(self).wf(),
            old(timers).wf(),
        ensures
            final(self).wf(),
            final(timers).wf(),
            !old(self)@.timers_due(now) ==> {
                &&& result.0@ == Seq::<W>::empty()
                &&& result.1 == Some((old(self)@.next_deadline - now) as u64)
                &&& final(self)@ == old(self)@
                &&& final(timers)@ == old(timers)@
            },
            old(self)@.timers_due(now) ==> {
                let next = final(timers)@.next_due();
                &&& final(timers)@.next_is(next)
                &&& timers_served(old(timers)@, final(timers)@, now, result.0@)
                &&& final(self)@ == (ReactorView { next_deadline: cached(next), ..old(self)@ })
                &&& result.1 == time_left(next, now)
            },
    {
        let deadline: u64 = self.next_deadline;
        if deadline != NO_DEADLINE && deadline > now {
            return (Vec::new(), Some(deadline - now));
        }
        let (wakers, next) = poll(timers, now);
        let left: Option<u64> = match next {
            Some(deadline) => {
                self.next_deadline = deadline;
                if deadline > now {
                    Some(deadline - now)
                } else {
                    Some(0)
                }
            },
            None => {
                self.next_deadline = NO_DEADLINE;
                None
            },
        };
        (wakers, left)
    }

    /// Prepare one wait of at most `cap` milliseconds: fire what is due, and
    /// say how many nanoseconds the wait may block. The wakers handed back are
    /// to be called before the wait.
    ///
    /// Without a cap the timers alone decide. A cap of zero asks whether
    /// anything is ready now, and leaves the timers alone. Where a timer fired
    /// the wait does not block: the task it woke may be the one that this very
    /// thread is to poll next.
    pub fn poll_once_timeout(&mut self, timers: &mut Timers<W>, now: u64, cap: Option<u64>) -> (result:
        (Vec<W>, Option<u64>))
        requires
            old(self).wf(),
            old(timers).wf(),
        ensures
            final(self).wf(),
            final(timers).wf(),
            cap is Some ==> result.1 is Some && result.1->0 <= cap->0 * 1_000_000,
            result.0@.len() > 0 ==> result.1 == Some(0u64),
            cap == Some(0u64) ==> {
                &&& result.0@ == Seq::<W>::empty()
                &&& result.1 == Some(0u64)
                &&& final(self)@ == old(self)@
                &&& final(timers)@ == old(timers)@
            },
            cap != Some(0u64) && !old(self)@.timers_due(now) ==> {
                &&& result.0@ == Seq::<W>::empty()
                &&& result.1 == shorter(
                    cap_nanos(cap),
                    Some((old(self)@.next_deadline - now) as u64),
                )
                &&& final(self)@ == old(self)@
                &&& final(timers)@ == old(timers)@
            },
            cap != Some(0u64) && old(self)@.timers_due(now) ==> {
                let next = final(timers)@.next_due();
                &&& final(timers)@.next_is(next)
                &&& timers_served(old(timers)@, final(timers)@, now, result.0@)
                &&& final(self)@ == (ReactorView { next_deadline: cached(next), ..old(self)@ })
                &&& result.1 == (if result.0@.len() > 0 {
                    Some(0u64)
                } else {
                    shorter(cap_nanos(cap), time_left(next, now))
                })
            },
    {
        let millis: Option<u64> = match cap {
            Some(0) => {
                return (Vec::new(), Some(0));
            },
            other => other,
        };
        let (wakers, due) = self.service_timers(timers, now);
        if wakers.len() > 0 {
            return (wakers, Some(0));
        }
        let timeout: Option<u64> = match (millis, due) {
            (Some(millis), due) => {
                let cap: u64 = if millis > u64::MAX / 1_000_000 {
                    u64::MAX
                } else {
                    millis * 1_000_000
                };
                match due {
                    Some(due) => Some(
                        if cap < due {
                            cap
                        } else {
                            due
                        },
                    ),
                    None => Some(cap),
                }
            },
            (None, due) => due,
        };
        (wakers, timeout)
    }

    /// Prepare one wait that only the timers bound.
    pub fn poll_once(&mut self, timers: &mut Timers<W>, now: u64) -> (result: (
        Vec<W>,
        Option<u64>,
    ))
        requires
            old(self).wf(),
            old(timers).wf(),
        ensures
            final(self).wf(),
            final(timers).wf(),
            !old(self)@.timers_due(now) ==> {
                &&& result.0@ == Seq::<W>::empty()
                &&& result.1 == Some((old(self)@.next_deadline - now) as u64)
                &&& final(self)@ == old(self)@
                &&& final(timers)@ == old(timers)@
            },
            old(self)@.timers_due(now) ==> {
                let next = final(timers)@.next_due();
                &&& final(timers)@.next_is(next)
                &&& timers_served(old(timers)@, final(timers)@, now, result.0@)
                &&& final(self)@ == (ReactorView { next_deadline: cached(next), ..old(self)@ })
                &&& result.1 == (if result.0@.len() > 0 {
                    Some(0u64)
                } else {
                    time_left(next, now)
                })
            },
    {
        self.poll_once_timeout(timers, now, None)
    }

    /// Whether the reactor's thread goes round again after a wait that ended
    /// like this. A failed wait is not recoverable by trying again, so the
    /// thread stops rather than spin.
    pub fn run(&self, waited: &Result<()>) -> (again: bool)
        ensures
            again == (self@.running && waited is Ok),
    {
        self.running && waited.is_ok()
    }

    /// Tell the reactor's thread to stop. A wait it is in has to be
    /// interrupted.
    pub fn stop(&mut self)
        requires
            old(self).wf(),
        ensures
            final(self).wf(),
            final(self)@ == (ReactorView { running: false, ..old(self)@ }),
    {
        self.running = false;
    }
}

/// A cap in nanoseconds.
pub open spec fn cap_nanos(cap: Option<u64>) -> Option<u64> {
    match cap {
        Some(millis) => Some(millis_as_nanos(millis)),
        None => None,
    }
}

impl Registration {
    /// The registration is one of this reactor's.
    pub open spec fn fits<W>(self, reactor: ReactorView<W>) -> bool {
        reactor.slots.contains_key(self.index())
    }

    /// What is known of the descriptor.
    pub open spec fn wakers<W>(self, reactor: ReactorView<W>) -> Wakers<W> {
        reactor.slots[self.index()].wakers
    }

    /// The waker that is parked for reading.
    pub fn reader<'a, W>(&self, reactor: &'a Reactor<W>) -> (waker: Option<&'a W>)
        ensures
            (match waker {
                Some(waker) => self.fits(reactor@) && self.wakers(reactor@).reader == Some(*waker),
                None => !self.fits(reactor@) || self.wakers(reactor@).reader is None,
            }),
    {
        match reactor.slots.get(&self.index) {
            Some(slot) => slot.wakers.reader.as_ref(),
            None => None,
        }
    }

    /// The waker that is parked for writing.
    pub fn writer<'a, W>(&self, reactor: &'a Reactor<W>) -> (waker: Option<&'a W>)
        ensures
            (match waker {
                Some(waker) => self.fits(reactor@) && self.wakers(reactor@).writer == Some(*waker),
                None => !self.fits(reactor@) || self.wakers(reactor@).writer is None,
            }),
    {
        match reactor.slots.get(&self.index) {
            Some(slot) => slot.wakers.writer.as_ref(),
            None => None,
        }
    }

    /// See [`Wakers::take_readable_or_park`].
    pub fn take_readable_or_park<W>(&self, reactor: &mut Reactor<W>, waker: Option<W>) -> (taken: Taken<W>)
        requires
            old(reactor).wf(),
            self.fits(old(reactor)@),
        ensures
            final(reactor).wf(),
            self.fits(final(reactor)@),
            taken.ready == self.wakers(old(reactor)@).worth_reading(),
            taken.ready ==> {
                &&& final(reactor)@ == old(reactor)@.with_wakers(
                    self.index(),
                    (Wakers { readable: false, ..self.wakers(old(reactor)@) }),
                )
                &&& taken.dropped is None
                &&& taken.unused == waker
            },
            !taken.ready ==> {
                &&& final(reactor)@ == old(reactor)@.with_wakers(
                    self.index(),
                    (Wakers {
                        reader: held_after(self.wakers(old(reactor)@).reader, waker),
                        ..self.wakers(old(reactor)@)
                    }),
                )
                &&& taken.dropped == let_go(self.wakers(old(reactor)@).reader, waker)
                &&& taken.unused is None
            },
    {
        let mut slot = reactor.take_slot(self.index);
        let taken = slot.wakers.take_readable_or_park(waker);
        reactor.put_slot(self.index, slot);
        assert(reactor@ =~= old(reactor)@.with_wakers(self.index, slot.wakers));
        taken
    }

    /// See [`Wakers::mark_readable`].
    pub fn mark_readable<W>(&self, reactor: &mut Reactor<W>)
        requires
            old(reactor).wf(),
            self.fits(old(reactor)@),
        ensures
            final(reactor).wf(),
            self.fits(final(reactor)@),
            final(reactor)@ == old(reactor)@.with_wakers(
                self.index(),
                (Wakers { readable: true, ..self.wakers(old(reactor)@) }),
            ),
    {
        let mut slot = reactor.take_slot(self.index);
        slot.wakers.mark_readable();
        reactor.put_slot(self.index, slot);
        assert(reactor@ =~= old(reactor)@.with_wakers(self.index, slot.wakers));
    }

    /// See [`Wakers::poll_readable`].
    pub fn poll_readable<W>(&self, reactor: &mut Reactor<W>, waker: Option<W>) -> (dropped: Option<W>)
        requires
            old(reactor).wf(),
            self.fits(old(reactor)@),
        ensures
            final(reactor).wf(),
            self.fits(final(reactor)@),
            final(reactor)@ == old(reactor)@.with_wakers(
                self.index(),
                (Wakers {
                    reader: held_after(self.wakers(old(reactor)@).reader, waker),
                    ..self.wakers(old(reactor)@)
                }),
            ),
            dropped == let_go(self.wakers(old(reactor)@).reader, waker),
    {
        let mut slot = reactor.take_slot(self.index);
        let dropped = slot.wakers.poll_readable(waker);
        reactor.put_slot(self.index, slot);
        assert(reactor@ =~= old(reactor)@.with_wakers(self.index, slot.wakers));
        dropped
    }

    /// See [`Wakers::take_writable_or_park`].
    pub fn take_writable_or_park<W>(&self, reactor: &mut Reactor<W>, waker: Option<W>) -> (taken: Taken<W>)
        requires
            old(reactor).wf(),
            self.fits(old(reactor)@),
        ensures
            final(reactor).wf(),
            self.fits(final(reactor)@),
            taken.ready == self.wakers(old(reactor)@).writable,
            taken.ready ==> {
                &&& final(reactor)@ == old(reactor)@.with_wakers(
                    self.index(),
                    (Wakers { writable: false, ..self.wakers(old(reactor)@) }),
                )
                &&& taken.dropped is None
                &&& taken.unused == waker
            },
            !taken.ready ==> {
                &&& final(reactor)@ == old(reactor)@.with_wakers(
                    self.index(),
                    (Wakers {
                        writer: held_after(self.wakers(old(reactor)@).writer, waker),
                        ..self.wakers(old(reactor)@)
                    }),
                )
                &&& taken.dropped == let_go(self.wakers(old(reactor)@).writer, waker)
                &&& taken.unused is None
            },
    {
        let mut slot = reactor.take_slot(self.index);
        let taken = slot.wakers.take_writable_or_park(waker);
        reactor.put_slot(self.index, slot);
        assert(reactor@ =~= old(reactor)@.with_wakers(self.index, slot.wakers));
        taken
    }

    /// See [`Wakers::mark_writable`].
    pub fn mark_writable<W>(&self, reactor: &mut Reactor<W>)
        requires
            old(reactor).wf(),
            self.fits(old(reactor)@),
        ensures
            final(reactor).wf(),
            self.fits(final(reactor)@),
            final(reactor)@ == old(reactor)@.with_wakers(
                self.index(),
                (Wakers { writable: true, ..self.wakers(old(reactor)@) }),
            ),
    {
        let mut slot = reactor.take_slot(self.index);
        slot.wakers.mark_writable();
        reactor.put_slot(self.index, slot);
        assert(reactor@ =~= old(reactor)@.with_wakers(self.index, slot.wakers));
    }

    /// See [`Wakers::poll_writable`].
    pub fn poll_writable<W>(&self, reactor: &mut Reactor<W>, waker: Option<W>) -> (dropped: Option<W>)
        requires
            old(reactor).wf(),
            self.fits(old(reactor)@),
        ensures
            final(reactor).wf(),
            self.fits(final(reactor)@),
            final(reactor)@ == old(reactor)@.with_wakers(
                self.index(),
                (Wakers {
                    writer: held_after(self.wakers(old(reactor)@).writer, waker),
                    ..self.wakers(old(reactor)@)
                }),
            ),
            dropped == let_go(self.wakers(old(reactor)@).writer, waker),
    {
        let mut slot = reactor.take_slot(self.index);
        let dropped = slot.wakers.poll_writable(waker);
        reactor.put_slot(self.index, slot);
        assert(reactor@ =~= old(reactor)@.with_wakers(self.index, slot.wakers));
        dropped
    }
}

/// A group of reactors, each on its own thread with its own poller.
///
/// A shard owns its descriptors for their lifetime and nothing is stolen
/// between them.
pub struct Sharded {
    shards: usize,
    next: u64,
}

impl Sharded {
    /// How many shards there are.
    pub closed spec fn count(self) -> usize {
        self.shards
    }

    /// How many descriptors have been placed, modulo the width of the counter.
    pub closed spec fn placed(self) -> u64 {
        self.next
    }

    /// Well-formedness: there is a shard.
    pub open spec fn wf(self) -> bool {
        self.count() > 0
    }

    /// A group of this many, and of one at least.
    pub fn new(shards: usize) -> (group: Self)
        ensures
            group.wf(),
            group.count() == (if shards == 0 {
                1
            } else {
                shards
            }),
            group.placed() == 0,
    {
        Sharded {
            shards: if shards == 0 {
                1
            } else {
                shards
            },
            next: 0,
        }
    }

    /// The shard for the next descriptor, round robin. The shard that registers
    /// a descriptor is the one that reports its readiness.
    pub fn handle(&mut self) -> (shard: usize)
        requires
            old(self).wf(),
        ensures
            final(self).wf(),
            final(self).count() == old(self).count(),
            shard == old(self).placed() % (old(self).count() as u64),
            final(self).placed() == (if old(self).placed() == u64::MAX {
                0
            } else {
                (old(self).placed() + 1) as u64
            }),
    {
        let index: u64 = self.next;
        self.next = index.wrapping_add(1);
        (index % (self.shards as u64)) as usize
    }

    /// How many reactors this group holds.
    pub fn shards(&self) -> (count: usize)
        ensures
            count == self.count(),
    {
        self.shards
    }

    /// A specific shard, for a caller that places a descriptor itself.
    pub fn handle_for(&self, shard: usize) -> (chosen: usize)
        requires
            self.wf(),
        ensures
            chosen == shard % self.count(),
    {
        shard % self.shards
    }
}

/// An event for a registration that was given up wakes nobody and changes
/// nothing, however late it arrives and whatever was registered since: its
/// index is not handed out again.
pub proof fn law_a_dropped_registration_stops_waking<W>(
    reactor: ReactorView<W>,
    index: u64,
    later: ReactorView<W>,
    event: Event,
)
    requires
        reactor.consistent(),
        index < reactor.next_index,
        reactor.next_index <= later.next_index,
        later.slots.dom().subset_of(
            reactor.deregistered(index).slots.dom().union(
                Set::new(|i: u64| reactor.next_index <= i < later.next_index),
            ),
        ),
        event.token == INDICES + index,
    ensures
        later.after(event) == later,
        later.called(event) == Seq::<(u64, W)>::empty(),
{
    law_a_token_splits_into_its_parts(index, 1);
    assert(token_index(event.token) == index);
    assert(!reactor.deregistered(index).slots.dom().contains(index));
}

/// An event reaches the one descriptor it is for: nothing that is parked
/// elsewhere is called or changed.
pub proof fn law_an_event_reaches_one_descriptor<W>(
    reactor: ReactorView<W>,
    event: Event,
    other: u64,
)
    requires
        reactor.slots.contains_key(other),
        other != token_index(event.token),
    ensures
        reactor.after(event).slots.contains_key(other),
        reactor.after(event).slots[other] == reactor.slots[other],
        forall|i: int|
            0 <= i < reactor.called(event).len() ==> (#[trigger] reactor.called(event)[i]).0
                != other,
{
}

/// No readiness is lost, in either direction: after an event that says a
/// descriptor is readable, or that its peer hung up, the next question finds it
/// so, and the reader that was parked is called; after one that says it is
/// writable the next question finds it so, and the writer that was parked is
/// called.
pub proof fn law_an_edge_is_not_lost<W>(wakers: Wakers<W>, index: u64, event: Event)
    ensures
        event.readable || event.hangup ==> {
            &&& wakers.after(event).worth_reading()
            &&& wakers.after(event).readable
            &&& wakers.reader is Some ==> wakers.called(index, event).contains(
                (index, wakers.reader->0),
            )
        },
        event.writable ==> {
            &&& wakers.after(event).writable
            &&& wakers.writer is Some ==> wakers.called(index, event).contains(
                (index, wakers.writer->0),
            )
        },
{
    let called = wakers.called(index, event);
    let reads = event.readable || event.hangup;
    if reads && wakers.reader is Some {
        assert(called[0] == (index, wakers.reader->0));
    }
    if event.writable && wakers.writer is Some {
        assert(called[called.len() - 1] == (index, wakers.writer->0));
    }
}

/// Every event of a batch is delivered, wherever in it it stands. Where it is
/// for a slot in use, in the generation that slot is in: if it says readable or
/// that the peer hung up, the slot is readable afterwards and its reader is not
/// parked any more but among those called; and likewise if it says writable.
pub proof fn law_every_event_of_a_batch_is_delivered<W>(
    reactor: ReactorView<W>,
    events: Seq<Event>,
    i: int,
)
    requires
        0 <= i < events.len(),
        reactor.slots.contains_key(events[i].token % INDICES),
        reactor.slots[events[i].token % INDICES].generation == events[i].token / INDICES,
    ensures
        ({
            let index = events[i].token % INDICES;
            let before = reactor.slots[index].wakers;
            let after = reactor.after_all(events);
            let now = after.slots[index].wakers;
            let called = reactor.all_called(events);
            &&& after.slots.contains_key(index)
            &&& events[i].readable || events[i].hangup ==> {
                &&& now.readable
                &&& now.reader is None
                &&& before.reader is Some ==> called.contains((index, before.reader->0))
            }
            &&& events[i].hangup ==> now.hangup
            &&& events[i].writable ==> {
                &&& now.writable
                &&& now.writer is None
                &&& before.writer is Some ==> called.contains((index, before.writer->0))
            }
        }),
{
    let index = events[i].token % INDICES;
    let before = reactor.slots[index].wakers;
    law_a_batch_changes_what_its_events_say(reactor, events, index);
    if before.reader is Some {
        law_a_parked_waker_is_called_once(reactor, events, index, before.reader->0);
        reactor.all_called(events).to_multiset_ensures();
    }
    if before.writer is Some {
        law_a_parked_waker_is_called_once(reactor, events, index, before.writer->0);
        reactor.all_called(events).to_multiset_ensures();
    }
}

/// What a batch leaves of a slot is what its events for that slot say, taken
/// together, and nothing else.
pub proof fn law_a_batch_changes_what_its_events_say<W>(
    reactor: ReactorView<W>,
    events: Seq<Event>,
    index: u64,
)
    requires
        reactor.slots.contains_key(index),
    ensures
        ({
            let slot = reactor.slots[index];
            let before = slot.wakers;
            let after = reactor.after_all(events);
            let now = after.slots[index].wakers;
            let reads = exists|i: int|
                0 <= i < events.len() && (#[trigger] events[i]).token % INDICES == index
                    && events[i].token / INDICES == slot.generation && (events[i].readable
                    || events[i].hangup);
            let hangs_up = exists|i: int|
                0 <= i < events.len() && (#[trigger] events[i]).token % INDICES == index
                    && events[i].token / INDICES == slot.generation && events[i].hangup;
            let writes = exists|i: int|
                0 <= i < events.len() && (#[trigger] events[i]).token % INDICES == index
                    && events[i].token / INDICES == slot.generation && events[i].writable;
            &&& after.slots.contains_key(index)
            &&& after.slots[index].generation == slot.generation
            &&& now.readable == (before.readable || reads)
            &&& now.hangup == (before.hangup || hangs_up)
            &&& now.writable == (before.writable || writes)
            &&& now.reader == (if reads {
                None
            } else {
                before.reader
            })
            &&& now.writer == (if writes {
                None
            } else {
                before.writer
            })
        }),
    decreases events.len(),
{
    if events.len() > 0 {
        let fewer = events.drop_last();
        let last = events.last();
        law_a_batch_changes_what_its_events_say(reactor, fewer, index);
        let slot = reactor.slots[index];
        assert(events[events.len() - 1] == last);
        assert forall|i: int| 0 <= i < fewer.len() implies #[trigger] fewer[i] == events[i] by {}
        assert forall|i: int| 0 <= i < events.len() implies (#[trigger] events[i] == last || (i
            < fewer.len() && fewer[i] == events[i])) by {
            if i < fewer.len() {
                assert(fewer[i] == events[i]);
            }
        }
    }
}

/// Whoever was parked on a slot is called once for the whole batch if an event
/// of it is for them, however many are, and not at all otherwise; nobody who was
/// not parked is called.
pub proof fn law_a_parked_waker_is_called_once<W>(
    reactor: ReactorView<W>,
    events: Seq<Event>,
    index: u64,
    waker: W,
)
    ensures
        ({
            let slot = reactor.slots[index];
            let before = slot.wakers;
            let reads = exists|i: int|
                0 <= i < events.len() && (#[trigger] events[i]).token % INDICES == index
                    && events[i].token / INDICES == slot.generation && (events[i].readable
                    || events[i].hangup);
            let writes = exists|i: int|
                0 <= i < events.len() && (#[trigger] events[i]).token % INDICES == index
                    && events[i].token / INDICES == slot.generation && events[i].writable;
            let reading = reactor.slots.contains_key(index) && before.reader == Some(waker)
                && reads;
            let writing = reactor.slots.contains_key(index) && before.writer == Some(waker)
                && writes;
            reactor.all_called(events).to_multiset().count((index, waker)) == (if reading {
                1nat
            } else {
                0nat
            }) + (if writing {
                1nat
            } else {
                0nat
            })
        }),
    decreases events.len(),
{
    broadcast use vstd::seq_lib::group_to_multiset_ensures;

    if events.len() > 0 {
        let fewer = events.drop_last();
        let last = events.last();
        law_a_parked_waker_is_called_once(reactor, fewer, index, waker);
        if reactor.slots.contains_key(index) {
            law_a_batch_changes_what_its_events_say(reactor, fewer, index);
        }
        law_events_do_not_disturb_the_deadline(reactor, fewer);
        let stage = reactor.after_all(fewer);
        assert(stage.slots.dom().contains(index) == reactor.slots.dom().contains(index));
        assert(events[events.len() - 1] == last);
        assert forall|i: int| 0 <= i < fewer.len() implies #[trigger] fewer[i] == events[i] by {}
        assert forall|i: int| 0 <= i < events.len() implies (#[trigger] events[i] == last || (i
            < fewer.len() && fewer[i] == events[i])) by {
            if i < fewer.len() {
                assert(fewer[i] == events[i]);
            }
        }
        let more = stage.called(last);
        vstd::seq_lib::lemma_multiset_commutative(reactor.all_called(fewer), more);
        let item = (index, waker);
        if stage.current(last.token) {
            let at = token_index(last.token);
            let wakers = stage.slots[at].wakers;
            let reads = last.readable || last.hangup;
            let readers: Seq<(u64, W)> = if reads && wakers.reader is Some {
                seq![(at, wakers.reader->0)]
            } else {
                Seq::empty()
            };
            let writers: Seq<(u64, W)> = if last.writable && wakers.writer is Some {
                seq![(at, wakers.writer->0)]
            } else {
                Seq::empty()
            };
            assert(more =~= readers + writers);
            vstd::seq_lib::lemma_multiset_commutative(readers, writers);
            lemma_single_count(readers, item);
            lemma_single_count(writers, item);
        } else {
            assert(more =~= Seq::empty());
            lemma_single_count(more, item);
        }
    } else {
        lemma_single_count(reactor.all_called(events), (index, waker));
    }
}

proof fn lemma_single_count<A>(items: Seq<A>, item: A)
    requires
        items.len() <= 1,
    ensures
        items.to_multiset().count(item) == (if items.len() == 1 && items[0] == item {
            1nat
        } else {
            0nat
        }),
{
    broadcast use vstd::seq_lib::group_to_multiset_ensures;

    if items.len() == 1 {
        assert(items =~= Seq::<A>::empty().push(items[0]));
        assert(Seq::<A>::empty().to_multiset().len() == 0);
        assert(Seq::<A>::empty().to_multiset() =~= vstd::multiset::Multiset::empty());
    } else {
        assert(items.to_multiset() =~= vstd::multiset::Multiset::empty());
    }
}

/// A batch is no more than its parts: two batches one after the other change
/// and call the same as both in one, in the same order; and a batch of nothing
/// does nothing.
pub proof fn law_a_batch_is_its_parts<W>(
    reactor: ReactorView<W>,
    first: Seq<Event>,
    second: Seq<Event>,
)
    ensures
        reactor.after_all(first + second) == reactor.after_all(first).after_all(second),
        reactor.all_called(first + second) == reactor.all_called(first) + reactor.after_all(
            first,
        ).all_called(second),
        reactor.after_all(Seq::empty()) == reactor,
        reactor.all_called(Seq::empty()) == Seq::<(u64, W)>::empty(),
    decreases second.len(),
{
    if second.len() == 0 {
        assert(first + second =~= first);
        assert(reactor.all_called(first) + Seq::<(u64, W)>::empty() =~= reactor.all_called(first));
    } else {
        law_a_batch_is_its_parts(reactor, first, second.drop_last());
        assert((first + second).drop_last() =~= first + second.drop_last());
        assert((first + second).last() == second.last());
        assert(reactor.all_called(first + second) =~= reactor.all_called(first)
            + reactor.after_all(first).all_called(second));
    }
}

/// A waker that is offered is held from then on, and the one it replaces is let
/// go; where none is offered the one that was held stays, and nothing is let go.
pub proof fn law_an_offered_waker_is_held<W>(held: Option<W>, offered: W)
    ensures
        held_after(held, Some(offered)) == Some(offered),
        let_go(held, Some(offered)) == held,
        held_after(held, None) == held,
        let_go(held, None::<W>) is None,
{
}

/// A new registration takes an index that was never used and leaves every other
/// as it was; it counts as ready both ways, nobody waits for it and its peer has
/// not hung up.
pub proof fn law_a_registration_disturbs_no_other<W>(reactor: ReactorView<W>, other: u64)
    requires
        reactor.consistent(),
        reactor.next_index < INDICES,
    ensures
        ({
            let after = reactor.registered();
            let wakers = after.slots[reactor.next_index].wakers;
            &&& after.consistent()
            &&& !reactor.slots.contains_key(reactor.next_index)
            &&& after.slots.contains_key(reactor.next_index)
            &&& after.next_index == reactor.next_index + 1
            &&& wakers.readable && wakers.writable && !wakers.hangup
            &&& wakers.reader is None && wakers.writer is None
            &&& other != reactor.next_index ==> {
                &&& after.slots.contains_key(other) == reactor.slots.contains_key(other)
                &&& reactor.slots.contains_key(other) ==> after.slots[other]
                    == reactor.slots[other]
            }
            &&& after.next_deadline == reactor.next_deadline
            &&& after.running == reactor.running
        }),
{
}

/// Giving a registration up removes that one and leaves every other as it was.
pub proof fn law_giving_a_registration_up_disturbs_no_other<W>(
    reactor: ReactorView<W>,
    index: u64,
    other: u64,
)
    requires
        other != index,
    ensures
        !reactor.deregistered(index).slots.contains_key(index),
        reactor.deregistered(index).slots.contains_key(other) == reactor.slots.contains_key(other),
        reactor.slots.contains_key(other) ==> reactor.deregistered(index).slots[other]
            == reactor.slots[other],
        reactor.deregistered(index).next_index == reactor.next_index,
        reactor.deregistered(index).next_deadline == reactor.next_deadline,
{
}

/// What happens to one descriptor happens to no other: changing what is known of
/// it leaves its generation, every other slot and the deadline as they were.
pub proof fn law_a_descriptor_is_changed_alone<W>(
    reactor: ReactorView<W>,
    index: u64,
    wakers: Wakers<W>,
    other: u64,
)
    requires
        reactor.slots.contains_key(index),
    ensures
        ({
            let after = reactor.with_wakers(index, wakers);
            &&& after.slots.contains_key(index)
            &&& after.slots[index].wakers == wakers
            &&& after.slots[index].generation == reactor.slots[index].generation
            &&& other != index ==> {
                &&& after.slots.contains_key(other) == reactor.slots.contains_key(other)
                &&& reactor.slots.contains_key(other) ==> after.slots[other]
                    == reactor.slots[other]
            }
            &&& after.next_index == reactor.next_index
            &&& after.next_deadline == reactor.next_deadline
            &&& after.running == reactor.running
            &&& wakers.worth_reading() <==> wakers.readable || wakers.hangup
        }),
{
}

/// The timers are asked as soon as the deadline that is known has come, and
/// where none is known; never before.
pub proof fn law_timers_are_asked_when_one_is_due<W>(reactor: ReactorView<W>, now: u64)
    ensures
        reactor.next_deadline <= now ==> reactor.timers_due(now),
        now < reactor.next_deadline < u64::MAX ==> !reactor.timers_due(now),
        reactor.next_deadline == u64::MAX ==> reactor.timers_due(now),
{
}

/// A round of the reactor's timers loses nobody: every timer whose deadline has
/// come has fired, and whoever waited for it is among those to be called; a timer
/// whose deadline has not come is as it was.
pub proof fn law_a_round_of_timers_loses_nobody<W>(
    before: TimersView<W>,
    after: TimersView<W>,
    now: u64,
    wakers: Seq<W>,
    slot: usize,
)
    requires
        timers_served(before, after, now, wakers),
        before.timers.contains_key(slot),
    ensures
        after.timers.contains_key(slot),
        (match before.timers[slot].due {
            Some((deadline, _)) => if deadline <= now {
                &&& after.timers[slot].due is None
                &&& before.timers[slot].waker is Some ==> wakers.contains(
                    before.timers[slot].waker->0,
                )
            } else {
                after.timers[slot] == before.timers[slot]
            },
            None => after.timers[slot] == before.timers[slot],
        }),
{
    let order = choose|order: Seq<usize>| #[trigger]
        before.firing_order(now, order) && wakers == before.wakers_in(order);
    law_a_round_fires_what_is_due(before, now, slot);
    law_a_round_calls_who_waits_for_what_is_due(before, now, order, slot);
}

/// A wait lasts no longer than its cap of milliseconds, and no longer than it is
/// to the next deadline; it lasts as long as the shorter of the two, and without
/// end only where there is neither.
pub proof fn law_a_wait_ends_at_its_cap_or_at_the_next_deadline(
    cap: Option<u64>,
    next: Option<u64>,
    now: u64,
)
    ensures
        ({
            let wait = shorter(cap_nanos(cap), time_left(next, now));
            &&& wait is None <==> cap is None && next is None
            &&& cap is Some && wait is Some ==> wait->0 <= cap->0 * 1_000_000
            &&& next is Some && wait is Some ==> now + wait->0 <= (if next->0 > now {
                next->0
            } else {
                now
            })
            &&& wait is Some ==> {
                ||| cap is Some && wait->0 == cap->0 * 1_000_000
                ||| cap is Some && cap->0 * 1_000_000 > u64::MAX && wait->0 == u64::MAX
                ||| next is Some && next->0 > now && now + wait->0 == next->0
                ||| next is Some && next->0 <= now && wait->0 == 0
            }
            &&& cached(next) == (if next is Some {
                next->0
            } else {
                u64::MAX
            })
        }),
{
}

/// A hang-up is never forgotten: no read and no later event clears it.
pub proof fn law_a_hangup_lasts<W>(wakers: Wakers<W>, event: Event)
    requires
        wakers.hangup,
    ensures
        wakers.after(event).hangup,
        (Wakers { readable: false, ..wakers }).worth_reading(),
{
}

/// A fresh registration assumes once that it may be readable, and then waits
/// for an edge.
pub proof fn law_a_fresh_registration_says_so_once<W>()
    ensures
        Wakers::<W>::fresh().worth_reading(),
        !(Wakers::<W> { readable: false, ..Wakers::fresh() }).worth_reading(),
{
}

/// Socket traffic leaves the timer deadline alone.
pub proof fn law_events_do_not_disturb_the_deadline<W>(
    reactor: ReactorView<W>,
    events: Seq<Event>,
)
    ensures
        reactor.after_all(events).next_deadline == reactor.next_deadline,
        reactor.after_all(events).next_index == reactor.next_index,
        reactor.after_all(events).running == reactor.running,
        reactor.after_all(events).slots.dom() == reactor.slots.dom(),
    decreases events.len(),
{
    if events.len() > 0 {
        law_events_do_not_disturb_the_deadline(reactor, events.drop_last());
        let stage = reactor.after_all(events.drop_last());
        assert(stage.after(events.last()).slots.dom() =~= stage.slots.dom());
    }
}

} // verus!
