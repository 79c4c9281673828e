//! Sleeping and timing out, without asking a pool of workers for either.
//!
//! Timers live beside the pool rather than inside it. A registry holds the
//! pending deadlines; something drives it and wakes what is due; waking sends
//! the task back through the ordinary path. The pool learns nothing about
//! time, and a program that never sleeps pays nothing.
//!
//! Nothing here reads a clock: every step that depends on the time takes it,
//! in nanoseconds, from its caller.
use vstd::prelude::*;

pub mod heap;

use heap::{key_le, Entry, TimerHeap, NOT_QUEUED};

verus! {

/// What the registry keeps for one sleep.
enum Slot<W> {
    /// Belongs to no sleep.
    Vacant,
    /// Armed, and fired or not.
    Armed { fired: bool, waker: Option<W> },
}

/// The pending timers.
pub struct Timers<W> {
    heap: TimerHeap,
    slots: Vec<Slot<W>>,
    spare: Vec<usize>,
    seq: u64,
}

/// One armed timer.
pub struct TimerView<W> {
    /// Its deadline and its place among equal deadlines, until it fires.
    pub due: Option<(u64, u64)>,
    /// Whom to wake when it does.
    pub waker: Option<W>,
}

/// The registry as its users see it.
#[verifier::ext_equal]
pub struct TimersView<W> {
    /// Every timer that belongs to a sleep, fired or not.
    pub timers: Map<usize, TimerView<W>>,
    /// The slots that belong to none, the next to be handed out last.
    pub spare: Seq<usize>,
    /// How many slots there are.
    pub slots: nat,
    /// The number that the next timer gets.
    pub seq: u64,
}

impl<W> TimersView<W> {
    /// A registry in which nothing was ever armed.
    pub open spec fn empty() -> Self {
        TimersView { timers: Map::empty(), spare: Seq::empty(), slots: 0, seq: 0 }
    }

    /// The timer waits for its deadline.
    pub open spec fn pending(self, slot: usize) -> bool {
        self.timers.contains_key(slot) && self.timers[slot].due is Some
    }

    /// When a pending timer fires, and where among equals.
    pub open spec fn key(self, slot: usize) -> (u64, u64) {
        self.timers[slot].due->0
    }

    /// The timer fires at `now`.
    pub open spec fn is_due(self, slot: usize, now: u64) -> bool {
        self.pending(slot) && self.key(slot).0 <= now
    }

    /// The slot that the next timer gets.
    pub open spec fn fresh(self) -> usize {
        if self.spare.len() > 0 {
            self.spare.last()
        } else {
            self.slots as usize
        }
    }

    /// One more timer can be numbered.
    pub open spec fn has_room(self) -> bool {
        self.spare.len() > 0 || self.slots < usize::MAX - 1
    }

    /// No pending timer is due before or at `deadline`.
    pub open spec fn all_after(self, deadline: u64) -> bool {
        forall|slot: usize| #[trigger] self.pending(slot) ==> deadline < self.key(slot).0
    }

    /// A new timer waits for `deadline`.
    pub open spec fn armed(self, deadline: u64, waker: W) -> Self {
        TimersView {
            timers: self.timers.insert(
                self.fresh(),
                TimerView { due: Some((deadline, self.seq)), waker: Some(waker) },
            ),
            spare: if self.spare.len() > 0 { self.spare.drop_last() } else { self.spare },
            slots: if self.spare.len() > 0 { self.slots } else { self.slots + 1 },
            seq: if self.seq == u64::MAX { 0 } else { (self.seq + 1) as u64 },
        }
    }

    /// Everything that is due at `now` has fired.
    pub open spec fn fired(self, now: u64) -> Self {
        TimersView {
            timers: Map::new(
                |slot: usize| self.timers.contains_key(slot),
                |slot: usize|
                    if self.is_due(slot, now) {
                        TimerView { due: None, waker: None }
                    } else {
                        self.timers[slot]
                    },
            ),
            ..self
        }
    }

    /// The timer wakes `waker` instead.
    pub open spec fn rewaked(self, slot: usize, waker: W) -> Self {
        TimersView {
            timers: self.timers.insert(
                slot,
                TimerView { due: self.timers[slot].due, waker: Some(waker) },
            ),
            ..self
        }
    }

    /// The timer is gone.
    pub open spec fn disarmed(self, slot: usize) -> Self {
        TimersView {
            timers: self.timers.remove(slot),
            spare: self.spare.push(slot),
            ..self
        }
    }

    /// `order` holds exactly what is due at `now`, earliest first, and what is
    /// due together in the order it was armed in.
    pub open spec fn firing_order(self, now: u64, order: Seq<usize>) -> bool {
        &&& order.no_duplicates()
        &&& forall|slot: usize| #[trigger] order.contains(slot) <==> self.is_due(slot, now)
        &&& forall|i: int, j: int|
            #![trigger order[i], order[j]]
            0 <= i <= j < order.len() ==> key_le(self.key(order[i]), self.key(order[j]))
    }

    /// The wakers of the timers in `order`, leaving out those that have none.
    pub open spec fn wakers_in(self, order: Seq<usize>) -> Seq<W>
        decreases order.len(),
    {
        if order.len() == 0 {
            Seq::empty()
        } else {
            let rest = self.wakers_in(order.drop_last());
            match self.timers[order.last()].waker {
                Some(waker) => rest.push(waker),
                None => rest,
            }
        }
    }

    /// `deadline` is when the next pending timer is due.
    pub open spec fn next_is(self, deadline: Option<u64>) -> bool {
        match deadline {
            None => forall|slot: usize| !self.pending(slot),
            Some(deadline) => {
                &&& exists|slot: usize| #[trigger] self.pending(slot) && self.key(slot).0 == deadline
                &&& forall|slot: usize| #[trigger]
                    self.pending(slot) ==> deadline <= self.key(slot).0
            },
        }
    }
}

impl<W> TimersView<W> {
    /// When the next pending timer is due, if any is pending.
    pub open spec fn next_due(self) -> Option<u64> {
        choose|deadline: Option<u64>| self.next_is(deadline)
    }

    /// There is one moment at which the next pending timer is due.
    pub proof fn lemma_next_due(self, deadline: Option<u64>)
        requires
            self.next_is(deadline),
        ensures
            self.next_due() == deadline,
    {
        assert(self.next_is(self.next_due()));
    }
}

impl<W> View for Timers<W> {
    type V = TimersView<W>;

    closed spec fn view(&self) -> TimersView<W> {
        TimersView {
            timers: Map::new(
                |slot: usize| slot < self.slots@.len() && self.slots@[slot as int] is Armed,
                |slot: usize|
                    TimerView {
                        due: if self.heap@.queued.contains_key(slot) {
                            Some(self.heap@.queued[slot])
                        } else {
                            None
                        },
                        waker: self.slots@[slot as int]->waker,
                    },
            ),
            spare: self.spare@,
            slots: self.slots@.len(),
            seq: self.seq,
        }
    }
}

impl<W> Timers<W> {
    /// Well-formedness: a timer is in the heap exactly while it is armed and
    /// has not fired, and a slot is spare exactly while it is vacant.
    pub closed spec fn wf(self) -> bool {
        &&& self.heap.wf()
        &&& self.heap@.slots == self.slots@.len()
        &&& self.slots@.len() < usize::MAX
        &&& forall|slot: usize|
            #![trigger self.slots@[slot as int]]
            #![trigger self.heap@.queued.contains_key(slot)]
            slot < self.slots@.len() ==> match self.slots@[slot as int] {
                Slot::Armed { fired, .. } => self.heap@.queued.contains_key(slot) == !fired,
                Slot::Vacant => !self.heap@.queued.contains_key(slot),
            }
        &&& self.spare@.no_duplicates()
        &&& forall|i: int|
            #![trigger self.spare@[i]]
            0 <= i < self.spare@.len() ==> self.spare@[i] < self.slots@.len()
                && self.slots@[self.spare@[i] as int] is Vacant
    }

    /// An empty registry.
    pub fn new() -> (timers: Self)
        ensures
            timers.wf(),
            timers@ == TimersView::<W>::empty(),
    {
        let timers = Timers {
            heap: TimerHeap::new(),
            slots: Vec::new(),
            spare: Vec::new(),
            seq: 0,
        };
        assert(timers@ =~= TimersView::<W>::empty());
        timers
    }

    /// The spare slots and the timers are apart, and every slot is within the
    /// count.
    pub proof fn lemma_wf(self)
        requires
            self.wf(),
        ensures
            self@.spare.no_duplicates(),
            forall|i: int|
                #![trigger self@.spare[i]]
                0 <= i < self@.spare.len() ==> self@.spare[i] < self@.slots
                    && !self@.timers.contains_key(self@.spare[i]),
            forall|slot: usize| #[trigger] self@.timers.contains_key(slot) ==> slot < self@.slots,
            self@.slots < usize::MAX,
    {
    }

    /// The heap holds the pending timers and no others.
    proof fn lemma_pending(self)
        requires
            self.wf(),
        ensures
            forall|slot: usize|
                #![trigger self@.pending(slot)]
                #![trigger self.heap@.queued.contains_key(slot)]
                self@.pending(slot) <==> self.heap@.queued.contains_key(slot),
            forall|slot: usize| #[trigger]
                self@.pending(slot) ==> self@.key(slot) == self.heap@.queued[slot],
    {
        self.heap.lemma_places();
        assert forall|slot: usize|
            #![trigger self.heap@.queued.contains_key(slot)]
            self.heap@.queued.contains_key(slot) implies self@.pending(slot) by {
            assert(slot < self.slots@.len());
            assert(self.slots@[slot as int] is Armed);
        }
    }
}

/// Wait for `deadline` under a new slot, and say whether it is now the
/// earliest pending timer.
fn arm<W>(timers: &mut Timers<W>, deadline: u64, waker: W) -> (result: (usize, bool))
    requires
        old(timers).wf(),
        old(timers)@.has_room(),
    ensures
        final(timers).wf(),
        result.0 == old(timers)@.fresh(),
        result.1 == old(timers)@.all_after(deadline),
        !old(timers)@.timers.contains_key(result.0),
        final(timers)@ == old(timers)@.armed(deadline, waker),
{
    proof {
        timers.lemma_pending();
        timers.lemma_wf();
    }
    let earliest = match timers.heap.peek() {
        Some(first) => {
            proof {
                assert(timers.heap@.queued.contains_key(first.slot));
                assert(timers@.pending(first.slot));
            }
            deadline < first.deadline
        },
        None => true,
    };
    let seq: u64 = timers.seq;
    timers.seq = seq.wrapping_add(1);
    let slot: usize = match timers.spare.pop() {
        Some(slot) => {
            timers.slots[slot] = Slot::Armed { fired: false, waker: Some(waker) };
            slot
        },
        None => {
            timers.slots.push(Slot::Armed { fired: false, waker: Some(waker) });
            timers.heap.add_slot()
        },
    };
    timers.heap.push(Entry { deadline, seq, slot });
    proof {
        assert(timers@.timers =~= old(timers)@.armed(deadline, waker).timers);
        assert(timers@ =~= old(timers)@.armed(deadline, waker));
    }
    (slot, earliest)
}

/// Fire every timer due at `now`, and report when the next one is due.
///
/// The wakers handed back are to be called, in order, once the registry is no
/// longer locked: a waker may arm another timer.
///
/// The second result is `None` when nothing is pending, so a caller with
/// nothing else to do can sleep until something registers rather than spinning
/// on an empty heap.
pub fn poll<W>(timers: &mut Timers<W>, now: u64) -> (result: (Vec<W>, Option<u64>))
    requires
        old(timers).wf(),
    ensures
        final(timers).wf(),
        final(timers)@ == old(timers)@.fired(now),
        final(timers)@.next_is(result.1),
        result.1 == final(timers)@.next_due(),
        exists|order: Seq<usize>| #[trigger]
            old(timers)@.firing_order(now, order) && result.0@ == old(timers)@.wakers_in(order),
{
    let mut due: Vec<W> = Vec::new();
    let ghost before = timers@;
    let ghost mut order: Seq<usize> = Seq::empty();
    proof {
        timers.lemma_pending();
        assert(before.fired(now).timers.dom() =~= before.timers.dom());
    }
    loop
        invariant
            timers.wf(),
            before == old(timers)@,
            timers@.spare == before.spare,
            timers@.slots == before.slots,
            timers@.seq == before.seq,
            timers@.timers.dom() == before.timers.dom(),
            order.no_duplicates(),
            forall|slot: usize| #[trigger] order.contains(slot) ==> before.is_due(slot, now),
            forall|slot: usize|
                #![trigger timers@.timers[slot]]
                before.timers.contains_key(slot) ==> timers@.timers[slot] == (if order.contains(
                    slot,
                ) {
                    TimerView { due: None, waker: None }
                } else {
                    before.timers[slot]
                }),
            forall|i: int, j: int|
                #![trigger order[i], order[j]]
                0 <= i <= j < order.len() ==> key_le(before.key(order[i]), before.key(order[j])),
            forall|i: int, slot: usize|
                #![trigger order[i], before.pending(slot)]
                0 <= i < order.len() && before.pending(slot) && !order.contains(slot) ==> key_le(
                    before.key(order[i]),
                    before.key(slot),
                ),
            due@ == before.wakers_in(order),
        ensures
            timers.wf(),
            timers@ == before.fired(now),
            before.firing_order(now, order),
            due@ == before.wakers_in(order),
        decreases timers.heap.queued_len(),
    {
        proof {
            timers.lemma_pending();
        }
        let first = match timers.heap.peek() {
            Some(first) => first,
            None => {
                proof {
                    assert forall|slot: usize| #[trigger] before.is_due(slot, now) implies order.contains(
                        slot,
                    ) by {
                        assert(before.pending(slot));
                        if !order.contains(slot) {
                            assert(timers@.timers[slot] == before.timers[slot]);
                            assert(timers@.pending(slot));
                        }
                    }
                    assert(timers@.timers =~= before.fired(now).timers);
                }
                break;
            },
        };
        if first.deadline > now {
            proof {
                assert forall|slot: usize| #[trigger] before.is_due(slot, now) implies order.contains(
                    slot,
                ) by {
                    assert(before.pending(slot));
                    if !order.contains(slot) {
                        assert(timers@.timers[slot] == before.timers[slot]);
                        assert(timers@.pending(slot));
                        assert(timers.heap@.queued.contains_key(slot));
                    }
                }
                assert(timers@.timers =~= before.fired(now).timers);
            }
            break;
        }
        let ghost stage = timers@;
        proof {
            assert(timers.heap@.queued.contains_key(first.slot));
            assert(timers@.pending(first.slot));
            assert(timers@.timers[first.slot] == before.timers[first.slot]);
            assert(before.pending(first.slot));
            assert(!order.contains(first.slot));
            assert forall|slot: usize| #[trigger] before.pending(slot) && !order.contains(
                slot,
            ) implies key_le(before.key(first.slot), before.key(slot)) by {
                assert(timers@.timers[slot] == before.timers[slot]);
                assert(timers@.pending(slot));
                assert(timers.heap@.queued.contains_key(slot));
            }
        }
        let waker = fire(timers);
        match waker {
            Some(waker) => due.push(waker),
            None => {},
        }
        proof {
            let longer = order.push(first.slot);
            assert(longer.drop_last() =~= order);
            assert forall|slot: usize| #[trigger] longer.contains(slot) <==> (order.contains(slot)
                || slot == first.slot) by {
                if order.contains(slot) {
                    assert(longer[order.index_of(slot)] == slot);
                }
                assert(longer[order.len() as int] == first.slot);
            }
            assert(timers@.timers.dom() =~= before.timers.dom());
            order = longer;
        }
    }
    proof {
        timers.lemma_pending();
    }
    let next = match timers.heap.peek() {
        Some(first) => {
            assert(timers.heap@.queued.contains_key(first.slot));
            assert(timers@.pending(first.slot));
            Some(first.deadline)
        },
        None => None,
    };
    proof {
        timers@.lemma_next_due(next);
    }
    (due, next)
}

/// Fire the earliest timer and take its waker.
fn fire<W>(timers: &mut Timers<W>) -> (waker: Option<W>)
    requires
        old(timers).wf(),
        old(timers).heap.queued_len() > 0,
    ensures
        final(timers).wf(),
        final(timers).heap.queued_len() == old(timers).heap.queued_len() - 1,
        old(timers).heap@.is_earliest(old(timers).heap.top()),
        waker == old(timers)@.timers[old(timers).heap.top()].waker,
        final(timers)@ == (TimersView {
            timers: old(timers)@.timers.insert(
                old(timers).heap.top(),
                TimerView { due: None, waker: None },
            ),
            ..old(timers)@
        }),
{
    proof {
        timers.lemma_pending();
    }
    match timers.heap.pop() {
        Some(first) => {
            let mut slot = Slot::Armed { fired: true, waker: None };
            std::mem::swap(&mut slot, &mut timers.slots[first.slot]);
            proof {
                assert(timers@.timers =~= old(timers)@.timers.insert(
                    first.slot,
                    TimerView { due: None, waker: None },
                ));
            }
            match slot {
                Slot::Armed { waker, .. } => waker,
                Slot::Vacant => None,
            }
        },
        None => None,
    }
}

/// A future that is ready once its deadline has passed.
pub struct Sleep {
    deadline: u64,
    /// `None` until this is first polled and found to still be in the future.
    /// Most timers are never armed at all.
    slot: Option<usize>,
}

/// A [`Sleep`] as its users see it.
pub struct SleepView {
    /// When it is over.
    pub deadline: u64,
    /// The timer it has armed, if it has armed one.
    pub slot: Option<usize>,
}

impl View for Sleep {
    type V = SleepView;

    closed spec fn view(&self) -> SleepView {
        SleepView { deadline: self.deadline, slot: self.slot }
    }
}

/// What one poll of a sleep comes to.
pub struct SleepPoll<W> {
    /// The deadline has passed.
    pub ready: bool,
    /// The timer just armed is the earliest one: whoever drives the timers
    /// waits for too late a moment.
    pub nudge: bool,
    /// A waker that the registry no longer holds, to be destroyed.
    pub dropped: Option<W>,
    /// The waker that was offered, where it was not needed.
    pub unused: Option<W>,
}

/// The sum of a time and a duration, held at the largest time there is.
pub open spec fn saturating_deadline(now: u64, nanos: u128) -> u64 {
    if now + nanos > u64::MAX {
        u64::MAX
    } else {
        (now + nanos) as u64
    }
}

/// A future that is ready `nanos` nanoseconds after `now`.
///
/// The deadline is fixed here, at the call, not at the first poll, so a sleep
/// that sits unpolled does not quietly extend itself.
pub fn sleep(now: u64, nanos: u128) -> (sleep: Sleep)
    ensures
        sleep@ == (SleepView { deadline: saturating_deadline(now, nanos), slot: None }),
        now + nanos <= u64::MAX ==> sleep@.deadline - now == nanos,
        now + nanos > u64::MAX ==> sleep@.deadline == u64::MAX,
{
    let bounded: u64 = if nanos > u64::MAX as u128 {
        u64::MAX
    } else {
        nanos as u64
    };
    sleep_until(now.saturating_add(bounded))
}

/// A future that is ready once the clock reaches `deadline`.
pub fn sleep_until(deadline: u64) -> (sleep: Sleep)
    ensures
        sleep@ == (SleepView { deadline, slot: None }),
{
    Sleep { deadline, slot: None }
}

impl SleepView {
    /// The sleep is over: its timer fired, or it has none and the time has
    /// come.
    pub open spec fn over<W>(self, timers: TimersView<W>, now: u64) -> bool {
        match self.slot {
            Some(slot) => timers.timers[slot].due is None,
            None => now >= self.deadline,
        }
    }
}

impl Sleep {
    /// The sleep's timer, if it has one, belongs to this registry.
    pub open spec fn fits<W>(self, timers: TimersView<W>) -> bool {
        self@.slot is Some ==> {
            let slot = self@.slot->0;
            &&& timers.timers.contains_key(slot)
            &&& timers.pending(slot) ==> timers.key(slot).0 == self@.deadline
        }
    }

    /// When this fires, on the clock that `now` was read from.
    pub fn deadline(&self) -> (deadline: u64)
        ensures
            deadline == self@.deadline,
    {
        self.deadline
    }

    /// See whether the deadline has passed, and wait for it with `waker` where
    /// it has not. A sleep whose time has come arms nothing.
    pub fn poll<W>(&mut self, timers: &mut Timers<W>, now: u64, waker: W) -> (result: SleepPoll<W>)
        requires
            old(timers).wf(),
            old(self).fits(old(timers)@),
            old(self)@.slot is None ==> old(timers)@.has_room(),
        ensures
            final(timers).wf(),
            final(self).fits(final(timers)@),
            final(self)@.deadline == old(self)@.deadline,
            result.ready == old(self)@.over(old(timers)@, now),
            result.ready ==> {
                &&& *final(self) == *old(self)
                &&& final(timers)@ == old(timers)@
                &&& !result.nudge
                &&& result.dropped is None
                &&& result.unused == Some(waker)
            },
            !result.ready && old(self)@.slot is Some ==> {
                let slot = old(self)@.slot->0;
                &&& *final(self) == *old(self)
                &&& final(timers)@ == old(timers)@.rewaked(slot, waker)
                &&& !result.nudge
                &&& result.dropped == old(timers)@.timers[slot].waker
                &&& result.unused is None
            },
            !result.ready && old(self)@.slot is None ==> {
                &&& final(self)@.slot == Some(old(timers)@.fresh())
                &&& final(timers)@ == old(timers)@.armed(old(self)@.deadline, waker)
                &&& result.nudge == old(timers)@.all_after(old(self)@.deadline)
                &&& result.dropped is None
                &&& result.unused is None
            },
    {
        match self.slot {
            Some(slot) => {
                let mut state = Slot::Vacant;
                std::mem::swap(&mut state, &mut timers.slots[slot]);
                match state {
                    Slot::Armed { fired: false, waker: held } => {
                        timers.slots[slot] = Slot::Armed { fired: false, waker: Some(waker) };
                        proof {
                            assert(timers@.timers =~= old(timers)@.rewaked(slot, waker).timers);
                            assert(timers@ =~= old(timers)@.rewaked(slot, waker));
                        }
                        SleepPoll { ready: false, nudge: false, dropped: held, unused: None }
                    },
                    other => {
                        timers.slots[slot] = other;
                        assert(timers.slots@ =~= old(timers).slots@);
                        SleepPoll { ready: true, nudge: false, dropped: None, unused: Some(waker) }
                    },
                }
            },
            None => {
                if now >= self.deadline {
                    return SleepPoll {
                        ready: true,
                        nudge: false,
                        dropped: None,
                        unused: Some(waker),
                    };
                }
                let (slot, earliest) = arm(timers, self.deadline, waker);
                self.slot = Some(slot);
                SleepPoll { ready: false, nudge: earliest, dropped: None, unused: None }
            },
        }
    }

    /// Give the sleep up: its timer, fired or not, leaves the registry. The
    /// waker handed back is to be destroyed.
    pub fn give_up<W>(self, timers: &mut Timers<W>) -> (dropped: Option<W>)
        requires
            old(timers).wf(),
            self.fits(old(timers)@),
        ensures
            final(timers).wf(),
            self@.slot is None ==> final(timers)@ == old(timers)@ && dropped is None,
            self@.slot is Some ==> {
                &&& final(timers)@ == old(timers)@.disarmed(self@.slot->0)
                &&& dropped == old(timers)@.timers[self@.slot->0].waker
            },
    {
        match self.slot {
            Some(slot) => {
                proof {
                    timers.heap.lemma_places();
                }
                let index = timers.heap.index_of(slot);
                if index != NOT_QUEUED {
                    let removed = timers.heap.remove(index);
                    assert(removed.slot == slot);
                }
                let mut state = Slot::Vacant;
                std::mem::swap(&mut state, &mut timers.slots[slot]);
                timers.spare.push(slot);
                proof {
                    assert(timers@.timers =~= old(timers)@.disarmed(slot).timers);
                    assert(timers@ =~= old(timers)@.disarmed(slot));
                }
                match state {
                    Slot::Armed { waker, .. } => waker,
                    Slot::Vacant => None,
                }
            },
            None => None,
        }
    }
}

/// What a timeout returns when the future did not finish in time.
#[derive(Debug, Clone, Copy, PartialEq, Eq, Structural)]
pub struct Elapsed;

impl Elapsed {
    /// What went wrong, in words.
    pub fn message(&self) -> (text: &'static str)
        ensures
            text@ == "the future did not complete within its timeout"@,
    {
        "the future did not complete within its timeout"
    }
}

/// A future under a deadline.
pub struct Timeout {
    sleep: Sleep,
}

/// What one poll of a future under a deadline comes to.
pub struct TimeoutPoll<T, W> {
    /// What the future returned, or that its time is up.
    pub output: Option<Result<T, Elapsed>>,
    /// How the deadline was looked at, where it was looked at.
    pub sleep: Option<SleepPoll<W>>,
    /// The waker that was offered, where it was not offered to the deadline.
    pub unused: Option<W>,
}

/// Give a future `nanos` nanoseconds from `now`.
pub fn timeout(now: u64, nanos: u128) -> (timeout: Timeout)
    ensures
        timeout.sleep()@ == (SleepView { deadline: saturating_deadline(now, nanos), slot: None }),
        now + nanos <= u64::MAX ==> timeout.sleep()@.deadline - now == nanos,
        now + nanos > u64::MAX ==> timeout.sleep()@.deadline == u64::MAX,
{
    Timeout { sleep: sleep(now, nanos) }
}

impl Timeout {
    /// The deadline's sleep.
    pub closed spec fn sleep(self) -> Sleep {
        self.sleep
    }

    /// Decide on what the future came to. It is polled first on every wake, so
    /// one that is ready at the same moment its deadline passes completes
    /// rather than timing out.
    pub fn poll<T, W>(&mut self, future: Option<T>, timers: &mut Timers<W>, now: u64, waker: W) -> (result:
        TimeoutPoll<T, W>)
        requires
            old(timers).wf(),
            old(self).sleep().fits(old(timers)@),
            old(self).sleep()@.slot is None ==> old(timers)@.has_room(),
        ensures
            final(timers).wf(),
            final(self).sleep().fits(final(timers)@),
            future is Some ==> {
                &&& result.output == Some(Ok::<T, Elapsed>(future->0))
                &&& result.sleep is None
                &&& result.unused == Some(waker)
                &&& *final(self) == *old(self)
                &&& final(timers)@ == old(timers)@
            },
            future is None ==> {
                let sleep = old(self).sleep()@;
                &&& result.unused is None
                &&& result.sleep matches Some(seen)
                &&& seen.ready == sleep.over(old(timers)@, now)
                &&& result.output == (if seen.ready {
                    Some(Err::<T, Elapsed>(Elapsed))
                } else {
                    None
                })
                &&& final(self).sleep()@.deadline == sleep.deadline
                &&& seen.ready ==> {
                    &&& *final(self) == *old(self)
                    &&& final(timers)@ == old(timers)@
                    &&& !seen.nudge
                    &&& seen.dropped is None
                    &&& seen.unused == Some(waker)
                }
                &&& !seen.ready && sleep.slot is Some ==> {
                    &&& *final(self) == *old(self)
                    &&& final(timers)@ == old(timers)@.rewaked(sleep.slot->0, waker)
                    &&& !seen.nudge
                    &&& seen.dropped == old(timers)@.timers[sleep.slot->0].waker
                    &&& seen.unused is None
                }
                &&& !seen.ready && sleep.slot is None ==> {
                    &&& final(self).sleep()@.slot == Some(old(timers)@.fresh())
                    &&& final(timers)@ == old(timers)@.armed(sleep.deadline, waker)
                    &&& seen.nudge == old(timers)@.all_after(sleep.deadline)
                    &&& seen.dropped is None
                    &&& seen.unused is None
                }
            },
    {
        match future {
            Some(output) => TimeoutPoll { output: Some(Ok(output)), sleep: None, unused: Some(waker) },
            None => {
                let seen = self.sleep.poll(timers, now, waker);
                let output = if seen.ready {
                    Some(Err(Elapsed))
                } else {
                    None
                };
                TimeoutPoll { output, sleep: Some(seen), unused: None }
            },
        }
    }

    /// Give the wait up, with whatever its deadline has armed. The waker
    /// handed back is to be destroyed.
    pub fn give_up<W>(self, timers: &mut Timers<W>) -> (dropped: Option<W>)
        requires
            old(timers).wf(),
            self.sleep().fits(old(timers)@),
        ensures
            final(timers).wf(),
            self.sleep()@.slot is None ==> final(timers)@ == old(timers)@ && dropped is None,
            self.sleep()@.slot is Some ==> {
                &&& final(timers)@ == old(timers)@.disarmed(self.sleep()@.slot->0)
                &&& dropped == old(timers)@.timers[self.sleep()@.slot->0].waker
            },
    {
        self.sleep.give_up(timers)
    }
}

/// Choose how the time is read. Only the first choice takes effect, so a late
/// caller cannot move time under a timer that is already pending.
pub fn set_clock<C>(installed: &mut Option<C>, clock: C)
    ensures
        *final(installed) == (match *old(installed) {
            Some(first) => Some(first),
            None => Some(clock),
        }),
{
    if installed.is_none() {
        *installed = Some(clock);
    }
}

/// What the thread that drives the timers does next.
#[derive(Clone, Copy, Debug, PartialEq, Eq, Structural)]
pub enum DriverStep {
    /// Go round: fire what is due and look again.
    Again,
    /// Wait to be nudged, this many nanoseconds at most.
    WaitFor(u64),
    /// Wait to be nudged. An idle timer thread stays off the processor.
    WaitForNudge,
}

/// Decide after a round. `next` is when the next timer was due at the end of
/// the round; a nudge since then means that a nearer one may exist.
pub fn driver_step(nudged: bool, next: Option<u64>, now: u64) -> (step: DriverStep)
    ensures
        step == (if nudged {
            DriverStep::Again
        } else {
            match next {
                None => DriverStep::WaitForNudge,
                Some(deadline) => if deadline <= now {
                    DriverStep::Again
                } else {
                    DriverStep::WaitFor((deadline - now) as u64)
                },
            }
        }),
{
    if nudged {
        return DriverStep::Again;
    }
    match next {
        Some(deadline) => {
            if deadline <= now {
                DriverStep::Again
            } else {
                DriverStep::WaitFor(deadline - now)
            }
        },
        None => DriverStep::WaitForNudge,
    }
}

/// A sleep lasts exactly as long as it was asked to: made at `now` for `nanos`
/// nanoseconds it is not over while less than that has passed, and is over once
/// it has. Where the clock cannot say so late a time it ends at the last that it
/// can.
pub proof fn law_a_sleep_lasts_as_long_as_asked<W>(
    now: u64,
    nanos: u128,
    later: u64,
    timers: TimersView<W>,
)
    ensures
        ({
            let sleep = SleepView { deadline: saturating_deadline(now, nanos), slot: None };
            &&& now + nanos <= u64::MAX ==> (sleep.over(timers, later) <==> later - now >= nanos)
            &&& now + nanos > u64::MAX ==> (sleep.over(timers, later) <==> later == u64::MAX)
        }),
{
}

/// A longer sleep is never over before a shorter one that was made at the same
/// time.
pub proof fn law_a_longer_sleep_ends_no_sooner(now: u64, nanos: u128, more: u128)
    requires
        nanos <= more,
    ensures
        now <= saturating_deadline(now, nanos) <= saturating_deadline(now, more),
{
}

/// Deadlines are ordered by time, and among equal ones by the order in which
/// they were armed; any two can be told apart but for the same pair.
pub proof fn law_deadlines_are_ordered(a: (u64, u64), b: (u64, u64), c: (u64, u64))
    ensures
        a.0 < b.0 ==> key_le(a, b) && !key_le(b, a),
        a.0 == b.0 && a.1 < b.1 ==> key_le(a, b) && !key_le(b, a),
        key_le(a, b) && key_le(b, a) ==> a == b,
        key_le(a, b) && key_le(b, c) ==> key_le(a, c),
        key_le(a, b) || key_le(b, a),
{
}

/// A round fires exactly what is due: a pending timer with a deadline at or
/// before `now` is over afterwards and holds no waker, and every other timer is
/// as it was.
pub proof fn law_a_round_fires_what_is_due<W>(timers: TimersView<W>, now: u64, slot: usize)
    requires
        timers.timers.contains_key(slot),
    ensures
        ({
            let after = timers.fired(now);
            &&& after.timers.contains_key(slot)
            &&& match timers.timers[slot].due {
                Some((deadline, _)) => if deadline <= now {
                    after.timers[slot].due is None && after.timers[slot].waker is None
                } else {
                    after.timers[slot] == timers.timers[slot]
                },
                None => after.timers[slot] == timers.timers[slot],
            }
            &&& after.slots == timers.slots && after.spare == timers.spare && after.seq
                == timers.seq
        }),
{
}

/// A round calls everyone who waits for a timer that is due, each once, and
/// nobody else.
pub proof fn law_a_round_calls_who_waits_for_what_is_due<W>(
    timers: TimersView<W>,
    now: u64,
    order: Seq<usize>,
    slot: usize,
)
    requires
        timers.firing_order(now, order),
    ensures
        timers.timers.contains_key(slot) && timers.timers[slot].due is Some
            && (timers.timers[slot].due->0).0 <= now && timers.timers[slot].waker is Some
            ==> timers.wakers_in(order).contains(timers.timers[slot].waker->0),
        forall|waker: W| #[trigger]
            timers.wakers_in(order).contains(waker) ==> exists|other: usize|
                timers.timers.contains_key(other) && (#[trigger] timers.timers[other]).due is Some
                    && (timers.timers[other].due->0).0 <= now && timers.timers[other].waker == Some(
                    waker,
                ),
        timers.wakers_in(order).len() <= order.len(),
        (forall|other: usize| #[trigger]
            timers.is_due(other, now) ==> timers.timers[other].waker is Some)
            ==> timers.wakers_in(order).len() == order.len(),
{
    lemma_wakers_in(timers, order);
    if timers.is_due(slot, now) {
        assert(order.contains(slot));
    }
    assert forall|waker: W| #[trigger] timers.wakers_in(order).contains(waker) implies exists|
        other: usize,
    |
        timers.timers.contains_key(other) && (#[trigger] timers.timers[other]).due is Some
            && (timers.timers[other].due->0).0 <= now && timers.timers[other].waker == Some(waker) by {
        let i = choose|i: int|
            0 <= i < order.len() && timers.timers[#[trigger] order[i]].waker == Some(waker);
        assert(order.contains(order[i]));
        assert(timers.is_due(order[i], now));
    }
    if forall|other: usize| #[trigger]
        timers.is_due(other, now) ==> timers.timers[other].waker is Some {
        assert forall|i: int| 0 <= i < order.len() implies timers.timers[#[trigger] order[i]].waker is Some by {
            assert(order.contains(order[i]));
            assert(timers.is_due(order[i], now));
        }
    }
}

proof fn lemma_wakers_in<W>(timers: TimersView<W>, order: Seq<usize>)
    ensures
        timers.wakers_in(order).len() <= order.len(),
        (forall|i: int| 0 <= i < order.len() ==> timers.timers[#[trigger] order[i]].waker is Some)
            ==> timers.wakers_in(order).len() == order.len(),
        forall|waker: W| #[trigger]
            timers.wakers_in(order).contains(waker) <==> exists|i: int|
                0 <= i < order.len() && timers.timers[#[trigger] order[i]].waker == Some(waker),
    decreases order.len(),
{
    let all = timers.wakers_in(order);
    if order.len() > 0 {
        let fewer = order.drop_last();
        lemma_wakers_in(timers, fewer);
        let rest = timers.wakers_in(fewer);
        assert forall|i: int| 0 <= i < fewer.len() implies #[trigger] fewer[i] == order[i] by {}
        assert(order[order.len() - 1] == order.last());
        assert forall|waker: W| #[trigger] all.contains(waker) <==> exists|i: int|
            0 <= i < order.len() && timers.timers[#[trigger] order[i]].waker == Some(waker) by {
            if timers.timers[order.last()].waker is Some {
                assert(all[rest.len() as int] == timers.timers[order.last()].waker->0);
            }
            if rest.contains(waker) {
                assert(all[rest.index_of(waker)] == waker);
                let i = choose|i: int|
                    0 <= i < fewer.len() && timers.timers[#[trigger] fewer[i]].waker == Some(waker);
                assert(order[i] == fewer[i]);
            }
            if all.contains(waker) {
                let k = all.index_of(waker);
                if k < rest.len() {
                    assert(rest[k] == waker);
                }
            }
            if exists|i: int|
                0 <= i < order.len() && timers.timers[#[trigger] order[i]].waker == Some(waker) {
                let i = choose|i: int|
                    0 <= i < order.len() && timers.timers[#[trigger] order[i]].waker == Some(waker);
                if i < fewer.len() {
                    assert(fewer[i] == order[i]);
                }
            }
        }
        if forall|i: int| 0 <= i < order.len() ==> timers.timers[#[trigger] order[i]].waker is Some {
            assert forall|i: int| 0 <= i < fewer.len() implies timers.timers[#[trigger] fewer[i]].waker is Some by {
                assert(fewer[i] == order[i]);
            }
        }
    }
}

/// Wakers are called in the order of their timers.
pub proof fn law_wakers_follow_their_timers<W>(
    timers: TimersView<W>,
    first: Seq<usize>,
    second: Seq<usize>,
    one: usize,
)
    ensures
        timers.wakers_in(first + second) == timers.wakers_in(first) + timers.wakers_in(second),
        timers.wakers_in(seq![one]) == (match timers.timers[one].waker {
            Some(waker) => seq![waker],
            None => Seq::empty(),
        }),
    decreases second.len(),
{
    reveal_with_fuel(TimersView::wakers_in, 2);
    assert(seq![one].drop_last() =~= Seq::<usize>::empty());
    assert(timers.wakers_in(seq![one]) =~= (match timers.timers[one].waker {
        Some(waker) => seq![waker],
        None => Seq::empty(),
    }));
    if second.len() == 0 {
        assert(first + second =~= first);
        assert(timers.wakers_in(first) + timers.wakers_in(second) =~= timers.wakers_in(first));
    } else {
        law_wakers_follow_their_timers(timers, first, second.drop_last(), one);
        assert((first + second).drop_last() =~= first + second.drop_last());
        assert((first + second).last() == second.last());
        assert(timers.wakers_in(first + second) =~= timers.wakers_in(first) + timers.wakers_in(
            second,
        ));
    }
}

/// A timer that is armed waits for its deadline and calls its waker, in a slot
/// that no other has, behind those that were armed before it for the same time;
/// every other timer is as it was. Giving it a new waker changes that alone.
pub proof fn law_arming_a_timer_disturbs_no_other<W>(
    timers: TimersView<W>,
    deadline: u64,
    waker: W,
    later: W,
    other: usize,
)
    requires
        timers.has_room(),
        !timers.timers.contains_key(timers.fresh()),
        other != timers.fresh(),
        timers.seq < u64::MAX,
    ensures
        ({
            let slot = timers.fresh();
            let after = timers.armed(deadline, waker);
            let again = after.rewaked(slot, later);
            &&& after.timers[slot].due == Some((deadline, timers.seq))
            &&& after.timers[slot].waker == Some(waker)
            &&& after.seq == timers.seq + 1
            &&& after.timers.contains_key(other) == timers.timers.contains_key(other)
            &&& timers.timers.contains_key(other) ==> after.timers[other] == timers.timers[other]
            &&& again.timers[slot].due == after.timers[slot].due
            &&& again.timers[slot].waker == Some(later)
            &&& again.timers.contains_key(other) == after.timers.contains_key(other)
            &&& after.timers.contains_key(other) ==> again.timers[other] == after.timers[other]
        }),
{
}

/// The next deadline is that of a pending timer, and none is earlier; there is
/// none exactly where nothing is pending.
pub proof fn law_the_next_deadline_is_the_earliest<W>(
    timers: TimersView<W>,
    next: Option<u64>,
    slot: usize,
)
    requires
        timers.next_is(next),
    ensures
        timers.timers.contains_key(slot) && timers.timers[slot].due is Some ==> next is Some
            && next->0 <= (timers.timers[slot].due->0).0,
        next is Some ==> exists|other: usize|
            timers.timers.contains_key(other) && (#[trigger] timers.timers[other]).due is Some
                && (timers.timers[other].due->0).0 == next->0,
{
    if timers.timers.contains_key(slot) && timers.timers[slot].due is Some {
        assert(timers.pending(slot));
    }
    if next is Some {
        let other = choose|other: usize| #[trigger]
            timers.pending(other) && timers.key(other).0 == next->0;
        assert(timers.timers[other].due is Some);
    }
}

/// A sleep is not over before its deadline: what a round at `now` fires is due
/// at `now`, and an unarmed sleep looks at the clock.
pub proof fn law_a_sleep_waits_for_its_deadline<W>(sleep: SleepView, timers: TimersView<W>, now: u64)
    requires
        sleep.slot is Some ==> timers.pending(sleep.slot->0) && timers.key(sleep.slot->0).0
            == sleep.deadline,
        sleep.over(timers.fired(now), now),
    ensures
        now >= sleep.deadline,
{
}

/// A round at or after the deadline ends the sleep.
pub proof fn law_a_round_at_the_deadline_ends_the_sleep<W>(
    sleep: SleepView,
    timers: TimersView<W>,
    now: u64,
)
    requires
        sleep.slot is Some ==> timers.pending(sleep.slot->0) && timers.key(sleep.slot->0).0
            == sleep.deadline,
        now >= sleep.deadline,
    ensures
        sleep.over(timers.fired(now), now),
{
}

/// Timers fire in the order of their deadlines, not of their registration, and
/// those with one deadline in the order they were armed in.
pub proof fn law_timers_fire_in_deadline_order<W>(
    timers: TimersView<W>,
    now: u64,
    order: Seq<usize>,
    first: int,
    second: int,
)
    requires
        timers.firing_order(now, order),
        0 <= first < order.len(),
        0 <= second < order.len(),
        timers.key(order[first]).0 < timers.key(order[second]).0 || (timers.key(order[first]).0
            == timers.key(order[second]).0 && timers.key(order[first]).1 < timers.key(
            order[second],
        ).1),
    ensures
        first < second,
{
    if second <= first {
        assert(key_le(timers.key(order[second]), timers.key(order[first])));
    }
}

/// A sleep that is given up wakes nobody: its timer is in no firing order
/// afterwards, and every other timer is as it was.
pub proof fn law_a_given_up_sleep_is_disarmed<W>(
    timers: TimersView<W>,
    slot: usize,
    now: u64,
    order: Seq<usize>,
)
    requires
        timers.timers.contains_key(slot),
        timers.disarmed(slot).firing_order(now, order),
    ensures
        !order.contains(slot),
        forall|other: usize|
            other != slot ==> (#[trigger] order.contains(other) <==> timers.is_due(other, now)),
{
    assert forall|other: usize| other != slot implies (#[trigger] order.contains(other)
        <==> timers.is_due(other, now)) by {
        assert(timers.disarmed(slot).is_due(other, now) <==> timers.is_due(other, now));
    }
    assert(!timers.disarmed(slot).is_due(slot, now));
}

/// Arming a timer and giving it up leaves the other timers as they were, and
/// its slot is the next to be handed out.
pub proof fn law_a_given_up_timer_leaves_its_slot<W>(timers: TimersView<W>, deadline: u64, waker: W)
    requires
        timers.has_room(),
        !timers.timers.contains_key(timers.fresh()),
    ensures
        ({
            let after = timers.armed(deadline, waker).disarmed(timers.fresh());
            &&& after.timers == timers.timers
            &&& after.fresh() == timers.fresh()
            &&& timers.spare.len() > 0 ==> after.spare == timers.spare && after.slots
                == timers.slots
        }),
{
    let after = timers.armed(deadline, waker).disarmed(timers.fresh());
    assert(after.timers =~= timers.timers);
    if timers.spare.len() > 0 {
        assert(after.spare =~= timers.spare);
    }
}

/// A new timer nudges whoever drives the timers exactly where it is due before
/// all that are pending, so that the wait for the next one is too long.
pub proof fn law_the_earliest_timer_nudges<W>(timers: TimersView<W>, deadline: u64, next: Option<u64>)
    requires
        timers.next_is(next),
    ensures
        timers.all_after(deadline) <==> next is None || deadline < next->0,
        timers.next_due() == next,
{
    timers.lemma_next_due(next);
    match next {
        Some(first) => {
            let slot = choose|slot: usize| #[trigger]
                timers.pending(slot) && timers.key(slot).0 == first;
            assert(timers.pending(slot));
        },
        None => {},
    }
}

/// Giving a timer up leaves every other as it was, deadline and waker.
pub proof fn law_giving_a_timer_up_disturbs_no_other<W>(
    timers: TimersView<W>,
    slot: usize,
    other: usize,
)
    requires
        other != slot,
    ensures
        !timers.disarmed(slot).timers.contains_key(slot),
        timers.disarmed(slot).timers.contains_key(other) == timers.timers.contains_key(other),
        timers.timers.contains_key(other) ==> timers.disarmed(slot).timers[other]
            == timers.timers[other],
        timers.disarmed(slot).seq == timers.seq,
        timers.disarmed(slot).fresh() == slot,
{
}

} // verus!
