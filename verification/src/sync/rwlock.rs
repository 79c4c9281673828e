//! A reader-writer lock.
//!
//! Not fair: a waiter is woken and then races for the lock with anyone
//! arriving at that moment, so a writer can be overtaken.
use vstd::prelude::*;

use crate::sync::wait_queue::{wakers_of, QueueView, WaitQueue};

verus! {

/// State value meaning "one writer holds this"; any other value is the number
/// of readers.
const WRITER: usize = usize::MAX;

/// A reader-writer lock and the value it guards.
pub struct RwLock<T, W> {
    state: usize,
    waiters: WaitQueue<W>,
    value: T,
}

/// Who holds a lock.
pub enum Holder {
    Free,
    /// At least one reader.
    Readers(nat),
    Writer,
}

/// A [`RwLock`] as its users see it.
#[verifier::ext_equal]
pub struct RwLockView<T, W> {
    pub holder: Holder,
    pub waiters: QueueView<W>,
    pub value: T,
}

/// A held read lock, to be given back with [`RwLock::release_read`].
pub struct RwLockReadGuard {
    held: (),
}

/// A held write lock, to be given back with [`RwLock::release_write`].
pub struct RwLockWriteGuard {
    held: (),
}

impl Holder {
    /// How many readers hold the lock.
    pub open spec fn readers(self) -> nat {
        match self {
            Holder::Readers(count) => count,
            _ => 0,
        }
    }

    /// The holders after one more reader.
    pub open spec fn with_reader(self) -> Self {
        Holder::Readers(self.readers() + 1)
    }

    /// The holders after one reader has left.
    pub open spec fn without_reader(self) -> Self {
        if self.readers() <= 1 {
            Holder::Free
        } else {
            Holder::Readers((self.readers() - 1) as nat)
        }
    }

    /// A reader may come in.
    pub open spec fn admits_reader(self) -> bool {
        !(self is Writer)
    }

    /// A writer may come in.
    pub open spec fn admits_writer(self) -> bool {
        self is Free
    }

    /// One more reader can be counted. The count stops short of the state that
    /// stands for a writer.
    pub open spec fn countable(self) -> bool {
        self.readers() < usize::MAX - 1
    }
}

impl<T, W> RwLockView<T, W> {
    /// The same lock, held otherwise.
    pub open spec fn held_by(self, holder: Holder) -> Self {
        RwLockView { holder, ..self }
    }

    /// Everyone in line is granted.
    pub open spec fn all_granted(self) -> Self {
        RwLockView { waiters: self.waiters.granted_all(), ..self }
    }

    /// The waiter of `token`, if it has one, has given up its slot.
    pub open spec fn left_by(self, token: Option<usize>) -> Self {
        match token {
            Some(id) => RwLockView { waiters: self.waiters.removed(id), ..self },
            None => self,
        }
    }

    /// The waiter of `token` is in line and holds `waker`.
    pub open spec fn registered(self, token: Option<usize>, waker: Option<W>) -> Self {
        RwLockView { waiters: self.waiters.registered(token, waker), ..self }
    }

    /// The waker held under `token`.
    pub open spec fn waker_of(self, token: Option<usize>) -> Option<W> {
        match token {
            Some(id) => self.waiters.live[id].waker,
            None => None,
        }
    }
}

impl<T, W> View for RwLock<T, W> {
    type V = RwLockView<T, W>;

    closed spec fn view(&self) -> RwLockView<T, W> {
        RwLockView {
            holder: if self.state == WRITER {
                Holder::Writer
            } else if self.state == 0 {
                Holder::Free
            } else {
                Holder::Readers(self.state as nat)
            },
            waiters: self.waiters@,
            value: self.value,
        }
    }
}

impl<T, W> RwLock<T, W> {
    /// Well-formedness: that of the queue.
    pub closed spec fn wf(self) -> bool {
        self.waiters.wf()
    }

    /// The queue of a well-formed lock is consistent, and readers that hold it
    /// are counted from one.
    pub proof fn lemma_consistent(self)
        requires
            self.wf(),
        ensures
            self@.waiters.consistent(),
            self@.holder is Readers ==> self@.holder.readers() > 0,
    {
        self.waiters.lemma_consistent();
    }

    /// An unlocked `RwLock` holding `value`.
    pub fn new(value: T) -> (lock: Self)
        ensures
            lock.wf(),
            lock@ == (RwLockView {
                holder: Holder::Free,
                waiters: QueueView::<W>::empty(),
                value,
            }),
    {
        RwLock { state: 0, waiters: WaitQueue::new(), value }
    }

    /// The value, consuming the lock.
    pub fn into_inner(self) -> (value: T)
        ensures
            value == self@.value,
    {
        self.value
    }

    /// Exclusive access without a lock, because `&mut self` is already proof
    /// that nobody else holds one.
    pub fn get_mut(&mut self) -> (value: &mut T)
        requires
            old(self).wf(),
        ensures
            *value == old(self)@.value,
            final(self).wf(),
            final(self)@ == (RwLockView { value: *final(value), ..old(self)@ }),
    {
        &mut self.value
    }

    /// Take a read lock without waiting, if no writer holds it.
    pub fn try_read(&mut self) -> (guard: Option<RwLockReadGuard>)
        requires
            old(self).wf(),
            old(self)@.holder.countable(),
        ensures
            final(self).wf(),
            guard is Some <==> old(self)@.holder.admits_reader(),
            guard is None <==> old(self)@.holder is Writer,
            guard is Some ==> final(self)@.holder is Readers && final(self)@.holder->0 == (
            match old(self)@.holder {
                Holder::Readers(count) => count + 1,
                _ => 1,
            }),
            final(self)@ == (if guard is Some {
                old(self)@.held_by(old(self)@.holder.with_reader())
            } else {
                old(self)@
            }),
    {
        if self.state == WRITER {
            return None;
        }
        self.state = self.state + 1;
        Some(RwLockReadGuard { held: () })
    }

    /// Take a write lock without waiting, if the lock is free.
    pub fn try_write(&mut self) -> (guard: Option<RwLockWriteGuard>)
        requires
            old(self).wf(),
        ensures
            final(self).wf(),
            guard is Some <==> old(self)@.holder.admits_writer(),
            guard is Some <==> old(self)@.holder is Free,
            final(self)@ == (if guard is Some {
                old(self)@.held_by(Holder::Writer)
            } else {
                old(self)@
            }),
    {
        if self.state != 0 {
            return None;
        }
        self.state = WRITER;
        Some(RwLockWriteGuard { held: () })
    }

    /// Give a read lock back. The last reader out grants everyone in line; the
    /// wakers handed back are to be called, in order.
    pub fn release_read(&mut self, guard: RwLockReadGuard) -> (wakers: Vec<W>)
        requires
            old(self).wf(),
            old(self)@.holder is Readers,
        ensures
            final(self).wf(),
            old(self)@.holder.readers() > 1 ==> {
                &&& wakers@ == Seq::<W>::empty()
                &&& final(self)@ == old(self)@.held_by(old(self)@.holder.without_reader())
            },
            old(self)@.holder.readers() == 1 ==> {
                &&& wakers@ == wakers_of(old(self)@.waiters.order, old(self)@.waiters.live)
                &&& final(self)@ == old(self)@.held_by(Holder::Free).all_granted()
            },
    {
        let RwLockReadGuard { held: _ } = guard;
        self.state = self.state - 1;
        if self.state == 0 {
            self.waiters.grant_all()
        } else {
            Vec::new()
        }
    }

    /// Give a write lock back. Everyone in line is granted, because the next
    /// holder may be a batch of readers; the wakers handed back are to be
    /// called, in order.
    pub fn release_write(&mut self, guard: RwLockWriteGuard) -> (wakers: Vec<W>)
        requires
            old(self).wf(),
            old(self)@.holder is Writer,
        ensures
            final(self).wf(),
            wakers@ == wakers_of(old(self)@.waiters.order, old(self)@.waiters.live),
            final(self)@ == old(self)@.held_by(Holder::Free).all_granted(),
    {
        let RwLockWriteGuard { held: _ } = guard;
        self.state = 0;
        self.waiters.grant_all()
    }

    /// What a reader reads.
    pub fn read_value(&self, guard: &RwLockReadGuard) -> (value: &T)
        ensures
            *value == self@.value,
    {
        &self.value
    }

    /// What a writer reads and writes.
    pub fn write_value(&mut self, guard: &RwLockWriteGuard) -> (value: &mut T)
        requires
            old(self).wf(),
        ensures
            *value == old(self)@.value,
            final(self).wf(),
            final(self)@ == (RwLockView { value: *final(value), ..old(self)@ }),
    {
        &mut self.value
    }

    /// Wait for a read lock.
    pub fn read(&self) -> (read: Read)
        ensures
            read@ is None,
            read.fits(self@),
    {
        Read { registration: None }
    }

    /// Wait for a write lock.
    pub fn write(&self) -> (write: Write)
        ensures
            write@ is None,
            write.fits(self@),
    {
        Write { registration: None }
    }

    /// How the lock is held, in a word. The value is not shown: reading it
    /// would need the lock.
    pub fn held(&self) -> (word: &'static str)
        ensures
            word@ == (match self@.holder {
                Holder::Writer => "write"@,
                Holder::Free => "free"@,
                Holder::Readers(_) => "read"@,
            }),
    {
        if self.state == WRITER {
            "write"
        } else if self.state == 0 {
            "free"
        } else {
            "read"
        }
    }

    /// Whether one more reader can be counted.
    pub fn counts_another(&self) -> (countable: bool)
        ensures
            countable == self@.holder.countable(),
    {
        self.state == WRITER || self.state < WRITER - 1
    }

    /// The waker that a waiting reader holds.
    pub fn reader_waker(&self, read: &Read) -> (waker: Option<&W>)
        requires
            read.fits(self@),
        ensures
            (match self@.waker_of(read@) {
                Some(held) => waker == Some(&held),
                None => waker is None,
            }),
    {
        self.waiters.waker(read.registration)
    }

    /// The waker that a waiting writer holds.
    pub fn writer_waker(&self, write: &Write) -> (waker: Option<&W>)
        requires
            write.fits(self@),
        ensures
            (match self@.waker_of(write@) {
                Some(held) => waker == Some(&held),
                None => waker is None,
            }),
    {
        self.waiters.waker(write.registration)
    }
}

/// The wait for a read lock.
pub struct Read {
    registration: Option<usize>,
}

/// The wait for a write lock.
pub struct Write {
    registration: Option<usize>,
}

/// What one poll of a wait for a lock comes to.
pub struct Entrance<G, W> {
    /// The guard, once the lock is held.
    pub guard: Option<G>,
    /// A waker that the queue no longer holds, to be destroyed.
    pub dropped: Option<W>,
    /// The waker that was offered, where it was not needed.
    pub unused: Option<W>,
}

impl View for Read {
    type V = Option<usize>;

    /// The slot it waits in, if it waits.
    closed spec fn view(&self) -> Option<usize> {
        self.registration
    }
}

impl View for Write {
    type V = Option<usize>;

    /// The slot it waits in, if it waits.
    closed spec fn view(&self) -> Option<usize> {
        self.registration
    }
}

/// What a poll that had to wait hands back.
pub open spec fn replaced<T, W>(
    lock: RwLockView<T, W>,
    token: Option<usize>,
    waker: Option<W>,
) -> Option<W> {
    if waker is Some {
        lock.waker_of(token)
    } else {
        None
    }
}

impl Read {
    /// The future waits for this lock, if it waits at all.
    pub open spec fn fits<T, W>(self, lock: RwLockView<T, W>) -> bool {
        self@ is Some ==> lock.waiters.live.contains_key(self@->0)
    }

    /// Take the read lock, or wait for it with `waker`.
    ///
    /// Trying and registering are one step on the lock's state, so the lock is
    /// not given back between the two.
    pub fn poll<T, W>(&mut self, lock: &mut RwLock<T, W>, waker: Option<W>) -> (entrance: Entrance<
        RwLockReadGuard,
        W,
    >)
        requires
            old(lock).wf(),
            old(lock)@.holder.countable(),
            old(self).fits(old(lock)@),
            old(lock)@.waiters.has_room(old(self)@),
        ensures
            final(lock).wf(),
            final(self).fits(final(lock)@),
            entrance.guard is Some <==> old(lock)@.holder.admits_reader(),
            entrance.guard is Some ==> {
                &&& final(lock)@ == old(lock)@.held_by(old(lock)@.holder.with_reader()).left_by(
                    old(self)@,
                )
                &&& final(self)@ is None
                &&& entrance.dropped == old(lock)@.waker_of(old(self)@)
                &&& entrance.unused == waker
            },
            entrance.guard is None ==> {
                &&& final(lock)@ == old(lock)@.registered(old(self)@, waker)
                &&& final(self)@ == Some(old(lock)@.waiters.slot_for(old(self)@))
                &&& entrance.dropped == replaced(old(lock)@, old(self)@, waker)
                &&& entrance.unused is None
            },
    {
        match lock.try_read() {
            Some(guard) => {
                let dropped = match lock.waiters.remove(&mut self.registration) {
                    Some(entry) => entry.waker,
                    None => None,
                };
                Entrance { guard: Some(guard), dropped, unused: waker }
            },
            None => {
                let dropped = lock.waiters.register(&mut self.registration, waker);
                Entrance { guard: None, dropped, unused: None }
            },
        }
    }

    /// Stop waiting. The waker handed back is to be destroyed.
    pub fn give_up<T, W>(self, lock: &mut RwLock<T, W>) -> (dropped: Option<W>)
        requires
            old(lock).wf(),
            self.fits(old(lock)@),
        ensures
            final(lock).wf(),
            final(lock)@ == old(lock)@.left_by(self@),
            dropped == old(lock)@.waker_of(self@),
    {
        let mut registration = self.registration;
        match lock.waiters.remove(&mut registration) {
            Some(entry) => entry.waker,
            None => None,
        }
    }
}

impl Write {
    /// The future waits for this lock, if it waits at all.
    pub open spec fn fits<T, W>(self, lock: RwLockView<T, W>) -> bool {
        self@ is Some ==> lock.waiters.live.contains_key(self@->0)
    }

    /// Take the write lock, or wait for it with `waker`.
    ///
    /// Trying and registering are one step on the lock's state, so the lock is
    /// not given back between the two.
    pub fn poll<T, W>(&mut self, lock: &mut RwLock<T, W>, waker: Option<W>) -> (entrance: Entrance<
        RwLockWriteGuard,
        W,
    >)
        requires
            old(lock).wf(),
            old(self).fits(old(lock)@),
            old(lock)@.waiters.has_room(old(self)@),
        ensures
            final(lock).wf(),
            final(self).fits(final(lock)@),
            entrance.guard is Some <==> old(lock)@.holder.admits_writer(),
            entrance.guard is Some ==> {
                &&& final(lock)@ == old(lock)@.held_by(Holder::Writer).left_by(old(self)@)
                &&& final(self)@ is None
                &&& entrance.dropped == old(lock)@.waker_of(old(self)@)
                &&& entrance.unused == waker
            },
            entrance.guard is None ==> {
                &&& final(lock)@ == old(lock)@.registered(old(self)@, waker)
                &&& final(self)@ == Some(old(lock)@.waiters.slot_for(old(self)@))
                &&& entrance.dropped == replaced(old(lock)@, old(self)@, waker)
                &&& entrance.unused is None
            },
    {
        match lock.try_write() {
            Some(guard) => {
                let dropped = match lock.waiters.remove(&mut self.registration) {
                    Some(entry) => entry.waker,
                    None => None,
                };
                Entrance { guard: Some(guard), dropped, unused: waker }
            },
            None => {
                let dropped = lock.waiters.register(&mut self.registration, waker);
                Entrance { guard: None, dropped, unused: None }
            },
        }
    }

    /// Stop waiting. The waker handed back is to be destroyed.
    pub fn give_up<T, W>(self, lock: &mut RwLock<T, W>) -> (dropped: Option<W>)
        requires
            old(lock).wf(),
            self.fits(old(lock)@),
        ensures
            final(lock).wf(),
            final(lock)@ == old(lock)@.left_by(self@),
            dropped == old(lock)@.waker_of(self@),
    {
        let mut registration = self.registration;
        match lock.waiters.remove(&mut registration) {
            Some(entry) => entry.waker,
            None => None,
        }
    }
}

/// Readers share the lock and a writer excludes everyone: behind a reader only
/// readers are let in, behind a writer nobody, and whoever leaves leaves the
/// lock as it was before.
pub proof fn law_readers_share_and_a_writer_excludes(holder: Holder)
    requires
        holder.admits_reader(),
        holder is Readers ==> holder.readers() > 0,
    ensures
        holder.with_reader().admits_reader(),
        !holder.with_reader().admits_writer(),
        !Holder::Writer.admits_reader(),
        !Holder::Writer.admits_writer(),
        holder.with_reader().readers() == holder.readers() + 1,
        holder.with_reader().without_reader() == holder,
{
}

/// A lock and the guards of it that are alive, borrowed or owned.
pub struct GuardsView {
    pub holder: Holder,
    pub readers: nat,
    pub writers: nat,
}

/// Something that is done with a lock.
pub enum LockEvent {
    /// A read lock is asked for, by a try or by a poll.
    Read,
    /// A write lock is asked for, by a try or by a poll.
    Write,
    /// A read guard is given back.
    ReleaseRead,
    /// A write guard is given back.
    ReleaseWrite,
}

impl GuardsView {
    /// A lock that nobody ever held.
    pub open spec fn none() -> Self {
        GuardsView { holder: Holder::Free, readers: 0, writers: 0 }
    }

    /// The event can happen: a reader can be counted, and only a guard that is
    /// alive is given back.
    pub open spec fn allows(self, event: LockEvent) -> bool {
        match event {
            LockEvent::Read => self.holder.countable(),
            LockEvent::Write => true,
            LockEvent::ReleaseRead => self.readers > 0,
            LockEvent::ReleaseWrite => self.writers > 0,
        }
    }

    /// What an event leaves. What is refused changes nothing.
    pub open spec fn after(self, event: LockEvent) -> Self {
        match event {
            LockEvent::Read => if self.holder.admits_reader() {
                GuardsView {
                    holder: self.holder.with_reader(),
                    readers: self.readers + 1,
                    ..self
                }
            } else {
                self
            },
            LockEvent::Write => if self.holder.admits_writer() {
                GuardsView { holder: Holder::Writer, writers: self.writers + 1, ..self }
            } else {
                self
            },
            LockEvent::ReleaseRead => GuardsView {
                holder: self.holder.without_reader(),
                readers: (self.readers - 1) as nat,
                ..self
            },
            LockEvent::ReleaseWrite => GuardsView {
                holder: Holder::Free,
                writers: (self.writers - 1) as nat,
                ..self
            },
        }
    }

    /// What these events leave, one after the other.
    pub open spec fn after_all(self, events: Seq<LockEvent>) -> Self
        decreases events.len(),
    {
        if events.len() == 0 {
            self
        } else {
            self.after_all(events.drop_last()).after(events.last())
        }
    }

    /// These events can happen, one after the other.
    pub open spec fn allows_all(self, events: Seq<LockEvent>) -> bool
        decreases events.len(),
    {
        events.len() > 0 ==> {
            &&& self.allows_all(events.drop_last())
            &&& self.after_all(events.drop_last()).allows(events.last())
        }
    }
}

/// Whatever is done with a lock, there is at most one write guard, and no read
/// guard beside it. The lock goes by exactly the guards that are alive: a
/// reader is let in when there is no write guard, a writer when there is no
/// guard at all, and a read guard can be given back whenever one is alive.
pub proof fn law_a_lock_goes_by_its_guards(events: Seq<LockEvent>)
    requires
        GuardsView::none().allows_all(events),
    ensures
        ({
            let now = GuardsView::none().after_all(events);
            &&& now.writers <= 1
            &&& now.writers == 1 ==> now.readers == 0
            &&& now.holder.admits_writer() <==> now.readers == 0 && now.writers == 0
            &&& now.holder.admits_reader() <==> now.writers == 0
            &&& now.holder.readers() == now.readers
            &&& now.holder is Readers <==> now.readers > 0
            &&& now.holder is Writer <==> now.writers == 1
        }),
    decreases events.len(),
{
    if events.len() > 0 {
        law_a_lock_goes_by_its_guards(events.drop_last());
    }
}

/// Taking and giving the lock back, giving a wait up and waiting touch neither
/// the value nor what they are not about: holding leaves the line alone, and the
/// line leaves the holder alone.
pub proof fn law_a_lock_keeps_its_value<T, W>(
    lock: RwLockView<T, W>,
    holder: Holder,
    token: Option<usize>,
    waker: Option<W>,
)
    ensures
        lock.held_by(holder).holder == holder,
        lock.held_by(holder).value == lock.value,
        lock.held_by(holder).waiters == lock.waiters,
        lock.all_granted().holder == lock.holder,
        lock.all_granted().value == lock.value,
        lock.all_granted().waiters == lock.waiters.granted_all(),
        lock.left_by(token).holder == lock.holder,
        lock.left_by(token).value == lock.value,
        token is None ==> lock.left_by(token).waiters == lock.waiters,
        token is Some ==> lock.left_by(token).waiters == lock.waiters.removed(token->0),
        lock.registered(token, waker).holder == lock.holder,
        lock.registered(token, waker).value == lock.value,
        lock.registered(token, waker).waiters == lock.waiters.registered(token, waker),
{
}

/// Releasing the lock takes everyone out of the line, so nobody sleeps behind
/// a lock that is free.
pub proof fn law_nobody_sleeps_behind_a_free_lock<T, W>(lock: RwLockView<T, W>)
    requires
        lock.waiters.consistent(),
    ensures
        ({
            let after = lock.held_by(Holder::Free).all_granted();
            &&& after.waiters.order.len() == 0
            &&& forall|id: usize| #[trigger]
                after.waiters.live.contains_key(id) ==> !(after.waiters.live[id].kind is Queued)
        }),
{
}

/// A wait that is given up returns its slot, and the next waiter gets that
/// very slot: waiting and giving up over and over takes no further room.
pub proof fn law_a_given_up_wait_leaves_its_slot<T, W>(
    lock: RwLockView<T, W>,
    waker: Option<W>,
)
    requires
        lock.waiters.consistent(),
        lock.waiters.has_room(None),
    ensures
        ({
            let id = lock.waiters.fresh();
            let after = lock.registered(None, waker).left_by(Some(id));
            &&& after.waiters.live == lock.waiters.live
            &&& after.waiters.order == lock.waiters.order
            &&& after.waiters.fresh() == id
            &&& after.waiters.vacant.len() > 0
            &&& lock.waiters.vacant.len() > 0 ==> after == lock
        }),
{
    let before = lock.waiters;
    let id = before.fresh();
    assert(!before.live.contains_key(id)) by {
        if before.vacant.len() > 0 {
            assert(before.vacant.contains(before.vacant[0]));
        }
    }
    assert(!before.order.contains(id));
    let joined = lock.registered(None, waker).waiters;
    assert(joined.order == before.order.push(id));
    assert(joined.order[before.order.len() as int] == id);
    joined.order.index_of_first_ensures(id);
    assert(joined.order.remove_value(id) =~= before.order);
    let after = lock.registered(None, waker).left_by(Some(id));
    assert(after.waiters.live =~= before.live);
    if before.vacant.len() > 0 {
        assert(after.waiters.vacant =~= before.vacant);
    }
}

/// What a wait that goes on lets go of: the waker that the waiter held, where it
/// offers another; and nothing where it offers none or never held one.
pub proof fn law_a_wait_lets_go_of_the_waker_it_replaces<T, W>(
    lock: RwLockView<T, W>,
    id: usize,
    waker: W,
)
    ensures
        replaced(lock, Some(id), Some(waker)) == lock.waiters.live[id].waker,
        replaced(lock, Some(id), None) is None,
        replaced(lock, None, Some(waker)) is None,
        lock.waker_of(Some(id)) == lock.waiters.live[id].waker,
        lock.waker_of(None) is None,
{
}

} // verus!
