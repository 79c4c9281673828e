//! A counting semaphore.
use vstd::prelude::*;

use crate::sync::wait_queue::{wakers_of, Entry, QueueView, WaitQueue, WakeKind};

verus! {

/// A counting semaphore.
pub struct Semaphore<W> {
    permits: usize,
    waiters: WaitQueue<W>,
}

/// A [`Semaphore`] as its users see it.
#[verifier::ext_equal]
pub struct SemaphoreView<W> {
    /// Permits free right now.
    pub permits: usize,
    pub waiters: QueueView<W>,
}

/// A held semaphore permit, to be given back with [`Semaphore::release`].
pub struct SemaphorePermit {
    held: (),
}

impl SemaphorePermit {
    /// Drop the permit without returning it, permanently shrinking the
    /// semaphore by one.
    ///
    /// Pairs with [`Semaphore::add_permits`]. Forgetting every permit turns
    /// the semaphore into a signal, where the count is a number of events that
    /// happened rather than a number of slots that are free.
    pub fn forget(self) {
    }
}

/// The smaller of a count and a length.
pub open spec fn at_most(n: nat, len: nat) -> nat {
    if n < len {
        n
    } else {
        len
    }
}

/// The sum of two counters, wrapping at their width.
pub open spec fn wrapping_sum(a: usize, b: usize) -> usize {
    if a + b > usize::MAX {
        (a + b - usize::MAX - 1) as usize
    } else {
        (a + b) as usize
    }
}

/// The first `n` in line are granted, one by one.
pub open spec fn granted_first<W>(waiters: QueueView<W>, n: nat) -> QueueView<W> {
    let chosen = waiters.order.take(at_most(n, waiters.order.len()) as int);
    QueueView {
        order: waiters.order.skip(chosen.len() as int),
        live: Map::new(
            |id: usize| waiters.live.contains_key(id),
            |id: usize|
                if chosen.contains(id) {
                    Entry { kind: WakeKind::One, waker: None }
                } else {
                    waiters.live[id]
                },
        ),
        ..waiters
    }
}

impl<W> SemaphoreView<W> {
    /// One permit has been handed out.
    pub open spec fn taken(self) -> Self {
        SemaphoreView { permits: (self.permits - 1) as usize, ..self }
    }

    /// `n` more permits are free and as many waiters are granted.
    pub open spec fn supplied(self, n: usize) -> Self {
        SemaphoreView {
            permits: wrapping_sum(self.permits, n),
            waiters: granted_first(self.waiters, n as nat),
        }
    }

    /// A permit has been given back.
    pub open spec fn returned(self) -> Self {
        SemaphoreView {
            permits: wrapping_sum(self.permits, 1),
            waiters: self.waiters.granted_one(),
        }
    }

    /// The waiter of `token`, if it has one, has given up its slot.
    pub open spec fn left_by(self, token: Option<usize>) -> Self {
        match token {
            Some(id) => SemaphoreView { waiters: self.waiters.removed(id), ..self },
            None => self,
        }
    }

    /// The waiter of `token` was granted a permit that is still free, so that
    /// someone else has to be woken for it if the waiter leaves.
    pub open spec fn owes_a_wake(self, token: Option<usize>) -> bool {
        &&& token is Some
        &&& self.waiters.live[token->0].kind is One
        &&& self.permits != 0
    }
}

impl<W> View for Semaphore<W> {
    type V = SemaphoreView<W>;

    closed spec fn view(&self) -> SemaphoreView<W> {
        SemaphoreView { permits: self.permits, waiters: self.waiters@ }
    }
}

impl<W> Semaphore<W> {
    /// Well-formedness: that of the queue.
    pub closed spec fn wf(self) -> bool {
        self.waiters.wf()
    }

    /// The queue of a well-formed semaphore is consistent.
    pub proof fn lemma_consistent(self)
        requires
            self.wf(),
        ensures
            self@.waiters.consistent(),
    {
        self.waiters.lemma_consistent();
    }

    /// A semaphore starting with `permits` available.
    pub fn new(permits: usize) -> (semaphore: Self)
        ensures
            semaphore.wf(),
            semaphore@ == (SemaphoreView { permits, waiters: QueueView::<W>::empty() }),
    {
        Semaphore { permits, waiters: WaitQueue::new() }
    }

    /// Permits available right now.
    pub fn available_permits(&self) -> (permits: usize)
        ensures
            permits == self@.permits,
    {
        self.permits
    }

    /// Take a permit without waiting, if one is free.
    pub fn try_acquire(&mut self) -> (permit: Option<SemaphorePermit>)
        requires
            old(self).wf(),
        ensures
            final(self).wf(),
            permit is Some <==> old(self)@.permits > 0,
            final(self)@ == (if old(self)@.permits > 0 { old(self)@.taken() } else { old(self)@ }),
            permit is Some ==> final(self)@.permits == old(self)@.permits - 1,
            permit is None ==> final(self)@.permits == 0,
            final(self)@.waiters == old(self)@.waiters,
    {
        if self.permits == 0 {
            return None;
        }
        self.permits = self.permits - 1;
        Some(SemaphorePermit { held: () })
    }

    /// Wait for a permit.
    pub fn acquire(&self) -> (acquire: Acquire)
        ensures
            acquire@ is None,
            acquire.fits(self@),
    {
        Acquire { registration: None }
    }

    /// Hand the semaphore `n` more permits than it was created with. The
    /// wakers handed back are to be called, in order: one waiter per permit,
    /// because a woken task takes exactly one.
    pub fn add_permits(&mut self, n: usize) -> (wakers: Vec<W>)
        requires
            old(self).wf(),
        ensures
            final(self).wf(),
            final(self)@ == old(self)@.supplied(n),
            old(self)@.permits + n <= usize::MAX ==> final(self)@.permits == old(self)@.permits + n,
            old(self)@.permits + n > usize::MAX ==> final(self)@.permits == old(self)@.permits + n
                - usize::MAX - 1,
            wakers@ == wakers_of(
                old(self)@.waiters.order.take(
                    at_most(n as nat, old(self)@.waiters.order.len()) as int,
                ),
                old(self)@.waiters.live,
            ),
    {
        let mut wakers: Vec<W> = Vec::new();
        self.permits = self.permits.wrapping_add(n);
        let mut granted: usize = 0;
        let ghost before = self.waiters@;
        proof {
            self.waiters.lemma_consistent();
            assert(before.order.take(0) =~= Seq::<usize>::empty());
            assert(before.order.skip(0) =~= before.order);
            assert(granted_first(before, 0) =~= before) by {
                assert(granted_first(before, 0).live =~= before.live);
            }
        }
        while granted < n
            invariant
                self.wf(),
                before.consistent(),
                before == old(self)@.waiters,
                self.permits == wrapping_sum(old(self)@.permits, n),
                granted <= n,
                granted <= before.order.len(),
                self.waiters@ == granted_first(before, granted as nat),
                wakers@ == wakers_of(before.order.take(granted as int), before.live),
            ensures
                self.wf(),
                before == old(self)@.waiters,
                self.permits == wrapping_sum(old(self)@.permits, n),
                granted == at_most(n as nat, before.order.len()),
                self.waiters@ == granted_first(before, granted as nat),
                wakers@ == wakers_of(before.order.take(granted as int), before.live),
            decreases n - granted,
        {
            proof {
                let chosen = before.order.take(granted as int);
                if granted < before.order.len() {
                    let more = before.order.take(granted as int + 1);
                    let first = before.order[granted as int];
                    assert(before.order.contains(first));
                    assert(more.drop_last() =~= chosen);
                    assert(!chosen.contains(first)) by {
                        if chosen.contains(first) {
                            assert(before.order[chosen.index_of(first)] == first);
                        }
                    }
                    assert forall|id: usize| #[trigger] more.contains(id) <==> (chosen.contains(id) || id
                        == first) by {
                        if chosen.contains(id) {
                            assert(more[chosen.index_of(id)] == id);
                        }
                        assert(more[granted as int] == first);
                    }
                    assert(self.waiters@.order[0] == first);
                    let after = granted_first(before, granted as nat + 1);
                    assert(self.waiters@.granted_one().order =~= after.order);
                    assert(self.waiters@.granted_one().live =~= after.live);
                    assert(self.waiters@.granted_one() =~= after);
                }
            }
            match self.waiters.grant_one() {
                Some(waker) => {
                    match waker {
                        Some(waker) => wakers.push(waker),
                        None => {},
                    }
                },
                None => {
                    break;
                },
            }
            granted = granted + 1;
        }
        proof {
            assert(granted_first(before, granted as nat) =~= granted_first(before, n as nat));
        }
        wakers
    }

    /// Give a permit back. The waker handed back is to be called.
    pub fn release(&mut self, permit: SemaphorePermit) -> (waker: Option<W>)
        requires
            old(self).wf(),
        ensures
            final(self).wf(),
            final(self)@ == old(self)@.returned(),
            old(self)@.permits < usize::MAX ==> final(self)@.permits == old(self)@.permits + 1,
            waker == old(self)@.waiters.first_waker(),
    {
        permit.forget();
        self.permits = self.permits.wrapping_add(1);
        self.wake_one()
    }

    fn wake_one(&mut self) -> (waker: Option<W>)
        requires
            old(self).wf(),
        ensures
            final(self).wf(),
            final(self)@ == (SemaphoreView { waiters: old(self)@.waiters.granted_one(), ..old(self)@ }),
            waker == old(self)@.waiters.first_waker(),
    {
        match self.waiters.grant_one() {
            Some(waker) => waker,
            None => None,
        }
    }

    /// The waker that a waiting future holds.
    pub fn waker(&self, acquire: &Acquire) -> (waker: Option<&W>)
        requires
            acquire.fits(self@),
        ensures
            (match acquire@ {
                Some(id) => match self@.waiters.live[id].waker {
                    Some(held) => waker == Some(&held),
                    None => waker is None,
                },
                None => waker is None,
            }),
    {
        self.waiters.waker(acquire.registration)
    }
}

/// The wait for one permit.
pub struct Acquire {
    registration: Option<usize>,
}

/// What one poll of a wait comes to.
pub struct Acquisition<W> {
    /// The permit, once there is one.
    pub permit: Option<SemaphorePermit>,
    /// A waker that the queue no longer holds, to be destroyed.
    pub dropped: Option<W>,
    /// The waker that was offered, where it was not needed.
    pub unused: Option<W>,
}

impl View for Acquire {
    type V = Option<usize>;

    /// The slot it waits in, if it waits.
    closed spec fn view(&self) -> Option<usize> {
        self.registration
    }
}

impl Acquire {
    /// The future waits in this semaphore, if it waits at all.
    pub open spec fn fits<W>(self, semaphore: SemaphoreView<W>) -> bool {
        self@ is Some ==> semaphore.waiters.live.contains_key(self@->0)
    }

    /// Take a permit, or wait for one with `waker`.
    ///
    /// Trying and registering are one step on the semaphore's state, so no
    /// permit is given back between the two.
    pub fn poll<W>(&mut self, semaphore: &mut Semaphore<W>, waker: Option<W>) -> (acquisition:
        Acquisition<W>)
        requires
            old(semaphore).wf(),
            old(self).fits(old(semaphore)@),
            old(semaphore)@.waiters.has_room(old(self)@),
        ensures
            final(semaphore).wf(),
            final(self).fits(final(semaphore)@),
            acquisition.permit is Some <==> old(semaphore)@.permits > 0,
            final(semaphore)@.permits == (if acquisition.permit is Some {
                old(semaphore)@.permits - 1
            } else {
                0
            }),
            old(semaphore)@.permits > 0 ==> {
                &&& final(semaphore)@ == old(semaphore)@.taken().left_by(old(self)@)
                &&& final(self)@ is None
                &&& acquisition.unused == waker
                &&& acquisition.dropped == (match old(self)@ {
                    Some(id) => old(semaphore)@.waiters.live[id].waker,
                    None => None,
                })
            },
            old(semaphore)@.permits == 0 ==> {
                &&& final(semaphore)@ == (SemaphoreView {
                    waiters: old(semaphore)@.waiters.registered(old(self)@, waker),
                    ..old(semaphore)@
                })
                &&& final(self)@ == Some(old(semaphore)@.waiters.slot_for(old(self)@))
                &&& acquisition.unused is None
                &&& acquisition.dropped == (if old(self)@ is Some && waker is Some {
                    old(semaphore)@.waiters.live[old(self)@->0].waker
                } else {
                    None
                })
            },
    {
        match semaphore.try_acquire() {
            Some(permit) => {
                let dropped = match semaphore.waiters.remove(&mut self.registration) {
                    Some(entry) => entry.waker,
                    None => None,
                };
                Acquisition { permit: Some(permit), dropped, unused: waker }
            },
            None => {
                let dropped = semaphore.waiters.register(&mut self.registration, waker);
                Acquisition { permit: None, dropped, unused: None }
            },
        }
    }

    /// Stop waiting. A waiter that was granted and leaves while a permit is
    /// free hands its wake on. The first waker is to be destroyed, the second
    /// to be called.
    pub fn give_up<W>(self, semaphore: &mut Semaphore<W>) -> (result: (Option<W>, Option<W>))
        requires
            old(semaphore).wf(),
            self.fits(old(semaphore)@),
        ensures
            final(semaphore).wf(),
            result.0 == (match self@ {
                Some(id) => old(semaphore)@.waiters.live[id].waker,
                None => None,
            }),
            old(semaphore)@.owes_a_wake(self@) ==> {
                let left = old(semaphore)@.left_by(self@);
                &&& result.1 == left.waiters.first_waker()
                &&& final(semaphore)@ == (SemaphoreView {
                    waiters: left.waiters.granted_one(),
                    ..left
                })
            },
            !old(semaphore)@.owes_a_wake(self@) ==> {
                &&& result.1 is None
                &&& final(semaphore)@ == old(semaphore)@.left_by(self@)
            },
    {
        let mut registration = self.registration;
        match semaphore.waiters.remove(&mut registration) {
            Some(entry) => {
                let next = if entry.kind == WakeKind::One && semaphore.permits != 0 {
                    semaphore.wake_one()
                } else {
                    None
                };
                (entry.waker, next)
            },
            None => (None, None),
        }
    }
}

/// A permit that is taken and given back leaves the count as it was.
pub proof fn law_a_returned_permit_is_free_again<W>(semaphore: SemaphoreView<W>)
    requires
        semaphore.permits > 0,
    ensures
        semaphore.taken().returned().permits == semaphore.permits,
{
}

/// A permit that is taken and forgotten does not come back, and a semaphore
/// without permits hands none out until some are added: adding `n` to `m`
/// forgotten ones leaves exactly `n`.
pub proof fn law_added_permits_count_events<W>(semaphore: SemaphoreView<W>, n: usize)
    requires
        semaphore.permits == 0,
    ensures
        semaphore.supplied(n).permits == n,
        n > 0 ==> semaphore.supplied(n).taken().permits == n - 1,
{
}

/// Permits are neither lost nor made: added ones come on top of those that are
/// free, whatever their number, and adding some and then more is adding all of
/// them at once. Where they are more than can be counted the count starts over.
pub proof fn law_added_permits_come_on_top<W>(semaphore: SemaphoreView<W>, m: usize, n: usize)
    ensures
        semaphore.permits + n <= usize::MAX ==> semaphore.supplied(n).permits == semaphore.permits
            + n,
        semaphore.permits + n > usize::MAX ==> semaphore.supplied(n).permits == semaphore.permits
            + n - usize::MAX - 1,
        m + n <= usize::MAX ==> semaphore.supplied(m).supplied(n).permits == semaphore.supplied(
            (m + n) as usize,
        ).permits,
        semaphore.supplied(0).permits == semaphore.permits,
        semaphore.permits < usize::MAX ==> semaphore.returned().permits == semaphore.permits + 1,
        semaphore.permits > 0 ==> semaphore.taken().permits == semaphore.permits - 1,
        semaphore.taken().waiters == semaphore.waiters,
{
}

/// Adding permits changes nothing for a waiter that does not stand in line, and
/// neither lets a waiter in nor takes one out of the semaphore.
pub proof fn law_added_permits_disturb_nobody_else<W>(
    semaphore: SemaphoreView<W>,
    n: usize,
    id: usize,
)
    requires
        semaphore.waiters.consistent(),
    ensures
        ({
            let after = semaphore.supplied(n).waiters;
            &&& after.live.contains_key(id) == semaphore.waiters.live.contains_key(id)
            &&& semaphore.waiters.live.contains_key(id) && !semaphore.waiters.order.contains(id)
                ==> after.live[id] == semaphore.waiters.live[id]
            &&& after.order.len() == (if n < semaphore.waiters.order.len() {
                semaphore.waiters.order.len() - n
            } else {
                0
            })
            &&& forall|i: int|
                0 <= i < after.order.len() ==> #[trigger] after.order[i]
                    == semaphore.waiters.order[i + n]
        }),
{
    let order = semaphore.waiters.order;
    let chosen = order.take(at_most(n as nat, order.len()) as int);
    if chosen.contains(id) {
        assert(order[chosen.index_of(id)] == id);
    }
}

/// Each added permit grants the next waiter in line, and no waiter beyond
/// those is disturbed.
pub proof fn law_one_waiter_is_granted_for_each_permit<W>(semaphore: SemaphoreView<W>, n: usize)
    requires
        semaphore.waiters.consistent(),
    ensures
        forall|i: int|
            0 <= i < semaphore.waiters.order.len() ==> {
                let id = #[trigger] semaphore.waiters.order[i];
                let after = semaphore.supplied(n).waiters;
                if i < n {
                    after.live[id].kind is One && !after.order.contains(id)
                } else {
                    after.live[id] == semaphore.waiters.live[id] && after.order.contains(id)
                }
            },
{
    let order = semaphore.waiters.order;
    let chosen = order.take(at_most(n as nat, order.len()) as int);
    let rest = order.skip(chosen.len() as int);
    assert forall|i: int| 0 <= i < order.len() implies ({
        let id = #[trigger] order[i];
        let after = semaphore.supplied(n).waiters;
        if i < n {
            after.live[id].kind is One && !after.order.contains(id)
        } else {
            after.live[id] == semaphore.waiters.live[id] && after.order.contains(id)
        }
    }) by {
        let id = order[i];
        assert(order.contains(id));
        if i < n {
            assert(chosen[i] == id);
            if rest.contains(id) {
                assert(order[rest.index_of(id) + chosen.len()] == id);
            }
        } else {
            assert(rest[i - chosen.len()] == id);
            if chosen.contains(id) {
                assert(order[chosen.index_of(id)] == id);
            }
        }
    }
}

/// A waiter that leaves the line before anything was granted costs nobody a
/// wake: the next permit grants the waiter that is then first.
pub proof fn law_leaving_the_line_consumes_no_wake<W>(semaphore: SemaphoreView<W>, id: usize)
    requires
        semaphore.waiters.consistent(),
        semaphore.waiters.order.len() >= 2,
        semaphore.waiters.order[0] == id,
    ensures
        !semaphore.owes_a_wake(Some(id)),
        ({
            let after = semaphore.left_by(Some(id)).supplied(1);
            after.waiters.live[semaphore.waiters.order[1]].kind is One
        }),
{
    let order = semaphore.waiters.order;
    assert(order.contains(id));
    order.index_of_first_ensures(id);
    let left = semaphore.left_by(Some(id)).waiters;
    assert(left.order =~= order.drop_first());
    assert(left.order.take(1)[0] == order[1]);
    assert(order.contains(order[1]));
}

/// A waiter that was granted, and leaves while the permit is still there,
/// hands its wake to the next in line.
pub proof fn law_a_granted_waiter_that_leaves_wakes_the_next<W>(
    semaphore: SemaphoreView<W>,
    id: usize,
)
    requires
        semaphore.waiters.consistent(),
        semaphore.permits > 0,
        semaphore.waiters.live.contains_key(id),
        semaphore.waiters.live[id].kind is One,
        semaphore.waiters.order.len() > 0,
    ensures
        semaphore.owes_a_wake(Some(id)),
        semaphore.left_by(Some(id)).waiters.first_waker() == semaphore.waiters.first_waker(),
        semaphore.left_by(Some(id)).waiters.granted_one().live[semaphore.waiters.order[0]].kind is One,
{
    let order = semaphore.waiters.order;
    assert(!order.contains(id));
    order.index_of_first_ensures(id);
    assert(order.contains(order[0]));
}

/// A wake is owed exactly where a waiter that was granted leaves while a permit
/// is still free: not for one that never waited, not for one still in line, and
/// not once the permits are gone. Leaving takes no permit.
pub proof fn law_when_a_wake_is_owed<W>(semaphore: SemaphoreView<W>, id: usize)
    ensures
        semaphore.owes_a_wake(Some(id)) <==> semaphore.waiters.live[id].kind == WakeKind::One
            && semaphore.permits > 0,
        !semaphore.owes_a_wake(None),
        semaphore.left_by(Some(id)).permits == semaphore.permits,
        semaphore.left_by(Some(id)).waiters == semaphore.waiters.removed(id),
        semaphore.left_by(None) == semaphore,
{
}

} // verus!
