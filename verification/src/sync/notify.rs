//! A wake-up that remembers a notification nobody was waiting for.
use vstd::prelude::*;

use crate::sync::wait_queue::{wakers_of, QueueView, WaitQueue, WakeKind};

verus! {

/// A one-shot wake-up that remembers a notification with no waiter.
///
/// The permit is the whole point: a producer that signals before the consumer
/// has parked must not lose the signal, or the consumer sleeps forever holding
/// work that was already announced.
pub struct Notify<W> {
    permit: bool,
    /// Bumped by [`Notify::notify_waiters`], which leaves no permit.
    generation: usize,
    waiters: WaitQueue<W>,
}

/// A [`Notify`] as its users see it.
#[verifier::ext_equal]
pub struct NotifyView<W> {
    /// A notification is stored for the next waiter to arrive.
    pub permit: bool,
    /// How many broadcasts there have been, modulo the width of the counter.
    pub generation: usize,
    pub waiters: QueueView<W>,
}

/// What one waiting future finds when it looks.
pub enum Notice {
    /// It found its notification at an earlier look.
    Already,
    /// Its slot was granted.
    Assigned(WakeKind),
    /// There was a broadcast since the future was made.
    Broadcast,
    /// A stored notification is there to be taken.
    Stored,
    /// There is nothing for it yet.
    Nothing,
}

impl<W> NotifyView<W> {
    /// The first waiter is granted, or the notification is stored.
    pub open spec fn notified_one(self) -> Self {
        if self.waiters.order.len() > 0 {
            NotifyView { waiters: self.waiters.granted_one(), ..self }
        } else {
            NotifyView { permit: true, ..self }
        }
    }

    /// Every waiter is granted and the broadcast is counted.
    pub open spec fn notified_all(self) -> Self {
        NotifyView {
            permit: self.permit,
            generation: if self.generation == usize::MAX {
                0
            } else {
                (self.generation + 1) as usize
            },
            waiters: self.waiters.granted_all(),
        }
    }

    /// The waiter of `token`, if it has one, has given up its slot.
    pub open spec fn left_by(self, token: Option<usize>) -> Self {
        match token {
            Some(id) => NotifyView { waiters: self.waiters.removed(id), ..self },
            None => self,
        }
    }

    /// The stored notification has been taken.
    pub open spec fn spent(self) -> Self {
        NotifyView { permit: false, ..self }
    }

    /// The waiter of `token` is in line and holds `waker`.
    pub open spec fn registered(self, token: Option<usize>, waker: Option<W>) -> Self {
        NotifyView { waiters: self.waiters.registered(token, waker), ..self }
    }
}

/// What a look for the notification comes to.
pub struct Look<W> {
    /// The notification is there.
    pub ready: bool,
    /// A waker that the queue no longer holds, to be destroyed.
    pub dropped: Option<W>,
    /// The waker that was offered, where it was not needed.
    pub unused: Option<W>,
}

/// The future of one notification.
pub struct Notified {
    /// The broadcast generation when this was made.
    generation: usize,
    registration: Option<usize>,
    done: bool,
    /// [`Notified::enable`] may take a notification before a poll delivers it.
    /// Giving up in between passes the notification on.
    reserved_one: bool,
}

/// A [`Notified`] as its users see it.
pub struct NotifiedView {
    /// The broadcast generation when the future was made.
    pub generation: usize,
    /// The slot it waits in, if it waits.
    pub registration: Option<usize>,
    /// It has found its notification.
    pub done: bool,
    /// It holds a single notification that no poll has delivered.
    pub reserved_one: bool,
}

impl NotifiedView {
    /// What the future finds if it looks now.
    pub open spec fn notice<W>(self, notify: NotifyView<W>) -> Notice {
        if self.done {
            Notice::Already
        } else if self.registration is Some && !(
        notify.waiters.live[self.registration->0].kind is Queued) {
            Notice::Assigned(notify.waiters.live[self.registration->0].kind)
        } else if notify.generation != self.generation {
            Notice::Broadcast
        } else if notify.permit {
            Notice::Stored
        } else {
            Notice::Nothing
        }
    }

    /// The future after a look, before anything is delivered.
    pub open spec fn looked<W>(self, notify: NotifyView<W>) -> Self {
        match self.notice(notify) {
            Notice::Already => self,
            Notice::Assigned(kind) => NotifiedView {
                registration: None,
                done: true,
                reserved_one: kind is One,
                ..self
            },
            Notice::Broadcast => NotifiedView {
                registration: None,
                done: true,
                reserved_one: false,
                ..self
            },
            Notice::Stored => NotifiedView {
                registration: None,
                done: true,
                reserved_one: true,
                ..self
            },
            Notice::Nothing => NotifiedView {
                registration: Some(notify.waiters.slot_for(self.registration)),
                ..self
            },
        }
    }

    /// What a look by this future with `waker` leaves of the [`Notify`].
    pub open spec fn looked_at<W>(self, notify: NotifyView<W>, waker: Option<W>) -> NotifyView<W> {
        match self.notice(notify) {
            Notice::Already => notify,
            Notice::Assigned(_) => notify.left_by(self.registration),
            Notice::Broadcast => notify.left_by(self.registration),
            Notice::Stored => notify.spent().left_by(self.registration),
            Notice::Nothing => notify.registered(self.registration, waker),
        }
    }

    /// The future after a poll: what it found is delivered.
    pub open spec fn polled<W>(self, notify: NotifyView<W>) -> Self {
        if self.notice(notify) is Nothing {
            self.looked(notify)
        } else {
            NotifiedView { reserved_one: false, ..self.looked(notify) }
        }
    }

    /// What a look with `waker` comes to.
    pub open spec fn look<W>(self, notify: NotifyView<W>, waker: Option<W>) -> Look<W> {
        let held = match self.registration {
            Some(id) => notify.waiters.live[id].waker,
            None => None,
        };
        if self.notice(notify) is Nothing {
            Look {
                ready: false,
                dropped: if waker is Some { held } else { None },
                unused: None,
            }
        } else {
            Look { ready: true, dropped: held, unused: waker }
        }
    }

    /// What giving this future up leaves of the [`Notify`]: a notification
    /// that it was given and has not delivered goes to the next in line.
    pub open spec fn given_up<W>(self, notify: NotifyView<W>) -> NotifyView<W> {
        if self.reserved_one {
            notify.notified_one()
        } else if self.registration is Some && notify.waiters.live[self.registration->0].kind is One {
            notify.left_by(self.registration).notified_one()
        } else {
            notify.left_by(self.registration)
        }
    }
}

impl View for Notified {
    type V = NotifiedView;

    closed spec fn view(&self) -> NotifiedView {
        NotifiedView {
            generation: self.generation,
            registration: self.registration,
            done: self.done,
            reserved_one: self.reserved_one,
        }
    }
}

impl<W> View for Notify<W> {
    type V = NotifyView<W>;

    closed spec fn view(&self) -> NotifyView<W> {
        NotifyView {
            permit: self.permit,
            generation: self.generation,
            waiters: self.waiters@,
        }
    }
}

impl<W> Notify<W> {
    /// Well-formedness: that of the queue.
    pub closed spec fn wf(self) -> bool {
        self.waiters.wf()
    }

    /// The queue of a well-formed [`Notify`] is consistent.
    pub proof fn lemma_consistent(self)
        requires
            self.wf(),
        ensures
            self@.waiters.consistent(),
    {
        self.waiters.lemma_consistent();
    }

    /// A `Notify` holding no permit and no waiters.
    pub fn new() -> (notify: Self)
        ensures
            notify.wf(),
            notify@ == (NotifyView {
                permit: false,
                generation: 0,
                waiters: QueueView::<W>::empty(),
            }),
    {
        Notify { permit: false, generation: 0, waiters: WaitQueue::new() }
    }

    /// Grant one waiter, or leave a permit for the next one to arrive. The
    /// waker handed back is to be called.
    pub fn notify_one(&mut self) -> (waker: Option<W>)
        requires
            old(self).wf(),
        ensures
            final(self).wf(),
            final(self)@ == old(self)@.notified_one(),
            waker == old(self)@.waiters.first_waker(),
    {
        match self.waiters.grant_one() {
            Some(waker) => waker,
            None => {
                self.permit = true;
                None
            },
        }
    }

    /// Grant every current waiter. Leaves no permit. The wakers handed back
    /// are to be called, in order.
    pub fn notify_waiters(&mut self) -> (wakers: Vec<W>)
        requires
            old(self).wf(),
        ensures
            final(self).wf(),
            final(self)@ == old(self)@.notified_all(),
            wakers@ == wakers_of(old(self)@.waiters.order, old(self)@.waiters.live),
    {
        self.generation = self.generation.wrapping_add(1);
        self.waiters.grant_all()
    }

    /// Wait for a notification, taking a stored permit if one is there.
    pub fn notified(&self) -> (notified: Notified)
        ensures
            notified@ == (NotifiedView {
                generation: self@.generation,
                registration: None,
                done: false,
                reserved_one: false,
            }),
            notified.fits(self@),
    {
        Notified {
            generation: self.generation,
            registration: None,
            done: false,
            reserved_one: false,
        }
    }

    /// The waker that a waiting future holds.
    pub fn waker(&self, notified: &Notified) -> (waker: Option<&W>)
        requires
            notified.fits(self@),
        ensures
            notified@.registration is None ==> waker is None,
            notified@.registration is Some ==> (match self@.waiters.live[notified@.registration->0].waker {
                Some(held) => waker == Some(&held),
                None => waker is None,
            }),
    {
        self.waiters.waker(notified.registration)
    }
}

impl<W> Default for Notify<W> {
    fn default() -> (notify: Self)
        ensures
            notify.wf(),
            notify@ == (NotifyView {
                permit: false,
                generation: 0,
                waiters: QueueView::<W>::empty(),
            }),
    {
        Notify::new()
    }
}

impl Notified {
    /// The future waits in `notify` if it waits at all, and is not waiting
    /// once it is done.
    pub open spec fn fits<W>(self, notify: NotifyView<W>) -> bool {
        &&& self@.registration is Some ==> notify.waiters.live.contains_key(self@.registration->0)
        &&& self@.done ==> self@.registration is None
        &&& self@.reserved_one ==> self@.done
    }

    /// Whether the notification is there; otherwise wait for it with `waker`.
    fn ready_or_register<W>(&mut self, notify: &mut Notify<W>, waker: Option<W>) -> (look: Look<W>)
        requires
            old(notify).wf(),
            old(self).fits(old(notify)@),
            old(notify)@.waiters.has_room(old(self)@.registration),
        ensures
            final(notify).wf(),
            final(self).fits(final(notify)@),
            final(self)@ == old(self)@.looked(old(notify)@),
            final(notify)@ == old(self)@.looked_at(old(notify)@, waker),
            look == old(self)@.look(old(notify)@, waker),
    {
        if self.done {
            return Look { ready: true, dropped: None, unused: waker };
        }
        let assigned: Option<WakeKind> = match self.registration {
            Some(id) => {
                let kind = notify.waiters.kind(id);
                if kind != WakeKind::Queued {
                    Some(kind)
                } else {
                    None
                }
            },
            None => None,
        };
        let notification: Option<WakeKind> = if assigned.is_some() {
            assigned
        } else if notify.generation != self.generation {
            Some(WakeKind::All)
        } else if notify.permit {
            notify.permit = false;
            Some(WakeKind::One)
        } else {
            None
        };
        match notification {
            Some(kind) => {
                let removed = notify.waiters.remove(&mut self.registration);
                self.done = true;
                self.reserved_one = kind == WakeKind::One;
                let dropped = match removed {
                    Some(entry) => entry.waker,
                    None => None,
                };
                Look { ready: true, dropped, unused: waker }
            },
            None => {
                let replaced = notify.waiters.register(&mut self.registration, waker);
                Look { ready: false, dropped: replaced, unused: None }
            },
        }
    }

    /// Register before checking outside state, taking a notification if one is
    /// already available.
    pub fn enable<W>(&mut self, notify: &mut Notify<W>) -> (look: Look<W>)
        requires
            old(notify).wf(),
            old(self).fits(old(notify)@),
            old(notify)@.waiters.has_room(old(self)@.registration),
        ensures
            final(notify).wf(),
            final(self).fits(final(notify)@),
            final(self)@ == old(self)@.looked(old(notify)@),
            final(notify)@ == old(self)@.looked_at(old(notify)@, None),
            look == old(self)@.look(old(notify)@, None),
    {
        self.ready_or_register(notify, None)
    }

    /// Look for the notification, and wait with `waker` where there is none
    /// yet. A ready poll delivers the notification: giving the future up
    /// afterwards passes nothing on.
    ///
    /// `waker` is `None` where the waker held already would wake the same task.
    pub fn poll<W>(&mut self, notify: &mut Notify<W>, waker: Option<W>) -> (look: Look<W>)
        requires
            old(notify).wf(),
            old(self).fits(old(notify)@),
            old(notify)@.waiters.has_room(old(self)@.registration),
        ensures
            final(notify).wf(),
            final(self).fits(final(notify)@),
            final(self)@ == old(self)@.polled(old(notify)@),
            final(notify)@ == old(self)@.looked_at(old(notify)@, waker),
            look == old(self)@.look(old(notify)@, waker),
    {
        let look = self.ready_or_register(notify, waker);
        if look.ready {
            self.reserved_one = false;
        }
        look
    }

    /// Give the future up. A single notification that it was given and has not
    /// delivered goes to the next in line, or is stored. The first waker is to
    /// be destroyed, the second to be called.
    pub fn give_up<W>(self, notify: &mut Notify<W>) -> (result: (Option<W>, Option<W>))
        requires
            old(notify).wf(),
            self.fits(old(notify)@),
        ensures
            final(notify).wf(),
            final(notify)@ == self@.given_up(old(notify)@),
            result.0 == (match self@.registration {
                Some(id) => old(notify)@.waiters.live[id].waker,
                None => None,
            }),
            result.1 == (if self@.reserved_one {
                old(notify)@.waiters.first_waker()
            } else if self@.registration is Some && old(
                notify,
            )@.waiters.live[self@.registration->0].kind is One {
                old(notify)@.waiters.removed(self@.registration->0).first_waker()
            } else {
                None
            }),
    {
        if self.reserved_one {
            return (None, notify.notify_one());
        }
        let mut registration = self.registration;
        match notify.waiters.remove(&mut registration) {
            Some(entry) => {
                let next = if entry.kind == WakeKind::One {
                    notify.notify_one()
                } else {
                    None
                };
                (entry.waker, next)
            },
            None => (None, None),
        }
    }
}

/// The notifications to single waiters that nobody has taken yet: the stored
/// one, and those assigned to a slot.
pub open spec fn outstanding<W>(notify: NotifyView<W>) -> nat {
    assigned_slots(notify.waiters).len() + (if notify.permit { 1nat } else { 0nat })
}

/// The slots that hold a single notification.
pub open spec fn assigned_slots<W>(waiters: QueueView<W>) -> Set<usize> {
    waiters.live.dom().filter(|id: usize| waiters.live[id].kind is One)
}

proof fn lemma_assigned_finite<W>(waiters: QueueView<W>)
    requires
        waiters.consistent(),
    ensures
        assigned_slots(waiters).finite(),
{
    let below = vstd::set_lib::set_int_range(0, waiters.slots as int);
    vstd::set_lib::lemma_int_range(0, waiters.slots as int);
    let ids = below.map(|i: int| i as usize);
    below.lemma_map_finite(|i: int| i as usize);
    assert(assigned_slots(waiters).subset_of(ids)) by {
        assert forall|id: usize| assigned_slots(waiters).contains(id) implies ids.contains(id) by {
            assert(waiters.live.contains_key(id));
            assert(below.contains(id as int));
        }
    }
    vstd::set_lib::lemma_set_subset_finite(ids, assigned_slots(waiters));
}

/// No notification is lost, and none appears from nowhere: notifying one
/// waiter adds exactly one outstanding notification, except that a second
/// stored one is no different from the first.
pub proof fn law_notify_one_adds_one<W>(notify: NotifyView<W>)
    requires
        notify.waiters.consistent(),
    ensures
        outstanding(notify.notified_one()) == outstanding(notify) + (if notify.permit
            && notify.waiters.order.len() == 0 {
            0int
        } else {
            1int
        }),
{
    let after = notify.notified_one();
    if notify.waiters.order.len() > 0 {
        let first = notify.waiters.order[0];
        assert(notify.waiters.order.contains(first));
        lemma_assigned_finite(notify.waiters);
        assert(assigned_slots(after.waiters) =~= assigned_slots(notify.waiters).insert(first));
    }
}

/// A waiter that gives up after it was assigned a notification passes that
/// notification on: as many are outstanding afterwards as before, unless the
/// one that would be stored meets another that is stored already.
pub proof fn law_giving_up_passes_the_notification_on<W>(waiting: NotifiedView, notify: NotifyView<W>)
    requires
        notify.waiters.consistent(),
        waiting.registration is Some,
        !waiting.reserved_one,
        notify.waiters.live.contains_key(waiting.registration->0),
    ensures
        outstanding(waiting.given_up(notify)) == outstanding(notify) - (if notify.permit
            && notify.waiters.order.len() == 0
            && notify.waiters.live[waiting.registration->0].kind is One {
            1int
        } else {
            0int
        }),
{
    let id = waiting.registration->0;
    let left = notify.left_by(Some(id));
    lemma_assigned_finite(notify.waiters);
    lemma_removed_consistent(notify.waiters, id);
    notify.waiters.order.index_of_first_ensures(id);
    if notify.waiters.live[id].kind is One {
        assert(assigned_slots(left.waiters) =~= assigned_slots(notify.waiters).remove(id));
        assert(!notify.waiters.order.contains(id));
        law_notify_one_adds_one(left);
    } else {
        assert(assigned_slots(left.waiters) =~= assigned_slots(notify.waiters));
    }
}

/// Removing a waiter leaves a consistent queue.
pub proof fn lemma_removed_consistent<W>(waiters: QueueView<W>, id: usize)
    requires
        waiters.consistent(),
        waiters.live.contains_key(id),
    ensures
        waiters.removed(id).consistent(),
{
    let after = waiters.removed(id);
    let order = waiters.order;
    order.index_of_first_ensures(id);
    if order.contains(id) {
        let k = order.index_of_first(id)->0;
        assert(after.order == order.remove(k));
        assert forall|other: usize| #[trigger] after.order.contains(other) <==> (order.contains(other)
            && other != id) by {
            if order.contains(other) && other != id {
                let m = order.index_of(other);
                assert(after.order[if m < k { m } else { m - 1 }] == other);
            }
            if after.order.contains(other) {
                let m = after.order.index_of(other);
                assert(order[if m < k { m } else { m + 1 }] == other);
            }
        }
    }
    assert(!waiters.vacant.contains(id));
    assert forall|other: usize| #[trigger] after.vacant.contains(other) <==> (waiters.vacant.contains(
        other,
    ) || other == id) by {
        assert(after.vacant[0] == id);
        if waiters.vacant.contains(other) {
            assert(after.vacant[waiters.vacant.index_of(other) + 1] == other);
        }
        if after.vacant.contains(other) && other != id {
            let m = after.vacant.index_of(other);
            assert(waiters.vacant[m - 1] == other);
        }
    }
    assert(after.vacant.no_duplicates());
}

/// A future made now.
pub open spec fn just_made<W>(notify: NotifyView<W>) -> NotifiedView {
    NotifiedView {
        generation: notify.generation,
        registration: None,
        done: false,
        reserved_one: false,
    }
}

/// A notification sent before anybody waits is found by the next future, and
/// by no second one.
pub proof fn law_an_early_notification_is_kept<W>(notify: NotifyView<W>)
    requires
        notify.waiters.order.len() == 0,
    ensures
        ({
            let stored = notify.notified_one();
            let first = just_made(stored);
            let taken = first.looked_at(stored, None);
            &&& first.notice(stored) is Stored
            &&& just_made(taken).notice(taken) is Nothing
        }),
{
}

/// Each notification belongs to one waiter: two of them are assigned to the
/// first two in line, whatever wakers those hold.
pub proof fn law_two_notifications_reach_two_waiters<W>(notify: NotifyView<W>)
    requires
        notify.waiters.consistent(),
        notify.waiters.order.len() >= 2,
    ensures
        ({
            let after = notify.notified_one().notified_one();
            &&& after.waiters.live[notify.waiters.order[0]].kind is One
            &&& after.waiters.live[notify.waiters.order[1]].kind is One
            &&& after.waiters.order == notify.waiters.order.skip(2)
            &&& after.permit == notify.permit
        }),
{
    let after = notify.notified_one().notified_one();
    assert(notify.waiters.order.drop_first()[0] == notify.waiters.order[1]);
    assert(after.waiters.order =~= notify.waiters.order.skip(2));
}

/// A broadcast reaches every future that was made before it, polled or not,
/// and none that is made after it. A stored notification stays stored.
pub proof fn law_a_broadcast_reaches_the_futures_before_it<W>(
    waiting: NotifiedView,
    unpolled: NotifiedView,
    notify: NotifyView<W>,
)
    requires
        notify.waiters.consistent(),
        waiting.registration is Some,
        !waiting.done,
        notify.waiters.live.contains_key(waiting.registration->0),
        notify.waiters.live[waiting.registration->0].kind is Queued,
        unpolled == just_made(notify),
    ensures
        ({
            let after = notify.notified_all();
            &&& waiting.notice(after) == Notice::Assigned(WakeKind::All)
            &&& unpolled.notice(after) is Broadcast
            &&& !(just_made(after).notice(after) is Broadcast)
            &&& after.permit == notify.permit
            &&& unpolled.looked_at(after, None).permit == notify.permit
        }),
{
}

/// Delivery takes exactly the notification that was found: a stored or an
/// assigned single one leaves the outstanding count by one, a broadcast leaves
/// it alone.
pub proof fn law_delivery_takes_one<W>(waiting: NotifiedView, notify: NotifyView<W>, waker: Option<W>)
    requires
        notify.waiters.consistent(),
        waiting.registration is Some ==> notify.waiters.live.contains_key(waiting.registration->0),
        waiting.done ==> waiting.registration is None,
        !(waiting.notice(notify) is Nothing),
    ensures
        outstanding(waiting.looked_at(notify, waker)) == outstanding(notify) - (if waiting.notice(
            notify,
        ) is Stored || waiting.notice(notify) == Notice::Assigned(WakeKind::One) {
            1int
        } else {
            0int
        }),
{
    if !waiting.done && waiting.registration is Some {
        let id = waiting.registration->0;
        let left = notify.left_by(Some(id));
        lemma_assigned_finite(notify.waiters);
        if notify.waiters.live[id].kind is One {
            assert(assigned_slots(left.waiters) =~= assigned_slots(notify.waiters).remove(id));
        } else {
            assert(assigned_slots(left.waiters) =~= assigned_slots(notify.waiters));
        }
    }
}

/// A future that took a notification and is given up before a poll delivered
/// it puts the notification back: the same number is outstanding as before it
/// looked, save for one that would be stored beside another.
pub proof fn law_an_undelivered_notification_is_put_back<W>(
    waiting: NotifiedView,
    notify: NotifyView<W>,
)
    requires
        notify.waiters.consistent(),
        !waiting.done,
        waiting.registration is Some ==> notify.waiters.live.contains_key(waiting.registration->0),
        waiting.notice(notify) is Stored || waiting.notice(notify) == Notice::Assigned(
            WakeKind::One,
        ),
    ensures
        ({
            let taken = waiting.looked_at(notify, None);
            let back = waiting.looked(notify).given_up(taken);
            &&& waiting.looked(notify).reserved_one
            &&& outstanding(back) == outstanding(notify) - (if taken.permit
                && taken.waiters.order.len() == 0 {
                1int
            } else {
                0int
            })
        }),
{
    let taken = waiting.looked_at(notify, None);
    law_delivery_takes_one(waiting, notify, None);
    if waiting.registration is Some {
        lemma_removed_consistent(notify.waiters, waiting.registration->0);
    }
    law_notify_one_adds_one(taken);
}

/// Polling again keeps the waiter's place and its slot; only the waker is new.
pub proof fn law_polling_again_keeps_the_place<W>(
    waiting: NotifiedView,
    notify: NotifyView<W>,
    waker: W,
)
    requires
        waiting.notice(notify) is Nothing,
        waiting.registration is Some,
        notify.waiters.live.contains_key(waiting.registration->0),
    ensures
        ({
            let after = waiting.looked_at(notify, Some(waker));
            let id = waiting.registration->0;
            &&& waiting.looked(notify) == waiting
            &&& after.waiters.order == notify.waiters.order
            &&& after.waiters.live.dom() == notify.waiters.live.dom()
            &&& after.waiters.live[id].waker == Some(waker)
            &&& forall|other: usize| other != id ==> after.waiters.live[other]
                == notify.waiters.live[other]
        }),
{
    let after = waiting.looked_at(notify, Some(waker));
    assert(after.waiters.live.dom() =~= notify.waiters.live.dom());
}

/// A future finds its notification exactly when it found it before, when its
/// slot was granted, when there was a broadcast since it was made, or when one
/// is stored.
pub proof fn law_a_future_is_ready_when_it_was_notified<W>(
    waiting: NotifiedView,
    notify: NotifyView<W>,
    waker: Option<W>,
)
    ensures
        ({
            let granted = waiting.registration is Some && !(
            notify.waiters.live[waiting.registration->0].kind is Queued);
            let ready = waiting.done || granted || notify.generation != waiting.generation
                || notify.permit;
            &&& waiting.look(notify, waker).ready == ready
            &&& ready ==> {
                &&& waiting.looked(notify).done
                &&& waiting.polled(notify).done
                &&& !waiting.polled(notify).reserved_one
                &&& waiting.look(notify, waker).unused == waker
            }
            &&& !ready ==> {
                &&& !waiting.looked(notify).done
                &&& waiting.looked(notify).registration == Some(
                    notify.waiters.slot_for(waiting.registration),
                )
                &&& waiting.looked_at(notify, waker).waiters == notify.waiters.registered(
                    waiting.registration,
                    waker,
                )
                &&& waiting.look(notify, waker).unused is None
            }
        }),
{
}

/// What a look takes: a stored notification only where nothing else was there
/// for the future, and its own slot; a broadcast and a grant leave what is stored
/// for somebody else.
pub proof fn law_a_look_takes_no_more_than_its_own<W>(
    waiting: NotifiedView,
    notify: NotifyView<W>,
    waker: Option<W>,
)
    requires
        waiting.done ==> waiting.registration is None,
    ensures
        ({
            let granted = waiting.registration is Some && !(
            notify.waiters.live[waiting.registration->0].kind is Queued);
            let other = waiting.done || granted || notify.generation != waiting.generation;
            let after = waiting.looked_at(notify, waker);
            &&& after.permit == (notify.permit && other)
            &&& after.generation == notify.generation
            &&& waiting.look(notify, waker).ready ==> {
                &&& waiting.looked(notify).registration is None
                &&& waiting.registration is None ==> after.waiters == notify.waiters
                &&& waiting.registration is Some ==> after.waiters == notify.waiters.removed(
                    waiting.registration->0,
                )
            }
        }),
{
}

/// Notifying one goes to the first in line, and is stored only where nobody
/// stands there; notifying all leaves nothing stored that was not.
pub proof fn law_a_notification_goes_to_the_first_or_is_stored<W>(notify: NotifyView<W>)
    ensures
        notify.waiters.order.len() > 0 ==> {
            &&& notify.notified_one().waiters == notify.waiters.granted_one()
            &&& notify.notified_one().permit == notify.permit
        },
        notify.waiters.order.len() == 0 ==> {
            &&& notify.notified_one().waiters == notify.waiters
            &&& notify.notified_one().permit
        },
        notify.notified_one().generation == notify.generation,
        notify.notified_all().permit == notify.permit,
        notify.notified_all().waiters == notify.waiters.granted_all(),
        notify.notified_all().generation != notify.generation,
{
}

} // verus!
