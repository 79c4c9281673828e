//! A rendezvous for a fixed number of tasks.
use vstd::prelude::*;

use crate::sync::notify::{
    just_made, lemma_removed_consistent, Notified, NotifiedView, Notify, NotifyView,
};
use crate::sync::wait_queue::{wakers_of, QueueView, WakeKind};

verus! {

/// A rendezvous for a fixed number of tasks.
///
/// Every waiter blocks until `n` of them have arrived, then all are released
/// together. Reusable: the next `n` arrivals rendezvous again.
pub struct Barrier<W> {
    n: usize,
    arrived: usize,
    /// Bumped on each release, so a waiter can tell "my group has gone" from
    /// "someone else's group has". Without it a task that is slow to be
    /// scheduled after the wake rejoins the next rendezvous and hangs.
    generation: usize,
    notify: Notify<W>,
}

/// A [`Barrier`] as its users see it.
#[verifier::ext_equal]
pub struct BarrierView<W> {
    /// How many tasks make a group.
    pub n: usize,
    /// How many of the current group are there.
    pub arrived: usize,
    /// How many groups have been released, modulo the width of the counter.
    pub generation: usize,
    pub notify: NotifyView<W>,
}

/// One task's wait at a barrier.
pub enum BarrierWait {
    /// It has not been polled yet, so the task has not arrived.
    Arriving,
    /// It arrived as one of the group numbered `generation`.
    Waiting {
        generation: usize,
        notified: Notified,
    },
    /// It has returned.
    Over,
}

/// A [`BarrierWait`] as its users see it.
pub enum WaitView {
    Arriving,
    Waiting { generation: usize, notified: NotifiedView },
    Over,
}

impl View for BarrierWait {
    type V = WaitView;

    open spec fn view(&self) -> WaitView {
        match self {
            BarrierWait::Arriving => WaitView::Arriving,
            BarrierWait::Waiting { generation, notified } => WaitView::Waiting {
                generation: *generation,
                notified: notified@,
            },
            BarrierWait::Over => WaitView::Over,
        }
    }
}

/// What one poll of a wait comes to.
pub struct Passage<W> {
    /// `None` while the group is incomplete. Then `Some(true)` for the task
    /// whose arrival completed it and `Some(false)` for every other.
    pub leads: Option<bool>,
    /// The wakers to call, in order.
    pub wake: Vec<W>,
    /// A waker that the queue no longer holds, to be destroyed.
    pub dropped: Option<W>,
    /// The waker that was offered, where it was not needed.
    pub unused: Option<W>,
}

/// The number after `generation`, wrapping at the width of the counter.
pub open spec fn next_generation(generation: usize) -> usize {
    if generation == usize::MAX {
        0
    } else {
        (generation + 1) as usize
    }
}

impl<W> BarrierView<W> {
    /// The next arrival completes the group.
    pub open spec fn completes(self) -> bool {
        self.arrived + 1 >= self.n
    }

    /// The group is complete and everyone in it is released.
    pub open spec fn released(self) -> Self {
        BarrierView {
            n: self.n,
            arrived: 0,
            generation: next_generation(self.generation),
            notify: self.notify.notified_all(),
        }
    }

    /// One more has arrived, and waits with `waker`.
    pub open spec fn joined(self, waker: Option<W>) -> Self {
        BarrierView {
            arrived: (self.arrived + 1) as usize,
            notify: just_made(self.notify).looked_at(self.notify, waker),
            ..self
        }
    }
}

impl WaitView {
    /// The slot that the wait occupies.
    pub open spec fn slot(self) -> Option<usize> {
        match self {
            WaitView::Waiting { notified, .. } => notified.registration,
            _ => None,
        }
    }

    /// What a poll tells the task: `None` while its group is incomplete, then
    /// whether its arrival completed it.
    pub open spec fn leads<W>(self, barrier: BarrierView<W>) -> Option<bool> {
        match self {
            WaitView::Arriving => if barrier.completes() {
                Some(true)
            } else {
                None
            },
            WaitView::Waiting { generation, notified } => if !(notified.notice(
                barrier.notify,
            ) is Nothing) && barrier.generation != generation {
                Some(false)
            } else {
                None
            },
            WaitView::Over => None,
        }
    }

    /// The wait after a poll. One that was woken while its group is incomplete
    /// goes back in line.
    pub open spec fn polled<W>(self, barrier: BarrierView<W>, waker: Option<W>) -> WaitView {
        let notify = barrier.notify;
        match self {
            WaitView::Arriving => if barrier.completes() {
                WaitView::Over
            } else {
                WaitView::Waiting {
                    generation: barrier.generation,
                    notified: just_made(notify).looked(notify),
                }
            },
            WaitView::Waiting { generation, notified } => if notified.notice(notify) is Nothing {
                WaitView::Waiting { generation, notified: notified.polled(notify) }
            } else if barrier.generation != generation {
                WaitView::Over
            } else {
                let seen = notified.looked_at(notify, waker);
                WaitView::Waiting { generation, notified: just_made(seen).looked(seen) }
            },
            WaitView::Over => WaitView::Over,
        }
    }

    /// What a poll with `waker` leaves of the barrier.
    pub open spec fn polled_at<W>(self, barrier: BarrierView<W>, waker: Option<W>) -> BarrierView<W> {
        match self {
            WaitView::Arriving => if barrier.completes() {
                barrier.released()
            } else {
                barrier.joined(waker)
            },
            WaitView::Waiting { generation, notified } => {
                let seen = notified.looked_at(barrier.notify, waker);
                if notified.notice(barrier.notify) is Nothing || barrier.generation != generation {
                    BarrierView { notify: seen, ..barrier }
                } else {
                    BarrierView { notify: just_made(seen).looked_at(seen, waker), ..barrier }
                }
            },
            WaitView::Over => barrier,
        }
    }
}

impl<W> View for Barrier<W> {
    type V = BarrierView<W>;

    closed spec fn view(&self) -> BarrierView<W> {
        BarrierView {
            n: self.n,
            arrived: self.arrived,
            generation: self.generation,
            notify: self.notify@,
        }
    }
}

impl<W> Barrier<W> {
    /// Well-formedness: fewer have arrived than make a group, and the
    /// broadcasts are exactly the releases.
    pub closed spec fn wf(self) -> bool {
        &&& self.notify.wf()
        &&& self.arrived == 0 || self.arrived < self.n
        &&& self.notify@.generation == self.generation
        &&& !self.notify@.permit
        &&& forall|id: usize|
            #![trigger self.notify@.waiters.live[id]]
            self.notify@.waiters.live.contains_key(id) ==> !(
            self.notify@.waiters.live[id].kind is One)
    }

    /// What well-formedness says of the barrier as its users see it.
    pub proof fn lemma_wf(self)
        requires
            self.wf(),
        ensures
            self@.arrived == 0 || self@.arrived < self@.n,
            self@.notify.generation == self@.generation,
            !self@.notify.permit,
            self@.notify.waiters.consistent(),
    {
        self.notify.lemma_consistent();
    }

    /// A barrier that releases once `n` tasks have arrived.
    ///
    /// `n` of 0 or 1 never blocks, which is what a single-threaded run of a
    /// harness wants rather than a special case at every call site.
    pub fn new(n: usize) -> (barrier: Self)
        ensures
            barrier.wf(),
            barrier@ == (BarrierView {
                n,
                arrived: 0,
                generation: 0,
                notify: NotifyView {
                    permit: false,
                    generation: 0,
                    waiters: QueueView::<W>::empty(),
                },
            }),
    {
        Barrier { n, arrived: 0, generation: 0, notify: Notify::new() }
    }

    /// Wait for the rest of the group. The task arrives at the first poll.
    pub fn wait(&self) -> (wait: BarrierWait)
        ensures
            wait is Arriving,
            wait.fits(self@),
    {
        BarrierWait::Arriving
    }

    /// The waker that a waiting task holds.
    pub fn waker(&self, wait: &BarrierWait) -> (waker: Option<&W>)
        requires
            wait.fits(self@),
        ensures
            (match wait.slot() {
                Some(id) => match self@.notify.waiters.live[id].waker {
                    Some(held) => waker == Some(&held),
                    None => waker is None,
                },
                None => waker is None,
            }),
    {
        match wait {
            BarrierWait::Waiting { notified, .. } => self.notify.waker(notified),
            _ => None,
        }
    }
}

impl BarrierWait {
    /// The slot that the wait occupies.
    pub open spec fn slot(self) -> Option<usize> {
        self@.slot()
    }

    /// The wait belongs to this barrier.
    pub open spec fn fits<W>(self, barrier: BarrierView<W>) -> bool {
        self matches BarrierWait::Waiting { notified, .. } ==> {
            &&& notified.fits(barrier.notify)
            &&& !notified@.reserved_one
        }
    }

    /// Arrive, at the first poll; after that, see whether the group has gone.
    ///
    /// The whole poll is one step on the barrier's state, so no release falls
    /// between looking at the generation and standing in line.
    pub fn poll<W>(&mut self, barrier: &mut Barrier<W>, waker: Option<W>) -> (passage: Passage<W>)
        requires
            old(barrier).wf(),
            old(self).fits(old(barrier)@),
            !(*old(self) is Over),
            old(barrier)@.notify.waiters.has_room(old(self).slot()),
        ensures
            final(barrier).wf(),
            final(self).fits(final(barrier)@),
            passage.leads == old(self)@.leads(old(barrier)@),
            final(self)@ == old(self)@.polled(old(barrier)@, waker),
            final(barrier)@ == old(self)@.polled_at(old(barrier)@, waker),
            passage.wake@ == (if *old(self) is Arriving && old(barrier)@.completes() {
                wakers_of(
                    old(barrier)@.notify.waiters.order,
                    old(barrier)@.notify.waiters.live,
                )
            } else {
                Seq::empty()
            }),
            passage.dropped == (match old(self)@ {
                WaitView::Waiting { notified, .. } => notified.look(
                    old(barrier)@.notify,
                    waker,
                ).dropped,
                _ => None,
            }),
            passage.unused == (if passage.leads is Some {
                waker
            } else {
                None
            }),
    {
        match self {
            BarrierWait::Arriving => {
                barrier.arrived = barrier.arrived + 1;
                if barrier.arrived >= barrier.n {
                    barrier.arrived = 0;
                    barrier.generation = barrier.generation.wrapping_add(1);
                    let wake = barrier.notify.notify_waiters();
                    *self = BarrierWait::Over;
                    Passage { leads: Some(true), wake, dropped: None, unused: waker }
                } else {
                    let mut notified = barrier.notify.notified();
                    let look = notified.poll(&mut barrier.notify, waker);
                    *self = BarrierWait::Waiting { generation: barrier.generation, notified };
                    Passage {
                        leads: None,
                        wake: Vec::new(),
                        dropped: look.dropped,
                        unused: look.unused,
                    }
                }
            },
            BarrierWait::Waiting { generation, notified } => {
                let generation: usize = *generation;
                let look = notified.poll(&mut barrier.notify, waker);
                if !look.ready {
                    return Passage {
                        leads: None,
                        wake: Vec::new(),
                        dropped: look.dropped,
                        unused: look.unused,
                    };
                }
                if barrier.generation != generation {
                    *self = BarrierWait::Over;
                    return Passage {
                        leads: Some(false),
                        wake: Vec::new(),
                        dropped: look.dropped,
                        unused: look.unused,
                    };
                }
                let mut again = barrier.notify.notified();
                let second = again.poll(&mut barrier.notify, look.unused);
                *self = BarrierWait::Waiting { generation, notified: again };
                Passage {
                    leads: None,
                    wake: Vec::new(),
                    dropped: look.dropped,
                    unused: second.unused,
                }
            },
            BarrierWait::Over => Passage {
                leads: None,
                wake: Vec::new(),
                dropped: None,
                unused: waker,
            },
        }
    }

    /// Stop waiting. The task still counts as having arrived. The waker handed
    /// back is to be destroyed.
    pub fn give_up<W>(self, barrier: &mut Barrier<W>) -> (dropped: Option<W>)
        requires
            old(barrier).wf(),
            self.fits(old(barrier)@),
        ensures
            final(barrier).wf(),
            final(barrier)@ == (BarrierView {
                notify: old(barrier)@.notify.left_by(self.slot()),
                ..old(barrier)@
            }),
            dropped == (match self.slot() {
                Some(id) => old(barrier)@.notify.waiters.live[id].waker,
                None => None,
            }),
    {
        match self {
            BarrierWait::Waiting { notified, .. } => {
                let (dropped, _) = notified.give_up(&mut barrier.notify);
                dropped
            },
            _ => None,
        }
    }
}

/// How many wait at a barrier of `n` once `arrivals` tasks have come.
pub open spec fn waiting_after<W>(n: usize, arrivals: nat) -> int
    decreases arrivals,
{
    if arrivals == 0 {
        0
    } else {
        let before = BarrierView::<W> {
            n,
            arrived: waiting_after::<W>(n, (arrivals - 1) as nat) as usize,
            generation: 0,
            notify: arbitrary(),
        };
        if before.completes() {
            before.released().arrived as int
        } else {
            before.joined(None).arrived as int
        }
    }
}

/// Exactly one arrival in each group completes it: every `n`-th, and at a
/// barrier of 0 or 1 every one.
pub proof fn law_one_leader_for_each_group<W>(n: usize, arrivals: nat)
    ensures
        0 <= waiting_after::<W>(n, arrivals) <= usize::MAX,
        ({
            let group = if n <= 1 { 1nat } else { n as nat };
            let barrier = BarrierView::<W> {
                n,
                arrived: waiting_after::<W>(n, arrivals) as usize,
                generation: 0,
                notify: arbitrary(),
            };
            &&& waiting_after::<W>(n, arrivals) == arrivals % group
            &&& barrier.completes() <==> (arrivals + 1) % group == 0
        }),
    decreases arrivals,
{
    let group = if n <= 1 { 1nat } else { n as nat };
    if arrivals > 0 {
        law_one_leader_for_each_group::<W>(n, (arrivals - 1) as nat);
        vstd::arithmetic::div_mod::lemma_fundamental_div_mod(arrivals as int - 1, group as int);
        lemma_step_mod((arrivals - 1) as nat, group);
    } else {
        vstd::arithmetic::div_mod::lemma_small_mod(0, group);
    }
    lemma_step_mod(arrivals, group);
}

/// Tasks that meet at a barrier, each of which waits there once.
pub struct Gathering<W> {
    pub barrier: BarrierView<W>,
    /// How each task stands with the barrier.
    pub waits: Seq<WaitView>,
    /// The tasks that have arrived, in order.
    pub arrived: Seq<int>,
}

/// A poll of one task's wait, with the waker that it offers.
pub struct TaskPoll<W> {
    pub task: int,
    pub waker: Option<W>,
}

/// How many tasks make a group at a barrier of `n`.
pub open spec fn group_size(n: usize) -> nat {
    if n <= 1 {
        1
    } else {
        n as nat
    }
}

impl<W> Gathering<W> {
    /// Tasks at a new barrier, none of which has been polled.
    pub open spec fn begun(n: usize, tasks: nat) -> Self {
        Gathering {
            barrier: BarrierView {
                n,
                arrived: 0,
                generation: 0,
                notify: NotifyView {
                    permit: false,
                    generation: 0,
                    waiters: QueueView::<W>::empty(),
                },
            },
            waits: Seq::new(tasks, |i: int| WaitView::Arriving),
            arrived: Seq::empty(),
        }
    }

    /// The poll can be made: its task is there and its wait is not over.
    pub open spec fn allows(self, poll: TaskPoll<W>) -> bool {
        0 <= poll.task < self.waits.len() && !(self.waits[poll.task] is Over)
    }

    /// What a poll tells its task.
    pub open spec fn told(self, poll: TaskPoll<W>) -> Option<bool> {
        self.waits[poll.task].leads(self.barrier)
    }

    /// What a poll leaves.
    pub open spec fn after(self, poll: TaskPoll<W>) -> Self {
        let wait = self.waits[poll.task];
        Gathering {
            barrier: wait.polled_at(self.barrier, poll.waker),
            waits: self.waits.update(poll.task, wait.polled(self.barrier, poll.waker)),
            arrived: if wait is Arriving {
                self.arrived.push(poll.task)
            } else {
                self.arrived
            },
        }
    }

    /// What these polls leave, one after the other.
    pub open spec fn after_all(self, polls: Seq<TaskPoll<W>>) -> Self
        decreases polls.len(),
    {
        if polls.len() == 0 {
            self
        } else {
            self.after_all(polls.drop_last()).after(polls.last())
        }
    }

    /// These polls can be made, one after the other.
    pub open spec fn allows_all(self, polls: Seq<TaskPoll<W>>) -> bool
        decreases polls.len(),
    {
        polls.len() > 0 ==> {
            &&& self.allows_all(polls.drop_last())
            &&& self.after_all(polls.drop_last()).allows(polls.last())
        }
    }

    /// The group of the task that arrived as number `k`, counted from zero, is
    /// complete: as many have arrived as its group and those before it have.
    pub open spec fn complete(self, k: int) -> bool {
        self.arrived.len() >= (k / group_size(self.barrier.n) as int + 1) * group_size(
            self.barrier.n,
        )
    }

    /// The wait of the `k`-th to arrive, if it is not over, stands in a slot:
    /// queued while its group is incomplete, granted afterwards.
    spec fn stands(self, k: int) -> bool {
        let group = group_size(self.barrier.n) as int;
        let live = self.barrier.notify.waiters.live;
        match self.waits[self.arrived[k]] {
            WaitView::Arriving => false,
            WaitView::Over => true,
            WaitView::Waiting { generation, notified } => {
                &&& generation == k / group
                &&& notified.generation == generation
                &&& !notified.done
                &&& !notified.reserved_one
                &&& notified.registration is Some
                &&& live.contains_key(notified.registration->0)
                &&& live[notified.registration->0].kind == (if generation
                    == self.barrier.generation {
                    WakeKind::Queued
                } else {
                    WakeKind::All
                })
            },
        }
    }

    /// The task has a slot, and it is this one.
    spec fn occupies(self, task: int, id: usize) -> bool {
        &&& 0 <= task < self.waits.len()
        &&& self.waits[task].slot() == Some(id)
    }

    /// What every gathering keeps.
    spec fn kept(self, n: usize, tasks: nat) -> bool {
        let group = group_size(n) as int;
        let waiters = self.barrier.notify.waiters;
        let count = self.arrived.len() as int;
        &&& self.barrier.n == n
        &&& self.waits.len() == tasks
        &&& count <= tasks
        &&& self.arrived.no_duplicates()
        &&& forall|k: int| 0 <= k < count ==> 0 <= #[trigger] self.arrived[k] < tasks
        &&& forall|task: int|
            #![trigger self.waits[task]]
            0 <= task < tasks ==> (self.waits[task] is Arriving <==> !self.arrived.contains(task))
        &&& self.barrier.arrived == count % group
        &&& self.barrier.generation == count / group
        &&& self.barrier.notify.generation == self.barrier.generation
        &&& !self.barrier.notify.permit
        &&& waiters.consistent()
        &&& waiters.slots <= count
        &&& forall|k: int| 0 <= k < count ==> #[trigger] self.stands(k)
        &&& forall|a: int, b: int, id: usize|
            #![trigger self.occupies(a, id), self.occupies(b, id)]
            self.occupies(a, id) && self.occupies(b, id) ==> a == b
        &&& forall|id: usize| #[trigger]
            waiters.live.contains_key(id) ==> exists|task: int| #[trigger] self.occupies(task, id)
        &&& forall|id: usize| #[trigger]
            waiters.live.contains_key(id) ==> !(waiters.live[id].kind is One)
    }
}

proof fn lemma_step_div(x: int, m: int)
    requires
        m > 0,
        x >= 0,
    ensures
        (x + 1) / m == (if x % m + 1 == m {
            x / m + 1
        } else {
            x / m
        }),
        x / m <= x,
        0 <= x / m,
{
    vstd::arithmetic::div_mod::lemma_fundamental_div_mod(x, m);
    vstd::arithmetic::div_mod::lemma_mod_bound(x, m);
    vstd::arithmetic::div_mod::lemma_div_pos_is_pos(x, m);
    let q = x / m;
    let r = x % m;
    if r + 1 == m {
        assert(x + 1 == (q + 1) * m + 0) by (nonlinear_arith)
            requires
                x == m * q + r,
                r + 1 == m,
        ;
        vstd::arithmetic::div_mod::lemma_fundamental_div_mod_converse(x + 1, m, q + 1, 0);
    } else {
        assert(x + 1 == q * m + (r + 1)) by (nonlinear_arith)
            requires
                x == m * q + r,
        ;
        vstd::arithmetic::div_mod::lemma_fundamental_div_mod_converse(x + 1, m, q, r + 1);
    }
    assert(q <= x) by (nonlinear_arith)
        requires
            x == m * q + r,
            m > 0,
            r >= 0,
            q >= 0,
    ;
}

/// A group is complete exactly when a later one is being filled.
proof fn lemma_complete(k: int, count: int, m: int)
    requires
        0 <= k < count,
        m > 0,
    ensures
        k / m <= count / m,
        count >= (k / m + 1) * m <==> k / m != count / m,
{
    vstd::arithmetic::div_mod::lemma_fundamental_div_mod(k, m);
    vstd::arithmetic::div_mod::lemma_fundamental_div_mod(count, m);
    vstd::arithmetic::div_mod::lemma_mod_bound(k, m);
    vstd::arithmetic::div_mod::lemma_mod_bound(count, m);
    vstd::arithmetic::div_mod::lemma_div_is_ordered(k, count, m);
    let q = k / m;
    let p = count / m;
    let r = count % m;
    if q != p {
        assert(count >= (q + 1) * m) by (nonlinear_arith)
            requires
                count == m * p + r,
                r >= 0,
                p >= q + 1,
                m > 0,
        ;
    } else {
        assert(count < (q + 1) * m) by (nonlinear_arith)
            requires
                count == m * q + r,
                r < m,
        ;
    }
}

proof fn lemma_kept<W>(n: usize, tasks: nat, polls: Seq<TaskPoll<W>>)
    requires
        tasks <= usize::MAX,
        Gathering::<W>::begun(n, tasks).allows_all(polls),
    ensures
        Gathering::<W>::begun(n, tasks).after_all(polls).kept(n, tasks),
    decreases polls.len(),
{
    let start = Gathering::<W>::begun(n, tasks);
    let group = group_size(n);
    if polls.len() == 0 {
        vstd::arithmetic::div_mod::lemma_small_mod(0, group);
        vstd::arithmetic::div_mod::lemma_basic_div(0, group as int);
    } else {
        lemma_kept(n, tasks, polls.drop_last());
        lemma_poll_kept(start.after_all(polls.drop_last()), polls.last(), n, tasks);
    }
}

proof fn lemma_poll_kept<W>(before: Gathering<W>, poll: TaskPoll<W>, n: usize, tasks: nat)
    requires
        tasks <= usize::MAX,
        before.kept(n, tasks),
        before.allows(poll),
    ensures
        before.after(poll).kept(n, tasks),
{
    let after = before.after(poll);
    let task = poll.task;
    let wait = before.waits[task];
    let waiters = before.barrier.notify.waiters;
    let group = group_size(n) as int;
    let count = before.arrived.len() as int;
    lemma_step_mod(count as nat, group as nat);
    lemma_step_div(count, group);
    vstd::arithmetic::div_mod::lemma_mod_bound(count, group);
    match wait {
        WaitView::Arriving => {
            lemma_room(before, task, tasks);
            lemma_arrival_kept(before, poll, n, tasks);
        },
        WaitView::Waiting { generation, notified } => {
            let id = notified.registration->0;
            let k = before.arrived.index_of(task);
            assert(before.arrived.contains(task));
            assert(before.stands(k));
            assert(before.occupies(task, id));
            if notified.notice(before.barrier.notify) is Nothing {
                waiters.lemma_holding(id, poll.waker);
                assert(after.barrier.notify.waiters == waiters.holding(id, poll.waker));
                assert(after.waits[task] == wait);
                assert(after.waits =~= before.waits);
                assert(after.barrier.notify.waiters.live.dom() =~= waiters.live.dom());
                assert forall|j: int| 0 <= j < count implies #[trigger] after.stands(j) by {
                    assert(before.stands(j));
                }
                assert forall|other: usize| #[trigger]
                    after.barrier.notify.waiters.live.contains_key(other) implies exists|u: int|
                    #[trigger] after.occupies(u, other) by {
                    assert(waiters.live.contains_key(other));
                    let u = choose|u: int| #[trigger] before.occupies(u, other);
                    assert(after.occupies(u, other));
                }
                assert forall|a: int, b: int, other: usize|
                    #![trigger after.occupies(a, other), after.occupies(b, other)]
                    after.occupies(a, other) && after.occupies(b, other) implies a == b by {
                    assert(before.occupies(a, other));
                    assert(before.occupies(b, other));
                }
            } else {
                assert(before.barrier.generation != generation);
                lemma_removed_consistent(waiters, id);
                assert(after.barrier.notify.waiters == waiters.removed(id));
                assert(after.waits[task] is Over);
                assert forall|j: int| 0 <= j < count implies #[trigger] after.stands(j) by {
                    assert(before.stands(j));
                    let u = before.arrived[j];
                    if u != task && before.waits[u] is Waiting {
                        let other = before.waits[u].slot()->0;
                        assert(before.occupies(u, other));
                        assert(other != id);
                    }
                }
                assert forall|other: usize| #[trigger]
                    after.barrier.notify.waiters.live.contains_key(other) implies exists|u: int|
                    #[trigger] after.occupies(u, other) by {
                    assert(waiters.live.contains_key(other));
                    let u = choose|u: int| #[trigger] before.occupies(u, other);
                    assert(u != task);
                    assert(after.occupies(u, other));
                }
                assert forall|a: int, b: int, other: usize|
                    #![trigger after.occupies(a, other), after.occupies(b, other)]
                    after.occupies(a, other) && after.occupies(b, other) implies a == b by {
                    assert(before.occupies(a, other));
                    assert(before.occupies(b, other));
                }
            }
        },
        WaitView::Over => {},
    }
}

/// While a task has not arrived there is one more task than have.
proof fn lemma_room<W>(gathering: Gathering<W>, task: int, tasks: nat)
    requires
        gathering.arrived.no_duplicates(),
        !gathering.arrived.contains(task),
        0 <= task < tasks,
        forall|k: int|
            0 <= k < gathering.arrived.len() ==> 0 <= #[trigger] gathering.arrived[k] < tasks,
    ensures
        gathering.arrived.len() < tasks,
{
    let all = gathering.arrived.push(task);
    assert(all.no_duplicates());
    let range = vstd::set_lib::set_int_range(0, tasks as int);
    vstd::set_lib::lemma_int_range(0, tasks as int);
    all.unique_seq_to_set();
    assert(all.to_set().subset_of(range)) by {
        assert forall|t: int| all.to_set().contains(t) implies range.contains(t) by {
            let k = all.index_of(t);
            assert(all[k] == t);
            if k < gathering.arrived.len() {
                assert(gathering.arrived[k] == t);
            }
        }
    }
    vstd::set_lib::lemma_len_subset(all.to_set(), range);
}

proof fn lemma_arrival_kept<W>(before: Gathering<W>, poll: TaskPoll<W>, n: usize, tasks: nat)
    requires
        tasks <= usize::MAX,
        before.kept(n, tasks),
        before.allows(poll),
        before.waits[poll.task] is Arriving,
        before.arrived.len() < tasks,
    ensures
        before.after(poll).kept(n, tasks),
{
    let after = before.after(poll);
    let task = poll.task;
    let waiters = before.barrier.notify.waiters;
    let queue = after.barrier.notify.waiters;
    let group = group_size(n) as int;
    let count = before.arrived.len() as int;
    lemma_step_mod(count as nat, group as nat);
    lemma_step_div(count, group);
    lemma_step_div(count + 1, group);
    vstd::arithmetic::div_mod::lemma_mod_bound(count, group);
    assert(!before.arrived.contains(task));
    assert(after.arrived[count] == task);
    assert forall|u: int| #[trigger] after.arrived.contains(u) <==> (before.arrived.contains(u) || u
        == task) by {
        if before.arrived.contains(u) {
            assert(after.arrived[before.arrived.index_of(u)] == u);
        }
        if after.arrived.contains(u) && u != task {
            assert(before.arrived[after.arrived.index_of(u)] == u);
        }
    }
    assert forall|u: int| 0 <= u < tasks implies (#[trigger] after.waits[u] is Arriving
        <==> !after.arrived.contains(u)) by {
        assert(before.waits[u] is Arriving <==> !before.arrived.contains(u));
    }
    assert forall|k: int| 0 <= k < count + 1 implies 0 <= #[trigger] after.arrived[k] < tasks by {
        if k < count {
            assert(after.arrived[k] == before.arrived[k]);
        }
    }
    if before.barrier.completes() {
        waiters.lemma_granted_all();
        assert(queue == waiters.granted_all());
        assert forall|k: int| 0 <= k < count + 1 implies #[trigger] after.stands(k) by {
            if k < count {
                assert(before.stands(k));
                assert(before.arrived[k] == after.arrived[k]);
                assert(before.arrived.contains(before.arrived[k]));
                lemma_complete(k, count, group);
            }
        }
        assert forall|id: usize| #[trigger] queue.live.contains_key(id) implies exists|u: int|
            #[trigger] after.occupies(u, id) by {
            assert(waiters.live.contains_key(id));
            let u = choose|u: int| #[trigger] before.occupies(u, id);
            assert(u != task);
            assert(after.occupies(u, id));
        }
        assert forall|a: int, b: int, id: usize|
            #![trigger after.occupies(a, id), after.occupies(b, id)]
            after.occupies(a, id) && after.occupies(b, id) implies a == b by {
            assert(before.occupies(a, id));
            assert(before.occupies(b, id));
        }
    } else {
        let id = waiters.fresh();
        waiters.lemma_admitted();
        waiters.admitted().lemma_holding(id, poll.waker);
        assert(queue == waiters.admitted().holding(id, poll.waker));
        assert(after.waits[task] == (WaitView::Waiting {
            generation: before.barrier.generation,
            notified: NotifiedView {
                registration: Some(id),
                ..just_made(before.barrier.notify)
            },
        }));
        assert(queue.live.dom() =~= waiters.live.dom().insert(id));
        assert forall|k: int| 0 <= k < count + 1 implies #[trigger] after.stands(k) by {
            if k < count {
                assert(before.stands(k));
                assert(before.arrived[k] == after.arrived[k]);
                assert(before.arrived.contains(before.arrived[k]));
            }
        }
        assert forall|other: usize| #[trigger] queue.live.contains_key(other) implies exists|
            u: int,
        | #[trigger] after.occupies(u, other) by {
            if other == id {
                assert(after.occupies(task, id));
            } else {
                assert(waiters.live.contains_key(other));
                let u = choose|u: int| #[trigger] before.occupies(u, other);
                assert(u != task);
                assert(after.occupies(u, other));
            }
        }
        assert forall|a: int, b: int, other: usize|
            #![trigger after.occupies(a, other), after.occupies(b, other)]
            after.occupies(a, other) && after.occupies(b, other) implies a == b by {
            lemma_occupied_is_live(before, a, n, tasks);
            lemma_occupied_is_live(before, b, n, tasks);
            if a != task {
                assert(before.occupies(a, other));
            }
            if b != task {
                assert(before.occupies(b, other));
            }
        }
    }
}

proof fn lemma_occupied_is_live<W>(gathering: Gathering<W>, task: int, n: usize, tasks: nat)
    requires
        gathering.kept(n, tasks),
    ensures
        0 <= task < tasks && gathering.waits[task].slot() is Some
            ==> gathering.barrier.notify.waiters.live.contains_key(
            gathering.waits[task].slot()->0,
        ),
{
    if 0 <= task < tasks && gathering.waits[task].slot() is Some {
        assert(gathering.arrived.contains(task));
        assert(gathering.stands(gathering.arrived.index_of(task)));
    }
}

/// A group leaves together. Whatever the order in which tasks are polled, and
/// however often: a task whose arrival completes a group is told so, at once;
/// every other waits, is told nothing until its group is complete, and at its
/// next poll after that is told that it is not the one. The next group is no
/// different from the first.
pub proof fn law_a_group_leaves_together<W>(
    n: usize,
    tasks: nat,
    polls: Seq<TaskPoll<W>>,
    poll: TaskPoll<W>,
)
    requires
        tasks <= usize::MAX,
        Gathering::<W>::begun(n, tasks).allows_all(polls),
        Gathering::<W>::begun(n, tasks).after_all(polls).allows(poll),
    ensures
        ({
            let meeting = Gathering::<W>::begun(n, tasks).after_all(polls);
            let told = meeting.told(poll);
            let after = meeting.after(poll);
            &&& meeting.barrier.n == n
            &&& meeting.barrier.notify.waiters.has_room(meeting.waits[poll.task].slot())
            &&& after.waits[poll.task] is Over <==> told is Some
            &&& meeting.arrived.contains(poll.task) <==> !(meeting.waits[poll.task] is Arriving)
            &&& meeting.waits[poll.task] is Arriving ==> told == (if (meeting.arrived.len() + 1)
                % group_size(n) == 0 {
                Some(true)
            } else {
                None
            })
            &&& meeting.waits[poll.task] is Waiting ==> told == (if meeting.complete(
                meeting.arrived.index_of(poll.task),
            ) {
                Some(false)
            } else {
                None
            })
        }),
{
    let meeting = Gathering::<W>::begun(n, tasks).after_all(polls);
    lemma_kept(n, tasks, polls);
    let group = group_size(n) as int;
    let count = meeting.arrived.len() as int;
    lemma_step_mod(count as nat, group as nat);
    vstd::arithmetic::div_mod::lemma_mod_bound(count, group);
    match meeting.waits[poll.task] {
        WaitView::Arriving => {
            lemma_room(meeting, poll.task, tasks);
        },
        WaitView::Waiting { generation, notified } => {
            assert(meeting.arrived.contains(poll.task));
            let k = meeting.arrived.index_of(poll.task);
            assert(meeting.stands(k));
            lemma_complete(k, count, group);
        },
        WaitView::Over => {},
    }
}

/// Between two groups a barrier is as new: nobody counts as arrived, nobody
/// stands in line and nothing is stored; and once everyone who arrived has
/// been told, no slot is held either.
pub proof fn law_a_released_barrier_is_as_new<W>(
    n: usize,
    tasks: nat,
    polls: Seq<TaskPoll<W>>,
)
    requires
        tasks <= usize::MAX,
        Gathering::<W>::begun(n, tasks).allows_all(polls),
        Gathering::<W>::begun(n, tasks).after_all(polls).arrived.len() % group_size(n) == 0,
    ensures
        ({
            let meeting = Gathering::<W>::begun(n, tasks).after_all(polls);
            let new = Gathering::<W>::begun(n, tasks).barrier;
            &&& meeting.barrier.n == n
            &&& meeting.barrier.arrived == new.arrived
            &&& meeting.barrier.notify.permit == new.notify.permit
            &&& meeting.barrier.notify.waiters.order == new.notify.waiters.order
            &&& (forall|i: int|
                0 <= i < tasks ==> (#[trigger] meeting.waits[i] is Arriving || meeting.waits[i] is Over))
                ==> meeting.barrier.notify.waiters.live == new.notify.waiters.live
        }),
{
    let meeting = Gathering::<W>::begun(n, tasks).after_all(polls);
    let waiters = meeting.barrier.notify.waiters;
    let group = group_size(n) as int;
    let count = meeting.arrived.len() as int;
    lemma_kept(n, tasks, polls);
    assert(waiters.order.len() == 0) by {
        if waiters.order.len() > 0 {
            let id = waiters.order[0];
            assert(waiters.order.contains(id));
            assert(waiters.live.contains_key(id));
            let task = choose|task: int| #[trigger] meeting.occupies(task, id);
            assert(meeting.arrived.contains(task));
            let k = meeting.arrived.index_of(task);
            assert(meeting.stands(k));
            lemma_complete(k, count, group);
            vstd::arithmetic::div_mod::lemma_fundamental_div_mod(count, group);
            vstd::arithmetic::div_mod::lemma_fundamental_div_mod(k, group);
            vstd::arithmetic::div_mod::lemma_mod_bound(k, group);
            assert(false) by (nonlinear_arith)
                requires
                    k / group == count / group,
                    count == group * (count / group) + 0,
                    k == group * (k / group) + k % group,
                    k % group >= 0,
                    k < count,
            ;
        }
    }
    assert(waiters.order =~= Seq::<usize>::empty());
    if forall|i: int|
        0 <= i < tasks ==> (#[trigger] meeting.waits[i] is Arriving || meeting.waits[i] is Over) {
        assert forall|id: usize| !waiters.live.contains_key(id) by {
            if waiters.live.contains_key(id) {
                let task = choose|task: int| #[trigger] meeting.occupies(task, id);
                assert(meeting.waits[task] is Arriving || meeting.waits[task] is Over);
            }
        }
        assert(waiters.live =~= Map::empty());
    }
}

proof fn lemma_step_mod(x: nat, m: nat)
    requires
        m > 0,
    ensures
        (x + 1) % m == (if x % m + 1 == m {
            0nat
        } else {
            (x % m + 1) as nat
        }),
{
    assert((x + 1) % m == (if x % m + 1 == m { 0nat } else { (x % m + 1) as nat }))
        by (nonlinear_arith)
        requires
            m > 0,
    {
        let q = x / m;
        let r = x % m;
        assert(x == m * q + r);
        if r + 1 == m {
            assert(x + 1 == m * (q + 1));
            vstd::arithmetic::div_mod::lemma_mod_multiples_basic(q as int + 1, m as int);
            assert(m * (q + 1) == (q + 1) * m);
        } else {
            vstd::arithmetic::div_mod::lemma_fundamental_div_mod_converse(
                x as int + 1,
                m as int,
                q as int,
                r as int + 1,
            );
        }
    }
}

} // verus!
