//! Fork-join, and the three moments a blocking thread announces.
//!
//! A query that blocks on another query's result can close a cycle, and a cycle
//! among blocked threads is a deadlock that has to be noticed rather than hung
//! on. Every blocked thread is counted: when the last running one blocks, the
//! deadlock is reported.
use vstd::prelude::*;

verus! {

/// The three callbacks a blocking-aware caller can install, all optional.
pub struct Hooks<H> {
    /// Runs when a thread resumes after blocking.
    pub on_acquire: Option<H>,
    /// Runs when a thread is about to block.
    pub on_release: Option<H>,
    /// Runs when every thread is blocked and none is running.
    pub on_deadlock: Option<H>,
}

impl<H> Default for Hooks<H> {
    fn default() -> (hooks: Self)
        ensures
            hooks == (Hooks::<H> { on_acquire: None, on_release: None, on_deadlock: None }),
    {
        Hooks { on_acquire: None, on_release: None, on_deadlock: None }
    }
}

/// How many threads are running and how many are blocked.
#[derive(Debug)]
pub struct Counts {
    active: usize,
    blocked: usize,
}

/// A [`Counts`] as its users see it.
pub struct CountsView {
    pub active: nat,
    pub blocked: nat,
}

impl CountsView {
    /// Every thread is blocked and none is running.
    pub open spec fn deadlocked(self) -> bool {
        self.active == 0 && self.blocked > 0
    }

    /// One thread that was running is blocked.
    pub open spec fn with_blocked(self) -> Self {
        CountsView {
            active: if self.active == 0 {
                0
            } else {
                (self.active - 1) as nat
            },
            blocked: self.blocked + 1,
        }
    }

    /// One thread that was blocked is running.
    pub open spec fn with_unblocked(self) -> Self {
        CountsView {
            active: self.active + 1,
            blocked: if self.blocked == 0 {
                0
            } else {
                (self.blocked - 1) as nat
            },
        }
    }
}

impl View for Counts {
    type V = CountsView;

    closed spec fn view(&self) -> CountsView {
        CountsView { active: self.active as nat, blocked: self.blocked as nat }
    }
}

/// One moment of a blocking wait.
#[derive(Debug, Clone, Copy, PartialEq, Eq, Structural)]
pub enum Moment {
    /// Report the deadlock.
    Deadlock,
    /// Announce that the thread is about to block.
    Release,
    /// Wait.
    Wait,
    /// Announce that the thread resumes.
    Acquire,
    /// Count the thread as running again.
    Unblock,
}

/// The moments of a blocking wait, in order. A callback that is not installed
/// has no moment.
///
/// The count changes and the deadlock is reported before the thread releases
/// and blocks, so a detector sees a consistent picture.
pub open spec fn moments<H>(hooks: Hooks<H>, deadlocked: bool) -> Seq<Moment> {
    (if deadlocked && hooks.on_deadlock is Some {
        seq![Moment::Deadlock]
    } else {
        Seq::empty()
    }) + (if hooks.on_release is Some {
        seq![Moment::Release]
    } else {
        Seq::empty()
    }) + seq![Moment::Wait] + (if hooks.on_acquire is Some {
        seq![Moment::Acquire]
    } else {
        Seq::empty()
    }) + seq![Moment::Unblock]
}

impl Counts {
    /// All of a pool's workers are running.
    pub fn new(workers: usize) -> (counts: Self)
        ensures
            counts@ == (CountsView { active: workers as nat, blocked: 0 }),
    {
        Counts { active: workers, blocked: 0 }
    }

    /// Whether every thread is blocked and none is running. A snapshot, for a
    /// diagnostic rather than for a decision.
    pub fn is_deadlocked(&self) -> (deadlocked: bool)
        ensures
            deadlocked == self@.deadlocked(),
    {
        self.active == 0 && self.blocked > 0
    }

    /// Count this thread as blocked and say what it does from here on. Nothing
    /// is locked during any of it: a handler is very likely to ask about these
    /// counts.
    pub fn mark_blocked_and_wait<H>(&mut self, hooks: &Hooks<H>) -> (plan: Vec<Moment>)
        requires
            old(self)@.blocked < usize::MAX,
        ensures
            final(self)@ == old(self)@.with_blocked(),
            plan@ == moments(*hooks, final(self)@.deadlocked()),
    {
        self.active = self.active.saturating_sub(1);
        self.blocked = self.blocked + 1;
        let deadlocked = self.active == 0 && self.blocked > 0;
        let mut plan: Vec<Moment> = Vec::new();
        if deadlocked && hooks.on_deadlock.is_some() {
            plan.push(Moment::Deadlock);
        }
        if hooks.on_release.is_some() {
            plan.push(Moment::Release);
        }
        plan.push(Moment::Wait);
        if hooks.on_acquire.is_some() {
            plan.push(Moment::Acquire);
        }
        plan.push(Moment::Unblock);
        assert(plan@ =~= moments(*hooks, self@.deadlocked()));
        plan
    }

    /// Count a thread as running again, having been counted as blocked.
    pub fn mark_unblocked(&mut self)
        requires
            old(self)@.active < usize::MAX,
        ensures
            final(self)@ == old(self)@.with_unblocked(),
    {
        self.active = self.active + 1;
        self.blocked = self.blocked.saturating_sub(1);
    }
}

/// Work that borrows the caller's stack: how much of it has not run.
#[derive(Debug)]
pub struct Scope {
    outstanding: usize,
}

impl View for Scope {
    type V = nat;

    /// How many pieces have been spawned and have not run.
    closed spec fn view(&self) -> nat {
        self.outstanding as nat
    }
}

impl Scope {
    /// Nothing spawned yet.
    pub fn new() -> (scope: Self)
        ensures
            scope@ == 0,
    {
        Scope { outstanding: 0 }
    }

    /// Count a piece, before it is handed to the pool.
    pub fn spawn(&mut self)
        requires
            old(self)@ < usize::MAX,
        ensures
            final(self)@ == old(self)@ + 1,
    {
        self.outstanding = self.outstanding + 1;
    }

    /// A piece has run.
    pub fn finish(&mut self)
        requires
            old(self)@ > 0,
        ensures
            final(self)@ == old(self)@ - 1,
    {
        self.outstanding = self.outstanding - 1;
    }

    /// Whether the scope has to wait before it may be left: it must not return
    /// while a piece could still read the frame that it borrowed.
    pub fn must_wait(&self) -> (waiting: bool)
        ensures
            waiting == (self@ > 0),
    {
        self.outstanding != 0
    }
}

/// A thread that blocks and resumes leaves the counts as they were.
pub proof fn law_blocking_and_resuming_cancel_out(counts: CountsView)
    requires
        counts.active > 0,
    ensures
        counts.with_blocked().with_unblocked() == counts,
        counts.with_blocked().active + counts.with_blocked().blocked == counts.active
            + counts.blocked,
{
}

/// The deadlock is reported by the last running thread that blocks, and by no
/// other.
pub proof fn law_the_last_running_thread_reports_the_deadlock<H>(
    counts: CountsView,
    hooks: Hooks<H>,
)
    requires
        counts.active > 0,
        hooks.on_deadlock is Some,
    ensures
        moments(hooks, counts.with_blocked().deadlocked()).contains(Moment::Deadlock)
            <==> counts.active == 1,
{
    let plan = moments(hooks, counts.with_blocked().deadlocked());
    if counts.active == 1 {
        assert(plan[0] == Moment::Deadlock);
    }
}

/// Every wait is announced before it starts and after it ends: the deadlock
/// first, then the release, then the wait, then the acquire, and only then is
/// the thread counted as running.
pub proof fn law_a_wait_is_announced_in_order<H>(hooks: Hooks<H>)
    requires
        hooks.on_acquire is Some,
        hooks.on_release is Some,
        hooks.on_deadlock is Some,
    ensures
        moments(hooks, true) == seq![
            Moment::Deadlock,
            Moment::Release,
            Moment::Wait,
            Moment::Acquire,
            Moment::Unblock,
        ],
        moments(hooks, false) == seq![
            Moment::Release,
            Moment::Wait,
            Moment::Acquire,
            Moment::Unblock,
        ],
{
    assert(moments(hooks, true) =~= seq![
        Moment::Deadlock,
        Moment::Release,
        Moment::Wait,
        Moment::Acquire,
        Moment::Unblock,
    ]);
    assert(moments(hooks, false) =~= seq![
        Moment::Release,
        Moment::Wait,
        Moment::Acquire,
        Moment::Unblock,
    ]);
}

/// A thread that blocks is counted as blocked and no longer as running, and the
/// other way round when it resumes: each by one.
pub proof fn law_blocking_moves_one_thread(counts: CountsView)
    ensures
        counts.with_blocked().blocked == counts.blocked + 1,
        counts.active > 0 ==> counts.with_blocked().active == counts.active - 1,
        counts.active == 0 ==> counts.with_blocked().active == 0,
        counts.with_unblocked().active == counts.active + 1,
        counts.blocked > 0 ==> counts.with_unblocked().blocked == counts.blocked - 1,
        counts.blocked == 0 ==> counts.with_unblocked().blocked == 0,
        counts.deadlocked() <==> counts.active == 0 && counts.blocked > 0,
{
}

/// What is announced of a wait is what was asked for: each callback that is
/// installed has its moment once, and one that is not has none; the deadlock has
/// one only where there is a deadlock. The wait itself is always there, and the
/// thread is counted as running again last of all.
pub proof fn law_each_callback_has_its_moment<H>(hooks: Hooks<H>, deadlocked: bool)
    ensures
        ({
            let plan = moments(hooks, deadlocked);
            &&& plan.contains(Moment::Deadlock) <==> deadlocked && hooks.on_deadlock is Some
            &&& plan.contains(Moment::Release) <==> hooks.on_release is Some
            &&& plan.contains(Moment::Acquire) <==> hooks.on_acquire is Some
            &&& plan.contains(Moment::Wait)
            &&& plan.last() == Moment::Unblock
            &&& plan.no_duplicates()
            &&& forall|i: int, j: int|
                #![trigger plan[i], plan[j]]
                0 <= i < j < plan.len() ==> place(plan[i]) < place(plan[j])
        }),
{
    let plan = moments(hooks, deadlocked);
    let d = deadlocked && hooks.on_deadlock is Some;
    let at_release = if d { 1int } else { 0 };
    let at_wait = at_release + (if hooks.on_release is Some { 1int } else { 0 });
    if d {
        assert(plan[0] == Moment::Deadlock);
    }
    if hooks.on_release is Some {
        assert(plan[at_release] == Moment::Release);
    }
    assert(plan[at_wait] == Moment::Wait);
    if hooks.on_acquire is Some {
        assert(plan[at_wait + 1] == Moment::Acquire);
    }
}

/// When in a wait a moment comes.
pub open spec fn place(moment: Moment) -> int {
    match moment {
        Moment::Deadlock => 0,
        Moment::Release => 1,
        Moment::Wait => 2,
        Moment::Acquire => 3,
        Moment::Unblock => 4,
    }
}

} // verus!
