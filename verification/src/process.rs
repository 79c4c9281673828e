//! Child processes: when one has exited, and what its pipes have to say.
//!
//! Nothing here asks about an exit on a timer. The exit is a descriptor that
//! turns readable, registered like a socket; the status itself always comes
//! from asking the kernel. The descriptor only says when to ask.
use vstd::prelude::*;

use crate::reactor::driver::{held_after, let_go, Reactor, Registration, Wakers};
use crate::reactor::error::{Errno, Result};
use crate::reactor::net::{Step, Turn};
use crate::reactor::platform::{ebadf, esrch};

verus! {

/// What asking the kernel about a child came to.
pub enum Asked<S, E> {
    /// It has exited, and is reaped.
    Exited(S),
    /// It has not.
    Running,
    /// The question was cut short by a signal.
    Interrupted,
    /// The question failed.
    Failed(E),
}

/// What a watch had to say.
#[derive(Debug, Clone, Copy, PartialEq, Eq, Structural)]
pub enum Readiness {
    /// Nothing yet. The waker is parked and will be woken on exit.
    Parked,
    /// The child may have exited. Ask.
    Check,
    /// The child was already exiting when the watch was set up.
    Exiting,
}

/// What waiting for an exit needs next.
pub enum ExitStep<S, E> {
    /// Ask the kernel, without waiting.
    Ask,
    /// Ask the watch, which parks the waker where it has nothing to say.
    Watch,
    /// Wait for the child in the kernel. It is inside its own exit, so the wait
    /// is short.
    WaitInKernel,
    /// The waker is parked.
    Pending,
    /// The wait is over.
    Ready(core::result::Result<S, E>),
}

/// What came of the last step of waiting for an exit.
pub enum ExitEvent<S, E> {
    Start,
    Asked(Asked<S, E>),
    Watched(Readiness),
    Waited(core::result::Result<S, E>),
}

/// Decide on a wait for an exit. The kernel is asked first and the watch
/// second, then round again if the watch says that something happened. An exit
/// that lands after the question either is seen by going round, or finds the
/// waker already parked.
pub fn poll_exit<S, E>(event: ExitEvent<S, E>) -> (step: ExitStep<S, E>)
    ensures
        step == exit_step(event),
{
    match event {
        ExitEvent::Start => ExitStep::Ask,
        ExitEvent::Asked(Asked::Exited(status)) => ExitStep::Ready(Ok(status)),
        ExitEvent::Asked(Asked::Running) => ExitStep::Watch,
        ExitEvent::Asked(Asked::Interrupted) => ExitStep::Ask,
        ExitEvent::Asked(Asked::Failed(error)) => ExitStep::Ready(Err(error)),
        ExitEvent::Watched(Readiness::Parked) => ExitStep::Pending,
        ExitEvent::Watched(Readiness::Check) => ExitStep::Ask,
        ExitEvent::Watched(Readiness::Exiting) => ExitStep::WaitInKernel,
        ExitEvent::Waited(result) => ExitStep::Ready(result),
    }
}

/// What a wait for an exit needs after each event.
pub open spec fn exit_step<S, E>(event: ExitEvent<S, E>) -> ExitStep<S, E> {
    match event {
        ExitEvent::Start => ExitStep::Ask,
        ExitEvent::Asked(Asked::Exited(status)) => ExitStep::Ready(Ok(status)),
        ExitEvent::Asked(Asked::Running) => ExitStep::Watch,
        ExitEvent::Asked(Asked::Interrupted) => ExitStep::Ask,
        ExitEvent::Asked(Asked::Failed(error)) => ExitStep::Ready(Err(error)),
        ExitEvent::Watched(Readiness::Parked) => ExitStep::Pending,
        ExitEvent::Watched(Readiness::Check) => ExitStep::Ask,
        ExitEvent::Watched(Readiness::Exiting) => ExitStep::WaitInKernel,
        ExitEvent::Waited(result) => ExitStep::Ready(result),
    }
}

/// A running, or exited, child. `P` is the process and whatever watches it, `S`
/// how it exited.
pub struct Child<P, S> {
    process: Option<P>,
    status: Option<S>,
    kill_on_drop: bool,
}

/// A [`Child`] as its users see it.
pub enum ChildView<P, S> {
    /// Not reaped yet.
    Running(P),
    /// Reaped. The number of the process may name another one by now.
    Reaped(S),
}

impl<P, S> ChildView<P, S> {
    /// What a wait needs, or returns.
    pub open spec fn wait_step<E>(self, event: ExitEvent<S, E>) -> ExitStep<S, E> {
        match self {
            ChildView::Running(_) => exit_step(event),
            ChildView::Reaped(status) => ExitStep::Ready(Ok(status)),
        }
    }

    /// What a wait leaves of the child: it is reaped where its status was
    /// learned.
    pub open spec fn waited<E>(self, event: ExitEvent<S, E>) -> Self {
        match self.wait_step(event) {
            ExitStep::Ready(Ok(status)) => ChildView::Reaped(status),
            _ => self,
        }
    }

    /// The process that is let go of on the way to another state.
    pub open spec fn let_go(self, next: Self) -> Option<P> {
        match (self, next) {
            (ChildView::Running(process), ChildView::Reaped(_)) => Some(process),
            _ => None,
        }
    }

    /// The number still names this child.
    pub open spec fn can_be_killed(self) -> bool {
        self is Running
    }

    /// What is left to reap when the handle is given up, and whether to kill it
    /// first.
    pub open spec fn left(self, kill: bool) -> Option<(P, bool)> {
        match self {
            ChildView::Running(running) => Some((running, kill)),
            ChildView::Reaped(_) => None,
        }
    }
}

/// Why a child cannot be killed: it has been reaped, and signalling whatever
/// has its number now is not something to do by accident.
#[derive(Debug, Clone, Copy, PartialEq, Eq, Structural)]
pub struct AlreadyReaped;

impl AlreadyReaped {
    /// What went wrong, in words.
    pub fn message(&self) -> (text: &'static str)
        ensures
            text@ == "invalid argument: can't kill an exited process"@,
    {
        "invalid argument: can't kill an exited process"
    }
}

impl<P, S> View for Child<P, S> {
    type V = ChildView<P, S>;

    closed spec fn view(&self) -> ChildView<P, S> {
        match self.status {
            Some(status) => ChildView::Reaped(status),
            None => ChildView::Running(self.process->0),
        }
    }
}

impl<P, S: Copy> Child<P, S> {
    /// Well-formedness: there is a process exactly while there is no status.
    pub closed spec fn wf(self) -> bool {
        self.process is Some <==> self.status is None
    }

    /// Dropping the child before it is reaped kills it.
    pub closed spec fn kills_on_drop(self) -> bool {
        self.kill_on_drop
    }

    /// A child that was just started.
    pub fn new(process: P, kill_on_drop: bool) -> (child: Self)
        ensures
            child.wf(),
            child@ == ChildView::<P, S>::Running(process),
            child.kills_on_drop() == kill_on_drop,
    {
        Child { process: Some(process), status: None, kill_on_drop }
    }

    /// The process, until it has been reaped.
    pub fn process(&self) -> (process: Option<&P>)
        requires
            self.wf(),
        ensures
            (match self@ {
                ChildView::Running(running) => process == Some(&running),
                ChildView::Reaped(_) => process is None,
            }),
    {
        self.process.as_ref()
    }

    /// Change the process, until it has been reaped.
    pub fn process_mut(&mut self) -> (process: Option<&mut P>)
        requires
            old(self).wf(),
        ensures
            final(self).wf(),
            final(self).kills_on_drop() == old(self).kills_on_drop(),
            process is Some == old(self)@ is Running,
            (match process {
                Some(running) => {
                    &&& *running == old(self)@->Running_0
                    &&& final(self)@ == ChildView::<P, S>::Running(*final(running))
                },
                None => final(self)@ == old(self)@,
            }),
    {
        self.process.as_mut()
    }

    /// Wait for the exit: decide on what came of the last step. Once the child
    /// has been reaped every wait returns the same status immediately. The
    /// process handed back is to be let go of.
    pub fn poll_wait<E>(&mut self, event: ExitEvent<S, E>) -> (result: (ExitStep<S, E>, Option<P>))
        requires
            old(self).wf(),
        ensures
            final(self).wf(),
            final(self).kills_on_drop() == old(self).kills_on_drop(),
            result.0 == old(self)@.wait_step(event),
            final(self)@ == old(self)@.waited(event),
            result.1 == old(self)@.let_go(final(self)@),
    {
        match self.status {
            Some(status) => (ExitStep::Ready(Ok(status)), None),
            None => match poll_exit(event) {
                ExitStep::Ready(Ok(status)) => {
                    let process = self.reaped(status);
                    (ExitStep::Ready(Ok(status)), process)
                },
                other => (other, None),
            },
        }
    }

    /// The status if the child has exited, without waiting: decide on what
    /// asking the kernel once came to. An exit that is seen here reaps the
    /// child. The process handed back is to be let go of.
    pub fn try_wait<E>(&mut self, asked: Option<core::result::Result<Option<S>, E>>) -> (result: (
        Step<core::result::Result<Option<S>, E>>,
        Option<P>,
    ))
        requires
            old(self).wf(),
        ensures
            final(self).wf(),
            final(self).kills_on_drop() == old(self).kills_on_drop(),
            result.0 == (match old(self)@ {
                ChildView::Reaped(status) => Step::Ready(Ok(Some(status))),
                ChildView::Running(_) => match asked {
                    None => Step::Call,
                    Some(answer) => Step::Ready(answer),
                },
            }),
            final(self)@ == (match (old(self)@, asked) {
                (ChildView::Running(_), Some(Ok(Some(status)))) => ChildView::Reaped(status),
                _ => old(self)@,
            }),
            result.1 == old(self)@.let_go(final(self)@),
    {
        match self.status {
            Some(status) => (Step::Ready(Ok(Some(status))), None),
            None => match asked {
                None => (Step::Call, None),
                Some(Ok(Some(status))) => {
                    let process = self.reaped(status);
                    (Step::Ready(Ok(Some(status))), process)
                },
                Some(answer) => (Step::Ready(answer), None),
            },
        }
    }

    /// Keep the status and let go of the process, which is handed back.
    fn reaped(&mut self, status: S) -> (process: Option<P>)
        requires
            old(self).wf(),
        ensures
            final(self).wf(),
            final(self).kills_on_drop() == old(self).kills_on_drop(),
            final(self)@ == ChildView::<P, S>::Reaped(status),
            process == (match old(self)@ {
                ChildView::Running(running) => Some(running),
                ChildView::Reaped(_) => None,
            }),
    {
        self.status = Some(status);
        self.process.take()
    }

    /// Whether the child may be sent a signal.
    pub fn start_kill(&self) -> (result: core::result::Result<(), AlreadyReaped>)
        requires
            self.wf(),
        ensures
            result == (if self@.can_be_killed() {
                Ok::<(), AlreadyReaped>(())
            } else {
                Err::<(), AlreadyReaped>(AlreadyReaped)
            }),
    {
        match self.process {
            Some(_) => Ok(()),
            None => Err(AlreadyReaped),
        }
    }

    /// Give the handle up. A process that was not reaped is handed back to be
    /// reaped when it exits, and whether to kill it first.
    pub fn give_up(self) -> (left: Option<(P, bool)>)
        requires
            self.wf(),
        ensures
            left == self@.left(self.kills_on_drop()),
    {
        match self.process {
            Some(process) => Some((process, self.kill_on_drop)),
            None => None,
        }
    }
}

/// A child whose handle was given up before it was reaped. Its own waker: the
/// reactor wakes it when the child exits, and waking it reaps.
pub struct Orphan<P> {
    process: Option<P>,
}

impl<P> View for Orphan<P> {
    type V = Option<P>;

    /// The process, until it has been reaped.
    closed spec fn view(&self) -> Option<P> {
        self.process
    }
}

/// What a step of reaping leaves of an orphan. Reaped, or failed in a way that
/// a later try would fail the same way: either way there is nothing left to
/// learn.
pub open spec fn orphan_after<P, S, E>(process: Option<P>, event: ExitEvent<S, E>) -> Option<P> {
    if exit_step(event) is Ready {
        None
    } else {
        process
    }
}

impl<P> Orphan<P> {
    /// Take over a process to be reaped.
    pub fn adopt(process: P) -> (orphan: Self)
        ensures
            orphan@ == Some(process),
    {
        Orphan { process: Some(process) }
    }

    /// The process to ask about, until it has been reaped.
    pub fn process_mut(&mut self) -> (process: Option<&mut P>)
        ensures
            (match process {
                Some(running) => {
                    &&& old(self)@ == Some(*running)
                    &&& final(self)@ == Some(*final(running))
                },
                None => old(self)@ is None && final(self)@ is None,
            }),
    {
        self.process.as_mut()
    }

    /// Reap the process if it has exited, or leave the waker parked for its
    /// exit: decide on what came of the last step. `None` where there is
    /// nothing left to reap. The process handed back is to be let go of.
    pub fn reap_or_park<S, E>(&mut self, event: ExitEvent<S, E>) -> (result: (
        Option<ExitStep<S, E>>,
        Option<P>,
    ))
        ensures
            result.0 == (if old(self)@ is Some {
                Some(exit_step(event))
            } else {
                None
            }),
            final(self)@ == orphan_after(old(self)@, event),
            result.1 == (if exit_step(event) is Ready {
                old(self)@
            } else {
                None
            }),
    {
        if self.process.is_none() {
            return (None, None);
        }
        let step = poll_exit(event);
        let done = match &step {
            ExitStep::Ready(_) => true,
            _ => false,
        };
        let left = if done {
            self.process.take()
        } else {
            None
        };
        (Some(step), left)
    }
}

/// How a child's exit is watched for.
#[derive(Debug, Clone, Copy, PartialEq, Eq, Structural)]
pub enum WatchPlan {
    /// Register this descriptor, which turns readable on exit.
    Register(i32),
    /// Start a thread that waits, where the platform has no such descriptor.
    Thread,
    /// There is nothing to watch any more.
    Exiting,
}

/// A process number that the kernel takes.
pub fn watched_pid(pid: u32) -> (result: Result<i32>)
    ensures
        result == (if pid <= i32::MAX {
            Ok(pid as i32)
        } else {
            Err(Errno(3))
        }),
{
    if pid <= i32::MAX as u32 {
        Ok(pid as i32)
    } else {
        Err(Errno(esrch()))
    }
}

/// A descriptor for a process: decide on what asking for one returned. `None`
/// if there is no such process to watch, which only happens to a child that
/// something else has already reaped.
pub fn watch(raw: i64, errno: i32) -> (result: Result<Option<i32>>)
    ensures
        result == (if raw < 0 {
            if errno == 3 {
                Ok(None)
            } else {
                Err(Errno(errno))
            }
        } else if raw > i32::MAX {
            Err(Errno(9))
        } else {
            Ok(Some(raw as i32))
        }),
{
    if raw < 0 {
        if errno == esrch() {
            return Ok(None);
        }
        return Err(Errno(errno));
    }
    if raw > i32::MAX as i64 {
        return Err(Errno(ebadf()));
    }
    Ok(Some(raw as i32))
}

/// How to watch, given what asking for a descriptor came to. An old kernel or a
/// sandbox refuses the question, and then the answer is a thread rather than a
/// failed spawn.
pub fn watch_plan(answer: Result<Option<i32>>) -> (plan: WatchPlan)
    ensures
        plan == (match answer {
            Ok(Some(fd)) => WatchPlan::Register(fd),
            Ok(None) => WatchPlan::Exiting,
            Err(_) => WatchPlan::Thread,
        }),
{
    match answer {
        Ok(Some(fd)) => WatchPlan::Register(fd),
        Ok(None) => WatchPlan::Exiting,
        Err(_) => WatchPlan::Thread,
    }
}

/// Whether the thread that waits for an exit is done: it is after anything but
/// an interrupted wait.
pub fn observed(answer: i32, interrupted: bool) -> (done: bool)
    ensures
        done == (answer == 0 || !interrupted),
{
    answer == 0 || !interrupted
}

/// What a registered watch has to say. The registration counts as readable from
/// the start, so the first answer is to ask: that catches an exit that happened
/// before the registration existed.
pub fn take_or_park<W>(registration: &Registration, reactor: &mut Reactor<W>, waker: Option<W>) -> (result:
    (Readiness, Option<W>, Option<W>))
    requires
        old(reactor).wf(),
        registration.fits(old(reactor)@),
    ensures
        final(reactor).wf(),
        registration.fits(final(reactor)@),
        ({
            let before = registration.wakers(old(reactor)@);
            if before.worth_reading() {
                &&& result == (Readiness::Check, None::<W>, waker)
                &&& final(reactor)@ == old(reactor)@.with_wakers(
                    registration.index(),
                    (Wakers { readable: false, ..before }),
                )
            } else {
                &&& result == (Readiness::Parked, let_go(before.reader, waker), None::<W>)
                &&& final(reactor)@ == old(reactor)@.with_wakers(
                    registration.index(),
                    (Wakers { reader: held_after(before.reader, waker), ..before }),
                )
            }
        }),
{
    let taken = registration.take_readable_or_park(reactor, waker);
    if taken.ready {
        (Readiness::Check, taken.dropped, taken.unused)
    } else {
        (Readiness::Parked, taken.dropped, taken.unused)
    }
}

/// The exit that a thread observed, and the waker to tell.
pub struct ThreadExit<W> {
    /// Never cleared: an exit does not un-happen.
    exited: bool,
    waker: Option<W>,
}

/// A [`ThreadExit`] as its users see it.
pub struct ThreadExitView<W> {
    pub exited: bool,
    pub waker: Option<W>,
}

impl<W> View for ThreadExit<W> {
    type V = ThreadExitView<W>;

    closed spec fn view(&self) -> ThreadExitView<W> {
        ThreadExitView { exited: self.exited, waker: self.waker }
    }
}

impl<W> ThreadExit<W> {
    /// No exit yet, and nobody waiting for it.
    pub fn new() -> (exit: Self)
        ensures
            exit@ == (ThreadExitView::<W> { exited: false, waker: None }),
    {
        ThreadExit { exited: false, waker: None }
    }

    /// The child has exited. The waker handed back is to be called.
    pub fn exited(&mut self) -> (waker: Option<W>)
        ensures
            final(self)@ == (ThreadExitView::<W> { exited: true, waker: None }),
            waker == old(self)@.waker,
    {
        self.exited = true;
        self.waker.take()
    }

    /// The waker that is parked.
    pub fn parked(&self) -> (waker: Option<&W>)
        ensures
            (match self@.waker {
                Some(held) => waker == Some(&held),
                None => waker is None,
            }),
    {
        self.waker.as_ref()
    }

    /// Whether the exit has been seen, parking `waker` if it has not, in one
    /// step, so that no exit lands between the answer and the park. The first
    /// waker handed back is no longer held, the second was not needed.
    pub fn observed_or_park(&mut self, waker: Option<W>) -> (result: (bool, Option<W>, Option<W>))
        ensures
            result.0 == old(self)@.exited,
            old(self)@.exited ==> {
                &&& final(self)@ == old(self)@
                &&& result.1 is None
                &&& result.2 == waker
            },
            !old(self)@.exited ==> {
                &&& final(self)@ == (ThreadExitView {
                    exited: false,
                    waker: held_after(old(self)@.waker, waker),
                })
                &&& result.1 == let_go(old(self)@.waker, waker)
                &&& result.2 is None
            },
    {
        if self.exited {
            return (true, None, waker);
        }
        if waker.is_some() {
            let dropped = self.waker.take();
            self.waker = waker;
            (false, dropped, None)
        } else {
            (false, None, None)
        }
    }
}

/// What a turn of a read from a pipe wants next.
pub open spec fn pipe_read_step<W>(
    before: Wakers<W>,
    len: usize,
    read: Option<Result<usize>>,
) -> Step<Result<usize>> {
    if len == 0 {
        Step::Ready(Ok(0))
    } else {
        match read {
            Some(Ok(n)) => Step::Ready(Ok(n)),
            Some(Err(error)) => if error.is_would_block() {
                if before.worth_reading() {
                    Step::Call
                } else {
                    Step::Pending
                }
            } else if error.is_interrupted() {
                Step::Call
            } else {
                Step::Ready(Err(error))
            },
            None => if before.worth_reading() {
                Step::Call
            } else {
                Step::Pending
            },
        }
    }
}

/// What a turn of a read from a pipe leaves of its standing.
pub open spec fn pipe_read_wakers<W>(
    before: Wakers<W>,
    len: usize,
    read: Option<Result<usize>>,
    waker: Option<W>,
) -> Wakers<W> {
    let again = Wakers { readable: true, ..before };
    let taken = Wakers { readable: false, ..before };
    let parked = Wakers { reader: held_after(before.reader, waker), ..before };
    if len == 0 {
        before
    } else {
        match read {
            Some(Ok(n)) => if n == 0 || n == len {
                again
            } else {
                before
            },
            Some(Err(error)) => if error.is_would_block() {
                if before.worth_reading() {
                    taken
                } else {
                    parked
                }
            } else if error.is_interrupted() {
                taken
            } else {
                again
            },
            None => if before.worth_reading() {
                taken
            } else {
                parked
            },
        }
    }
}

/// Read from a child's pipe into a buffer of `len` bytes. The call is a `read`.
///
/// After "not yet" the question goes back round through the readiness rather
/// than parking unconditionally, so an edge that arrived in between is taken
/// rather than slept through. A short read has shown the pipe empty; one that
/// filled the buffer has not, and the end stays the end.
pub fn pipe_read<W>(
    registration: &Registration,
    reactor: &mut Reactor<W>,
    len: usize,
    read: Option<Result<usize>>,
    waker: Option<W>,
) -> (turn: Turn<Result<usize>, W>)
    requires
        old(reactor).wf(),
        registration.fits(old(reactor)@),
    ensures
        final(reactor).wf(),
        registration.fits(final(reactor)@),
        turn.step == pipe_read_step(registration.wakers(old(reactor)@), len, read),
        len > 0 && (read is None || (read->0 is Err && (read->0->Err_0.0 == 11
            || read->0->Err_0.0 == 35))) ==> {
            let before = registration.wakers(old(reactor)@);
            let after = registration.wakers(final(reactor)@);
            if before.readable || before.hangup {
                &&& turn.step is Call
                &&& !after.readable
                &&& after.reader == before.reader
            } else {
                &&& turn.step is Pending
                &&& waker is Some ==> after.reader == waker
                &&& waker is None ==> after.reader == before.reader
            }
        },
        len > 0 && read is Some && read->0 is Ok ==> turn.step == Step::Ready(
            Ok::<usize, Errno>(read->0->Ok_0),
        ),
        final(reactor)@ == old(reactor)@.with_wakers(
            registration.index(),
            pipe_read_wakers(registration.wakers(old(reactor)@), len, read, waker),
        ),
        turn.step == Step::<Result<usize>>::Pending ==> {
            &&& turn.dropped == let_go(registration.wakers(old(reactor)@).reader, waker)
            &&& turn.unused is None
        },
        turn.step != Step::<Result<usize>>::Pending ==> {
            &&& turn.dropped is None
            &&& turn.unused == waker
        },
{
    proof {
        reactor.lemma_same_wakers(registration.index());
    }
    if len == 0 {
        return Turn { step: Step::Ready(Ok(0)), dropped: None, unused: waker };
    }
    match read {
        Some(Ok(n)) => {
            if n == 0 || n == len {
                registration.mark_readable(reactor);
            }
            return Turn { step: Step::Ready(Ok(n)), dropped: None, unused: waker };
        },
        Some(Err(error)) => {
            if !error.would_block() {
                // Nothing was learned about readiness, so it is put back for
                // the retry or for the next call.
                registration.mark_readable(reactor);
                if !error.interrupted() {
                    return Turn { step: Step::Ready(Err(error)), dropped: None, unused: waker };
                }
            }
        },
        None => {},
    }
    let taken = registration.take_readable_or_park(reactor, waker);
    let step = if taken.ready {
        Step::Call
    } else {
        Step::Pending
    };
    proof {
        assert(reactor@ =~= old(reactor)@.with_wakers(
            registration.index(),
            pipe_read_wakers(registration.wakers(old(reactor)@), len, read, waker),
        ));
    }
    Turn { step, dropped: taken.dropped, unused: taken.unused }
}

/// What a turn of a write to a pipe wants next.
pub open spec fn pipe_write_step<W>(
    before: Wakers<W>,
    len: usize,
    written: Option<Result<usize>>,
) -> Step<Result<usize>> {
    if len == 0 {
        Step::Ready(Ok(0))
    } else {
        match written {
            Some(Ok(n)) => Step::Ready(Ok(n)),
            Some(Err(error)) => if error.is_would_block() {
                if before.writable {
                    Step::Call
                } else {
                    Step::Pending
                }
            } else if error.is_interrupted() {
                Step::Call
            } else {
                Step::Ready(Err(error))
            },
            None => if before.writable {
                Step::Call
            } else {
                Step::Pending
            },
        }
    }
}

/// What a turn of a write to a pipe leaves of its standing.
pub open spec fn pipe_write_wakers<W>(
    before: Wakers<W>,
    len: usize,
    written: Option<Result<usize>>,
    waker: Option<W>,
) -> Wakers<W> {
    let again = Wakers { writable: true, ..before };
    let taken = Wakers { writable: false, ..before };
    let parked = Wakers { writer: held_after(before.writer, waker), ..before };
    if len == 0 {
        before
    } else {
        match written {
            Some(Ok(_)) => again,
            Some(Err(error)) => if error.is_would_block() {
                if before.writable {
                    taken
                } else {
                    parked
                }
            } else if error.is_interrupted() {
                taken
            } else {
                again
            },
            None => if before.writable {
                taken
            } else {
                parked
            },
        }
    }
}

/// Write to a child's pipe from a buffer of `len` bytes. The call is a `write`.
///
/// Only "not yet" consumes readiness. A short write to a pipe usually means it
/// is full, but not always, and guessing wrong would wait for an edge that has
/// already gone by.
pub fn pipe_write<W>(
    registration: &Registration,
    reactor: &mut Reactor<W>,
    len: usize,
    written: Option<Result<usize>>,
    waker: Option<W>,
) -> (turn: Turn<Result<usize>, W>)
    requires
        old(reactor).wf(),
        registration.fits(old(reactor)@),
    ensures
        final(reactor).wf(),
        registration.fits(final(reactor)@),
        turn.step == pipe_write_step(registration.wakers(old(reactor)@), len, written),
        len > 0 && (written is None || (written->0 is Err && (written->0->Err_0.0 == 11
            || written->0->Err_0.0 == 35))) ==> {
            let before = registration.wakers(old(reactor)@);
            let after = registration.wakers(final(reactor)@);
            if before.writable {
                &&& turn.step is Call
                &&& !after.writable
                &&& after.writer == before.writer
            } else {
                &&& turn.step is Pending
                &&& waker is Some ==> after.writer == waker
                &&& waker is None ==> after.writer == before.writer
            }
        },
        len > 0 && written is Some && written->0 is Ok ==> turn.step == Step::Ready(
            Ok::<usize, Errno>(written->0->Ok_0),
        ),
        final(reactor)@ == old(reactor)@.with_wakers(
            registration.index(),
            pipe_write_wakers(registration.wakers(old(reactor)@), len, written, waker),
        ),
        turn.step == Step::<Result<usize>>::Pending ==> {
            &&& turn.dropped == let_go(registration.wakers(old(reactor)@).writer, waker)
            &&& turn.unused is None
        },
        turn.step != Step::<Result<usize>>::Pending ==> {
            &&& turn.dropped is None
            &&& turn.unused == waker
        },
{
    proof {
        reactor.lemma_same_wakers(registration.index());
    }
    if len == 0 {
        return Turn { step: Step::Ready(Ok(0)), dropped: None, unused: waker };
    }
    match written {
        Some(Ok(n)) => {
            registration.mark_writable(reactor);
            return Turn { step: Step::Ready(Ok(n)), dropped: None, unused: waker };
        },
        Some(Err(error)) => {
            if !error.would_block() {
                registration.mark_writable(reactor);
                if !error.interrupted() {
                    return Turn { step: Step::Ready(Err(error)), dropped: None, unused: waker };
                }
            }
        },
        None => {},
    }
    let taken = registration.take_writable_or_park(reactor, waker);
    let step = if taken.ready {
        Step::Call
    } else {
        Step::Pending
    };
    proof {
        assert(reactor@ =~= old(reactor)@.with_wakers(
            registration.index(),
            pipe_write_wakers(registration.wakers(old(reactor)@), len, written, waker),
        ));
    }
    Turn { step, dropped: taken.dropped, unused: taken.unused }
}

/// What a read of a pipe that is collected to its end came to.
pub enum Chunk<E> {
    /// The first bytes of the chunk, this many. None of them is the end.
    Read(usize),
    /// A signal cut the read short.
    Interrupted,
    Failed(E),
    /// Nothing yet.
    Pending,
}

/// Where collecting a pipe stands.
#[derive(Debug, PartialEq, Eq)]
pub enum Drained<E> {
    /// Read the next chunk.
    More,
    Pending,
    /// Everything has been collected; the pipe is not needed any more.
    Done,
    Failed(E),
}

/// Collect a pipe to its end: decide on what one read of it gave, if there was
/// one yet. A pipe that is not there has nothing to collect. The pipe handed
/// back is to be closed.
pub fn drain<R, E>(
    pipe: &mut Option<R>,
    into: &mut Vec<u8>,
    chunk: &[u8],
    read: Option<Chunk<E>>,
) -> (result: (Drained<E>, Option<R>))
    requires
        read matches Some(Chunk::Read(n)) ==> n <= chunk@.len(),
    ensures
        *old(pipe) is None ==> {
            &&& result.0 == Drained::<E>::Done
            &&& final(into)@ == old(into)@
        },
        *old(pipe) is Some ==> {
            &&& result.0 == drain_step(read)
            &&& final(into)@ == (match read {
                Some(Chunk::Read(n)) => old(into)@ + chunk@.take(n as int),
                _ => old(into)@,
            })
        },
        *final(pipe) == (if result.0 is Done {
            None
        } else {
            *old(pipe)
        }),
        result.1 == (if result.0 is Done {
            *old(pipe)
        } else {
            None
        }),
{
    if pipe.is_none() {
        return (Drained::Done, None);
    }
    match read {
        None => (Drained::More, None),
        Some(Chunk::Read(n)) => {
            let bytes = vstd::slice::slice_subrange(chunk, 0, n);
            into.extend_from_slice(bytes);
            assert(into@ =~= old(into)@ + chunk@.take(n as int));
            if n == 0 {
                let closed = pipe.take();
                (Drained::Done, closed)
            } else {
                (Drained::More, None)
            }
        },
        Some(Chunk::Interrupted) => (Drained::More, None),
        Some(Chunk::Failed(error)) => (Drained::Failed(error), None),
        Some(Chunk::Pending) => (Drained::Pending, None),
    }
}

/// Where collecting a pipe stands after a read.
pub open spec fn drain_step<E>(read: Option<Chunk<E>>) -> Drained<E> {
    match read {
        None => Drained::More,
        Some(Chunk::Read(n)) => if n == 0 {
            Drained::Done
        } else {
            Drained::More
        },
        Some(Chunk::Interrupted) => Drained::More,
        Some(Chunk::Failed(error)) => Drained::Failed(error),
        Some(Chunk::Pending) => Drained::Pending,
    }
}

/// Where collecting two pipes at once stands. Both are read at the same time,
/// since a child that fills one stops until that one is read. A failure of
/// either ends it, the first pipe's before the second's.
pub fn both_drained<E>(
    out: Option<core::result::Result<(), E>>,
    err: Option<core::result::Result<(), E>>,
) -> (result: Option<core::result::Result<(), E>>)
    ensures
        result == (match (out, err) {
            (Some(Err(error)), _) => Some(Err::<(), E>(error)),
            (_, Some(Err(error))) => Some(Err::<(), E>(error)),
            (Some(Ok(_)), Some(Ok(_))) => Some(Ok::<(), E>(())),
            _ => None,
        }),
{
    match (out, err) {
        (Some(Err(error)), _) => Some(Err(error)),
        (_, Some(Err(error))) => Some(Err(error)),
        (Some(Ok(_)), Some(Ok(_))) => Some(Ok(())),
        _ => None,
    }
}

/// The parent's end of a child's standard input. `P` is the pipe.
pub struct ChildStdin<P> {
    /// `None` once closed.
    pipe: Option<P>,
}

/// Why a write to a child's standard input fails: it was closed.
#[derive(Debug, Clone, Copy, PartialEq, Eq, Structural)]
pub struct Closed;

impl Closed {
    /// What went wrong, in words.
    pub fn message(&self) -> (text: &'static str)
        ensures
            text@ == "the child's standard input was already closed"@,
    {
        "the child's standard input was already closed"
    }
}

impl<P> View for ChildStdin<P> {
    type V = Option<P>;

    /// The pipe, until it is closed.
    closed spec fn view(&self) -> Option<P> {
        self.pipe
    }
}

impl<P> ChildStdin<P> {
    /// An open standard input.
    pub fn new(pipe: P) -> (stdin: Self)
        ensures
            stdin@ == Some(pipe),
    {
        ChildStdin { pipe: Some(pipe) }
    }

    /// The pipe to write to.
    pub fn writable(&self) -> (result: core::result::Result<&P, Closed>)
        ensures
            (match self@ {
                Some(pipe) => result == Ok::<&P, Closed>(&pipe),
                None => result == Err::<&P, Closed>(Closed),
            }),
    {
        match &self.pipe {
            Some(pipe) => Ok(pipe),
            None => Err(Closed),
        }
    }

    /// Close it, which is how the child sees the end of its input. Closing
    /// twice is no error.
    pub fn close(&mut self) -> (pipe: Option<P>)
        ensures
            final(self)@ is None,
            pipe == old(self)@,
    {
        self.pipe.take()
    }
}

/// A status that a wait returned is kept: every later wait returns the same
/// one without asking, whatever it is told; the child cannot be killed any
/// more, and giving the handle up leaves nothing behind.
pub proof fn law_a_reaped_status_is_kept<P, S, E>(
    child: ChildView<P, S>,
    event: ExitEvent<S, E>,
    later: ExitEvent<S, E>,
    status: S,
    kill: bool,
)
    requires
        child.wait_step(event) == ExitStep::<S, E>::Ready(Ok(status)),
    ensures
        child.waited(event).wait_step(later) == ExitStep::<S, E>::Ready(Ok(status)),
        child.waited(event).waited(later) == child.waited(event),
        !child.waited(event).can_be_killed(),
        child.waited(event).left(kill) is None,
{
}

/// A wait that is given up part way loses nothing: until it returns a status
/// the child is as it was.
pub proof fn law_a_wait_given_up_loses_nothing<P, S, E>(child: ChildView<P, S>, event: ExitEvent<S, E>)
    requires
        !(child.wait_step(event) matches ExitStep::Ready(Ok(_))),
    ensures
        child.waited(event) == child,
{
}

/// A child that was not reaped is not forgotten: giving the handle up hands its
/// process on, killed first where that was asked for, and whoever takes it over
/// holds it until its wait is over.
pub proof fn law_a_running_child_is_handed_on<P, S, E>(
    process: P,
    kill: bool,
    event: ExitEvent<S, E>,
)
    ensures
        ChildView::<P, S>::Running(process).left(kill) == Some((process, kill)),
        ChildView::<P, S>::Running(process).can_be_killed(),
        !(exit_step(event) is Ready) ==> orphan_after(Some(process), event) == Some(process),
        exit_step(event) is Ready ==> orphan_after(Some(process), event) is None,
{
}

/// An exit is not slept through: a child is waited for only after the kernel
/// said that it is running and the watch then had nothing to say.
pub proof fn law_an_exit_is_not_slept_through<S, E>(event: ExitEvent<S, E>)
    ensures
        exit_step(event) is Pending <==> event == ExitEvent::<S, E>::Watched(Readiness::Parked),
        exit_step(event) is Watch <==> event == ExitEvent::<S, E>::Asked(Asked::Running),
{
}

/// The end of a pipe stays the end: after it was read the next read finds it
/// again without waiting.
pub proof fn law_the_end_of_a_pipe_stays<W>(before: Wakers<W>, len: usize)
    requires
        len > 0,
    ensures
        pipe_read_step(pipe_read_wakers(before, len, Some(Ok(0)), None), len, None) == Step::<
            Result<usize>,
        >::Call,
{
}

/// A read from a pipe never ends with "not yet". Told so, in either numbering,
/// it asks again where the pipe may have something by now, and waits otherwise,
/// with the waker that it was offered parked as the reader; and it begins in the
/// same way.
pub proof fn law_a_pipe_read_never_ends_with_not_yet<W>(
    before: Wakers<W>,
    len: usize,
    code: i32,
    waker: W,
)
    requires
        len > 0,
        code == 11 || code == 35,
    ensures
        ({
            let told = Some(Err::<usize, Errno>(Errno(code)));
            let after = pipe_read_wakers(before, len, told, Some(waker));
            &&& pipe_read_step(before, len, told) == pipe_read_step(before, len, None)
            &&& after == pipe_read_wakers(before, len, None, Some(waker))
            &&& before.readable || before.hangup ==> {
                &&& pipe_read_step(before, len, told) == Step::<Result<usize>>::Call
                &&& after == (Wakers { readable: false, ..before })
            }
            &&& !before.readable && !before.hangup ==> {
                &&& pipe_read_step(before, len, told) == Step::<Result<usize>>::Pending
                &&& after == (Wakers { reader: Some(waker), ..before })
            }
        }),
{
}

/// A read from a pipe ends with what the kernel gave it. Bytes end it with their
/// number, a real error with that error, and an interruption is tried again
/// whatever is known of the pipe. A read that ended at the end of the pipe, with
/// a full buffer or with an error leaves the pipe worth reading; a short one
/// takes nothing back. Into an empty buffer nothing is read.
pub proof fn law_a_pipe_read_ends_with_what_the_kernel_gave<W>(
    before: Wakers<W>,
    len: usize,
    count: usize,
    code: i32,
    waker: Option<W>,
)
    requires
        len > 0,
        code != 11 && code != 35,
    ensures
        ({
            let bytes = Some(Ok::<usize, Errno>(count));
            let error = Some(Err::<usize, Errno>(Errno(code)));
            let after = pipe_read_wakers(before, len, bytes, waker);
            &&& pipe_read_step(before, len, bytes) == Step::Ready(Ok::<usize, Errno>(count))
            &&& after == (Wakers {
                readable: before.readable || count == 0 || count == len,
                ..before
            })
            &&& code == 4 ==> pipe_read_step(before, len, error) == Step::<Result<usize>>::Call
            &&& code != 4 ==> {
                &&& pipe_read_step(before, len, error) == Step::Ready(
                    Err::<usize, Errno>(Errno(code)),
                )
                &&& pipe_read_wakers(before, len, error, waker) == (Wakers {
                    readable: true,
                    ..before
                })
            }
            &&& pipe_read_step(before, 0, bytes) == Step::Ready(Ok::<usize, Errno>(0))
            &&& pipe_read_step(before, 0, None) == Step::Ready(Ok::<usize, Errno>(0))
            &&& pipe_read_wakers(before, 0, bytes, waker) == before
        }),
{
}

/// A write to a pipe never ends with "not yet". Told so, in either numbering, it
/// asks again where there may be room by now, and waits otherwise, with the
/// waker that it was offered parked as the writer; and it begins in the same way.
pub proof fn law_a_pipe_write_never_ends_with_not_yet<W>(
    before: Wakers<W>,
    len: usize,
    code: i32,
    waker: W,
)
    requires
        len > 0,
        code == 11 || code == 35,
    ensures
        ({
            let told = Some(Err::<usize, Errno>(Errno(code)));
            let after = pipe_write_wakers(before, len, told, Some(waker));
            &&& pipe_write_step(before, len, told) == pipe_write_step(before, len, None)
            &&& after == pipe_write_wakers(before, len, None, Some(waker))
            &&& before.writable ==> {
                &&& pipe_write_step(before, len, told) == Step::<Result<usize>>::Call
                &&& after == (Wakers { writable: false, ..before })
            }
            &&& !before.writable ==> {
                &&& pipe_write_step(before, len, told) == Step::<Result<usize>>::Pending
                &&& after == (Wakers { writer: Some(waker), ..before })
            }
        }),
{
}

/// A write to a pipe ends with what the kernel gave it: the number of bytes it
/// took, or a real error; an interruption is tried again. Either way the pipe
/// counts as having room: only "not yet" says that it has none. Of an empty
/// buffer nothing is written.
pub proof fn law_a_pipe_write_ends_with_what_the_kernel_gave<W>(
    before: Wakers<W>,
    len: usize,
    count: usize,
    code: i32,
    waker: Option<W>,
)
    requires
        len > 0,
        code != 11 && code != 35,
    ensures
        ({
            let bytes = Some(Ok::<usize, Errno>(count));
            let error = Some(Err::<usize, Errno>(Errno(code)));
            let room = Wakers { writable: true, ..before };
            &&& pipe_write_step(before, len, bytes) == Step::Ready(Ok::<usize, Errno>(count))
            &&& pipe_write_wakers(before, len, bytes, waker) == room
            &&& code == 4 ==> pipe_write_step(before, len, error) == Step::<Result<usize>>::Call
            &&& code != 4 ==> {
                &&& pipe_write_step(before, len, error) == Step::Ready(
                    Err::<usize, Errno>(Errno(code)),
                )
                &&& pipe_write_wakers(before, len, error, waker) == room
            }
            &&& pipe_write_step(before, 0, bytes) == Step::Ready(Ok::<usize, Errno>(0))
            &&& pipe_write_step(before, 0, None) == Step::Ready(Ok::<usize, Errno>(0))
            &&& pipe_write_wakers(before, 0, bytes, waker) == before
        }),
{
}

/// A wait returns what the kernel says: the status it reports and no other, or
/// the error of a question that failed. A question that a signal cut short is
/// put again, and where the watch says that something happened the kernel is
/// asked, so a status comes from the kernel alone.
pub proof fn law_a_wait_returns_what_the_kernel_says<S, E>(event: ExitEvent<S, E>, status: S, error: E)
    ensures
        exit_step(event) == ExitStep::<S, E>::Ready(Ok(status)) <==> {
            ||| event == ExitEvent::<S, E>::Asked(Asked::Exited(status))
            ||| event == ExitEvent::<S, E>::Waited(Ok(status))
        },
        exit_step(event) == ExitStep::<S, E>::Ready(Err(error)) <==> {
            ||| event == ExitEvent::<S, E>::Asked(Asked::Failed(error))
            ||| event == ExitEvent::<S, E>::Waited(Err(error))
        },
        exit_step(event) is Ask <==> {
            ||| event is Start
            ||| event == ExitEvent::<S, E>::Asked(Asked::Interrupted)
            ||| event == ExitEvent::<S, E>::Watched(Readiness::Check)
        },
        exit_step(event) is WaitInKernel <==> event == ExitEvent::<S, E>::Watched(
            Readiness::Exiting,
        ),
{
}

/// A child waits as the kernel says until it is reaped: what a wait returns to
/// its caller is the status that the child then keeps, and the process is let go
/// of once, when that happens.
pub proof fn law_a_child_keeps_the_status_that_it_returns<P, S, E>(
    process: P,
    event: ExitEvent<S, E>,
    status: S,
)
    ensures
        ({
            let child = ChildView::<P, S>::Running(process);
            let after = child.waited(event);
            let returned = event == ExitEvent::<S, E>::Asked(Asked::Exited(status)) || event
                == ExitEvent::<S, E>::Waited(Ok(status));
            &&& returned ==> {
                &&& child.wait_step(event) == ExitStep::<S, E>::Ready(Ok(status))
                &&& after == ChildView::<P, S>::Reaped(status)
                &&& child.let_go(after) == Some(process)
                &&& after.let_go(after) is None
            }
            &&& event is Start || event is Watched ==> {
                &&& after == child
                &&& child.let_go(after) is None
            }
            &&& ChildView::<P, S>::Reaped(status).wait_step(event) == ExitStep::<S, E>::Ready(
                Ok(status),
            )
        }),
{
}

/// Collecting goes on until the end of the pipe: only a read of nothing ends it
/// well and only a failure ends it badly; bytes and interruptions do not, and
/// where there is nothing yet it waits.
pub proof fn law_a_pipe_is_collected_to_its_end<E>(read: Option<Chunk<E>>, error: E, count: usize)
    ensures
        drain_step(read) == Drained::<E>::Done <==> read == Some(Chunk::<E>::Read(0)),
        drain_step(read) == Drained::<E>::Failed(error) <==> read == Some(Chunk::Failed(error)),
        drain_step(read) == Drained::<E>::Pending <==> read == Some(Chunk::<E>::Pending),
        count > 0 ==> drain_step(Some(Chunk::<E>::Read(count))) == Drained::<E>::More,
        drain_step(Some(Chunk::<E>::Interrupted)) == Drained::<E>::More,
        drain_step(None::<Chunk<E>>) == Drained::<E>::More,
{
}

} // verus!
