//! Unix signals as a readable descriptor.
//!
//! One waiter per signal number. The descriptor of a number outlives its
//! waiter and is used again by the next.
use vstd::prelude::*;

use crate::reactor::driver::{held_after, let_go, Reactor, ReactorView, Registration, Wakers};
use crate::reactor::error::{Errno, Result};
use crate::reactor::net::{Step, Turn};
use crate::reactor::platform::{ebusy, einval, eio, epipe, sighup, sigint, sigkill, sigstop, sigterm};

verus! {

/// Which signal a [`Signal`] waits for.
#[derive(Debug, Clone, Copy, PartialEq, Eq, Structural)]
pub struct SignalKind(i32);

impl SignalKind {
    /// The signal number.
    pub closed spec fn number(self) -> i32 {
        self.0
    }

    /// `SIGHUP`. The default action is to terminate the process.
    pub fn hangup() -> (kind: Self)
        ensures
            kind.number() == 1,
    {
        SignalKind(sighup())
    }

    /// `SIGINT`. The default action is to terminate the process.
    pub fn interrupt() -> (kind: Self)
        ensures
            kind.number() == 2,
    {
        SignalKind(sigint())
    }

    /// `SIGTERM`. The default action is to terminate the process.
    pub fn terminate() -> (kind: Self)
        ensures
            kind.number() == 15,
    {
        SignalKind(sigterm())
    }

    /// An arbitrary signal number. Waiting accepts 1 to 31, and the kernel
    /// refuses some of those.
    pub fn from_raw(signo: i32) -> (kind: Self)
        ensures
            kind.number() == signo,
    {
        SignalKind(signo)
    }

    /// The signal number passed to the kernel.
    pub fn as_raw(self) -> (signo: i32)
        ensures
            signo == self.number(),
    {
        self.0
    }
}

/// The set of signal numbers that currently have a waiter.
pub struct Claims {
    taken: u64,
}

/// The right to wait for one signal number.
#[derive(Debug)]
pub struct Claim(i32);

/// Bit `sig` is set.
spec fn has_bit(taken: u64, sig: u64) -> bool {
    taken & (1u64 << sig) != 0
}

proof fn lemma_set_bit(taken: u64, sig: u64, other: u64)
    by (bit_vector)
    requires
        sig < 64,
        other < 64,
    ensures
        (taken | (1u64 << sig)) & (1u64 << other) != 0 <==> (taken & (1u64 << other) != 0 || other
            == sig),
{
}

proof fn lemma_clear_bit(taken: u64, sig: u64, other: u64)
    by (bit_vector)
    requires
        sig < 64,
        other < 64,
    ensures
        (taken & !(1u64 << sig)) & (1u64 << other) != 0 <==> (taken & (1u64 << other) != 0 && other
            != sig),
{
}

proof fn lemma_no_bit(other: u64)
    by (bit_vector)
    requires
        other < 64,
    ensures
        0u64 & (1u64 << other) == 0,
{
}

impl View for Claims {
    type V = Set<int>;

    /// The numbers that have a waiter.
    closed spec fn view(&self) -> Set<int> {
        Set::new(|sig: int| 1 <= sig < 32 && has_bit(self.taken, sig as u64))
    }
}

impl Claim {
    /// The signal number.
    pub closed spec fn number(self) -> int {
        self.0 as int
    }

    /// The number can be waited for at all.
    #[verifier::type_invariant]
    spec fn in_range(self) -> bool {
        1 <= self.0 < 32
    }

    /// The signal number claimed.
    pub fn as_raw(&self) -> (signo: i32)
        ensures
            signo == self.number(),
            1 <= signo < 32,
    {
        proof {
            use_type_invariant(self);
        }
        self.0
    }
}

impl Claims {
    /// No signal has a waiter.
    pub fn new() -> (claims: Self)
        ensures
            claims@ == Set::<int>::empty(),
    {
        let claims = Claims { taken: 0 };
        proof {
            assert forall|sig: int| !claims@.contains(sig) by {
                if 1 <= sig < 32 {
                    lemma_no_bit(sig as u64);
                }
            }
            assert(claims@ =~= Set::<int>::empty());
        }
        claims
    }

    /// Claim a signal number. `EINVAL` for one outside 1 to 31, `EBUSY` for
    /// one that has a waiter.
    pub fn acquire(&mut self, sig: i32) -> (result: Result<Claim>)
        ensures
            result is Ok <==> 1 <= sig < 32 && !old(self)@.contains(sig as int),
            result is Ok ==> {
                &&& result->Ok_0.number() == sig
                &&& final(self)@ == old(self)@.insert(sig as int)
            },
            result is Err ==> {
                &&& final(self)@ == old(self)@
                &&& result->Err_0 == (if 1 <= sig < 32 {
                    Errno(16)
                } else {
                    Errno(22)
                })
            },
    {
        if !(1 <= sig && sig < 32) {
            return Err(Errno(einval()));
        }
        let bit: u64 = 1u64 << (sig as u64);
        if self.taken & bit != 0 {
            return Err(Errno(ebusy()));
        }
        self.taken = self.taken | bit;
        proof {
            assert forall|other: int| self@.contains(other) <==> old(self)@.insert(
                sig as int,
            ).contains(other) by {
                if 1 <= other < 32 {
                    lemma_set_bit(old(self).taken, sig as u64, other as u64);
                }
            }
            assert(self@ =~= old(self)@.insert(sig as int));
        }
        Ok(Claim(sig))
    }

    /// Give a claim up. The number can be claimed again.
    pub fn release(&mut self, claim: Claim)
        ensures
            final(self)@ == old(self)@.remove(claim.number()),
    {
        proof {
            use_type_invariant(&claim);
        }
        let sig: i32 = claim.0;
        self.taken = self.taken & !(1u64 << (sig as u64));
        proof {
            assert forall|other: int| self@.contains(other) <==> old(self)@.remove(
                sig as int,
            ).contains(other) by {
                if 1 <= other < 32 {
                    lemma_clear_bit(old(self).taken, sig as u64, other as u64);
                }
            }
            assert(self@ =~= old(self)@.remove(sig as int));
        }
    }
}

/// One descriptor per signal number, open for the process.
///
/// A signal that arrives while nobody is waiting stays blocked and readable on
/// its descriptor rather than taking the default action.
pub struct SignalFds {
    fds: Vec<i32>,
}

/// What arming a signal needs next.
#[derive(Debug, Clone, Copy, PartialEq, Eq, Structural)]
pub enum ArmStep {
    /// Block the signal.
    Block,
    /// Make a descriptor for it.
    Create,
    /// Unblock it again, and come back with the error.
    Unblock(Errno),
    /// The descriptor to watch.
    Armed(i32),
    /// It cannot be armed.
    Failed(Errno),
}

/// What came of the last step of arming.
#[derive(Debug, Clone, Copy, PartialEq, Eq, Structural)]
pub enum ArmEvent {
    Start,
    Blocked,
    BlockFailed(Errno),
    Created(i32),
    CreateFailed(Errno),
    Unblocked(Errno),
}

impl View for SignalFds {
    type V = Map<int, i32>;

    /// The descriptor of each number that has one.
    closed spec fn view(&self) -> Map<int, i32> {
        Map::new(|sig: int| 0 <= sig < 32 && self.fds@[sig] >= 0, |sig: int| self.fds@[sig])
    }
}

/// The signals that no process may catch or block: `SIGKILL` and `SIGSTOP`.
pub open spec fn uncatchable(sig: int) -> bool {
    sig == 9 || sig == 19
}

impl SignalFds {
    /// Well-formedness: a place for each number.
    pub closed spec fn wf(self) -> bool {
        self.fds@.len() == 32
    }

    /// No descriptors yet.
    pub fn new() -> (fds: Self)
        ensures
            fds.wf(),
            fds@ == Map::<int, i32>::empty(),
    {
        let mut fds: Vec<i32> = Vec::new();
        let mut i: usize = 0;
        while i < 32
            invariant
                i <= 32,
                fds@.len() == i,
                forall|k: int| 0 <= k < i ==> fds@[k] == -1,
            decreases 32 - i,
        {
            fds.push(-1);
            i = i + 1;
        }
        let fds = SignalFds { fds };
        assert(fds@ =~= Map::<int, i32>::empty());
        fds
    }

    /// Arm a claimed signal. `EINVAL` for one that no process may catch or
    /// block. Any other is blocked first, so that it does not take the
    /// default action; then its descriptor is made, unless there is one already.
    /// Where the descriptor cannot be made nothing is waiting, so the block
    /// would only swallow the signal and is lifted.
    pub fn arm(&mut self, claim: &Claim, event: ArmEvent) -> (step: ArmStep)
        requires
            old(self).wf(),
            event matches ArmEvent::Created(fd) ==> fd >= 0,
        ensures
            final(self).wf(),
            step == (match event {
                ArmEvent::Start => if uncatchable(claim.number()) {
                    ArmStep::Failed(Errno(22))
                } else if old(self)@.contains_key(claim.number()) {
                    ArmStep::Armed(old(self)@[claim.number()])
                } else {
                    ArmStep::Block
                },
                ArmEvent::Blocked => ArmStep::Create,
                ArmEvent::BlockFailed(error) => ArmStep::Failed(error),
                ArmEvent::Created(fd) => ArmStep::Armed(fd),
                ArmEvent::CreateFailed(error) => ArmStep::Unblock(error),
                ArmEvent::Unblocked(error) => ArmStep::Failed(error),
            }),
            event is Start ==> (step == ArmStep::Failed(Errno(22)) <==> claim.number() == 9
                || claim.number() == 19),
            final(self)@ == (match event {
                ArmEvent::Created(fd) => old(self)@.insert(claim.number(), fd),
                _ => old(self)@,
            }),
    {
        let sig: i32 = claim.as_raw();
        match event {
            ArmEvent::Start => {
                if sig == sigkill() || sig == sigstop() {
                    return ArmStep::Failed(Errno(einval()));
                }
                let fd: i32 = self.fds[sig as usize];
                if fd >= 0 {
                    ArmStep::Armed(fd)
                } else {
                    ArmStep::Block
                }
            },
            ArmEvent::Blocked => ArmStep::Create,
            ArmEvent::BlockFailed(error) => ArmStep::Failed(error),
            ArmEvent::Created(fd) => {
                self.fds[sig as usize] = fd;
                assert(self@ =~= old(self)@.insert(claim.number(), fd));
                ArmStep::Armed(fd)
            },
            ArmEvent::CreateFailed(error) => ArmStep::Unblock(error),
            ArmEvent::Unblocked(error) => ArmStep::Failed(error),
        }
    }
}

/// A waiter for one signal.
#[derive(Debug)]
pub struct Signal {
    kind: SignalKind,
    claim: Claim,
    registration: Registration,
    fd: i32,
}

/// What has to be undone after a waiter could not be made. The signal is
/// disarmed while the claim is still held, so that nobody installs over it;
/// then the claim is released; then the descriptor leaves the poller.
pub struct Undo {
    pub error: Errno,
    pub disarm: bool,
    pub claim: Claim,
    pub registration: Option<Registration>,
}

impl Signal {
    /// The signal this waits for.
    pub closed spec fn spec_kind(self) -> SignalKind {
        self.kind
    }

    /// The claim it holds.
    pub closed spec fn claim(self) -> Claim {
        self.claim
    }

    /// The registration of its descriptor.
    pub closed spec fn registration(self) -> Registration {
        self.registration
    }

    /// The descriptor.
    pub closed spec fn fd(self) -> i32 {
        self.fd
    }

    /// Wait for a claimed signal: decide on what came of arming it, then of
    /// registering its descriptor, then of committing to it. Each is asked for
    /// only where the one before succeeded.
    pub fn new(
        claim: Claim,
        armed: Result<i32>,
        registered: Option<Result<Registration>>,
        committed: Option<Result<()>>,
    ) -> (result: core::result::Result<Self, Undo>)
        requires
            armed is Ok ==> registered is Some,
            armed is Ok && registered->0 is Ok ==> committed is Some,
        ensures
            (match armed {
                Err(error) => result == Err::<Self, Undo>(
                    Undo { error, disarm: false, claim, registration: None },
                ),
                Ok(fd) => match registered->0 {
                    Err(error) => result == Err::<Self, Undo>(
                        Undo { error, disarm: true, claim, registration: None },
                    ),
                    Ok(registration) => match committed->0 {
                        Err(error) => result == Err::<Self, Undo>(
                            Undo { error, disarm: true, claim, registration: Some(registration) },
                        ),
                        Ok(_) => {
                            &&& result is Ok
                            &&& result->Ok_0.spec_kind().number() == claim.number()
                            &&& result->Ok_0.claim() == claim
                            &&& result->Ok_0.registration() == registration
                            &&& result->Ok_0.fd() == fd
                        },
                    },
                },
            }),
    {
        let fd: i32 = match armed {
            Err(error) => {
                return Err(Undo { error, disarm: false, claim, registration: None });
            },
            Ok(fd) => fd,
        };
        let registration = match registered.unwrap() {
            Err(error) => {
                return Err(Undo { error, disarm: true, claim, registration: None });
            },
            Ok(registration) => registration,
        };
        match committed.unwrap() {
            Err(error) => Err(
                Undo { error, disarm: true, claim, registration: Some(registration) },
            ),
            Ok(_) => {
                let kind = SignalKind::from_raw(claim.as_raw());
                Ok(Signal { kind, claim, registration, fd })
            },
        }
    }

    /// The signal this waiter was created for.
    pub fn kind(&self) -> (kind: SignalKind)
        ensures
            kind == self.spec_kind(),
    {
        self.kind
    }

    /// The descriptor to read deliveries from.
    pub fn raw(&self) -> (fd: i32)
        ensures
            fd == self.fd(),
    {
        self.fd
    }

    /// The registration of the descriptor.
    pub fn get_registration(&self) -> (registration: &Registration)
        ensures
            *registration == self.registration(),
    {
        &self.registration
    }

    /// Stop waiting. The signal is to be disarmed while the claim is still
    /// held; then the claim is released; then the descriptor leaves the
    /// poller. It stays open.
    pub fn into_parts(self) -> (parts: (Claim, Registration))
        ensures
            parts == (self.claim(), self.registration()),
    {
        (self.claim, self.registration)
    }

    /// What a turn of a wait wants next.
    pub open spec fn recv_step<W>(
        self,
        reactor: ReactorView<W>,
        read: Option<Result<SignalKind>>,
    ) -> Step<Result<SignalKind>> {
        match read {
            None => if self.registration().wakers(reactor).worth_reading() {
                Step::Call
            } else {
                Step::Pending
            },
            Some(Ok(kind)) => Step::Ready(Ok(kind)),
            Some(Err(error)) => if error.is_would_block() {
                Step::Pending
            } else if error.is_interrupted() {
                Step::Call
            } else {
                Step::Ready(Err(error))
            },
        }
    }

    /// What a turn of a wait leaves of the descriptor's standing.
    pub open spec fn recv_wakers<W>(
        self,
        reactor: ReactorView<W>,
        read: Option<Result<SignalKind>>,
        waker: Option<W>,
    ) -> Wakers<W> {
        let before = self.registration().wakers(reactor);
        match self.recv_step(reactor, read) {
            Step::Pending => Wakers { reader: held_after(before.reader, waker), ..before },
            Step::Call => if read is None {
                Wakers { readable: false, ..before }
            } else {
                before
            },
            Step::Ready(Ok(_)) => Wakers { readable: true, ..before },
            Step::Ready(Err(_)) => before,
        }
    }

    /// Complete the next time the signal is delivered. The call is to read one
    /// delivery.
    ///
    /// One delivery does not prove the descriptor empty: two that were queued
    /// share one edge, so readiness is put back after each.
    pub fn poll_recv<W>(
        &self,
        reactor: &mut Reactor<W>,
        read: Option<Result<SignalKind>>,
        waker: Option<W>,
    ) -> (turn: Turn<Result<SignalKind>, W>)
        requires
            old(reactor).wf(),
            self.registration().fits(old(reactor)@),
        ensures
            final(reactor).wf(),
            self.registration().fits(final(reactor)@),
            turn.step == self.recv_step(old(reactor)@, read),
            final(reactor)@ == old(reactor)@.with_wakers(
                self.registration().index(),
                self.recv_wakers(old(reactor)@, read, waker),
            ),
            turn.step == Step::<Result<SignalKind>>::Pending ==> {
                &&& turn.dropped == let_go(
                    self.registration().wakers(old(reactor)@).reader,
                    waker,
                )
                &&& turn.unused is None
            },
            turn.step != Step::<Result<SignalKind>>::Pending ==> {
                &&& turn.dropped is None
                &&& turn.unused == waker
            },
    {
        proof {
            reactor.lemma_same_wakers(self.registration.index());
        }
        match read {
            None => {
                let taken = self.registration.take_readable_or_park(reactor, waker);
                let step = if taken.ready {
                    Step::Call
                } else {
                    Step::Pending
                };
                Turn { step, dropped: taken.dropped, unused: taken.unused }
            },
            Some(Ok(kind)) => {
                self.registration.mark_readable(reactor);
                Turn { step: Step::Ready(Ok(kind)), dropped: None, unused: waker }
            },
            Some(Err(error)) => {
                if error.would_block() {
                    let dropped = self.registration.poll_readable(reactor, waker);
                    Turn { step: Step::Pending, dropped, unused: None }
                } else if error.interrupted() {
                    Turn { step: Step::Call, dropped: None, unused: waker }
                } else {
                    Turn { step: Step::Ready(Err(error)), dropped: None, unused: waker }
                }
            },
        }
    }
}

/// One delivery: decide on what a read of a record of `size` bytes returned,
/// where `signo` is the number in it. `EPIPE` for the end of the descriptor,
/// `EIO` for part of a record.
pub fn read_one(read: isize, errno: i32, size: usize, signo: i32) -> (result: Result<SignalKind>)
    ensures
        read < 0 ==> result == Err::<SignalKind, Errno>(Errno(errno)),
        read == 0 ==> result == Err::<SignalKind, Errno>(Errno(32)),
        read > 0 && read != size ==> result == Err::<SignalKind, Errno>(Errno(5)),
        read > 0 && read == size ==> result is Ok && result->Ok_0.number() == signo,
{
    if read < 0 {
        return Err(Errno(errno));
    }
    if read == 0 {
        return Err(Errno(epipe()));
    }
    if read as usize != size {
        return Err(Errno(eio()));
    }
    Ok(SignalKind::from_raw(signo))
}

/// A number that has a waiter cannot be claimed again until that waiter gives
/// its claim up, and can be then: what was claimed before is as it was.
pub proof fn law_a_released_claim_can_be_taken_again(claims: Set<int>, sig: int)
    requires
        1 <= sig < 32,
        !claims.contains(sig),
    ensures
        claims.insert(sig).contains(sig),
        claims.insert(sig).remove(sig) == claims,
        forall|other: int|
            other != sig ==> (#[trigger] claims.insert(sig).contains(other) <==> claims.contains(
                other,
            )),
{
    assert(claims.insert(sig).remove(sig) =~= claims);
}

/// Two deliveries on one edge are both read: after a delivery the next wait
/// reads again without waiting for an edge.
pub proof fn law_a_second_delivery_is_not_lost<W>(
    signal: Signal,
    reactor: ReactorView<W>,
    kind: SignalKind,
)
    ensures
        ({
            let after = reactor.with_wakers(
                signal.registration().index(),
                signal.recv_wakers(reactor, Some(Ok(kind)), None),
            );
            signal.recv_step(after, None) == Step::<Result<SignalKind>>::Call
        }),
{
}

/// A wait for a signal reads only where a delivery may have arrived; otherwise,
/// and when it is told "not yet" in either numbering, it waits with the waker
/// that it was offered.
pub proof fn law_a_wait_for_a_signal_waits_for_a_delivery<W>(
    signal: Signal,
    reactor: ReactorView<W>,
    code: i32,
    waker: W,
)
    requires
        code == 11 || code == 35,
    ensures
        ({
            let before = signal.registration().wakers(reactor);
            let told = Some(Err::<SignalKind, Errno>(Errno(code)));
            let parked = Wakers { reader: Some(waker), ..before };
            &&& before.readable || before.hangup ==> {
                &&& signal.recv_step(reactor, None) == Step::<Result<SignalKind>>::Call
                &&& signal.recv_wakers(reactor, None, Some(waker)) == (Wakers {
                    readable: false,
                    ..before
                })
            }
            &&& !before.readable && !before.hangup ==> {
                &&& signal.recv_step(reactor, None) == Step::<Result<SignalKind>>::Pending
                &&& signal.recv_wakers(reactor, None, Some(waker)) == parked
            }
            &&& signal.recv_step(reactor, told) == Step::<Result<SignalKind>>::Pending
            &&& signal.recv_wakers(reactor, told, Some(waker)) == parked
        }),
{
}

/// A wait for a signal ends with the delivery that was read, and no other, or
/// with a real error; an interruption is tried again.
pub proof fn law_a_wait_for_a_signal_ends_with_the_delivery<W>(
    signal: Signal,
    reactor: ReactorView<W>,
    kind: SignalKind,
    code: i32,
    waker: Option<W>,
)
    requires
        code != 11 && code != 35,
    ensures
        ({
            let before = signal.registration().wakers(reactor);
            let error = Some(Err::<SignalKind, Errno>(Errno(code)));
            &&& signal.recv_step(reactor, Some(Ok(kind))) == Step::Ready(
                Ok::<SignalKind, Errno>(kind),
            )
            &&& signal.recv_wakers(reactor, Some(Ok(kind)), waker) == (Wakers {
                readable: true,
                ..before
            })
            &&& signal.recv_step(reactor, error) == (if code == 4 {
                Step::Call
            } else {
                Step::Ready(Err::<SignalKind, Errno>(Errno(code)))
            })
            &&& signal.recv_wakers(reactor, error, waker) == before
        }),
{
}

} // verus!
