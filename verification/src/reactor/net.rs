//! Non-blocking sockets over the reactor.
//!
//! The poller is edge triggered, so a waker is parked only once readiness is
//! used up: waiting before that would be waiting for an edge that has already
//! passed. A read has used it up when the kernel says that it would block, or
//! when it came back short. A write has when the kernel says so, and also when
//! it shows by itself that the send buffer is full: the next write then waits
//! without asking, rather than be refused to learn the same.
//!
//! Each poll is a conversation: it asks for a call into the kernel, is told
//! what came of it, and ends ready or pending.
use vstd::prelude::*;

use crate::io::Progress;
use crate::reactor::driver::{held_after, let_go, Reactor, Registration, Wakers};
use crate::reactor::error::{
    concerns_one_connection, transient_accept, Errno, Result, BROKEN_PIPE,
};
use crate::reactor::socket::{Addr, TcpSocket};

verus! {

/// What a poll wants next.
#[derive(Debug, PartialEq, Eq)]
pub enum Step<T> {
    /// Make the call, and come back with what it returned.
    Call,
    /// The waker is parked.
    Pending,
    /// The poll is over.
    Ready(T),
}

/// What one turn of a poll comes to.
pub struct Turn<T, W> {
    pub step: Step<T>,
    /// A waker that the reactor no longer holds, to be destroyed.
    pub dropped: Option<W>,
    /// The waker that was offered, where it was not needed.
    pub unused: Option<W>,
}

/// A connection that yields instead of blocking.
#[derive(Debug)]
pub struct TcpStream {
    socket: TcpSocket,
    registration: Registration,
    /// A connect is in flight. False for an adopted socket, which is connected
    /// by definition, and for a Unix-domain connect, which finishes inside the
    /// call.
    connecting: bool,
    /// How much the send buffer holds, if the kernel said.
    capacity: Option<usize>,
}

/// A write of `asked` bytes of which the kernel took `taken` proves that the
/// send buffer is full: it took less than it was given, or no less than the
/// buffer holds.
pub open spec fn filled_the_buffer(asked: usize, taken: usize, capacity: Option<usize>) -> bool {
    taken < asked || (capacity is Some && taken >= capacity->0)
}

impl TcpStream {
    /// The socket.
    pub closed spec fn socket(self) -> TcpSocket {
        self.socket
    }

    /// The registration.
    pub closed spec fn registration(self) -> Registration {
        self.registration
    }

    /// A connect is in flight.
    pub closed spec fn connecting(self) -> bool {
        self.connecting
    }

    /// How much the send buffer holds, if the kernel said.
    pub closed spec fn capacity(self) -> Option<usize> {
        self.capacity
    }

    /// Adopt an already connected and registered socket.
    pub fn from_socket(
        socket: TcpSocket,
        registration: Registration,
        capacity: Option<usize>,
    ) -> (stream: Self)
        ensures
            stream.socket() == socket,
            stream.registration() == registration,
            stream.capacity() == capacity,
            !stream.connecting(),
    {
        TcpStream { socket, registration, connecting: false, capacity }
    }

    /// Take over a socket that has started connecting to `addr`.
    ///
    /// A Unix-domain connect does not go in flight, so there is no later
    /// answer to wait for and waiting would never end.
    pub fn connect_started(
        socket: TcpSocket,
        registration: Registration,
        capacity: Option<usize>,
        addr: &Addr,
    ) -> (stream: Self)
        ensures
            stream.socket() == socket,
            stream.registration() == registration,
            stream.capacity() == capacity,
            stream.connecting() == !(addr@ is Path),
    {
        let in_flight = match addr {
            Addr::Path(_) => false,
            _ => true,
        };
        TcpStream { socket, registration, connecting: in_flight, capacity }
    }

    /// The socket underneath.
    pub fn get_ref(&self) -> (socket: &TcpSocket)
        ensures
            *socket == self.socket(),
    {
        &self.socket
    }

    /// The registration of the socket.
    pub fn get_registration(&self) -> (registration: &Registration)
        ensures
            *registration == self.registration(),
    {
        &self.registration
    }

    /// The socket and its registration.
    pub fn into_parts(self) -> (parts: (TcpSocket, Registration))
        ensures
            parts == (self.socket(), self.registration()),
    {
        (self.socket, self.registration)
    }

    /// Wait for an in-flight connect. The call is to ask for `SO_ERROR`, and
    /// where that holds nothing, whether there is a peer: `SO_ERROR` reads zero
    /// both for "succeeded" and for "still going", and there is a peer only
    /// once the handshake is done.
    pub fn connected<W>(
        &mut self,
        reactor: &mut Reactor<W>,
        answer: Option<(Result<()>, bool)>,
        waker: Option<W>,
    ) -> (turn: Turn<Result<()>, W>)
        requires
            old(reactor).wf(),
            old(self).registration().fits(old(reactor)@),
        ensures
            final(reactor).wf(),
            final(self).socket() == old(self).socket(),
            final(self).registration() == old(self).registration(),
            final(self).capacity() == old(self).capacity(),
            final(self).registration().fits(final(reactor)@),
            !old(self).connecting() ==> {
                &&& turn.step == Step::<Result<()>>::Ready(Ok(()))
                &&& !final(self).connecting()
            },
            old(self).connecting() && answer is None ==> {
                &&& turn.step == Step::<Result<()>>::Call
                &&& final(self).connecting()
            },
            old(self).connecting() && answer is Some ==> {
                let (error, peer) = answer->0;
                &&& final(self).connecting() == !(error is Ok && peer)
                &&& turn.step == (match error {
                    Err(error) => Step::Ready(Err(error)),
                    Ok(_) => if peer {
                        Step::Ready(Ok(()))
                    } else {
                        Step::Pending
                    },
                })
            },
            turn.step == Step::<Result<()>>::Pending ==> {
                let parked = old(self).registration().wakers(old(reactor)@);
                &&& final(reactor)@ == old(reactor)@.with_wakers(
                    old(self).registration().index(),
                    (Wakers { writer: held_after(parked.writer, waker), ..parked }),
                )
                &&& turn.dropped == let_go(parked.writer, waker)
                &&& turn.unused is None
            },
            turn.step != Step::<Result<()>>::Pending ==> {
                &&& final(reactor)@ == old(reactor)@
                &&& turn.dropped is None
                &&& turn.unused == waker
            },
    {
        if !self.connecting {
            return Turn { step: Step::Ready(Ok(())), dropped: None, unused: waker };
        }
        match answer {
            None => Turn { step: Step::Call, dropped: None, unused: waker },
            Some((Err(error), _)) => Turn {
                step: Step::Ready(Err(error)),
                dropped: None,
                unused: waker,
            },
            Some((Ok(_), peer)) => {
                if peer {
                    self.connecting = false;
                    return Turn { step: Step::Ready(Ok(())), dropped: None, unused: waker };
                }
                let dropped = self.registration.poll_writable(reactor, waker);
                Turn { step: Step::Pending, dropped, unused: None }
            },
        }
    }

    /// Read into a buffer of `len` bytes. The call is a `recv`, and it is only
    /// asked for where something may have arrived.
    pub fn poll_read<W>(
        &self,
        reactor: &mut Reactor<W>,
        len: usize,
        received: Option<Result<usize>>,
        waker: Option<W>,
    ) -> (turn: Turn<Result<usize>, W>)
        requires
            old(reactor).wf(),
            self.registration().fits(old(reactor)@),
        ensures
            final(reactor).wf(),
            self.registration().fits(final(reactor)@),
            turn.step == self.read_step(old(reactor)@, len, received),
            final(reactor)@ == old(reactor)@.with_wakers(
                self.registration().index(),
                self.read_wakers(old(reactor)@, len, received, waker),
            ),
            turn.step == Step::<Result<usize>>::Pending ==> {
                &&& turn.dropped == let_go(
                    self.registration().wakers(old(reactor)@).reader,
                    waker,
                )
                &&& turn.unused is None
            },
            turn.step != Step::<Result<usize>>::Pending ==> {
                &&& turn.dropped is None
                &&& turn.unused == waker
            },
    {
        proof {
            reactor.lemma_same_wakers(self.registration.index());
        }
        match received {
            None => {
                let taken = self.registration.take_readable_or_park(reactor, waker);
                let step = if taken.ready {
                    Step::Call
                } else {
                    Step::Pending
                };
                Turn { step, dropped: taken.dropped, unused: taken.unused }
            },
            Some(Ok(n)) => {
                // A read that filled the buffer has not proved the socket
                // empty, so readiness is put back rather than consumed.
                if n == len {
                    self.registration.mark_readable(reactor);
                }
                Turn { step: Step::Ready(Ok(n)), dropped: None, unused: waker }
            },
            Some(Err(error)) => {
                if error.would_block() {
                    // Drained: now it is safe to wait for the next edge.
                    let dropped = self.registration.poll_readable(reactor, waker);
                    Turn { step: Step::Pending, dropped, unused: None }
                } else if error.interrupted() {
                    Turn { step: Step::Call, dropped: None, unused: waker }
                } else {
                    Turn { step: Step::Ready(Err(error)), dropped: None, unused: waker }
                }
            },
        }
    }

    /// What a turn of a read wants next.
    pub open spec fn read_step<W>(
        self,
        reactor: crate::reactor::driver::ReactorView<W>,
        len: usize,
        received: Option<Result<usize>>,
    ) -> Step<Result<usize>> {
        match received {
            None => if self.registration().wakers(reactor).worth_reading() {
                Step::Call
            } else {
                Step::Pending
            },
            Some(Ok(n)) => Step::Ready(Ok(n)),
            Some(Err(error)) => if error.is_would_block() {
                Step::Pending
            } else if error.is_interrupted() {
                Step::Call
            } else {
                Step::Ready(Err(error))
            },
        }
    }

    /// What a turn of a read leaves of the descriptor's standing.
    pub open spec fn read_wakers<W>(
        self,
        reactor: crate::reactor::driver::ReactorView<W>,
        len: usize,
        received: Option<Result<usize>>,
        waker: Option<W>,
    ) -> Wakers<W> {
        let before = self.registration().wakers(reactor);
        match self.read_step(reactor, len, received) {
            Step::Pending => Wakers { reader: held_after(before.reader, waker), ..before },
            Step::Call => if received is None {
                Wakers { readable: false, ..before }
            } else {
                before
            },
            Step::Ready(_) => if received == Some(Ok::<usize, Errno>(len)) {
                Wakers { readable: true, ..before }
            } else {
                before
            },
        }
    }

    /// Read into the spare capacity of a growable buffer, of which there are
    /// `spare` bytes. A full buffer reads nothing.
    pub fn poll_read_buf<W>(
        &self,
        reactor: &mut Reactor<W>,
        spare: usize,
        received: Option<Result<usize>>,
        waker: Option<W>,
    ) -> (turn: Turn<Result<usize>, W>)
        requires
            old(reactor).wf(),
            self.registration().fits(old(reactor)@),
        ensures
            final(reactor).wf(),
            self.registration().fits(final(reactor)@),
            spare == 0 ==> {
                &&& turn.step == Step::<Result<usize>>::Ready(Ok(0))
                &&& final(reactor)@ == old(reactor)@
                &&& turn.dropped is None
                &&& turn.unused == waker
            },
            spare > 0 ==> {
                &&& turn.step == self.read_step(old(reactor)@, spare, received)
                &&& final(reactor)@ == old(reactor)@.with_wakers(
                    self.registration().index(),
                    self.read_wakers(old(reactor)@, spare, received, waker),
                )
                &&& turn.step == Step::<Result<usize>>::Pending ==> {
                    &&& turn.dropped == let_go(
                        self.registration().wakers(old(reactor)@).reader,
                        waker,
                    )
                    &&& turn.unused is None
                }
                &&& turn.step != Step::<Result<usize>>::Pending ==> {
                    &&& turn.dropped is None
                    &&& turn.unused == waker
                }
            },
    {
        if spare == 0 {
            return Turn { step: Step::Ready(Ok(0)), dropped: None, unused: waker };
        }
        self.poll_read(reactor, spare, received, waker)
    }

    /// What a turn of a write wants next.
    pub open spec fn write_step<W>(
        self,
        reactor: crate::reactor::driver::ReactorView<W>,
        sent: Option<Result<usize>>,
    ) -> Step<Result<usize>> {
        match sent {
            None => if self.registration().wakers(reactor).writable {
                Step::Call
            } else {
                Step::Pending
            },
            Some(Ok(n)) => Step::Ready(Ok(n)),
            Some(Err(error)) => if error.is_would_block() {
                Step::Pending
            } else if error.is_interrupted() {
                Step::Call
            } else {
                Step::Ready(Err(error))
            },
        }
    }

    /// What a turn of a write of `asked` bytes leaves of the descriptor's
    /// standing. Only a write that proved the buffer full keeps the readiness
    /// it took: the next one waits for an edge instead of being refused.
    pub open spec fn write_wakers<W>(
        self,
        reactor: crate::reactor::driver::ReactorView<W>,
        asked: usize,
        sent: Option<Result<usize>>,
        waker: Option<W>,
    ) -> Wakers<W> {
        let before = self.registration().wakers(reactor);
        match self.write_step(reactor, sent) {
            Step::Pending => Wakers { writer: held_after(before.writer, waker), ..before },
            Step::Call => if sent is None {
                Wakers { writable: false, ..before }
            } else {
                before
            },
            Step::Ready(Ok(n)) => if filled_the_buffer(asked, n, self.capacity()) {
                before
            } else {
                Wakers { writable: true, ..before }
            },
            Step::Ready(Err(_)) => Wakers { writable: true, ..before },
        }
    }

    /// Write `asked` bytes out of two slices, without joining them. The call is
    /// a `sendmsg`, and it is only asked for where there may be room.
    pub fn poll_write_vectored<W>(
        &self,
        reactor: &mut Reactor<W>,
        asked: usize,
        sent: Option<Result<usize>>,
        waker: Option<W>,
    ) -> (turn: Turn<Result<usize>, W>)
        requires
            old(reactor).wf(),
            self.registration().fits(old(reactor)@),
        ensures
            final(reactor).wf(),
            self.registration().fits(final(reactor)@),
            turn.step == self.write_step(old(reactor)@, sent),
            final(reactor)@ == old(reactor)@.with_wakers(
                self.registration().index(),
                self.write_wakers(old(reactor)@, asked, sent, waker),
            ),
            turn.step == Step::<Result<usize>>::Pending ==> {
                &&& turn.dropped == let_go(
                    self.registration().wakers(old(reactor)@).writer,
                    waker,
                )
                &&& turn.unused is None
            },
            turn.step != Step::<Result<usize>>::Pending ==> {
                &&& turn.dropped is None
                &&& turn.unused == waker
            },
    {
        proof {
            reactor.lemma_same_wakers(self.registration.index());
        }
        match sent {
            None => {
                let taken = self.registration.take_writable_or_park(reactor, waker);
                let step = if taken.ready {
                    Step::Call
                } else {
                    Step::Pending
                };
                Turn { step, dropped: taken.dropped, unused: taken.unused }
            },
            Some(Ok(n)) => {
                let full = n < asked || match self.capacity {
                    Some(capacity) => n >= capacity,
                    None => false,
                };
                if !full {
                    self.registration.mark_writable(reactor);
                }
                Turn { step: Step::Ready(Ok(n)), dropped: None, unused: waker }
            },
            Some(Err(error)) => {
                if error.would_block() {
                    let dropped = self.registration.poll_writable(reactor, waker);
                    Turn { step: Step::Pending, dropped, unused: None }
                } else if error.interrupted() {
                    Turn { step: Step::Call, dropped: None, unused: waker }
                } else {
                    self.registration.mark_writable(reactor);
                    Turn { step: Step::Ready(Err(error)), dropped: None, unused: waker }
                }
            },
        }
    }
}

/// Writing a header and a payload, until both are gone.
///
/// A vectored write can stop anywhere, including part way through the header,
/// and resuming it means tracking which slice the remainder falls in.
#[derive(Debug)]
pub struct WriteAllVectored {
    header: usize,
    payload: usize,
    written: usize,
}

impl WriteAllVectored {
    /// How long the two slices are together.
    pub closed spec fn total(self) -> nat {
        (self.header + self.payload) as nat
    }

    /// How long the header is.
    pub closed spec fn header_len(self) -> nat {
        self.header as nat
    }

    /// How many bytes the socket has accepted.
    pub closed spec fn written(self) -> nat {
        self.written as nat
    }

    /// Well-formedness: the length fits in a `usize`.
    pub open spec fn wf(self) -> bool {
        self.total() <= usize::MAX && self.header_len() <= self.total()
    }

    /// A write of slices of these lengths.
    pub fn new(header: usize, payload: usize) -> (transfer: Self)
        requires
            header + payload <= usize::MAX,
        ensures
            transfer.wf(),
            transfer.header_len() == header,
            transfer.total() == header + payload,
            transfer.written() == 0,
    {
        WriteAllVectored { header, payload, written: 0 }
    }

    /// What is left to write, as two slices. `None` once both are gone.
    pub fn rest<'a>(&self, header: &'a [u8], payload: &'a [u8]) -> (rest: Option<
        (&'a [u8], &'a [u8]),
    >)
        requires
            self.wf(),
            header@.len() == self.header_len(),
            header@.len() + payload@.len() == self.total(),
        ensures
            rest is None <==> self.written() >= self.total(),
            rest is Some ==> {
                let (first, second) = rest->0;
                &&& first@ + second@ == (header@ + payload@).skip(self.written() as int)
                &&& self.written() < self.header_len() ==> second@ == payload@
                &&& self.written() >= self.header_len() ==> first@.len() == 0
            },
    {
        if self.written >= self.header + self.payload {
            return None;
        }
        let ghost all = (header@ + payload@).skip(self.written as int);
        if self.written < self.header {
            let first = vstd::slice::slice_subrange(header, self.written, header.len());
            assert(first@ + payload@ =~= all);
            Some((first, payload))
        } else {
            let first = vstd::slice::slice_subrange(header, header.len(), header.len());
            let second = vstd::slice::slice_subrange(
                payload,
                self.written - self.header,
                payload.len(),
            );
            assert(first@ + second@ =~= all);
            Some((first, second))
        }
    }

    /// Take note of what one write returned. A socket that accepts nothing is
    /// not going to start: the peer has gone.
    pub fn step(&mut self, sent: Result<usize>) -> (progress: Progress<(), Errno>)
        requires
            old(self).wf(),
            old(self).written() < old(self).total(),
            sent is Ok ==> old(self).written() + sent->Ok_0 <= usize::MAX,
        ensures
            final(self).wf(),
            final(self).total() == old(self).total(),
            final(self).header_len() == old(self).header_len(),
            final(self).written() == old(self).written() + (match sent {
                Ok(n) => n as nat,
                Err(_) => 0,
            }),
            progress is Done <==> sent is Ok && sent->Ok_0 > 0 && final(self).written()
                >= final(self).total(),
            sent is Ok && sent->Ok_0 == 0 ==> progress == Progress::<(), Errno>::Failed(Errno(32)),
            progress == (match sent {
                Ok(n) => if n == 0 {
                    Progress::Failed(Errno(BROKEN_PIPE))
                } else if old(self).written() + n < old(self).total() {
                    Progress::More
                } else {
                    Progress::Done(())
                },
                Err(error) => Progress::Failed(error),
            }),
    {
        match sent {
            Ok(n) => {
                if n == 0 {
                    return Progress::Failed(Errno(BROKEN_PIPE));
                }
                self.written = self.written + n;
                if self.written < self.header + self.payload {
                    Progress::More
                } else {
                    Progress::Done(())
                }
            },
            Err(error) => Progress::Failed(error),
        }
    }
}

/// How many pending connections the kernel will hold before refusing.
///
/// Generous, because the cost is kernel memory per listener, and a queue that
/// overflows under a burst produces refused connections that look like a
/// server fault.
pub const BACKLOG: i32 = 1024;

/// Accept one connection on a registered listener. The call is an `accept`,
/// and `accepted` is what came of it.
///
/// A connection that died between the readiness event and the call is not the
/// listener's problem: the next one is looked for.
pub fn poll_accept<T, W>(
    registration: &Registration,
    reactor: &mut Reactor<W>,
    accepted: Option<Result<T>>,
    waker: Option<W>,
) -> (turn: Turn<Result<T>, W>)
    requires
        old(reactor).wf(),
        registration.fits(old(reactor)@),
    ensures
        final(reactor).wf(),
        registration.fits(final(reactor)@),
        turn.step == (match accepted {
            None => Step::Call,
            Some(Ok(connection)) => Step::Ready(Ok(connection)),
            Some(Err(error)) => if error.is_would_block() {
                Step::Pending
            } else if error.is_interrupted() || concerns_one_connection(error) {
                Step::Call
            } else {
                Step::Ready(Err(error))
            },
        }),
        turn.step == Step::<Result<T>>::Pending ==> {
            let parked = registration.wakers(old(reactor)@);
            &&& final(reactor)@ == old(reactor)@.with_wakers(
                registration.index(),
                (Wakers { reader: held_after(parked.reader, waker), ..parked }),
            )
            &&& turn.dropped == let_go(parked.reader, waker)
            &&& turn.unused is None
        },
        turn.step != Step::<Result<T>>::Pending ==> {
            &&& final(reactor)@ == old(reactor)@
            &&& turn.dropped is None
            &&& turn.unused == waker
        },
{
    match accepted {
        None => Turn { step: Step::Call, dropped: None, unused: waker },
        Some(Ok(connection)) => Turn {
            step: Step::Ready(Ok(connection)),
            dropped: None,
            unused: waker,
        },
        Some(Err(error)) => {
            if error.would_block() {
                let dropped = registration.poll_readable(reactor, waker);
                Turn { step: Step::Pending, dropped, unused: None }
            } else if error.interrupted() || transient_accept(error) {
                Turn { step: Step::Call, dropped: None, unused: waker }
            } else {
                Turn { step: Step::Ready(Err(error)), dropped: None, unused: waker }
            }
        },
    }
}

/// A write that filled the send buffer is not followed by one that is refused:
/// the next write waits for an edge, without asking the kernel.
pub proof fn law_a_full_buffer_is_not_asked_again<W>(
    stream: TcpStream,
    reactor: crate::reactor::driver::ReactorView<W>,
    asked: usize,
    taken: usize,
)
    requires
        !stream.registration().wakers(reactor).writable,
        filled_the_buffer(asked, taken, stream.capacity()),
    ensures
        ({
            let after = reactor.with_wakers(
                stream.registration().index(),
                stream.write_wakers(reactor, asked, Some(Ok(taken)), None),
            );
            stream.write_step(after, None) == Step::<Result<usize>>::Pending
        }),
{
}

/// A read that left the socket undrained is followed by another at once: the
/// next read asks the kernel again without waiting for an edge.
pub proof fn law_an_undrained_socket_is_read_again<W>(
    stream: TcpStream,
    reactor: crate::reactor::driver::ReactorView<W>,
    len: usize,
)
    ensures
        ({
            let after = reactor.with_wakers(
                stream.registration().index(),
                stream.read_wakers(reactor, len, Some(Ok(len)), None),
            );
            stream.read_step(after, len, None) == Step::<Result<usize>>::Call
        }),
{
}

/// A hung-up connection is read to its end: whatever a read consumed, the next
/// one asks the kernel again.
pub proof fn law_a_hungup_connection_is_read_to_its_end<W>(
    stream: TcpStream,
    reactor: crate::reactor::driver::ReactorView<W>,
    len: usize,
    received: Option<Result<usize>>,
)
    requires
        stream.registration().wakers(reactor).hangup,
    ensures
        ({
            let after = reactor.with_wakers(
                stream.registration().index(),
                stream.read_wakers(reactor, len, received, None),
            );
            stream.read_step(after, len, None) == Step::<Result<usize>>::Call
        }),
{
}

/// A read asks the kernel only where something may have arrived, and the
/// readiness it goes by is then its own; otherwise it waits with the waker that
/// it was offered. "Not yet", in either numbering, makes it wait too.
pub proof fn law_a_read_waits_until_something_arrives<W>(
    stream: TcpStream,
    reactor: crate::reactor::driver::ReactorView<W>,
    len: usize,
    code: i32,
    waker: W,
)
    requires
        code == 11 || code == 35,
    ensures
        ({
            let before = stream.registration().wakers(reactor);
            let told = Some(Err::<usize, Errno>(Errno(code)));
            let parked = Wakers { reader: Some(waker), ..before };
            &&& before.readable || before.hangup ==> {
                &&& stream.read_step(reactor, len, None) == Step::<Result<usize>>::Call
                &&& stream.read_wakers(reactor, len, None, Some(waker)) == (Wakers {
                    readable: false,
                    ..before
                })
            }
            &&& !before.readable && !before.hangup ==> {
                &&& stream.read_step(reactor, len, None) == Step::<Result<usize>>::Pending
                &&& stream.read_wakers(reactor, len, None, Some(waker)) == parked
            }
            &&& stream.read_step(reactor, len, told) == Step::<Result<usize>>::Pending
            &&& stream.read_wakers(reactor, len, told, Some(waker)) == parked
        }),
{
}

/// A read ends with what the kernel gave it: the number of bytes, or a real
/// error; an interruption is tried again. Only a read that filled its buffer
/// leaves the socket worth reading by itself.
pub proof fn law_a_read_ends_with_what_the_kernel_gave<W>(
    stream: TcpStream,
    reactor: crate::reactor::driver::ReactorView<W>,
    len: usize,
    count: usize,
    code: i32,
    waker: Option<W>,
)
    requires
        code != 11 && code != 35,
    ensures
        ({
            let before = stream.registration().wakers(reactor);
            let bytes = Some(Ok::<usize, Errno>(count));
            let error = Some(Err::<usize, Errno>(Errno(code)));
            &&& stream.read_step(reactor, len, bytes) == Step::Ready(Ok::<usize, Errno>(count))
            &&& stream.read_wakers(reactor, len, bytes, waker) == (Wakers {
                readable: before.readable || count == len,
                ..before
            })
            &&& stream.read_step(reactor, len, error) == (if code == 4 {
                Step::Call
            } else {
                Step::Ready(Err::<usize, Errno>(Errno(code)))
            })
            &&& stream.read_wakers(reactor, len, error, waker) == before
        }),
{
}

/// A write asks the kernel only where there may be room, and the readiness it
/// goes by is then its own; otherwise it waits with the waker that it was
/// offered. "Not yet", in either numbering, makes it wait too.
pub proof fn law_a_write_waits_until_there_is_room<W>(
    stream: TcpStream,
    reactor: crate::reactor::driver::ReactorView<W>,
    asked: usize,
    code: i32,
    waker: W,
)
    requires
        code == 11 || code == 35,
    ensures
        ({
            let before = stream.registration().wakers(reactor);
            let told = Some(Err::<usize, Errno>(Errno(code)));
            let parked = Wakers { writer: Some(waker), ..before };
            &&& before.writable ==> {
                &&& stream.write_step(reactor, None) == Step::<Result<usize>>::Call
                &&& stream.write_wakers(reactor, asked, None, Some(waker)) == (Wakers {
                    writable: false,
                    ..before
                })
            }
            &&& !before.writable ==> {
                &&& stream.write_step(reactor, None) == Step::<Result<usize>>::Pending
                &&& stream.write_wakers(reactor, asked, None, Some(waker)) == parked
            }
            &&& stream.write_step(reactor, told) == Step::<Result<usize>>::Pending
            &&& stream.write_wakers(reactor, asked, told, Some(waker)) == parked
        }),
{
}

/// A write ends with what the kernel gave it: the number of bytes it took, or a
/// real error; an interruption is tried again. The socket counts as having room
/// afterwards unless the write showed that it has none: the kernel took less than
/// it was given, or no less than its buffer holds.
pub proof fn law_a_write_ends_with_what_the_kernel_gave<W>(
    stream: TcpStream,
    reactor: crate::reactor::driver::ReactorView<W>,
    asked: usize,
    taken: usize,
    code: i32,
    waker: Option<W>,
)
    requires
        code != 11 && code != 35,
    ensures
        ({
            let before = stream.registration().wakers(reactor);
            let bytes = Some(Ok::<usize, Errno>(taken));
            let error = Some(Err::<usize, Errno>(Errno(code)));
            let full = taken < asked || (stream.capacity() is Some && taken
                >= stream.capacity()->0);
            &&& stream.write_step(reactor, bytes) == Step::Ready(Ok::<usize, Errno>(taken))
            &&& stream.write_wakers(reactor, asked, bytes, waker) == (Wakers {
                writable: before.writable || !full,
                ..before
            })
            &&& stream.write_step(reactor, error) == (if code == 4 {
                Step::Call
            } else {
                Step::Ready(Err::<usize, Errno>(Errno(code)))
            })
            &&& stream.write_wakers(reactor, asked, error, waker) == (if code == 4 {
                before
            } else {
                Wakers { writable: true, ..before }
            })
        }),
{
}

} // verus!
