//! Reading and writing bytes: what can go wrong, and how a transfer that
//! arrives in pieces is carried to its end.
//!
//! A source or a sink is asked for one piece at a time by whoever drives the
//! transfer. What to ask for next, and when to stop, is decided here.
use vstd::prelude::*;
use vstd::string::StringExecFns;

use crate::text::{decimal_chars, push_signed};

verus! {

/// Where a seek counts from.
#[derive(Debug, Clone, Copy, PartialEq, Eq, Structural)]
pub enum SeekFrom {
    /// Bytes from the beginning.
    Start(u64),
    /// Bytes from the end, where negative moves backwards into the file.
    End(i64),
    /// Bytes from the current position, where negative moves backwards.
    Current(i64),
}

/// The failures a file operation can report.
///
/// Coarse on purpose. A caller either retries, gives up, or creates what was
/// missing, and a longer list would not change which of those it picks.
#[derive(Debug, Clone, Copy, PartialEq, Eq, Structural)]
#[non_exhaustive]
pub enum ErrorKind {
    /// The path names nothing.
    NotFound,
    /// The path names something that cannot be opened this way.
    PermissionDenied,
    /// The read wanted more bytes than the file had left.
    UnexpectedEof,
    /// The destination accepted no bytes and reported no error.
    WriteZero,
    /// The operation was cut short and can be retried as-is.
    Interrupted,
    /// Anything else the platform reported.
    Other,
}

/// What went wrong.
#[derive(Debug, Clone, Copy, PartialEq, Eq, Structural)]
pub struct Error {
    kind: ErrorKind,
}

impl View for Error {
    type V = ErrorKind;

    /// What kind of failure this was.
    closed spec fn view(&self) -> ErrorKind {
        self.kind
    }
}

impl Error {
    /// An error of this kind.
    pub fn new(kind: ErrorKind) -> (error: Self)
        ensures
            error@ == kind,
    {
        Error { kind }
    }

    /// What kind of failure this was.
    pub fn kind(&self) -> (kind: ErrorKind)
        ensures
            kind == self@,
    {
        self.kind
    }

    /// What went wrong, in words.
    pub fn message(&self) -> (text: &'static str)
        ensures
            text@ == (match self@ {
                ErrorKind::NotFound => "no such file"@,
                ErrorKind::PermissionDenied => "permission denied"@,
                ErrorKind::UnexpectedEof => "unexpected end of file"@,
                ErrorKind::WriteZero => "the destination accepted no bytes"@,
                ErrorKind::Interrupted => "interrupted"@,
                ErrorKind::Other => "file operation failed"@,
            }),
    {
        match self.kind {
            ErrorKind::NotFound => "no such file",
            ErrorKind::PermissionDenied => "permission denied",
            ErrorKind::UnexpectedEof => "unexpected end of file",
            ErrorKind::WriteZero => "the destination accepted no bytes",
            ErrorKind::Interrupted => "interrupted",
            ErrorKind::Other => "file operation failed",
        }
    }
}

/// What went wrong on a stream: the platform's own code rather than a mapped
/// enum. A socket consumer asks questions about specific numbers that a coarse
/// set cannot answer, and the two it always asks have methods here.
#[derive(Debug, Clone, Copy, PartialEq, Eq, Structural)]
pub struct StreamError(pub i32);

impl StreamError {
    /// `EAGAIN` on this target.
    pub const WOULD_BLOCK: i32 = 11;

    /// `EINTR`, which is 4 on every target this supports.
    pub const INTERRUPTED: i32 = 4;

    /// The stream ended before it had given all that was asked of it. No
    /// kernel reports this, so it is none of a kernel's numbers.
    pub const UNEXPECTED_EOF: i32 = -1;

    /// Whether this means "nothing to do yet" rather than a failure.
    ///
    /// The one question a reactor asks of every read and every write. Both
    /// numberings are checked rather than only this platform's: POSIX allows
    /// `EAGAIN` and `EWOULDBLOCK` to differ and does not say which a given
    /// call returns.
    pub fn would_block(self) -> (blocked: bool)
        ensures
            blocked == self.is_would_block(),
            blocked == (self.0 == 11 || self.0 == 35),
    {
        self.0 == 11 || self.0 == 35
    }

    /// Whether a signal cut the call short and it can be retried as-is.
    pub fn interrupted(self) -> (interrupted: bool)
        ensures
            interrupted == self.is_interrupted(),
            interrupted == (self.0 == 4),
    {
        self.0 == Self::INTERRUPTED
    }

    /// The code, in words.
    pub fn message(self) -> (text: String)
        ensures
            text@ == "errno "@ + decimal_chars(self.0 as int),
    {
        let mut text: String = String::from_str("errno ");
        push_signed(&mut text, self.0);
        text
    }

    /// The code means "nothing to do yet", in one numbering or the other.
    pub open spec fn is_would_block(self) -> bool {
        self.0 == 11 || self.0 == 35
    }

    /// The code means that a signal cut the call short.
    pub open spec fn is_interrupted(self) -> bool {
        self.0 == Self::INTERRUPTED
    }
}

/// Where a transfer stands after one piece of it.
#[derive(Debug, PartialEq, Eq)]
pub enum Progress<T, E> {
    /// Ask for the next piece.
    More,
    /// All of it went through.
    Done(T),
    /// It cannot be completed.
    Failed(E),
}

/// Filling a buffer completely, or failing.
///
/// A short read is not an end condition here: a fixed number of bytes was
/// asked for, so running out is [`ErrorKind::UnexpectedEof`].
pub struct ReadExact {
    filled: usize,
    len: usize,
}

/// Writing all of a buffer, or failing.
pub struct WriteAll {
    written: usize,
    len: usize,
}

/// A transfer of `len` items of which `done` went through.
pub struct TransferView {
    pub done: nat,
    pub len: nat,
}

impl TransferView {
    /// The transfer after a piece of it.
    pub open spec fn after(self, piece: Result<usize, Error>) -> Self {
        match piece {
            Ok(n) => TransferView { done: self.done + n as nat, ..self },
            Err(_) => self,
        }
    }

    /// What a piece comes to. A call that was interrupted is made again, and
    /// `empty` is what a piece of nothing means.
    pub open spec fn progress(self, piece: Result<usize, Error>, empty: ErrorKind) -> Progress<
        (),
        ErrorKind,
    > {
        match piece {
            Ok(n) => if n == 0 {
                Progress::Failed(empty)
            } else if self.done + n >= self.len {
                Progress::Done(())
            } else {
                Progress::More
            },
            Err(error) => if error@ is Interrupted {
                Progress::More
            } else {
                Progress::Failed(error@)
            },
        }
    }
}

/// The same standing with errors seen as their kinds.
pub open spec fn kinds<T>(progress: Progress<T, Error>) -> Progress<T, ErrorKind> {
    match progress {
        Progress::More => Progress::More,
        Progress::Done(value) => Progress::Done(value),
        Progress::Failed(error) => Progress::Failed(error@),
    }
}

impl View for ReadExact {
    type V = TransferView;

    closed spec fn view(&self) -> TransferView {
        TransferView { done: self.filled as nat, len: self.len as nat }
    }
}

impl View for WriteAll {
    type V = TransferView;

    closed spec fn view(&self) -> TransferView {
        TransferView { done: self.written as nat, len: self.len as nat }
    }
}

impl ReadExact {
    /// Fill `len` bytes.
    pub fn new(len: usize) -> (transfer: Self)
        ensures
            transfer@ == (TransferView { done: 0, len: len as nat }),
    {
        ReadExact { filled: 0, len }
    }

    /// Where the next piece goes; `None` once the buffer is full.
    pub fn wants(&self) -> (start: Option<usize>)
        ensures
            start == (if self@.done < self@.len {
                Some(self@.done as usize)
            } else {
                None
            }),
    {
        if self.filled < self.len {
            Some(self.filled)
        } else {
            None
        }
    }

    /// Take note of what one read returned.
    pub fn step(&mut self, piece: Result<usize, Error>) -> (progress: Progress<(), Error>)
        requires
            old(self)@.done < old(self)@.len,
            piece is Ok ==> old(self)@.done + piece->Ok_0 <= usize::MAX,
        ensures
            final(self)@ == old(self)@.after(piece),
            kinds(progress) == old(self)@.progress(piece, ErrorKind::UnexpectedEof),
            piece is Ok ==> final(self)@.done == old(self)@.done + piece->Ok_0,
            piece is Err ==> final(self)@.done == old(self)@.done,
            final(self)@.len == old(self)@.len,
            progress is Done <==> final(self)@.done >= final(self)@.len,
            piece == Ok::<usize, Error>(0) ==> progress is Failed && progress->Failed_0@ is UnexpectedEof,
            piece is Err && !(piece->Err_0@ is Interrupted) ==> progress is Failed
                && progress->Failed_0@ == piece->Err_0@,
            piece is Err && piece->Err_0@ is Interrupted ==> progress is More,
    {
        match piece {
            Ok(n) => {
                if n == 0 {
                    return Progress::Failed(Error::new(ErrorKind::UnexpectedEof));
                }
                self.filled = self.filled + n;
                if self.filled < self.len {
                    Progress::More
                } else {
                    Progress::Done(())
                }
            },
            Err(error) => {
                if error.kind() == ErrorKind::Interrupted {
                    Progress::More
                } else {
                    Progress::Failed(error)
                }
            },
        }
    }
}

impl WriteAll {
    /// Write `len` bytes.
    pub fn new(len: usize) -> (transfer: Self)
        ensures
            transfer@ == (TransferView { done: 0, len: len as nat }),
    {
        WriteAll { written: 0, len }
    }

    /// Where the next piece starts; `None` once everything is written.
    pub fn wants(&self) -> (start: Option<usize>)
        ensures
            start == (if self@.done < self@.len {
                Some(self@.done as usize)
            } else {
                None
            }),
    {
        if self.written < self.len {
            Some(self.written)
        } else {
            None
        }
    }

    /// Take note of what one write returned. A destination that takes nothing
    /// and reports no error will not accept more, and asking again would never
    /// end.
    pub fn step(&mut self, piece: Result<usize, Error>) -> (progress: Progress<(), Error>)
        requires
            old(self)@.done < old(self)@.len,
            piece is Ok ==> old(self)@.done + piece->Ok_0 <= usize::MAX,
        ensures
            final(self)@ == old(self)@.after(piece),
            kinds(progress) == old(self)@.progress(piece, ErrorKind::WriteZero),
            piece is Ok ==> final(self)@.done == old(self)@.done + piece->Ok_0,
            piece is Err ==> final(self)@.done == old(self)@.done,
            final(self)@.len == old(self)@.len,
            progress is Done <==> final(self)@.done >= final(self)@.len,
            piece == Ok::<usize, Error>(0) ==> progress is Failed && progress->Failed_0@ is WriteZero,
            piece is Err && !(piece->Err_0@ is Interrupted) ==> progress is Failed
                && progress->Failed_0@ == piece->Err_0@,
            piece is Err && piece->Err_0@ is Interrupted ==> progress is More,
    {
        match piece {
            Ok(n) => {
                if n == 0 {
                    return Progress::Failed(Error::new(ErrorKind::WriteZero));
                }
                self.written = self.written + n;
                if self.written < self.len {
                    Progress::More
                } else {
                    Progress::Done(())
                }
            },
            Err(error) => {
                if error.kind() == ErrorKind::Interrupted {
                    Progress::More
                } else {
                    Progress::Failed(error)
                }
            },
        }
    }
}

/// Filling a buffer completely from a stream, or failing.
///
/// A stream that ends before the buffer is full is
/// [`StreamError::UNEXPECTED_EOF`] rather than a short count.
pub struct StreamReadExact {
    filled: usize,
    len: usize,
}

impl View for StreamReadExact {
    type V = TransferView;

    closed spec fn view(&self) -> TransferView {
        TransferView { done: self.filled as nat, len: self.len as nat }
    }
}

impl StreamReadExact {
    /// Fill `len` bytes.
    pub fn new(len: usize) -> (transfer: Self)
        ensures
            transfer@ == (TransferView { done: 0, len: len as nat }),
    {
        StreamReadExact { filled: 0, len }
    }

    /// Where the next piece goes; `None` once the buffer is full.
    pub fn wants(&self) -> (start: Option<usize>)
        ensures
            start == (if self@.done < self@.len {
                Some(self@.done as usize)
            } else {
                None
            }),
    {
        if self.filled < self.len {
            Some(self.filled)
        } else {
            None
        }
    }

    /// Take note of what one read returned.
    pub fn step(&mut self, piece: Result<usize, StreamError>) -> (progress: Progress<
        (),
        StreamError,
    >)
        requires
            old(self)@.done < old(self)@.len,
            piece is Ok ==> old(self)@.done + piece->Ok_0 <= usize::MAX,
        ensures
            final(self)@ == (match piece {
                Ok(n) => TransferView { done: old(self)@.done + n as nat, ..old(self)@ },
                Err(_) => old(self)@,
            }),
            progress == (match piece {
                Ok(n) => if n == 0 {
                    Progress::Failed(StreamError(StreamError::UNEXPECTED_EOF))
                } else if old(self)@.done + n >= old(self)@.len {
                    Progress::Done(())
                } else {
                    Progress::More
                },
                Err(error) => Progress::Failed(error),
            }),
    {
        match piece {
            Ok(n) => {
                if n == 0 {
                    return Progress::Failed(StreamError(StreamError::UNEXPECTED_EOF));
                }
                self.filled = self.filled + n;
                if self.filled < self.len {
                    Progress::More
                } else {
                    Progress::Done(())
                }
            },
            Err(error) => Progress::Failed(error),
        }
    }
}

/// How much a read to the end asks for at a time: big enough that a whole page
/// arrives in one or two reads, small enough not to over-allocate for a short
/// file.
pub const CHUNK: usize = 8192;

/// Appending everything a source has left.
///
/// Only what was actually read is kept, so a source that ends early does not
/// leave a tail of zeros that cannot be told from data.
pub struct ReadToEnd {
    start: usize,
    filled: usize,
}

impl ReadToEnd {
    /// How many bytes the buffer held before the first read.
    pub closed spec fn start(self) -> nat {
        self.start as nat
    }

    /// How many of its bytes are data.
    pub closed spec fn filled(self) -> nat {
        self.filled as nat
    }

    /// The transfer belongs to a buffer of this length, between two reads.
    pub open spec fn settled(self, len: nat) -> bool {
        self.start() <= self.filled() && self.filled() == len
    }

    /// The buffer has room for a read: its data, and a chunk after it.
    pub open spec fn roomy(self, len: nat) -> bool {
        self.start() <= self.filled() && len == self.filled() + CHUNK
    }

    /// Append to this buffer.
    pub fn new(buffer: &Vec<u8>) -> (transfer: Self)
        ensures
            transfer.start() == buffer@.len(),
            transfer.settled(buffer@.len()),
    {
        ReadToEnd { start: buffer.len(), filled: buffer.len() }
    }

    /// Make room for the next read, which goes where the data ends.
    pub fn make_room(&self, buffer: &mut Vec<u8>) -> (at: usize)
        requires
            self.settled(old(buffer)@.len()),
            old(buffer)@.len() + CHUNK <= usize::MAX,
        ensures
            at == self.filled(),
            self.roomy(final(buffer)@.len()),
            final(buffer)@.take(at as int) == old(buffer)@,
            forall|i: int| at <= i < final(buffer)@.len() ==> final(buffer)@[i] == 0u8,
    {
        let filled: usize = self.filled;
        buffer.resize(filled + CHUNK, 0u8);
        assert(buffer@.take(filled as int) =~= old(buffer)@);
        filled
    }

    /// Take note of what one read returned: keep what it filled and drop the
    /// rest of the room. The end of the source is `Ok(0)`.
    pub fn step(&mut self, buffer: &mut Vec<u8>, piece: Result<usize, Error>) -> (progress: Progress<
        usize,
        Error,
    >)
        requires
            old(self).roomy(old(buffer)@.len()),
            piece is Ok ==> old(self).filled() + piece->Ok_0 <= usize::MAX,
        ensures
            final(self).start() == old(self).start(),
            final(self).settled(final(buffer)@.len()),
            final(self).filled() == final(buffer)@.len(),
            piece is Ok && piece->Ok_0 <= CHUNK ==> final(buffer)@.len() == old(self).filled()
                + piece->Ok_0,
            piece is Err ==> final(buffer)@.len() == old(self).filled(),
            progress is Done <==> piece == Ok::<usize, Error>(0),
            progress is Done ==> progress->Done_0 == final(buffer)@.len() - final(self).start(),
            progress is Failed <==> piece is Err && !(piece->Err_0@ is Interrupted),
            progress is Failed ==> progress->Failed_0@ == piece->Err_0@,
            final(buffer)@ == old(buffer)@.take(
                old(self).filled() + (match piece {
                    Ok(n) => if n < CHUNK { n as int } else { CHUNK as int },
                    Err(_) => 0,
                }),
            ),
            kinds(progress) == (match piece {
                Ok(n) => if n == 0 {
                    Progress::Done((old(self).filled() - old(self).start()) as usize)
                } else {
                    Progress::More
                },
                Err(error) => if error@ is Interrupted {
                    Progress::More
                } else {
                    Progress::Failed(error@)
                },
            }),
    {
        let filled: usize = self.filled;
        match piece {
            Ok(n) => {
                buffer.truncate(filled + n);
                self.filled = buffer.len();
                if n == 0 {
                    Progress::Done(filled - self.start)
                } else {
                    Progress::More
                }
            },
            Err(error) => {
                buffer.truncate(filled);
                if error.kind() == ErrorKind::Interrupted {
                    Progress::More
                } else {
                    Progress::Failed(error)
                }
            },
        }
    }
}

/// The transfer after all of these pieces.
pub open spec fn after_all(start: TransferView, pieces: Seq<Result<usize, Error>>) -> TransferView
    decreases pieces.len(),
{
    if pieces.len() == 0 {
        start
    } else {
        after_all(start, pieces.drop_last()).after(pieces.last())
    }
}

/// The bytes that went through, piece after piece, when each piece is asked
/// for where the last one ended.
pub open spec fn moved(data: Seq<u8>, start: TransferView, pieces: Seq<Result<usize, Error>>) -> Seq<
    u8,
>
    decreases pieces.len(),
{
    if pieces.len() == 0 {
        Seq::empty()
    } else {
        let before = after_all(start, pieces.drop_last());
        let rest = moved(data, start, pieces.drop_last());
        match pieces.last() {
            Ok(n) => rest + data.subrange(before.done as int, before.done + n),
            Err(_) => rest,
        }
    }
}

/// However a transfer is cut into pieces and interrupted, no byte is repeated
/// and none is skipped: what went through is the beginning of the data, as
/// long as the counts add up to.
pub proof fn law_pieces_neither_repeat_nor_skip(
    data: Seq<u8>,
    start: TransferView,
    pieces: Seq<Result<usize, Error>>,
)
    requires
        start.done == 0,
        after_all(start, pieces).done <= data.len(),
    ensures
        moved(data, start, pieces) == data.take(after_all(start, pieces).done as int),
    decreases pieces.len(),
{
    if pieces.len() == 0 {
        assert(data.take(0) =~= Seq::<u8>::empty());
    } else {
        let fewer = pieces.drop_last();
        law_pieces_neither_repeat_nor_skip(data, start, fewer);
        let before = after_all(start, fewer).done as int;
        match pieces.last() {
            Ok(n) => {
                assert(data.take(before) + data.subrange(before, before + n) =~= data.take(
                    before + n,
                ));
            },
            Err(_) => {},
        }
    }
}

/// An interruption changes nothing but that the call is made again.
pub proof fn law_an_interruption_changes_nothing(
    transfer: TransferView,
    error: Error,
    empty: ErrorKind,
)
    requires
        error@ is Interrupted,
    ensures
        transfer.after(Err(error)) == transfer,
        transfer.progress(Err(error), empty) is More,
{
}

/// A transfer is done exactly when everything went through, and a source that
/// ends or a sink that takes no more before that is an error.
pub proof fn law_a_transfer_is_all_or_an_error(
    transfer: TransferView,
    piece: Result<usize, Error>,
    empty: ErrorKind,
)
    requires
        transfer.done < transfer.len,
    ensures
        transfer.progress(piece, empty) is Done <==> transfer.after(piece).done >= transfer.len,
        piece == Ok::<usize, Error>(0) ==> transfer.progress(piece, empty) == Progress::<
            (),
            ErrorKind,
        >::Failed(empty),
{
}

/// What the two codes that a stream always asks about are: "not yet" in either
/// numbering, and an interruption. No code is both.
pub proof fn law_the_codes_that_are_no_failure(error: StreamError)
    ensures
        error.is_would_block() <==> error.0 == 11 || error.0 == 35,
        error.is_interrupted() <==> error.0 == 4,
        !(error.is_would_block() && error.is_interrupted()),
{
}

/// A transfer moves on by exactly what went through, and stands still where a
/// call failed; it never gets longer or shorter.
pub proof fn law_a_transfer_moves_by_what_went_through(
    transfer: TransferView,
    count: usize,
    error: Error,
    empty: ErrorKind,
)
    ensures
        transfer.after(Ok(count)).done == transfer.done + count,
        transfer.after(Ok(count)).len == transfer.len,
        transfer.after(Err(error)) == transfer,
        count > 0 && transfer.done + count < transfer.len ==> transfer.progress(
            Ok(count),
            empty,
        ) == Progress::<(), ErrorKind>::More,
        count > 0 && transfer.done + count >= transfer.len ==> transfer.progress(
            Ok(count),
            empty,
        ) == Progress::<(), ErrorKind>::Done(()),
        transfer.progress(Ok(0), empty) == Progress::<(), ErrorKind>::Failed(empty),
        !(error@ is Interrupted) ==> transfer.progress(Err(error), empty) == Progress::<
            (),
            ErrorKind,
        >::Failed(error@),
{
}

/// Pieces add up: a transfer after some pieces and then more is where it is after
/// all of them, and what went through is the two one after the other.
pub proof fn law_pieces_add_up(
    data: Seq<u8>,
    start: TransferView,
    first: Seq<Result<usize, Error>>,
    second: Seq<Result<usize, Error>>,
)
    ensures
        after_all(start, first + second) == after_all(after_all(start, first), second),
        moved(data, start, first + second) == moved(data, start, first) + moved(
            data,
            after_all(start, first),
            second,
        ),
    decreases second.len(),
{
    if second.len() == 0 {
        assert(first + second =~= first);
        assert(moved(data, start, first) + Seq::<u8>::empty() =~= moved(data, start, first));
    } else {
        law_pieces_add_up(data, start, first, second.drop_last());
        assert((first + second).drop_last() =~= first + second.drop_last());
        assert((first + second).last() == second.last());
        assert(moved(data, start, first + second) =~= moved(data, start, first) + moved(
            data,
            after_all(start, first),
            second,
        ));
    }
}

} // verus!
