use nagoya::io::{
    Error, ErrorKind, Progress, ReadExact, ReadToEnd, SeekFrom, StreamError, StreamReadExact,
    WriteAll, CHUNK,
};

/// Fill `buffer` from repeated reads.
fn read_exact(
    buffer: &mut [u8],
    mut read: impl FnMut(&mut [u8]) -> Result<usize, Error>,
) -> Result<(), Error> {
    let mut transfer = ReadExact::new(buffer.len());
    while let Some(at) = transfer.wants() {
        match transfer.step(read(&mut buffer[at..])) {
            Progress::More => {}
            Progress::Done(()) => return Ok(()),
            Progress::Failed(error) => return Err(error),
        }
    }
    Ok(())
}

/// Write all of `buffer` by repeated writes.
fn write_all(
    buffer: &[u8],
    mut write: impl FnMut(&[u8]) -> Result<usize, Error>,
) -> Result<(), Error> {
    let mut transfer = WriteAll::new(buffer.len());
    while let Some(at) = transfer.wants() {
        match transfer.step(write(&buffer[at..])) {
            Progress::More => {}
            Progress::Done(()) => return Ok(()),
            Progress::Failed(error) => return Err(error),
        }
    }
    Ok(())
}

/// Append everything that repeated reads give.
fn read_to_end(
    buffer: &mut Vec<u8>,
    mut read: impl FnMut(&mut [u8]) -> Result<usize, Error>,
) -> Result<usize, Error> {
    let mut transfer = ReadToEnd::new(buffer);
    loop {
        let at = transfer.make_room(buffer);
        let piece = read(&mut buffer[at..]);
        match transfer.step(buffer, piece) {
            Progress::More => {}
            Progress::Done(count) => return Ok(count),
            Progress::Failed(error) => return Err(error),
        }
    }
}

struct InterruptedReader {
    bytes: &'static [u8],
    cursor: usize,
    interrupt: bool,
}

impl InterruptedReader {
    fn read(&mut self, buffer: &mut [u8]) -> Result<usize, Error> {
        if self.interrupt {
            self.interrupt = false;
            return Err(Error::new(ErrorKind::Interrupted));
        }
        let n = buffer.len().min(2).min(self.bytes.len() - self.cursor);
        buffer[..n].copy_from_slice(&self.bytes[self.cursor..self.cursor + n]);
        self.cursor += n;
        self.interrupt = true;
        Ok(n)
    }
}

#[derive(Default)]
struct InterruptedWriter {
    bytes: Vec<u8>,
    interrupt: bool,
}

impl InterruptedWriter {
    fn write(&mut self, buffer: &[u8]) -> Result<usize, Error> {
        if self.interrupt {
            self.interrupt = false;
            return Err(Error::new(ErrorKind::Interrupted));
        }
        let n = buffer.len().min(2);
        self.bytes.extend_from_slice(&buffer[..n]);
        self.interrupt = true;
        Ok(n)
    }
}

#[test]
fn read_exact_keeps_progress_across_interruptions() {
    let mut reader = InterruptedReader {
        bytes: b"abcdef",
        cursor: 0,
        interrupt: true,
    };
    let mut bytes = [0; 6];
    read_exact(&mut bytes, |buffer| reader.read(buffer)).unwrap();
    assert_eq!(&bytes, b"abcdef");
    assert_eq!(reader.cursor, 6);
}

#[test]
fn read_to_end_keeps_the_prefix_and_drops_scratch_space_on_interruption() {
    let mut reader = InterruptedReader {
        bytes: b"abcdef",
        cursor: 0,
        interrupt: true,
    };
    let mut bytes = b"prefix:".to_vec();
    assert_eq!(read_to_end(&mut bytes, |buffer| reader.read(buffer)).unwrap(), 6);
    assert_eq!(&bytes, b"prefix:abcdef");
}

#[test]
fn write_all_neither_repeats_nor_skips_bytes_after_interruption() {
    let mut writer = InterruptedWriter {
        interrupt: true,
        ..Default::default()
    };
    write_all(b"abcdef", |buffer| writer.write(buffer)).unwrap();
    assert_eq!(&writer.bytes, b"abcdef");
}

#[test]
fn real_eof_is_still_an_error_for_read_exact() {
    let mut reader = InterruptedReader {
        bytes: b"ab",
        cursor: 0,
        interrupt: false,
    };
    let mut bytes = [0; 3];
    assert_eq!(
        read_exact(&mut bytes, |buffer| reader.read(buffer)).unwrap_err().kind(),
        ErrorKind::UnexpectedEof,
    );
    assert_eq!(&bytes[..2], b"ab");
}

#[test]
fn would_block_is_recognised_from_either_numbering() {
    // POSIX allows EAGAIN and EWOULDBLOCK to differ and does not say which a
    // call returns, so both are accepted.
    assert!(StreamError(11).would_block());
    assert!(StreamError(35).would_block());
    assert!(StreamError(StreamError::WOULD_BLOCK).would_block());
    assert!(!StreamError(5).would_block());
    assert!(StreamError(StreamError::INTERRUPTED).interrupted());
    assert!(!StreamError(StreamError::WOULD_BLOCK).interrupted());
}

/// A stream over two buffers.
struct Pair<'a> {
    incoming: &'a [u8],
    outgoing: Vec<u8>,
}

impl Pair<'_> {
    fn read(&mut self, buffer: &mut [u8]) -> Result<usize, StreamError> {
        let take = self.incoming.len().min(buffer.len());
        buffer[..take].copy_from_slice(&self.incoming[..take]);
        self.incoming = &self.incoming[take..];
        Ok(take)
    }
}

#[test]
fn a_stream_needs_no_platform() {
    let mut pair = Pair {
        incoming: b"hello",
        outgoing: Vec::new(),
    };
    let mut buffer = [0u8; 5];
    let mut transfer = StreamReadExact::new(buffer.len());
    let at = transfer.wants().expect("five bytes are wanted");
    let read = pair.read(&mut buffer[at..]).expect("read");
    assert_eq!(transfer.step(Ok(read)), Progress::Done(()));
    assert_eq!(transfer.wants(), None);
    pair.outgoing.extend_from_slice(&buffer[..read]);
    assert_eq!(read, 5);
    assert_eq!(pair.outgoing, b"hello");

    // The end of a stream is zero rather than an error.
    let mut rest = [0u8; 4];
    assert_eq!(pair.read(&mut rest).expect("read"), 0);
}

struct Ram {
    bytes: [u8; 256],
    length: u64,
    at: u64,
}

impl Ram {
    fn read(&mut self, buffer: &mut [u8]) -> Result<usize, Error> {
        let start = self.at as usize;
        let end = (start + buffer.len()).min(self.length as usize);
        let taken = end.saturating_sub(start);
        buffer[..taken].copy_from_slice(&self.bytes[start..end]);
        self.at += taken as u64;
        Ok(taken)
    }

    fn write(&mut self, buffer: &[u8]) -> Result<usize, Error> {
        let start = self.at as usize;
        if start >= self.bytes.len() {
            return Err(Error::new(ErrorKind::WriteZero));
        }
        let end = (start + buffer.len()).min(self.bytes.len());
        let taken = end - start;
        self.bytes[start..end].copy_from_slice(&buffer[..taken]);
        self.at += taken as u64;
        self.length = self.length.max(self.at);
        Ok(taken)
    }

    fn seek(&mut self, from: SeekFrom) -> u64 {
        self.at = match from {
            SeekFrom::Start(n) => n,
            SeekFrom::End(n) => self.length.saturating_add_signed(n),
            SeekFrom::Current(n) => self.at.saturating_add_signed(n),
        };
        self.at
    }
}

#[test]
fn a_consumer_with_no_filesystem_can_implement_the_whole_trait() {
    let mut device = Ram {
        bytes: [0; 256],
        length: 0,
        at: 0,
    };
    write_all(b"disk", |buffer| device.write(buffer)).unwrap();
    device.seek(SeekFrom::Start(0));
    let mut back = [0u8; 4];
    read_exact(&mut back, |buffer| device.read(buffer)).unwrap();
    assert_eq!(device.seek(SeekFrom::Current(0)), 4);
    assert_eq!(device.length, 4);
    assert_eq!(&back, b"disk");
}

#[test]
fn a_write_that_accepts_nothing_is_an_error() {
    let refused = write_all(b"abc", |_| Ok(0));
    assert_eq!(refused.unwrap_err().kind(), ErrorKind::WriteZero);
    let failed = write_all(b"abc", |_| Err(Error::new(ErrorKind::PermissionDenied)));
    assert_eq!(failed.unwrap_err().kind(), ErrorKind::PermissionDenied);
}

#[test]
fn nothing_is_asked_for_when_nothing_is_wanted() {
    assert_eq!(ReadExact::new(0).wants(), None);
    assert_eq!(WriteAll::new(0).wants(), None);
    assert_eq!(StreamReadExact::new(0).wants(), None);
    let mut transfer = ReadExact::new(6);
    assert_eq!(transfer.wants(), Some(0));
    assert_eq!(transfer.step(Ok(4)), Progress::More);
    assert_eq!(transfer.wants(), Some(4));
    assert_eq!(transfer.step(Err(Error::new(ErrorKind::Interrupted))), Progress::More);
    assert_eq!(transfer.wants(), Some(4));
}

#[test]
fn a_stream_that_ends_early_says_so() {
    let mut transfer = StreamReadExact::new(8);
    assert_eq!(transfer.step(Ok(2)), Progress::More);
    assert_eq!(
        transfer.step(Ok(0)),
        Progress::Failed(StreamError(StreamError::UNEXPECTED_EOF))
    );
    assert!(!StreamError(StreamError::UNEXPECTED_EOF).would_block());
    assert!(!StreamError(StreamError::UNEXPECTED_EOF).interrupted());
}

#[test]
fn room_is_made_by_the_chunk_and_given_back() {
    let mut buffer = b"ab".to_vec();
    let mut transfer = ReadToEnd::new(&buffer);
    assert_eq!(transfer.make_room(&mut buffer), 2);
    assert_eq!(buffer.len(), 2 + CHUNK);
    assert_eq!(CHUNK, 8192);
    buffer[2] = b'c';
    assert_eq!(transfer.step(&mut buffer, Ok(1)), Progress::More);
    assert_eq!(transfer.make_room(&mut buffer), 3);
    assert_eq!(
        transfer.step(&mut buffer, Err(Error::new(ErrorKind::Other))),
        Progress::Failed(Error::new(ErrorKind::Other))
    );
    assert_eq!(buffer, b"abc");
}

#[test]
fn errors_say_what_went_wrong() {
    assert_eq!(Error::new(ErrorKind::NotFound).message(), "no such file");
    assert_eq!(Error::new(ErrorKind::PermissionDenied).message(), "permission denied");
    assert_eq!(Error::new(ErrorKind::UnexpectedEof).message(), "unexpected end of file");
    assert_eq!(Error::new(ErrorKind::WriteZero).message(), "the destination accepted no bytes");
    assert_eq!(Error::new(ErrorKind::Interrupted).message(), "interrupted");
    assert_eq!(Error::new(ErrorKind::Other).message(), "file operation failed");
    assert_eq!(StreamError(32).message(), "errno 32");
    assert_eq!(StreamError(-1).message(), "errno -1");
    assert_eq!(StreamError(0).message(), "errno 0");
    assert_eq!(StreamError(i32::MIN).message(), "errno -2147483648");
}
