//! Socket addresses as the kernel lays them out, and what is decided around
//! the calls that use them.
use vstd::prelude::*;

use crate::reactor::error::{Errno, Result};
use crate::reactor::platform::{
    af_inet, af_inet6, af_unix, eafnosupport, einprogress, einval, enametoolong,
};

verus! {

/// Turn a negative return into the error that came with it, the way every one
/// of these calls reports failure.
pub fn check(value: i32, errno: i32) -> (result: Result<i32>)
    ensures
        result == (if value < 0 {
            Err(Errno(errno))
        } else {
            Ok(value)
        }),
{
    if value < 0 {
        Err(Errno(errno))
    } else {
        Ok(value)
    }
}

/// The number of an open descriptor.
#[derive(Debug)]
pub struct Fd(i32);

impl View for Fd {
    type V = i32;

    /// The number itself.
    closed spec fn view(&self) -> i32 {
        self.0
    }
}

impl Fd {
    /// Take over a raw descriptor.
    pub fn from_raw(fd: i32) -> (owned: Self)
        ensures
            owned@ == fd,
    {
        Fd(fd)
    }

    /// The underlying descriptor, still owned by this value.
    pub fn raw(&self) -> (fd: i32)
        ensures
            fd == self@,
    {
        self.0
    }

    /// Give up ownership.
    pub fn into_raw(self) -> (fd: i32)
        ensures
            fd == self@,
    {
        self.0
    }
}

/// Where `sun_path` starts inside a `sockaddr_un`: behind the family.
pub const SUN_PATH_OFFSET: usize = 2;

/// How many bytes of `sun_path` there are on Linux.
///
/// Public because it is the limit a caller has to respect, and a caller that
/// cannot name the limit finds out by having [`UnixPath::new`] refuse.
pub const UNIX_PATH_CAPACITY: usize = 108;

/// The name of a Unix-domain socket, or the absence of one.
///
/// Three things live in here, because `sun_path` is one field that means three
/// things: a filesystem path, stored without its terminator; nothing at all,
/// which is what a client that never called `bind` has; and a Linux abstract
/// name, a leading NUL and then bytes that are no path and may hold NULs of
/// their own.
#[derive(Clone, Copy, Debug)]
pub struct UnixPath {
    /// The `sun_path` bytes exactly as the kernel wants them, zero padded.
    bytes: [u8; 108],
    /// How many of them are meaningful.
    len: u8,
}

/// The bytes are what a `sun_path` may mean: they fit, and only a name that
/// starts with a NUL has NULs in it.
pub open spec fn is_name(name: Seq<u8>) -> bool {
    &&& name.len() <= UNIX_PATH_CAPACITY
    &&& name.len() > 0 && name[0] != 0 ==> !name.contains(0u8)
}

/// The bytes before the first NUL.
pub open spec fn until_nul(bytes: Seq<u8>) -> Seq<u8>
    decreases bytes.len(),
{
    if bytes.len() == 0 || bytes[0] == 0 {
        Seq::empty()
    } else {
        seq![bytes[0]] + until_nul(bytes.drop_first())
    }
}

/// How long the kernel is told that a name is: the family in front of it
/// counts, and so does the terminator of a path.
pub open spec fn name_len(name: Seq<u8>) -> nat {
    if name.len() == 0 {
        SUN_PATH_OFFSET as nat
    } else if name[0] == 0 {
        SUN_PATH_OFFSET as nat + name.len()
    } else {
        SUN_PATH_OFFSET as nat + name.len() + 1
    }
}

impl View for UnixPath {
    type V = Seq<u8>;

    /// The meaningful bytes.
    closed spec fn view(&self) -> Seq<u8> {
        self.bytes@.take(self.len as int)
    }
}

impl UnixPath {
    #[verifier::type_invariant]
    spec fn padded(self) -> bool {
        &&& is_name(self@)
        &&& self.len <= 108
        &&& forall|i: int| self.len <= i < 108 ==> self.bytes@[i] == 0
    }

    /// A socket with no name, which is what an unbound peer has.
    pub fn unnamed() -> (name: Self)
        ensures
            name@ == Seq::<u8>::empty(),
    {
        UnixPath { bytes: [0u8; 108], len: 0 }
    }

    /// A filesystem path.
    ///
    /// Refused rather than truncated when it does not fit: a truncated path
    /// binds a socket somewhere nobody is looking. An interior NUL is refused
    /// for the same reason, since the kernel would stop at it.
    ///
    /// `EINVAL` for an empty path or one containing a NUL, `ENAMETOOLONG` for
    /// one that does not fit in `sun_path` alongside its terminator.
    pub fn new(path: &[u8]) -> (result: Result<Self>)
        ensures
            result is Ok <==> 0 < path@.len() < UNIX_PATH_CAPACITY && !path@.contains(0u8),
            result is Ok <==> 1 <= path@.len() <= 107 && !path@.contains(0u8),
            result is Ok ==> result->Ok_0@ == path@,
            result is Err ==> result->Err_0.0 == (if path@.len() == 0 || path@.contains(0u8) {
                22i32
            } else {
                36i32
            }),
    {
        if path.len() == 0 || contains_nul(path) {
            return Err(Errno(einval()));
        }
        if path.len() > UNIX_PATH_CAPACITY - 1 {
            return Err(Errno(enametoolong()));
        }
        let mut bytes: [u8; 108] = [0u8; 108];
        let mut i: usize = 0;
        while i < path.len()
            invariant
                i <= path@.len() < 108,
                forall|k: int| 0 <= k < i ==> bytes@[k] == path@[k],
                forall|k: int| i <= k < 108 ==> bytes@[k] == 0,
            decreases path@.len() - i,
        {
            bytes[i] = path[i];
            i = i + 1;
        }
        assert(bytes@.take(path@.len() as int) =~= path@);
        Ok(UnixPath { bytes, len: path.len() as u8 })
    }

    /// A Linux abstract socket name, which lives in no filesystem. The name is
    /// not NUL terminated and may contain NULs.
    ///
    /// `EINVAL` for an empty name, `ENAMETOOLONG` for one that does not fit
    /// after the leading NUL that marks it as abstract.
    pub fn abstract_name(name: &[u8]) -> (result: Result<Self>)
        ensures
            result is Ok <==> 0 < name@.len() < UNIX_PATH_CAPACITY,
            result is Ok <==> 1 <= name@.len() <= 107,
            result is Ok ==> result->Ok_0@ == seq![0u8] + name@,
            result is Err ==> result->Err_0.0 == (if name@.len() == 0 {
                22i32
            } else {
                36i32
            }),
    {
        if name.len() == 0 {
            return Err(Errno(einval()));
        }
        if name.len() > UNIX_PATH_CAPACITY - 1 {
            return Err(Errno(enametoolong()));
        }
        let mut bytes: [u8; 108] = [0u8; 108];
        let mut i: usize = 0;
        while i < name.len()
            invariant
                i <= name@.len() < 108,
                bytes@[0] == 0,
                forall|k: int| 0 <= k < i ==> bytes@[k + 1] == name@[k],
                forall|k: int| i < k < 108 ==> bytes@[k] == 0,
            decreases name@.len() - i,
        {
            bytes[i + 1] = name[i];
            i = i + 1;
        }
        let len: u8 = (name.len() + 1) as u8;
        assert(bytes@.take(len as int) =~= seq![0u8] + name@);
        Ok(UnixPath { bytes, len })
    }

    /// Whether this is the absence of a name.
    pub fn is_unnamed(&self) -> (unnamed: bool)
        ensures
            unnamed == (self@.len() == 0),
    {
        proof {
            use_type_invariant(self);
        }
        self.len == 0
    }

    /// Whether this is a Linux abstract name rather than a filesystem path.
    pub fn is_abstract(&self) -> (is_abstract: bool)
        ensures
            is_abstract == (self@.len() > 0 && self@[0] == 0),
    {
        proof {
            use_type_invariant(self);
        }
        self.len > 0 && self.bytes[0] == 0
    }

    /// The filesystem path, if that is what this is.
    ///
    /// `None` for an unnamed socket and for an abstract one, because neither
    /// names anything on disk.
    pub fn as_path_bytes(&self) -> (path: Option<&[u8]>)
        ensures
            path is Some <==> self@.len() > 0 && self@[0] != 0,
            path is Some ==> path->0@ == self@,
    {
        if self.is_unnamed() || self.is_abstract() {
            None
        } else {
            Some(self.encoded())
        }
    }

    /// The abstract name without its leading NUL, if that is what this is.
    pub fn as_abstract_name(&self) -> (name: Option<&[u8]>)
        ensures
            name is Some <==> self@.len() > 0 && self@[0] == 0,
            name is Some ==> name->0@ == self@.drop_first(),
    {
        proof {
            use_type_invariant(self);
        }
        if self.is_abstract() {
            let name = vstd::slice::slice_subrange(self.bytes.as_slice(), 1, self.len as usize);
            assert(name@ =~= self@.drop_first());
            Some(name)
        } else {
            None
        }
    }

    /// The `sun_path` bytes as the kernel wants them, terminator excluded.
    pub fn encoded(&self) -> (bytes: &[u8])
        ensures
            bytes@ == self@,
            is_name(self@),
    {
        proof {
            use_type_invariant(self);
        }
        let bytes = vstd::slice::slice_subrange(self.bytes.as_slice(), 0, self.len as usize);
        assert(bytes@ =~= self@);
        bytes
    }

    /// The length to hand `bind` and `connect`.
    ///
    /// Not the size of the whole struct, which some kernels reject. A
    /// filesystem path counts its terminator, an abstract name has none to
    /// count, and an unnamed socket is the family and nothing after it.
    fn sockaddr_len(&self) -> (len: u32)
        ensures
            len == name_len(self@),
    {
        proof {
            use_type_invariant(self);
        }
        let len: usize = self.len as usize;
        let total: usize = if len == 0 {
            SUN_PATH_OFFSET
        } else if self.bytes[0] == 0 {
            SUN_PATH_OFFSET + len
        } else {
            SUN_PATH_OFFSET + len + 1
        };
        total as u32
    }
}

/// Whether a NUL is among the bytes.
pub(crate) fn contains_nul(bytes: &[u8]) -> (found: bool)
    ensures
        found == bytes@.contains(0u8),
{
    let mut i: usize = 0;
    while i < bytes.len()
        invariant
            i <= bytes@.len(),
            forall|k: int| 0 <= k < i ==> bytes@[k] != 0,
        decreases bytes@.len() - i,
    {
        if bytes[i] == 0 {
            assert(bytes@[i as int] == 0u8);
            return true;
        }
        i = i + 1;
    }
    false
}

/// Whether two runs of bytes are the same.
fn same_bytes(a: &[u8], b: &[u8]) -> (same: bool)
    ensures
        same == (a@ == b@),
{
    if a.len() != b.len() {
        return false;
    }
    let mut i: usize = 0;
    while i < a.len()
        invariant
            i <= a@.len(),
            a@.len() == b@.len(),
            forall|k: int| 0 <= k < i ==> a@[k] == b@[k],
        decreases a@.len() - i,
    {
        if a[i] != b[i] {
            return false;
        }
        i = i + 1;
    }
    assert(a@ =~= b@);
    true
}

impl PartialEq for UnixPath {
    /// Compares the meaningful bytes only.
    fn eq(&self, other: &Self) -> (same: bool) {
        same_bytes(self.encoded(), other.encoded())
    }
}

impl Eq for UnixPath {

}

impl vstd::std_specs::cmp::PartialEqSpecImpl for UnixPath {
    open spec fn obeys_eq_spec() -> bool {
        true
    }

    open spec fn eq_spec(&self, other: &Self) -> bool {
        self@ == other@
    }
}

/// A socket address: IPv4, IPv6, or a Unix-domain path.
#[derive(Debug, Clone, Copy, PartialEq, Eq)]
pub enum Addr {
    /// An IPv4 address and port.
    V4([u8; 4], u16),
    /// An IPv6 address and port.
    V6([u8; 16], u16),
    /// A Unix-domain socket's name, or its lack of one.
    Path(UnixPath),
}

/// An address as its users see it.
#[verifier::ext_equal]
pub enum AddrView {
    V4(Seq<u8>, u16),
    V6(Seq<u8>, u16),
    Path(Seq<u8>),
}

/// An address as the kernel has it: the family, and what follows it.
#[derive(Clone, Copy)]
pub struct SockAddr {
    pub family: u16,
    pub data: [u8; 126],
}

/// `data` with `bytes` written over it from place `at` on.
pub open spec fn patched(data: Seq<u8>, at: int, bytes: Seq<u8>) -> Seq<u8> {
    Seq::new(
        data.len(),
        |i: int|
            if at <= i < at + bytes.len() {
                bytes[i - at]
            } else {
                data[i]
            },
    )
}

/// A port in the order of the network.
pub open spec fn port_bytes(port: u16) -> Seq<u8> {
    seq![(port / 256) as u8, (port % 256) as u8]
}

impl AddrView {
    /// What an address can hold.
    pub open spec fn valid(self) -> bool {
        match self {
            AddrView::V4(octets, _) => octets.len() == 4,
            AddrView::V6(octets, _) => octets.len() == 16,
            AddrView::Path(name) => is_name(name),
        }
    }

    /// The constant of the address family.
    pub open spec fn family(self) -> i32 {
        match self {
            AddrView::V4(..) => 2,
            AddrView::V6(..) => 10,
            AddrView::Path(_) => 1,
        }
    }

    /// What the kernel reads behind the family, over whatever was there.
    pub open spec fn written(self, data: Seq<u8>) -> Seq<u8> {
        match self {
            AddrView::V4(octets, port) => patched(patched(data, 0, port_bytes(port)), 2, octets),
            AddrView::V6(octets, port) => patched(patched(data, 0, port_bytes(port)), 6, octets),
            AddrView::Path(name) => patched(data, 0, name),
        }
    }

    /// How long the kernel is told that the address is.
    pub open spec fn sockaddr_len(self) -> nat {
        match self {
            AddrView::V4(..) => 16,
            AddrView::V6(..) => 28,
            AddrView::Path(name) => name_len(name),
        }
    }
}

/// The name in a `sun_path` of which the kernel reports `len` bytes, the
/// family counted.
pub open spec fn reported_name(data: Seq<u8>, len: nat) -> Seq<u8> {
    let reported = if len < SUN_PATH_OFFSET {
        0
    } else if len - SUN_PATH_OFFSET > UNIX_PATH_CAPACITY {
        UNIX_PATH_CAPACITY as int
    } else {
        len - SUN_PATH_OFFSET
    };
    let bytes = data.take(reported);
    if reported > 0 && bytes[0] == 0 {
        bytes
    } else {
        until_nul(bytes)
    }
}

/// The address that the kernel reports, in a family that is spoken here.
pub open spec fn reported_addr(family: int, data: Seq<u8>, len: nat) -> Option<AddrView> {
    if family == 2 {
        Some(AddrView::V4(data.subrange(2, 6), (data[0] * 256 + data[1]) as u16))
    } else if family == 10 {
        Some(AddrView::V6(data.subrange(6, 22), (data[0] * 256 + data[1]) as u16))
    } else if family == 1 {
        Some(AddrView::Path(reported_name(data, len)))
    } else {
        None
    }
}

impl View for Addr {
    type V = AddrView;

    open spec fn view(&self) -> AddrView {
        match self {
            Addr::V4(octets, port) => AddrView::V4(octets@, *port),
            Addr::V6(octets, port) => AddrView::V6(octets@, *port),
            Addr::Path(name) => AddrView::Path(name@),
        }
    }
}

fn put(data: &mut [u8; 126], at: usize, bytes: &[u8])
    requires
        at + bytes@.len() <= 126,
    ensures
        final(data)@ == patched(old(data)@, at as int, bytes@),
{
    let mut i: usize = 0;
    while i < bytes.len()
        invariant
            i <= bytes@.len(),
            at + bytes@.len() <= 126,
            data@ == patched(old(data)@, at as int, bytes@.take(i as int)),
        decreases bytes@.len() - i,
    {
        data[at + i] = bytes[i];
        i = i + 1;
        assert(data@ =~= patched(old(data)@, at as int, bytes@.take(i as int)));
    }
    assert(bytes@.take(i as int) =~= bytes@);
    assert(data@ =~= patched(old(data)@, at as int, bytes@));
}

impl SockAddr {
    /// An address of no family, all zeros.
    pub fn zeroed() -> (storage: Self)
        ensures
            storage.family == 0,
            storage.data@ == Seq::new(126, |i: int| 0u8),
    {
        let storage = SockAddr { family: 0, data: [0u8; 126] };
        assert(storage.data@ =~= Seq::new(126, |i: int| 0u8));
        storage
    }
}

impl Addr {
    /// The loopback address on `port`.
    pub fn localhost(port: u16) -> (addr: Self)
        ensures
            addr@ == AddrView::V4(seq![127, 0, 0, 1], port),
    {
        let addr = Addr::V4([127, 0, 0, 1], port);
        assert(addr@ =~= AddrView::V4(seq![127, 0, 0, 1], port));
        addr
    }

    /// A Unix-domain address for a filesystem path, with the errors of
    /// [`UnixPath::new`].
    pub fn path(path: &[u8]) -> (result: Result<Self>)
        ensures
            result is Ok <==> 0 < path@.len() < UNIX_PATH_CAPACITY && !path@.contains(0u8),
            result is Ok <==> 1 <= path@.len() <= 107 && !path@.contains(0u8),
            result is Ok ==> result->Ok_0@ == AddrView::Path(path@),
            result is Err ==> result->Err_0.0 == (if path@.len() == 0 || path@.contains(0u8) {
                22i32
            } else {
                36i32
            }),
    {
        match UnixPath::new(path) {
            Ok(name) => Ok(Addr::Path(name)),
            Err(error) => Err(error),
        }
    }

    /// The port this address names, and zero for a Unix socket, which has no
    /// port and never will.
    pub fn port(&self) -> (port: u16)
        ensures
            port == (match self@ {
                AddrView::V4(_, port) => port,
                AddrView::V6(_, port) => port,
                AddrView::Path(_) => 0,
            }),
    {
        match self {
            Addr::V4(_, port) => *port,
            Addr::V6(_, port) => *port,
            Addr::Path(_) => 0,
        }
    }

    /// The constant of this address's family.
    pub fn family(&self) -> (family: i32)
        ensures
            family == self@.family(),
    {
        match self {
            Addr::V4(..) => af_inet(),
            Addr::V6(..) => af_inet6(),
            Addr::Path(_) => af_unix(),
        }
    }

    /// Write this address the way the kernel reads it, returning its length.
    /// What the address does not reach is left as it was.
    pub fn write_to(&self, storage: &mut SockAddr) -> (len: u32)
        ensures
            self@.valid(),
            final(storage).family == self@.family(),
            final(storage).data@ == self@.written(old(storage).data@),
            len == self@.sockaddr_len(),
    {
        storage.family = self.family() as u16;
        match self {
            Addr::V4(octets, port) => {
                put_port(&mut storage.data, *port);
                put(&mut storage.data, 2, octets.as_slice());
                16
            },
            Addr::V6(octets, port) => {
                put_port(&mut storage.data, *port);
                put(&mut storage.data, 6, octets.as_slice());
                28
            },
            Addr::Path(path) => {
                put(&mut storage.data, 0, path.encoded());
                path.sockaddr_len()
            },
        }
    }
}

fn put_port(data: &mut [u8; 126], port: u16)
    ensures
        final(data)@ == patched(old(data)@, 0, port_bytes(port)),
{
    data[0] = (port / 256) as u8;
    data[1] = (port % 256) as u8;
    assert(data@ =~= patched(old(data)@, 0, port_bytes(port)));
}

/// Where the first NUL of `data` is, looking no further than `end`.
fn first_nul(data: &[u8; 126], end: usize) -> (at: usize)
    requires
        end <= 126,
    ensures
        at <= end,
        data@.take(at as int) == until_nul(data@.take(end as int)),
        forall|k: int| 0 <= k < at ==> data@[k] != 0,
        at < end ==> data@[at as int] == 0,
{
    let mut at: usize = 0;
    while at < end && data[at] != 0
        invariant
            at <= end <= 126,
            forall|k: int| 0 <= k < at ==> data@[k] != 0,
        decreases end - at,
    {
        at = at + 1;
    }
    proof {
        let bytes = data@.take(end as int);
        lemma_until_nul(bytes, at as int);
        assert(bytes.take(at as int) =~= data@.take(at as int));
    }
    at
}

/// What lies before the first NUL is what lies before that place.
proof fn lemma_until_nul(bytes: Seq<u8>, at: int)
    requires
        0 <= at <= bytes.len(),
        forall|k: int| 0 <= k < at ==> bytes[k] != 0,
        at < bytes.len() ==> bytes[at] == 0,
    ensures
        until_nul(bytes) == bytes.take(at),
    decreases bytes.len(),
{
    if at > 0 {
        let rest = bytes.drop_first();
        assert forall|k: int| 0 <= k < at - 1 implies rest[k] != 0 by {
            assert(rest[k] == bytes[k + 1]);
        }
        lemma_until_nul(rest, at - 1);
        assert(bytes.take(at) =~= seq![bytes[0]] + rest.take(at - 1));
    } else {
        assert(bytes.take(0) =~= Seq::<u8>::empty());
    }
}

/// A port as the network has it.
fn get_port(data: &[u8; 126]) -> (port: u16)
    ensures
        port == (data@[0] * 256 + data@[1]) as u16,
{
    data[0] as u16 * 256 + data[1] as u16
}

impl Addr {
    /// Read an address back out of what the kernel filled.
    ///
    /// `len` is what the kernel reported writing, and it is not optional for
    /// Unix sockets: an unnamed peer and an abstract name both start with a
    /// NUL byte, and only the length tells them apart. A family that is not
    /// spoken here is reported as absent rather than guessed at.
    pub fn read_from(storage: &SockAddr, len: u32) -> (addr: Option<Self>)
        ensures
            (match reported_addr(storage.family as int, storage.data@, len as nat) {
                Some(reported) => addr is Some && addr->0@ == reported,
                None => addr is None,
            }),
    {
        let family: i32 = storage.family as i32;
        let data = &storage.data;
        if family == af_inet() {
            let octets: [u8; 4] = [data[2], data[3], data[4], data[5]];
            assert(octets@ =~= data@.subrange(2, 6));
            Some(Addr::V4(octets, get_port(data)))
        } else if family == af_inet6() {
            let mut octets: [u8; 16] = [0u8; 16];
            let mut i: usize = 0;
            while i < 16
                invariant
                    i <= 16,
                    forall|k: int| 0 <= k < i ==> octets@[k] == data@[k + 6],
                decreases 16 - i,
            {
                octets[i] = data[i + 6];
                i = i + 1;
            }
            assert(octets@ =~= data@.subrange(6, 22));
            Some(Addr::V6(octets, get_port(data)))
        } else if family == af_unix() {
            // Only what the kernel says it wrote, clamped because a reported
            // length may count padding past the path.
            let reported: usize = if len < 2 {
                0
            } else if len > 110 {
                UNIX_PATH_CAPACITY
            } else {
                (len - 2) as usize
            };
            // An unbound peer is the family and nothing after it. A leading
            // NUL is an abstract name, taken exactly as reported. A path ends
            // at its NUL, which the reported length may or may not count.
            let kept: usize = if reported > 0 && data[0] == 0 {
                reported
            } else {
                first_nul(data, reported)
            };
            let mut bytes: [u8; 108] = [0u8; 108];
            let mut i: usize = 0;
            while i < kept
                invariant
                    i <= kept <= 108,
                    forall|k: int| 0 <= k < i ==> bytes@[k] == data@[k],
                    forall|k: int| i <= k < 108 ==> bytes@[k] == 0,
                decreases kept - i,
            {
                bytes[i] = data[i];
                i = i + 1;
            }
            proof {
                let name = bytes@.take(kept as int);
                assert(name =~= data@.take(kept as int));
                assert(data@.take(reported as int)[0] == data@[0] || reported == 0);
                assert(name == reported_name(data@, len as nat));
                if name.len() > 0 && name[0] != 0 {
                    assert(!name.contains(0u8));
                }
            }
            Some(Addr::Path(UnixPath { bytes, len: kept as u8 }))
        } else {
            None
        }
    }
}

/// An address that is written for the kernel and read back is the address it
/// was, in every family and for every kind of name.
pub proof fn law_an_address_reads_back_as_itself(addr: AddrView)
    requires
        addr.valid(),
    ensures
        ({
            let zeros = Seq::new(126, |i: int| 0u8);
            reported_addr(addr.family() as int, addr.written(zeros), addr.sockaddr_len()) == Some(
                addr,
            )
        }),
{
    let zeros = Seq::new(126, |i: int| 0u8);
    let data = addr.written(zeros);
    match addr {
        AddrView::V4(octets, port) => {
            assert(data.subrange(2, 6) =~= octets);
            lemma_port(data, port);
        },
        AddrView::V6(octets, port) => {
            assert(data.subrange(6, 22) =~= octets);
            lemma_port(data, port);
        },
        AddrView::Path(name) => {
            let reported = if name_len(name) - SUN_PATH_OFFSET > UNIX_PATH_CAPACITY {
                UNIX_PATH_CAPACITY as int
            } else {
                name_len(name) - SUN_PATH_OFFSET
            };
            let bytes = data.take(reported);
            if name.len() > 0 && name[0] == 0 {
                assert(bytes =~= name);
            } else {
                assert forall|k: int| 0 <= k < name.len() implies bytes[k] != 0 by {
                    assert(bytes[k] == name[k]);
                    assert(name.contains(name[k]));
                }
                lemma_until_nul(bytes, name.len() as int);
                assert(bytes.take(name.len() as int) =~= name);
            }
        },
    }
}

proof fn lemma_port(data: Seq<u8>, port: u16)
    requires
        data.len() >= 2,
        data[0] == port_bytes(port)[0],
        data[1] == port_bytes(port)[1],
    ensures
        (data[0] * 256 + data[1]) as u16 == port,
{
}

/// Where everything stands in an address as the kernel reads it: the port first,
/// its high byte before its low one, the octets of IPv4 right behind it and those
/// of IPv6 behind the flow label; the name of a Unix socket from the start. What
/// an address does not reach is left as it was.
pub proof fn law_the_kernels_layout_of_an_address(addr: AddrView, data: Seq<u8>)
    requires
        addr.valid(),
        data.len() == 126,
    ensures
        addr.written(data).len() == 126,
        (match addr {
            AddrView::V4(octets, port) => {
                let bytes = addr.written(data);
                &&& addr.family() == 2
                &&& addr.sockaddr_len() == 16
                &&& bytes[0] * 256 + bytes[1] == port
                &&& forall|i: int| 0 <= i < 4 ==> #[trigger] octets[i] == bytes[i + 2]
                &&& forall|i: int| 6 <= i < 126 ==> #[trigger] bytes[i] == data[i]
            },
            AddrView::V6(octets, port) => {
                let bytes = addr.written(data);
                &&& addr.family() == 10
                &&& addr.sockaddr_len() == 28
                &&& bytes[0] * 256 + bytes[1] == port
                &&& forall|i: int| 0 <= i < 16 ==> #[trigger] octets[i] == bytes[i + 6]
                &&& forall|i: int| 2 <= i < 6 ==> #[trigger] bytes[i] == data[i]
                &&& forall|i: int| 22 <= i < 126 ==> #[trigger] bytes[i] == data[i]
            },
            AddrView::Path(name) => {
                let bytes = addr.written(data);
                &&& addr.family() == 1
                &&& addr.sockaddr_len() == 2 + name.len() + (if name.len() > 0 && name[0] != 0 {
                    1int
                } else {
                    0int
                })
                &&& forall|i: int| 0 <= i < name.len() ==> #[trigger] bytes[i] == name[i]
                &&& forall|i: int| name.len() <= i < 126 ==> #[trigger] bytes[i] == data[i]
            },
        }),
{
}

/// Where everything is read in what the kernel fills in: the port from the first
/// two bytes, high before low, the octets of IPv4 from the third byte on and
/// those of IPv6 from the seventh. No other family but that of Unix sockets is
/// spoken.
pub proof fn law_where_a_reported_address_is_read(family: int, data: Seq<u8>, len: nat)
    requires
        data.len() == 126,
    ensures
        (match reported_addr(family, data, len) {
            Some(AddrView::V4(octets, port)) => {
                &&& family == 2
                &&& octets.len() == 4
                &&& port == data[0] * 256 + data[1]
                &&& forall|i: int| 0 <= i < 4 ==> #[trigger] octets[i] == data[i + 2]
            },
            Some(AddrView::V6(octets, port)) => {
                &&& family == 10
                &&& octets.len() == 16
                &&& port == data[0] * 256 + data[1]
                &&& forall|i: int| 0 <= i < 16 ==> #[trigger] octets[i] == data[i + 6]
            },
            Some(AddrView::Path(_)) => family == 1,
            None => family != 1 && family != 2 && family != 10,
        }),
{
}

/// What name the kernel reports for a Unix socket: no more than it says it wrote,
/// and no more than there is room for. A name that begins with a NUL is taken
/// whole, NULs and all; any other ends at its first NUL. Where the kernel wrote
/// the family and nothing behind it there is no name.
pub proof fn law_a_reported_name_ends_where_it_should(data: Seq<u8>, len: nat)
    requires
        data.len() == 126,
    ensures
        ({
            let room = if len <= 2 {
                0int
            } else if len > 110 {
                108
            } else {
                len - 2
            };
            &&& reported_addr(1, data, len) matches Some(AddrView::Path(name))
            &&& name.len() <= room
            &&& forall|i: int| 0 <= i < name.len() ==> #[trigger] name[i] == data[i]
            &&& room > 0 && data[0] == 0 ==> name.len() == room
            &&& room > 0 && data[0] != 0 ==> {
                &&& forall|i: int| 0 <= i < name.len() ==> #[trigger] name[i] != 0
                &&& name.len() == room || data[name.len() as int] == 0
            }
        }),
{
    let room = if len <= 2 {
        0int
    } else if len > 110 {
        108
    } else {
        len - 2
    };
    let bytes = data.take(room);
    lemma_until_nul_is_a_prefix(bytes);
    let name = until_nul(bytes);
    assert forall|i: int| 0 <= i < name.len() implies #[trigger] name[i] == data[i] by {
        assert(name[i] == bytes[i]);
    }
}

proof fn lemma_until_nul_is_a_prefix(bytes: Seq<u8>)
    ensures
        until_nul(bytes).len() <= bytes.len(),
        forall|i: int|
            0 <= i < until_nul(bytes).len() ==> #[trigger] until_nul(bytes)[i] == bytes[i]
                && bytes[i] != 0,
        until_nul(bytes).len() < bytes.len() ==> bytes[until_nul(bytes).len() as int] == 0,
    decreases bytes.len(),
{
    if bytes.len() > 0 && bytes[0] != 0 {
        let rest = bytes.drop_first();
        lemma_until_nul_is_a_prefix(rest);
        let name = until_nul(bytes);
        assert(name == seq![bytes[0]] + until_nul(rest));
        assert forall|i: int| 0 <= i < name.len() implies #[trigger] name[i] == bytes[i] && bytes[i]
            != 0 by {
            if i > 0 {
                assert(name[i] == until_nul(rest)[i - 1]);
                assert(rest[i - 1] == bytes[i]);
            }
        }
    }
}

/// What the kernel reports as an address is one that can be handed back to it.
pub proof fn law_a_reported_address_is_valid(family: int, data: Seq<u8>, len: nat)
    requires
        data.len() == 126,
    ensures
        reported_addr(family, data, len) is Some ==> reported_addr(family, data, len)->0.valid(),
{
    let reported = if len < SUN_PATH_OFFSET {
        0
    } else if len - SUN_PATH_OFFSET > UNIX_PATH_CAPACITY {
        UNIX_PATH_CAPACITY as int
    } else {
        len - SUN_PATH_OFFSET
    };
    lemma_until_nul_has_none(data.take(reported));
}

proof fn lemma_until_nul_has_none(bytes: Seq<u8>)
    ensures
        until_nul(bytes).len() <= bytes.len(),
        !until_nul(bytes).contains(0u8),
    decreases bytes.len(),
{
    if bytes.len() > 0 && bytes[0] != 0 {
        lemma_until_nul_has_none(bytes.drop_first());
        let rest = until_nul(bytes.drop_first());
        let all = until_nul(bytes);
        assert(all == seq![bytes[0]] + rest);
        if all.contains(0u8) {
            let k = all.index_of(0u8);
            assert(k > 0);
            assert(rest[k - 1] == 0u8);
        }
    }
}

/// What the kernel answered to a question about a socket's own addresses.
///
/// `EAFNOSUPPORT` for an answer in a family that is not spoken here.
pub fn addr_of(answer: Result<(SockAddr, u32)>) -> (result: Result<Addr>)
    ensures
        (match answer {
            Err(error) => result == Err::<Addr, Errno>(error),
            Ok((storage, len)) => match reported_addr(
                storage.family as int,
                storage.data@,
                len as nat,
            ) {
                Some(addr) => result is Ok && result->Ok_0@ == addr,
                None => result == Err::<Addr, Errno>(Errno(97)),
            },
        }),
{
    match answer {
        Err(error) => Err(error),
        Ok((storage, len)) => match Addr::read_from(&storage, len) {
            Some(addr) => Ok(addr),
            None => Err(Errno(eafnosupport())),
        },
    }
}

/// A stream socket: TCP, or Unix-domain.
#[derive(Debug)]
pub struct TcpSocket {
    fd: Fd,
    family: i32,
}

impl TcpSocket {
    /// The descriptor.
    pub closed spec fn fd(self) -> i32 {
        self.fd@
    }

    /// The family it was made for.
    pub closed spec fn family(self) -> i32 {
        self.family
    }

    /// Adopt a descriptor of this family, which must already be non-blocking.
    pub fn from_raw(fd: i32, family: i32) -> (socket: Self)
        ensures
            socket.fd() == fd,
            socket.family() == family,
    {
        TcpSocket { fd: Fd::from_raw(fd), family }
    }

    /// Start connecting to `addr`: decide on what `connect` answered.
    ///
    /// The socket is non-blocking, so `EINPROGRESS` is the ordinary answer:
    /// the handshake is under way and the socket becomes writable once it
    /// finishes. A Unix-domain connect does not go in flight at all.
    pub fn connect(fd: i32, addr: &Addr, answer: Result<i32>) -> (result: Result<Self>)
        ensures
            (match answer {
                Err(error) => if error.0 == 115 {
                    result is Ok
                } else {
                    result == Err::<Self, Errno>(error)
                },
                Ok(_) => result is Ok,
            }),
            result is Ok ==> {
                &&& result->Ok_0.fd() == fd
                &&& result->Ok_0.family() == addr@.family()
            },
    {
        match answer {
            Err(error) => {
                if error.0 != einprogress() {
                    return Err(error);
                }
            },
            Ok(_) => {},
        }
        Ok(TcpSocket { fd: Fd::from_raw(fd), family: addr.family() })
    }

    /// Whether Nagle's algorithm is there to be turned off. Asking for that on
    /// a Unix-domain socket fails, which would turn a connect that worked into
    /// an error naming a socket option.
    pub fn wants_nodelay(&self) -> (wanted: bool)
        ensures
            wanted == (self.family() != 1),
    {
        self.family != af_unix()
    }

    /// Whether an in-flight connect has failed, once the socket is writable:
    /// decide on what `SO_ERROR` holds.
    ///
    /// A failed non-blocking connect makes the socket writable just as a
    /// successful one does, and leaves the reason there.
    pub fn connect_error(answer: Result<i32>) -> (result: Result<()>)
        ensures
            result == (match answer {
                Err(error) => Err(error),
                Ok(value) => if value == 0 {
                    Ok(())
                } else {
                    Err(Errno(value))
                },
            }),
    {
        match answer {
            Err(error) => Err(error),
            Ok(value) => {
                if value == 0 {
                    Ok(())
                } else {
                    Err(Errno(value))
                }
            },
        }
    }

    /// The descriptor, for registering with the poller.
    pub fn raw(&self) -> (fd: i32)
        ensures
            fd == self.fd(),
    {
        self.fd.raw()
    }

    /// This socket's own address, out of what `getsockname` answered.
    pub fn local_addr(&self, answer: Result<(SockAddr, u32)>) -> (result: Result<Addr>)
        ensures
            (match answer {
                Err(error) => result == Err::<Addr, Errno>(error),
                Ok((storage, len)) => match reported_addr(
                    storage.family as int,
                    storage.data@,
                    len as nat,
                ) {
                    Some(addr) => result is Ok && result->Ok_0@ == addr,
                    None => result == Err::<Addr, Errno>(Errno(97)),
                },
            }),
    {
        addr_of(answer)
    }

    /// The address of the peer, out of what `getpeername` answered.
    pub fn peer_addr(&self, answer: Result<(SockAddr, u32)>) -> (result: Result<Addr>)
        ensures
            (match answer {
                Err(error) => result == Err::<Addr, Errno>(error),
                Ok((storage, len)) => match reported_addr(
                    storage.family as int,
                    storage.data@,
                    len as nat,
                ) {
                    Some(addr) => result is Ok && result->Ok_0@ == addr,
                    None => result == Err::<Addr, Errno>(Errno(97)),
                },
            }),
    {
        addr_of(answer)
    }

    /// How many bytes are waiting to be read, if the kernel will say: decide on
    /// what `FIONREAD` answered and filled in.
    ///
    /// `None` means it would not, and the caller should assume there may be
    /// more rather than fewer: a wrong "nothing left" loses a wakeup and hangs
    /// a connection, while a wrong "something left" costs one read.
    pub fn pending(answer: i32, waiting: i32) -> (count: Option<usize>)
        ensures
            count == (if answer < 0 || waiting < 0 {
                None
            } else {
                Some(waiting as usize)
            }),
    {
        if answer < 0 || waiting < 0 {
            None
        } else {
            Some(waiting as usize)
        }
    }

    /// The configured send buffer size, out of what `SO_SNDBUF` answered and
    /// filled in.
    pub fn send_buffer(answer: i32, size: i32) -> (capacity: Option<usize>)
        ensures
            capacity == (if answer < 0 || size < 0 {
                None
            } else {
                Some(size as usize)
            }),
    {
        if answer < 0 || size < 0 {
            None
        } else {
            Some(size as usize)
        }
    }

    /// How many bytes a `recv` or a `sendmsg` moved: decide on what it returned
    /// and on the error it left.
    pub fn moved(answer: isize, errno: i32) -> (result: Result<usize>)
        ensures
            result == (if answer < 0 {
                Err(Errno(errno))
            } else {
                Ok(answer as usize)
            }),
    {
        if answer < 0 {
            Err(Errno(errno))
        } else {
            Ok(answer as usize)
        }
    }

    /// Which of two buffers a vectored send hands over, as the first of them
    /// and how many. An empty leading buffer would have the kernel walk an
    /// entry for nothing.
    pub fn send_vectored(first: &[u8], second: &[u8]) -> (plan: (usize, usize))
        ensures
            plan == (if first@.len() == 0 {
                (1usize, 1usize)
            } else {
                (0usize, 2usize)
            }),
            plan.0 + plan.1 == 2,
            seq![first@, second@].skip(plan.0 as int).fold_left(
                Seq::<u8>::empty(),
                |all: Seq<u8>, part: Seq<u8>| all + part,
            ) == first@ + second@,
    {
        let plan: (usize, usize) = if first.len() == 0 {
            (1, 1)
        } else {
            (0, 2)
        };
        proof {
            let parts = seq![first@, second@];
            let join = |all: Seq<u8>, part: Seq<u8>| all + part;
            let none = Seq::<u8>::empty();
            reveal_with_fuel(Seq::fold_left, 3);
            if first@.len() == 0 {
                let rest = parts.skip(1);
                assert(rest.drop_last() =~= Seq::<Seq<u8>>::empty());
                assert(rest.fold_left(none, join) == join(none, second@));
                assert(none + second@ =~= first@ + second@);
            } else {
                let rest = parts.skip(0);
                assert(rest.drop_last().drop_last() =~= Seq::<Seq<u8>>::empty());
                assert(rest.fold_left(none, join) == join(join(none, first@), second@));
                assert(none + first@ =~= first@);
            }
        }
        plan
    }
}

/// A listening stream socket: TCP, or Unix-domain.
#[derive(Debug)]
pub struct TcpListener {
    fd: Fd,
    /// The family bound, kept because accepting behaves differently for Unix
    /// sockets and asking the kernel would be a call per connection.
    family: i32,
}

impl TcpListener {
    /// The descriptor.
    pub closed spec fn fd(self) -> i32 {
        self.fd@
    }

    /// The family bound.
    pub closed spec fn family(self) -> i32 {
        self.family
    }

    /// Whether a bind to this address asks for `SO_REUSEADDR` first. Without
    /// it a restart fails to bind while the previous socket's connections
    /// drain; there is no such draining on a Unix socket.
    pub fn wants_reuse(addr: &Addr) -> (wanted: bool)
        ensures
            wanted == (addr@.family() != 1),
    {
        addr.family() != af_unix()
    }

    /// Listen on a descriptor that is to be bound to `addr`: decide on what
    /// `bind` and then `listen` answered. `listen` is not asked where `bind`
    /// failed.
    pub fn bind(fd: i32, addr: &Addr, bound: Result<i32>, listening: Option<Result<i32>>) -> (result:
        Result<Self>)
        requires
            bound is Ok ==> listening is Some,
        ensures
            (match bound {
                Err(error) => result == Err::<Self, Errno>(error),
                Ok(_) => match listening->0 {
                    Err(error) => result == Err::<Self, Errno>(error),
                    Ok(_) => {
                        &&& result is Ok
                        &&& result->Ok_0.fd() == fd
                        &&& result->Ok_0.family() == addr@.family()
                    },
                },
            }),
    {
        match bound {
            Err(error) => Err(error),
            Ok(_) => match listening.unwrap() {
                Err(error) => Err(error),
                Ok(_) => Ok(TcpListener { fd: Fd::from_raw(fd), family: addr.family() }),
            },
        }
    }

    /// The descriptor, for registering with the poller.
    pub fn raw(&self) -> (fd: i32)
        ensures
            fd == self.fd(),
    {
        self.fd.raw()
    }

    /// The address this listener is bound to, out of what `getsockname`
    /// answered. A port of zero means "any", and this is how to learn which
    /// one arrived.
    pub fn local_addr(&self, answer: Result<(SockAddr, u32)>) -> (result: Result<Addr>)
        ensures
            (match answer {
                Err(error) => result == Err::<Addr, Errno>(error),
                Ok((storage, len)) => match reported_addr(
                    storage.family as int,
                    storage.data@,
                    len as nat,
                ) {
                    Some(addr) => result is Ok && result->Ok_0@ == addr,
                    None => result == Err::<Addr, Errno>(Errno(97)),
                },
            }),
    {
        addr_of(answer)
    }

    /// Accept one connection: decide on the descriptor that `accept` answered
    /// with and on the peer address it filled in.
    ///
    /// A Unix client that never called `bind` has no address, and that is
    /// every ordinary Unix client. Some kernels do not even set the family on
    /// the way out, so on a Unix listener an address that cannot be read is no
    /// name rather than a failure.
    pub fn accept(&self, answer: Result<i32>, storage: &SockAddr, len: u32) -> (result: Result<
        (TcpSocket, Addr),
    >)
        ensures
            (match answer {
                Err(error) => result == Err::<(TcpSocket, Addr), Errno>(error),
                Ok(fd) => match reported_addr(storage.family as int, storage.data@, len as nat) {
                    Some(addr) => {
                        &&& result is Ok
                        &&& result->Ok_0.0.fd() == fd
                        &&& result->Ok_0.0.family() == self.family()
                        &&& result->Ok_0.1@ == addr
                    },
                    None => if self.family() == 1 {
                        &&& result is Ok
                        &&& result->Ok_0.0.fd() == fd
                        &&& result->Ok_0.0.family() == self.family()
                        &&& result->Ok_0.1@ == AddrView::Path(Seq::empty())
                    } else {
                        result == Err::<(TcpSocket, Addr), Errno>(Errno(97))
                    },
                },
            }),
    {
        let fd: i32 = match answer {
            Err(error) => {
                return Err(error);
            },
            Ok(fd) => fd,
        };
        let addr = match Addr::read_from(storage, len) {
            Some(addr) => addr,
            None => {
                if self.family != af_unix() {
                    return Err(Errno(eafnosupport()));
                }
                Addr::Path(UnixPath::unnamed())
            },
        };
        Ok((TcpSocket { fd: Fd::from_raw(fd), family: self.family }, addr))
    }
}

} // verus!
