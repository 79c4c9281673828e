//! The numbers that the platform goes by, as `libc` has them.
//!
//! Each function hands back one constant of `libc` and states its value, which
//! nothing here proves. The values are those of Linux on x86-64 and on the other
//! machines with the generic numbers; on a few, such as mips and sparc, some of
//! them differ, and the library is not for those.
use vstd::prelude::*;

verus! {

/// `libc::EINVAL`, an argument makes no sense: 22 with the generic numbers.
#[verifier::external_body]
pub(crate) fn einval() -> (code: i32)
    ensures
        code == 22,
{
    libc::EINVAL
}

/// `libc::ENAMETOOLONG`, a name does not fit: 36 with the generic numbers.
#[verifier::external_body]
pub(crate) fn enametoolong() -> (code: i32)
    ensures
        code == 36,
{
    libc::ENAMETOOLONG
}

/// `libc::EAFNOSUPPORT`, an address family is not spoken: 97 with the generic numbers.
#[verifier::external_body]
pub(crate) fn eafnosupport() -> (code: i32)
    ensures
        code == 97,
{
    libc::EAFNOSUPPORT
}

/// `libc::EINPROGRESS`, a connect is under way: 115 with the generic numbers.
#[verifier::external_body]
pub(crate) fn einprogress() -> (code: i32)
    ensures
        code == 115,
{
    libc::EINPROGRESS
}

/// `libc::ECONNABORTED`, a connection was dropped before it was accepted: 103 with the generic numbers.
#[verifier::external_body]
pub(crate) fn econnaborted() -> (code: i32)
    ensures
        code == 103,
{
    libc::ECONNABORTED
}

/// `libc::ECONNRESET`, the peer reset the connection: 104 with the generic numbers.
#[verifier::external_body]
pub(crate) fn econnreset() -> (code: i32)
    ensures
        code == 104,
{
    libc::ECONNRESET
}

/// `libc::ECONNREFUSED`, nothing listens there: 111 with the generic numbers.
#[verifier::external_body]
pub(crate) fn econnrefused() -> (code: i32)
    ensures
        code == 111,
{
    libc::ECONNREFUSED
}

/// `libc::AF_UNIX`, the family of Unix-domain sockets: 1 with the generic numbers.
#[verifier::external_body]
pub(crate) fn af_unix() -> (code: i32)
    ensures
        code == 1,
{
    libc::AF_UNIX
}

/// `libc::AF_INET`, the family of IPv4 sockets: 2 with the generic numbers.
#[verifier::external_body]
pub(crate) fn af_inet() -> (code: i32)
    ensures
        code == 2,
{
    libc::AF_INET
}

/// `libc::AF_INET6`, the family of IPv6 sockets: 10 with the generic numbers.
#[verifier::external_body]
pub(crate) fn af_inet6() -> (code: i32)
    ensures
        code == 10,
{
    libc::AF_INET6
}

/// `libc::EPOLLIN`, there is something to read: 0x1 with the generic numbers, as the bits of an event mask.
#[verifier::external_body]
pub(crate) fn epollin() -> (bits: u32)
    ensures
        bits == 0x1u32,
{
    libc::EPOLLIN as u32
}

/// `libc::EPOLLOUT`, there is room to write: 0x4 with the generic numbers, as the bits of an event mask.
#[verifier::external_body]
pub(crate) fn epollout() -> (bits: u32)
    ensures
        bits == 0x4u32,
{
    libc::EPOLLOUT as u32
}

/// `libc::EPOLLERR`, the descriptor failed: 0x8 with the generic numbers, as the bits of an event mask.
#[verifier::external_body]
pub(crate) fn epollerr() -> (bits: u32)
    ensures
        bits == 0x8u32,
{
    libc::EPOLLERR as u32
}

/// `libc::EPOLLHUP`, the peer hung up: 0x10 with the generic numbers, as the bits of an event mask.
#[verifier::external_body]
pub(crate) fn epollhup() -> (bits: u32)
    ensures
        bits == 0x10u32,
{
    libc::EPOLLHUP as u32
}

/// `libc::EPOLLRDHUP`, the peer will send no more: 0x2000 with the generic numbers, as the bits of an event mask.
#[verifier::external_body]
pub(crate) fn epollrdhup() -> (bits: u32)
    ensures
        bits == 0x2000u32,
{
    libc::EPOLLRDHUP as u32
}

/// `libc::EPOLLET`, report changes rather than states: 0x8000_0000 with the generic numbers, as the bits of an event mask.
#[verifier::external_body]
pub(crate) fn epollet() -> (bits: u32)
    ensures
        bits == 0x8000_0000u32,
{
    libc::EPOLLET as u32
}

/// `libc::EBUSY`, something is taken: 16 with the generic numbers.
#[verifier::external_body]
pub(crate) fn ebusy() -> (code: i32)
    ensures
        code == 16,
{
    libc::EBUSY
}

/// `libc::EPIPE`, the other end is gone: 32 with the generic numbers.
#[verifier::external_body]
pub(crate) fn epipe() -> (code: i32)
    ensures
        code == 32,
{
    libc::EPIPE
}

/// `libc::EIO`, the device failed: 5 with the generic numbers.
#[verifier::external_body]
pub(crate) fn eio() -> (code: i32)
    ensures
        code == 5,
{
    libc::EIO
}

/// `libc::SIGHUP`, the terminal hung up: 1 with the generic numbers.
#[verifier::external_body]
pub(crate) fn sighup() -> (code: i32)
    ensures
        code == 1,
{
    libc::SIGHUP
}

/// `libc::SIGINT`, interrupted from the keyboard: 2 with the generic numbers.
#[verifier::external_body]
pub(crate) fn sigint() -> (code: i32)
    ensures
        code == 2,
{
    libc::SIGINT
}

/// `libc::SIGTERM`, asked to terminate: 15 with the generic numbers.
#[verifier::external_body]
pub(crate) fn sigterm() -> (code: i32)
    ensures
        code == 15,
{
    libc::SIGTERM
}

/// `libc::ESRCH`, there is no such process: 3 with the generic numbers.
#[verifier::external_body]
pub(crate) fn esrch() -> (code: i32)
    ensures
        code == 3,
{
    libc::ESRCH
}

/// `libc::EBADF`, the descriptor is none: 9 with the generic numbers.
#[verifier::external_body]
pub(crate) fn ebadf() -> (code: i32)
    ensures
        code == 9,
{
    libc::EBADF
}

/// `libc::SIGKILL`, the signal that ends a process for certain: 9 with the generic numbers.
#[verifier::external_body]
pub(crate) fn sigkill() -> (code: i32)
    ensures
        code == 9,
{
    libc::SIGKILL
}

/// `libc::SIGSTOP`, the signal that stops a process for certain: 19 with the generic numbers.
#[verifier::external_body]
pub(crate) fn sigstop() -> (code: i32)
    ensures
        code == 19,
{
    libc::SIGSTOP
}

} // verus!
