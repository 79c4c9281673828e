//! Errors from the kernel, as a code rather than a boxed type.
//!
//! The question asked of every failed read is whether it means "not ready
//! yet", and that is a comparison rather than a downcast.
use vstd::prelude::*;

pub use crate::io::StreamError as Errno;
use crate::reactor::platform::{econnaborted, econnrefused, econnreset};

verus! {

/// The result of a call into the kernel.
pub type Result<T> = core::result::Result<T, Errno>;

/// A write had nowhere to go: the peer is gone.
pub const BROKEN_PIPE: i32 = 32;

/// The peer reset the connection, in the numbering of the BSDs.
pub const CONNECTION_RESET: i32 = 54;

/// The code of a connection that went away before it could be accepted.
pub open spec fn concerns_one_connection(error: Errno) -> bool {
    error.0 == 103 || error.0 == 104 || error.0 == 111
}

/// Whether an `accept` failure concerns only the connection being accepted.
///
/// A peer that resets between the readiness notification and the accept call
/// produces one of these. Failing the listener on one would let any client
/// take a server down by connecting and immediately resetting.
pub fn transient_accept(error: Errno) -> (transient: bool)
    ensures
        transient == concerns_one_connection(error),
        transient == (error.0 == 103 || error.0 == 104 || error.0 == 111),
{
    error.0 == econnaborted() || error.0 == econnreset() || error.0 == econnrefused()
}

} // verus!
