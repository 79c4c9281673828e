//! Readiness: which descriptors, signals and timers have something to say, and
//! which task is to be told.
use vstd::prelude::*;

pub mod counters;
pub mod driver;
pub mod error;
pub mod local;
pub mod net;
pub(crate) mod platform;
pub mod poller;
pub mod resolve;
pub mod signal;
pub mod socket;

verus! {

} // verus!
