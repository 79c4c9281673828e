//! An async runtime's decisions, stated and proved.
//!
//! Every module holds the state of one part of the runtime and the steps that
//! change it. A step takes what the outside answered, the clock, the kernel or
//! another thread, and hands back what is to be done: a call to make, a waker
//! to call, a waker to destroy. Nothing in here blocks, and nothing in here
//! calls a waker.

pub mod block_on;
pub mod fork;
pub mod io;
pub mod par;
pub mod process;
pub mod reactor;
pub mod runtime;
pub mod sync;
pub mod task;
pub mod text;
pub mod time;
pub mod yield_now;
