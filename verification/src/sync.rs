//! Synchronisation for tasks that share no runtime.
//!
//! Each type here is the state that its asynchronous counterpart keeps behind
//! a lock, together with every step that can be taken on it. A step takes the
//! waker of the task that is asking and hands back the wakers that are now to
//! be called, so that nothing is woken and nothing is destroyed while the lock
//! is held. `W` is whatever a caller wakes a task with.
use vstd::prelude::*;

pub mod barrier;
pub mod notify;
pub mod rwlock;
pub mod semaphore;
pub mod wait_queue;

pub use barrier::{Barrier, BarrierWait, Passage};
pub use notify::{Look, Notified, Notify};
pub use rwlock::{Entrance, Read, RwLock, RwLockReadGuard, RwLockWriteGuard, Write};
pub use semaphore::{Acquire, Acquisition, Semaphore, SemaphorePermit};
pub use wait_queue::{WaitQueue, WakeKind};

verus! {

} // verus!
