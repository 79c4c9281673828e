//! Which worker a woken task goes to.
//!
//! A wake that happens on a worker goes straight to that worker, which holds
//! the task's cache lines; any other goes to the injector, where anyone can
//! find it.
use vstd::prelude::*;

verus! {

/// The worker that a thread is: a pool, named by a number, and the worker's
/// number in it.
#[derive(Debug, Clone, Copy, PartialEq, Eq, Structural)]
pub struct Identity {
    pub pool: usize,
    pub worker: usize,
}

/// Which worker the current thread is, if it is one.
#[derive(Debug)]
pub struct Current {
    identity: Option<Identity>,
}

/// What a thread was before it was marked, to be put back.
#[derive(Debug)]
pub struct CurrentGuard {
    previous: Option<Identity>,
}

impl View for Current {
    type V = Option<Identity>;

    /// Which worker the current thread is.
    closed spec fn view(&self) -> Option<Identity> {
        self.identity
    }
}

impl View for CurrentGuard {
    type V = Option<Identity>;

    /// What the thread was before.
    closed spec fn view(&self) -> Option<Identity> {
        self.previous
    }
}

impl Current {
    /// A thread that is no worker.
    pub fn new() -> (current: Self)
        ensures
            current@ is None,
    {
        Current { identity: None }
    }

    /// Mark the thread as a worker, until the guard is given back.
    pub fn mark_current(&mut self, identity: Identity) -> (guard: CurrentGuard)
        ensures
            final(self)@ == Some(identity),
            guard@ == old(self)@,
    {
        let guard = CurrentGuard { previous: self.identity };
        self.identity = Some(identity);
        guard
    }

    /// Give the guard back: the thread is what it was before.
    pub fn restore(&mut self, guard: CurrentGuard)
        ensures
            final(self)@ == guard@,
    {
        self.identity = guard.previous;
    }

    /// The worker of `pool` that this thread is.
    pub fn current_worker(&self, pool: usize) -> (worker: Option<usize>)
        ensures
            worker == worker_in(self@, pool),
    {
        match self.identity {
            Some(identity) => {
                if identity.pool == pool {
                    Some(identity.worker)
                } else {
                    None
                }
            },
            None => None,
        }
    }
}

/// The worker of `pool` that a thread with this identity is.
pub open spec fn worker_in(identity: Option<Identity>, pool: usize) -> Option<usize> {
    match identity {
        Some(identity) => if identity.pool == pool {
            Some(identity.worker)
        } else {
            None
        },
        None => None,
    }
}

/// A hint that a pool of `workers` can use.
pub open spec fn usable(hint: Option<usize>, workers: usize) -> Option<usize> {
    if hint is Some && hint->0 < workers {
        hint
    } else {
        None
    }
}

/// The worker to send a task to, out of what the thread or the host says. A bad
/// hint must not index outside the pool.
pub fn worker_for(hint: Option<usize>, workers: usize) -> (worker: Option<usize>)
    ensures
        worker == usable(hint, workers),
{
    match hint {
        Some(worker) => {
            if worker < workers {
                Some(worker)
            } else {
                None
            }
        },
        None => None,
    }
}

/// Where a task that was woken goes.
#[derive(Debug, Clone, Copy, PartialEq, Eq, Structural)]
pub enum Route {
    /// To this worker's own queue.
    Local(usize),
    /// To the queue that every worker drains.
    Injector,
    /// Nowhere: the pool is gone, so the task is cancelled.
    Dropped,
}

/// Route a woken task of `pool`.
///
/// `scope` is the worker that the wake happens on, with the width of its pool.
/// Only where that is not one of the task's own pool is the pool itself asked
/// for: `alive` is its width if it still exists, and `hint` what the thread or
/// the host then says.
pub fn schedule(
    pool: usize,
    scope: Option<(Identity, usize)>,
    alive: Option<usize>,
    hint: Option<usize>,
) -> (route: Route)
    ensures
        route == route_of(pool, scope, alive, hint),
        route is Dropped ==> alive is None,
        alive is Some && !(route is Local) ==> route is Injector,
{
    match scope {
        Some((identity, workers)) => {
            if identity.pool == pool && identity.worker < workers {
                return Route::Local(identity.worker);
            }
        },
        None => {},
    }
    match alive {
        None => Route::Dropped,
        Some(workers) => match worker_for(hint, workers) {
            Some(worker) => Route::Local(worker),
            None => Route::Injector,
        },
    }
}

/// Where a woken task goes.
pub open spec fn route_of(
    pool: usize,
    scope: Option<(Identity, usize)>,
    alive: Option<usize>,
    hint: Option<usize>,
) -> Route {
    let asked = match alive {
        None => Route::Dropped,
        Some(workers) => match usable(hint, workers) {
            Some(worker) => Route::Local(worker),
            None => Route::Injector,
        },
    };
    match scope {
        Some((identity, workers)) => if identity.pool == pool && identity.worker < workers {
            Route::Local(identity.worker)
        } else {
            asked
        },
        None => asked,
    }
}

/// A task is never sent to a worker that its pool does not have, whatever the
/// host says.
pub proof fn law_a_route_stays_inside_the_pool(
    pool: usize,
    scope: Option<(Identity, usize)>,
    workers: usize,
    hint: Option<usize>,
)
    requires
        scope matches Some((identity, width)) ==> identity.pool == pool ==> width == workers,
    ensures
        (match route_of(pool, scope, Some(workers), hint) {
            Route::Local(worker) => worker < workers,
            Route::Injector => true,
            Route::Dropped => false,
        }),
{
}

/// A wake on a worker of another pool says nothing about where the task goes:
/// routing depends on identity.
pub proof fn law_another_pools_worker_is_no_hint(identity: Identity, pool: usize, width: usize, alive: Option<usize>, hint: Option<usize>)
    requires
        identity.pool != pool,
    ensures
        worker_in(Some(identity), pool) is None,
        route_of(pool, Some((identity, width)), alive, hint) == route_of(pool, None, alive, hint),
{
}

/// A wake on a worker of the task's own pool goes to that very worker, whatever
/// the host says and whether or not the pool is asked for.
pub proof fn law_a_wake_on_a_worker_stays_there(
    pool: usize,
    worker: usize,
    width: usize,
    alive: Option<usize>,
    hint: Option<usize>,
)
    requires
        worker < width,
    ensures
        route_of(pool, Some((Identity { pool, worker }, width)), alive, hint) == Route::Local(
            worker,
        ),
        worker_in(Some(Identity { pool, worker }), pool) == Some(worker),
{
}

/// Any other wake goes where the host says, if the pool has that worker; to the
/// injector where it says nothing that can be used; and nowhere once the pool is
/// gone.
pub proof fn law_any_other_wake_goes_where_the_host_says(
    pool: usize,
    scope: Option<(Identity, usize)>,
    workers: usize,
    hint: usize,
)
    requires
        scope matches Some((identity, width)) ==> identity.pool != pool || identity.worker >= width,
    ensures
        hint < workers ==> route_of(pool, scope, Some(workers), Some(hint)) == Route::Local(hint),
        hint >= workers ==> route_of(pool, scope, Some(workers), Some(hint)) == Route::Injector,
        route_of(pool, scope, Some(workers), None) == Route::Injector,
        route_of(pool, scope, None, Some(hint)) == Route::Dropped,
        route_of(pool, scope, None, None) == Route::Dropped,
        hint < workers ==> usable(Some(hint), workers) == Some(hint),
        hint >= workers ==> usable(Some(hint), workers) is None,
        worker_in(None, pool) is None,
{
}

} // verus!
