//! A pool that owns its threads: how many, what they are called, and where a
//! wake goes.
use vstd::prelude::*;
use vstd::string::StringExecFns;

use crate::text::{digits, law_digits_read_back, push_unsigned};

verus! {

/// A number of workers that a pool can have: at least one, and at most as many
/// as its bitmap has bits.
pub open spec fn clamped(available: int) -> int {
    if available < 1 {
        1
    } else if available > usize::BITS {
        usize::BITS as int
    } else {
        available
    }
}

/// The number of workers to start where `available` could run.
pub fn supported_default_threads(available: usize) -> (threads: usize)
    ensures
        threads == clamped(available as int),
        0 < threads <= usize::BITS,
{
    if available < 1 {
        1
    } else if available > usize::BITS as usize {
        usize::BITS as usize
    } else {
        available
    }
}

/// Threads for the shared pool: the machine's parallelism, except that where
/// the platform tells fast cores from slow ones it is the number of the fast.
///
/// A pool sized onto the slow cores puts part of its workers somewhere a task
/// takes several times longer, and stealing does not rescue a task that is
/// already running there.
pub fn shared_threads(performance: Option<usize>, available: Option<usize>) -> (threads: usize)
    ensures
        threads == clamped(
            match performance {
                Some(cores) => cores as int,
                None => match available {
                    Some(cores) => cores as int,
                    None => 2,
                },
            },
        ),
        0 < threads <= usize::BITS,
{
    let wanted: usize = match performance {
        Some(cores) => cores,
        None => match available {
            Some(cores) => cores,
            None => 2,
        },
    };
    supported_default_threads(wanted)
}

/// A pool described before it is started. `T` is its idle policy.
pub struct Builder<T> {
    workers: usize,
    tuning: T,
    label: String,
    stack_size: Option<usize>,
}

/// A [`Builder`] as its users see it.
pub struct BuilderView<T> {
    pub workers: usize,
    pub tuning: T,
    pub label: Seq<char>,
    pub stack_size: Option<usize>,
}

/// A thread to start.
pub struct ThreadPlan {
    /// The worker it is.
    pub worker: usize,
    /// What it is called.
    pub name: String,
    /// How large its stack is; the platform's default where this is `None`.
    pub stack_size: Option<usize>,
}

impl<T> View for Builder<T> {
    type V = BuilderView<T>;

    closed spec fn view(&self) -> BuilderView<T> {
        BuilderView {
            workers: self.workers,
            tuning: self.tuning,
            label: self.label@,
            stack_size: self.stack_size,
        }
    }
}

impl<T> BuilderView<T> {
    /// How many threads are started: zero means one.
    pub open spec fn threads(self) -> nat {
        if self.workers == 0 {
            1
        } else {
            self.workers as nat
        }
    }

    /// What the thread of a worker is called.
    pub open spec fn thread_name(self, worker: nat) -> Seq<char> {
        self.label + "-"@ + digits(worker)
    }
}

impl<T> Builder<T> {
    /// A pool with `threads` workers and this policy, whose threads are called
    /// after the crate.
    pub fn new(threads: usize, tuning: T) -> (builder: Self)
        ensures
            builder@ == (BuilderView {
                workers: threads,
                tuning,
                label: "nagoya"@,
                stack_size: None,
            }),
    {
        Builder { workers: threads, tuning, label: String::from_str("nagoya"), stack_size: None }
    }

    /// Worker threads. Zero means one.
    pub fn workers(self, workers: usize) -> (builder: Self)
        ensures
            builder@ == (BuilderView { workers, ..self@ }),
    {
        Builder { workers, tuning: self.tuning, label: self.label, stack_size: self.stack_size }
    }

    /// The idle policy.
    pub fn tuning(self, tuning: T) -> (builder: Self)
        ensures
            builder@ == (BuilderView { tuning, ..self@ }),
    {
        Builder { workers: self.workers, tuning, label: self.label, stack_size: self.stack_size }
    }

    /// Threads are named by this, a hyphen and the worker's number.
    pub fn label(self, label: &str) -> (builder: Self)
        ensures
            builder@ == (BuilderView { label: label@, ..self@ }),
    {
        Builder {
            workers: self.workers,
            tuning: self.tuning,
            label: String::from_str(label),
            stack_size: self.stack_size,
        }
    }

    /// Each worker thread's stack, in bytes.
    pub fn stack_size(self, bytes: usize) -> (builder: Self)
        ensures
            builder@ == (BuilderView { stack_size: Some(bytes), ..self@ }),
    {
        Builder {
            workers: self.workers,
            tuning: self.tuning,
            label: self.label,
            stack_size: Some(bytes),
        }
    }

    /// The idle policy that was chosen.
    pub fn get_tuning(&self) -> (tuning: &T)
        ensures
            *tuning == self@.tuning,
    {
        &self.tuning
    }

    /// The threads to start. No more than the pool's bitmap has bits.
    pub fn start(&self) -> (threads: Vec<ThreadPlan>)
        requires
            self@.workers <= usize::BITS,
        ensures
            threads@.len() == self@.threads(),
            forall|i: int|
                #![trigger threads@[i]]
                0 <= i < threads@.len() ==> {
                    &&& threads@[i].worker == i
                    &&& threads@[i].name@ == self@.thread_name(i as nat)
                    &&& threads@[i].stack_size == self@.stack_size
                },
    {
        let workers: usize = if self.workers == 0 {
            1
        } else {
            self.workers
        };
        let mut threads: Vec<ThreadPlan> = Vec::new();
        let mut id: usize = 0;
        while id < workers
            invariant
                id <= workers,
                threads@.len() == id,
                forall|i: int|
                    #![trigger threads@[i]]
                    0 <= i < id ==> {
                        &&& threads@[i].worker == i
                        &&& threads@[i].name@ == self@.thread_name(i as nat)
                        &&& threads@[i].stack_size == self@.stack_size
                    },
            decreases workers - id,
        {
            let mut name: String = self.label.clone();
            name.append("-");
            push_unsigned(&mut name, id as u64);
            threads.push(ThreadPlan { worker: id, name, stack_size: self.stack_size });
            id = id + 1;
        }
        threads
    }
}

/// The worker that a wake from the reactor goes to, where a shared pool of
/// `workers` is running. Each descriptor keeps one worker, and different
/// descriptors spread over the pool.
pub fn route_reactor_wake(index: u64, workers: Option<usize>) -> (worker: Option<usize>)
    ensures
        worker is Some <==> workers is Some,
        worker is Some && workers->0 > 0 ==> worker->0 < workers->0,
        worker is Some ==> worker->0 == (index as int) % (if workers->0 == 0 {
            1int
        } else {
            workers->0 as int
        }),
{
    match workers {
        Some(workers) => {
            let width: u64 = if workers == 0 {
                1
            } else {
                workers as u64
            };
            Some((index % width) as usize)
        },
        None => None,
    }
}

/// A pool is as wide as it was asked to be, where its bitmap can hold that many;
/// at least one worker wide, and never wider than the bitmap.
pub proof fn law_a_pool_is_as_wide_as_asked(available: int)
    ensures
        1 <= available <= usize::BITS ==> clamped(available) == available,
        available < 1 ==> clamped(available) == 1,
        available > usize::BITS ==> clamped(available) == usize::BITS,
{
}

/// Every thread of a pool has a name of its own: the label, a hyphen and the
/// worker's number.
pub proof fn law_threads_have_names_of_their_own<T>(builder: BuilderView<T>, a: nat, b: nat)
    ensures
        builder.thread_name(a) == builder.label + "-"@ + digits(a),
        a != b ==> builder.thread_name(a) != builder.thread_name(b),
        builder.threads() == (if builder.workers == 0 {
            1
        } else {
            builder.workers as nat
        }),
{
    if builder.thread_name(a) == builder.thread_name(b) {
        let before = (builder.label + "-"@).len() as int;
        assert(builder.thread_name(a).skip(before) =~= digits(a));
        assert(builder.thread_name(b).skip(before) =~= digits(b));
        law_digits_read_back(a);
        law_digits_read_back(b);
    }
}

} // verus!
