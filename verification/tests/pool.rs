use std::collections::VecDeque;

use nagoya::block_on::{DriveEvent, DriveStep, Signal};
use nagoya::fork::{Counts, Hooks, Moment, Scope};
use nagoya::par::{leaf_size, run, work, Cancel, LoopStep, ParFor, Shared, Span};
use nagoya::runtime::{route_reactor_wake, shared_threads, supported_default_threads, Builder};
use nagoya::task::{schedule, worker_for, Current, Identity, Route};
use nagoya::yield_now::{yield_now, Turn};

/// A loop with a queue of pieces in place of a pool.
struct Running {
    loop_: ParFor,
    shared: Shared<u32, &'static str>,
    cancel: Cancel,
    queue: VecDeque<Span>,
}

impl Running {
    fn new(start: usize, end: usize, workers: usize) -> Self {
        Running {
            loop_: ParFor::new(Span { start, end }, workers),
            shared: Shared::new(),
            cancel: Cancel::new(),
            queue: VecDeque::new(),
        }
    }

    /// Poll the loop; whether it is over.
    fn poll(&mut self) -> bool {
        loop {
            match self.loop_.poll(&mut self.shared, &self.cancel, 0).step {
                LoopStep::Submit(span) => self.queue.push_back(span),
                LoopStep::Pending => return false,
                LoopStep::Ready(panic) => {
                    assert_eq!(panic, None);
                    return true;
                }
            }
        }
    }

    /// Run queued pieces until the loop is over.
    fn finish(&mut self, mut body: impl FnMut(usize, &mut Cancel)) {
        while !self.poll() {
            let span = self.queue.pop_front().expect("a loop waits for its pieces");
            let leaf = self.loop_.piece_size();
            if let Some(done) = run(true, span, leaf, &mut self.cancel) {
                for given in done.given {
                    self.shared.publish();
                    self.queue.push_back(given);
                }
                for index in done.kept.start..done.kept.end {
                    body(index, &mut self.cancel);
                }
            }
            self.shared.retire();
        }
    }
}

#[test]
fn a_parallel_loop_covers_its_range() {
    let mut running = Running::new(0, 10_000, 4);
    let mut seen = vec![0; 10_000];
    running.finish(|i, _| seen[i] += 1);
    for (index, hits) in seen.iter().enumerate() {
        assert_eq!(*hits, 1, "index {index}");
    }
    assert!(running.queue.is_empty());
}

#[test]
fn an_empty_parallel_loop_finishes() {
    let mut running = Running::new(5, 5, 2);
    let mut hits = 0;
    running.finish(|_, _| hits += 1);
    assert_eq!(hits, 0);
}

#[test]
fn a_task_can_await_a_parallel_loop() {
    let mut running = Running::new(0, 1_000, 4);
    let mut hits = 0;
    running.finish(|_, _| hits += 1);
    assert_eq!(hits, 1_000);
}

#[test]
fn a_cancelled_loop_stops_early() {
    let mut running = Running::new(0, 1_000_000, 4);
    running.loop_ = running.loop_.leaf(64);
    running.cancel.cancel();
    let mut done = 0;
    running.finish(|_, _| done += 1);
    assert!(done < 1_000_000, "a cancelled loop ran every item");
    assert_eq!(done, 0);
}

#[test]
fn a_body_can_stop_its_own_loop() {
    let mut running = Running::new(0, 2_000_000, 4);
    running.loop_ = running.loop_.leaf(64);
    let mut seen = 0;
    running.finish(|_, cancel| {
        if seen >= 1_000 {
            cancel.cancel();
        }
        seen += 1;
    });
    assert!(running.cancel.is_cancelled());
    assert!(seen >= 1_000, "stopped before it found anything: {seen}");
    assert!(seen < 2_000_000, "the body never stopped the loop: {seen}");
}

#[test]
fn a_reversed_empty_range_finishes_without_starting_workers() {
    let mut running = Running::new(10, 5, 1);
    assert!(running.poll());
    assert!(running.queue.is_empty(), "empty range ran");
}

#[test]
fn dropping_a_pool_retires_queued_parallel_pieces() {
    let mut running = Running::new(0, 10, 1);
    assert!(!running.poll());
    let span = running.queue.pop_front().expect("one piece was handed over");
    let leaf = running.loop_.piece_size();
    assert!(run(false, span, leaf, &mut running.cancel).is_none(), "unrun body");
    assert!(running.cancel.is_cancelled());
    assert_eq!(running.shared.retire(), Some(0));
    assert!(running.poll());
}

#[test]
fn a_panicking_piece_ends_the_loop_with_its_first_payload() {
    let mut running = Running::new(0, 32, 1);
    running.loop_ = running.loop_.leaf(1);
    assert!(!running.poll());
    let span = running.queue.pop_front().expect("one piece was handed over");
    let done = work(span, 1, &running.cancel).expect("not cancelled");
    assert_eq!((done.kept.start, done.kept.end), (0, 1));
    assert_eq!(done.given.len(), 5);
    for _ in &done.given {
        running.shared.publish();
    }
    assert_eq!(running.shared.panicked(&mut running.cancel, "first"), None);
    assert_eq!(running.shared.panicked(&mut running.cancel, "second"), Some("second"));
    for given in done.given {
        assert!(run(true, given, 1, &mut running.cancel).is_none());
        running.shared.retire();
    }
    assert!(!running.shared.is_finished());
    assert_eq!(running.shared.retire(), Some(0));
    let turn = running.loop_.poll(&mut running.shared, &running.cancel, 0);
    assert!(matches!(turn.step, LoopStep::Ready(Some("first"))));
}

#[test]
fn a_piece_is_an_eighth_of_a_workers_share() {
    assert_eq!(leaf_size(10_000, 4), 312);
    assert_eq!(leaf_size(0, 4), 1);
    assert_eq!(leaf_size(7, 1), 1);
    assert_eq!(Span { start: 3, end: 10 }.len(), 7);
    assert_eq!(Span { start: 10, end: 3 }.len(), 0);
    assert_eq!(ParFor::new(Span { start: 0, end: 10 }, 1).leaf(0).piece_size(), 1);
}

/// Drive a future to its output on this thread; `park` stands for parking.
fn drive<T>(
    signal: &mut Signal,
    mut poll: impl FnMut(&mut Signal) -> Option<T>,
    mut park: impl FnMut(&mut Signal),
) -> T {
    let mut event = DriveEvent::Start;
    loop {
        event = match signal.block_on(event) {
            DriveStep::Poll => match poll(signal) {
                Some(output) => return output,
                None => DriveEvent::Pending,
            },
            DriveStep::Park => {
                park(signal);
                DriveEvent::Unparked
            }
        };
    }
}

#[test]
fn block_on_returns_a_ready_future() {
    let mut polls = 0;
    let output = drive(
        &mut Signal::new(),
        |_| {
            polls += 1;
            Some(7)
        },
        |_| panic!("a ready future was waited for"),
    );
    assert_eq!(output, 7);
    assert_eq!(polls, 1);
}

#[test]
fn block_on_polls_again_after_each_wake() {
    let mut polls = 0;
    let mut parks = 0;
    let output = drive(
        &mut Signal::new(),
        |_| {
            polls += 1;
            if polls == 3 {
                Some(polls)
            } else {
                None
            }
        },
        |signal| {
            parks += 1;
            // Every other park ends for no reason.
            if parks % 2 == 0 {
                signal.wake();
            }
        },
    );
    assert_eq!(output, 3);
    assert_eq!(parks, 4);
}

#[test]
fn dropping_a_loop_cancels_it() {
    let mut cancel = Cancel::new();
    let loop_ = ParFor::new(Span { start: 0, end: 1_000_000 }, 4);
    assert!(!cancel.is_cancelled());
    loop_.give_up(&mut cancel);
    assert!(cancel.is_cancelled(), "dropping the future did not cancel it");
    assert!(run(true, Span { start: 0, end: 1_000_000 }, 64, &mut cancel).is_none());
}

#[test]
fn block_on_waits_for_a_wake_from_another_thread() {
    let mut signal = Signal::new();
    assert_eq!(signal.block_on(DriveEvent::Start), DriveStep::Poll);
    assert_eq!(signal.block_on(DriveEvent::Pending), DriveStep::Park);
    // A park may end for no reason: the future is not polled for it.
    assert_eq!(signal.block_on(DriveEvent::Unparked), DriveStep::Park);
    signal.wake();
    assert_eq!(signal.block_on(DriveEvent::Unparked), DriveStep::Poll);
    assert_eq!(signal.block_on(DriveEvent::Pending), DriveStep::Park);
}

#[test]
fn a_wake_delivered_during_a_poll_is_kept_for_the_next() {
    let mut signal = Signal::new();
    let mut polled = false;
    let mut step = signal.block_on(DriveEvent::Start);
    let out = loop {
        assert_eq!(step, DriveStep::Poll, "the wake was lost");
        if polled {
            break 42;
        }
        polled = true;
        signal.wake();
        step = signal.block_on(DriveEvent::Pending);
    };
    assert_eq!(out, 42);
}

#[test]
fn a_task_can_yield_its_worker() {
    // A worker's queue of two tasks, run one poll at a time.
    let mut queue = VecDeque::from(["long", "short"]);
    let mut yields = 0;
    let mut current = yield_now();
    let mut order = 0;
    let (mut long, mut short) = (None, None);
    while let Some(task) = queue.pop_front() {
        if task == "short" {
            short = Some(order);
            order += 1;
            continue;
        }
        loop {
            if yields == 8 {
                long = Some(order);
                order += 1;
                break;
            }
            match current.poll() {
                Turn::WakeAndWait => {
                    queue.push_back("long");
                    break;
                }
                Turn::Ready => {
                    yields += 1;
                    current = yield_now();
                }
            }
        }
    }
    assert_eq!(long, Some(1), "the yielding task did not let the other in");
    assert_eq!(short, Some(0));
}

#[test]
fn routing_depends_on_identity_not_probabilistic_thread_migration() {
    let (a, b) = (100, 200);
    let workers = 2;
    let mut current = Current::new();
    assert_eq!(worker_for(current.current_worker(a), workers), None);
    {
        let outer = current.mark_current(Identity { pool: a, worker: 1 });
        assert_eq!(worker_for(current.current_worker(a), workers), Some(1));
        assert_eq!(worker_for(current.current_worker(b), workers), None);
        {
            let inner = current.mark_current(Identity { pool: b, worker: 0 });
            assert_eq!(worker_for(current.current_worker(a), workers), None);
            assert_eq!(worker_for(current.current_worker(b), workers), Some(0));
            current.restore(inner);
        }
        assert_eq!(worker_for(current.current_worker(a), workers), Some(1));
        current.restore(outer);
    }
    assert_eq!(worker_for(current.current_worker(a), workers), None);
}

#[test]
fn host_identity_routes_without_a_thread_local_marker() {
    let (a, b) = (100, 200);
    let workers = 2;
    let says = |pool: usize, worker: usize| if pool == a { Some(worker) } else { None };
    assert_eq!(worker_for(says(a, 1), workers), Some(1));
    assert_eq!(worker_for(says(b, 1), workers), None);
    assert_eq!(worker_for(says(a, usize::MAX), workers), None);
}

#[test]
fn a_woken_task_goes_to_the_worker_that_woke_it_or_to_the_injector() {
    let on = |pool: usize, worker: usize| Some((Identity { pool, worker }, 4));
    assert_eq!(schedule(7, on(7, 3), None, None), Route::Local(3));
    assert_eq!(schedule(7, on(8, 3), Some(4), None), Route::Injector);
    assert_eq!(schedule(7, None, Some(4), Some(2)), Route::Local(2));
    assert_eq!(schedule(7, None, Some(4), Some(4)), Route::Injector);
    assert_eq!(schedule(7, None, None, Some(2)), Route::Dropped);
}

#[test]
fn an_owned_runtime_installs_worker_identity() {
    let pool = 31;
    let threads = Builder::new(1, ()).label("identity-test").start();
    let mut current = Current::new();
    let guard = current.mark_current(Identity {
        pool,
        worker: threads[0].worker,
    });
    assert_eq!(current.current_worker(pool), Some(0));
    current.restore(guard);
    assert_eq!(current.current_worker(pool), None);
}

#[test]
fn a_built_runtime_gives_its_workers_the_stack_it_asked_for() {
    let threads = Builder::new(8, ())
        .workers(1)
        .label("stack-test")
        .stack_size(16 * 1024 * 1024)
        .start();
    assert_eq!(threads.len(), 1);
    assert_eq!(threads[0].name, "stack-test-0");
    assert_eq!(threads[0].stack_size, Some(16 * 1024 * 1024));
}

#[test]
fn automatic_worker_count_respects_the_bitmap_capacity() {
    assert_eq!(supported_default_threads(0), 1);
    assert_eq!(supported_default_threads(2), 2);
    assert_eq!(supported_default_threads(usize::MAX), usize::BITS as usize);
}

#[test]
fn the_default_pool_is_as_wide_as_the_fast_cores() {
    assert_eq!(shared_threads(Some(4), Some(10)), 4);
    assert_eq!(shared_threads(None, Some(10)), 10);
    assert_eq!(shared_threads(None, None), 2);
    assert_eq!(shared_threads(Some(0), Some(10)), 1);
}

#[test]
fn threads_are_named_after_their_pool() {
    let builder = Builder::new(0, "idle").tuning("spin").workers(11);
    assert_eq!(*builder.get_tuning(), "spin");
    let threads = builder.start();
    assert_eq!(threads.len(), 11);
    assert_eq!(threads[0].name, "nagoya-0");
    assert_eq!(threads[10].name, "nagoya-10");
    assert_eq!(threads[10].worker, 10);
    assert_eq!(threads[10].stack_size, None);
    assert_eq!(Builder::new(0, ()).start().len(), 1);
}

#[test]
fn a_descriptor_keeps_its_worker() {
    assert_eq!(route_reactor_wake(13, Some(4)), Some(1));
    assert_eq!(route_reactor_wake(13, Some(0)), Some(0));
    assert_eq!(route_reactor_wake(13, None), None);
}

#[test]
fn the_last_running_thread_reports_the_deadlock() {
    let hooks = Hooks {
        on_acquire: Some(()),
        on_release: Some(()),
        on_deadlock: Some(()),
    };
    let mut counts = Counts::new(2);
    assert_eq!(
        counts.mark_blocked_and_wait(&hooks),
        vec![Moment::Release, Moment::Wait, Moment::Acquire, Moment::Unblock]
    );
    assert!(!counts.is_deadlocked());
    assert_eq!(
        counts.mark_blocked_and_wait(&hooks),
        vec![
            Moment::Deadlock,
            Moment::Release,
            Moment::Wait,
            Moment::Acquire,
            Moment::Unblock
        ]
    );
    assert!(counts.is_deadlocked());
    counts.mark_unblocked();
    assert!(!counts.is_deadlocked());
    let silent: Hooks<()> = Hooks::default();
    assert_eq!(counts.mark_blocked_and_wait(&silent), vec![Moment::Wait, Moment::Unblock]);
}

#[test]
fn a_scope_waits_for_what_it_spawned() {
    let mut scope = Scope::new();
    assert!(!scope.must_wait());
    scope.spawn();
    scope.spawn();
    scope.finish();
    assert!(scope.must_wait());
    scope.finish();
    assert!(!scope.must_wait());
}
