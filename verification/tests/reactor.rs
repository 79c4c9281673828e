use nagoya::io::StreamError;
use nagoya::reactor::counters::{take, take_writes, Counters};
use nagoya::reactor::driver::{
    make_token, split_token, Reactor, Registration, Sharded, GENERATIONS, INDICES, NO_DEADLINE,
};
use nagoya::reactor::error::{transient_accept, Errno, BROKEN_PIPE, CONNECTION_RESET};
use nagoya::reactor::local::{LocalLoop, LoopEvent, LoopStep, TaskSet};
use nagoya::reactor::net::{poll_accept, Step, TcpStream, WriteAllVectored, BACKLOG};
use nagoya::reactor::poller::{mask, timeout_ms, wait, wake, Event, Interest, RawEvent, WAKE_TOKEN};
use nagoya::reactor::resolve::{resolve, ConnectAny, ResolveError};
use nagoya::reactor::signal::{read_one, ArmEvent, ArmStep, Claims, Signal, SignalFds, SignalKind};
use nagoya::reactor::socket::{
    addr_of, check, Addr, Fd, SockAddr, TcpListener, TcpSocket, UnixPath, UNIX_PATH_CAPACITY,
};
use nagoya::time::{sleep_until, Timers};
use nagoya::yield_now::{yield_now, Turn as Yield, YieldNow};

const READABLE: u32 = 1;
const WRITABLE: u32 = 4;
const ERROR: u32 = 8;
const HANGUP: u32 = 0x10;
const HALF_CLOSE: u32 = 0x2000;

fn registered(reactor: &mut Reactor<u32>, fd: i32) -> Registration {
    let registration = reactor.reserve(fd);
    reactor.register(registration, Ok(())).expect("register")
}

fn readable(registration: &Registration) -> Event {
    Event {
        token: registration.watched().1,
        readable: true,
        writable: false,
        hangup: false,
    }
}

// ---- the poller ----

#[test]
fn reports_readability_only_after_data_arrives() {
    // Nothing written yet: the wait times out rather than reports.
    let mut events = Vec::new();
    assert_eq!(wait(Ok(vec![]), &mut events), Ok(false));
    assert!(events.is_empty(), "readable with no data pending");

    let arrived = RawEvent { events: READABLE, token: 42 };
    assert_eq!(wait(Ok(vec![arrived]), &mut events), Ok(false));
    assert_eq!(events.len(), 1, "no event after write");
    assert_eq!(events[0].token, 42);
    assert!(events[0].readable);
    assert!(!events[0].writable);
    assert!(!events[0].hangup);
}

#[test]
fn a_wake_before_the_wait_is_not_lost() {
    assert_eq!(wake(8, 0), Ok(()));
    // A counter that is full already has a wake pending.
    assert_eq!(wake(-1, 11), Ok(()));
    assert_eq!(wake(-1, 9), Err(StreamError(9)));

    let mut events = Vec::new();
    let woken = RawEvent { events: READABLE, token: WAKE_TOKEN };
    assert_eq!(wait(Ok(vec![woken]), &mut events), Ok(true), "an earlier wake was swallowed");
    assert!(events.is_empty(), "wake produced a spurious event");
}

#[test]
fn modify_can_narrow_an_interest() {
    // A fresh socket is writable, so watching both directions reports it.
    assert_ne!(mask(Interest::both()) & WRITABLE, 0);
    let mut events = Vec::new();
    let answer = RawEvent { events: WRITABLE, token: 7 };
    wait(Ok(vec![answer]), &mut events).expect("wait");
    assert!(
        events.iter().any(|event| event.writable),
        "expected writability on a fresh socket"
    );

    // Narrowing to readable must drop the write filter, not leave it live.
    assert_eq!(
        mask(Interest::readable()) & WRITABLE,
        0,
        "write interest survived being narrowed"
    );

    // Reads still arrive.
    assert_ne!(mask(Interest::readable()) & READABLE, 0);
    events.clear();
    let answer = RawEvent { events: READABLE, token: 7 };
    wait(Ok(vec![answer]), &mut events).expect("wait");
    assert!(events.iter().any(|event| event.readable), "lost readability");
}

#[test]
fn a_timeout_of_zero_returns_immediately() {
    assert_eq!(timeout_ms(Some(0)), 0, "zero timeout blocked");
}

#[test]
fn a_timeout_is_rounded_up_to_the_unit_of_the_wait() {
    assert_eq!(timeout_ms(None), -1);
    assert_eq!(timeout_ms(Some(1)), 1);
    assert_eq!(timeout_ms(Some(1_000_000)), 1);
    assert_eq!(timeout_ms(Some(1_000_001)), 2);
    assert_eq!(timeout_ms(Some(u64::MAX)), i32::MAX);
}

#[test]
fn masks_hold_the_kernels_numbers() {
    assert_eq!(mask(Interest::readable()), 0x8000_2001);
    assert_eq!(mask(Interest::writable()), 0x8000_0004);
    assert_eq!(mask(Interest::both()), 0x8000_2005);
    assert_eq!(
        mask(Interest::readable()),
        (libc::EPOLLET | libc::EPOLLIN | libc::EPOLLRDHUP) as u32
    );
}

#[test]
fn a_failure_is_readiness_in_both_directions_and_a_half_close_is_a_hangup() {
    let mut events = Vec::new();
    let raw = vec![
        RawEvent { events: ERROR, token: 1 },
        RawEvent { events: HANGUP, token: 2 },
        RawEvent { events: READABLE | HALF_CLOSE, token: 3 },
        RawEvent { events: READABLE, token: WAKE_TOKEN },
    ];
    assert_eq!(wait(Ok(raw), &mut events), Ok(true));
    let seen: Vec<_> = events
        .iter()
        .map(|event| (event.token, event.readable, event.writable, event.hangup))
        .collect();
    assert_eq!(
        seen,
        [(1, true, true, true), (2, true, true, true), (3, true, false, true)]
    );
    assert_eq!(wait(Err(StreamError(4)), &mut events), Ok(false));
    assert_eq!(wait(Err(StreamError(9)), &mut events), Err(StreamError(9)));
    assert_eq!(events.len(), 3);
}

// ---- the driver ----

#[test]
fn wakes_a_reader_when_data_arrives() {
    let mut reactor = Reactor::new();
    let registration = registered(&mut reactor, 5);
    assert!(
        registration.take_readable_or_park(&mut reactor, Some(1)).ready,
        "a new registration must assume it may be readable"
    );
    // Taken, so the next question parks: nothing has arrived since.
    assert!(
        !registration.take_readable_or_park(&mut reactor, Some(1)).ready,
        "readable twice with no edge in between"
    );
    let woken = reactor.dispatch(&[readable(&registration)]);
    assert_eq!(woken, vec![(0, 1)]);
    assert!(
        registration.take_readable_or_park(&mut reactor, Some(1)).ready,
        "reader was never woken"
    );
}

#[test]
fn a_dropped_registration_stops_waking() {
    let mut reactor = Reactor::new();
    let registration = registered(&mut reactor, 5);
    let event = readable(&registration);
    // Twice: the first takes the readiness a new registration starts with, the
    // second parks the waker this test is about.
    let _ = registration.take_readable_or_park(&mut reactor, Some(1));
    let _ = registration.take_readable_or_park(&mut reactor, Some(1));
    let dropped = reactor.deregister(registration).expect("registered");
    assert_eq!(dropped.reader, Some(1));

    assert_eq!(
        reactor.dispatch(&[event]).len(),
        0,
        "a dropped registration still woke its task"
    );
    let fresh = registered(&mut reactor, 5);
    assert_ne!(fresh.watched().1, event.token);
    assert_eq!(reactor.dispatch(&[event]).len(), 0);
}

#[test]
fn shuts_down_promptly_while_blocked() {
    let mut reactor: Reactor<u32> = Reactor::new();
    assert!(reactor.run(&Ok(())));
    assert!(!reactor.run(&Err(StreamError(9))), "a broken poller is not waited on again");
    reactor.stop();
    assert!(!reactor.run(&Ok(())));
}

#[test]
fn a_sooner_timer_replaces_the_cached_deadline_and_a_later_one_does_not() {
    let mut reactor: Reactor<u32> = Reactor::new();
    assert_eq!(reactor.next_deadline(), NO_DEADLINE);
    assert!(reactor.timer_armed(2_000));
    assert!(reactor.timer_armed(1_000));
    assert!(!reactor.timer_armed(2_000));
    assert_eq!(reactor.next_deadline(), 1_000, "a later timer pushed the deadline back");

    let registration = registered(&mut reactor, 3);
    for _ in 0..50 {
        registration.poll_readable(&mut reactor, Some(1));
        reactor.dispatch(&[readable(&registration)]);
    }
    assert_eq!(reactor.next_deadline(), 1_000, "socket traffic moved the timer deadline");
}

#[test]
fn a_wait_after_a_timer_fired_does_not_block() {
    let mut reactor = Reactor::new();
    let mut timers = Timers::new();
    let mut due = sleep_until(1_000);
    assert!(due.poll(&mut timers, 0, 7).nudge);
    reactor.timer_armed(1_000);
    assert_eq!(reactor.poll_once(&mut timers, 400), (vec![], Some(600)));
    assert_eq!(reactor.poll_once(&mut timers, 1_000), (vec![7], Some(0)));
    assert_eq!(reactor.next_deadline(), NO_DEADLINE);
    assert_eq!(reactor.poll_once(&mut timers, 1_000), (vec![], None));
    assert_eq!(
        reactor.poll_once_timeout(&mut timers, 1_000, Some(3)),
        (vec![], Some(3_000_000)),
        "a cap is in milliseconds"
    );
    assert_eq!(reactor.poll_once_timeout(&mut timers, 1_000, Some(0)), (vec![], Some(0)));

    let mut late = sleep_until(9_000);
    late.poll(&mut timers, 1_000, 8);
    assert_eq!(reactor.service_timers(&mut timers, 1_000), (vec![], Some(8_000)));
    assert_eq!(
        reactor.poll_once_timeout(&mut timers, 1_000, Some(1)),
        (vec![], Some(8_000))
    );
}

#[test]
fn a_token_holds_an_index_and_a_generation() {
    let token = make_token(7, 3);
    assert_eq!(token, 3 * 0x1_0000_0000_0000 + 7);
    assert_eq!(split_token(token), (7, 3));
    assert_eq!(
        split_token(make_token(INDICES - 1, GENERATIONS - 1)),
        (INDICES - 1, GENERATIONS - 1)
    );
}

#[test]
fn an_event_reaches_only_its_own_descriptor() {
    let mut reactor = Reactor::new();
    let a = registered(&mut reactor, 3);
    let b = registered(&mut reactor, 4);
    assert_eq!(a.watched(), (3, INDICES));
    assert_eq!(b.watched(), (4, INDICES + 1));
    for registration in [&a, &b] {
        registration.take_readable_or_park(&mut reactor, None);
        registration.take_writable_or_park(&mut reactor, None);
    }
    a.poll_readable(&mut reactor, Some(10));
    a.poll_writable(&mut reactor, Some(11));
    b.poll_readable(&mut reactor, Some(20));
    assert_eq!(a.reader(&reactor), Some(&10));
    assert_eq!(a.writer(&reactor), Some(&11));
    let both = Event {
        token: a.watched().1,
        readable: true,
        writable: true,
        hangup: false,
    };
    assert_eq!(reactor.dispatch(&[both]), vec![(0, 10), (0, 11)]);
    assert_eq!(b.reader(&reactor), Some(&20));
    assert!(!b.take_readable_or_park(&mut reactor, Some(21)).ready);
    assert!(a.take_writable_or_park(&mut reactor, Some(12)).ready);
    assert!(!a.take_writable_or_park(&mut reactor, Some(12)).ready);
}

#[test]
fn an_edge_in_either_direction_is_kept_and_calls_who_waits() {
    let mut reactor = Reactor::new();
    let registration = registered(&mut reactor, 5);
    assert!(registration.take_readable_or_park(&mut reactor, None).ready);
    assert!(registration.take_writable_or_park(&mut reactor, None).ready);
    assert!(!registration.take_readable_or_park(&mut reactor, Some(1)).ready);
    assert!(!registration.take_writable_or_park(&mut reactor, Some(2)).ready);

    let both = Event { writable: true, ..readable(&registration) };
    assert_eq!(reactor.dispatch(&[both]), [(0, 1), (0, 2)]);
    assert!(registration.take_writable_or_park(&mut reactor, Some(3)).ready);
    assert!(!registration.take_writable_or_park(&mut reactor, Some(3)).ready);

    // An edge for the writer alone leaves the reader's standing as it was.
    let writable = Event { readable: false, ..both };
    assert!(registration.take_readable_or_park(&mut reactor, None).ready);
    assert!(!registration.take_readable_or_park(&mut reactor, Some(4)).ready);
    assert_eq!(reactor.dispatch(&[writable]), [(0, 3)]);
    assert!(registration.take_writable_or_park(&mut reactor, None).ready);
    assert!(!registration.take_readable_or_park(&mut reactor, None).ready);
}

#[test]
fn a_hangup_is_worth_reading_for_good() {
    let mut reactor = Reactor::new();
    let registration = registered(&mut reactor, 3);
    let gone = Event {
        hangup: true,
        ..readable(&registration)
    };
    reactor.dispatch(&[gone]);
    for _ in 0..3 {
        assert!(registration.take_readable_or_park(&mut reactor, Some(1)).ready);
    }
}

#[test]
fn a_descriptor_the_poller_refused_keeps_no_slot() {
    let mut reactor: Reactor<u32> = Reactor::new();
    let registration = reactor.reserve(3);
    let event = readable(&registration);
    assert_eq!(
        reactor.register(registration, Err(StreamError(9))).map(|_| ()),
        Err(StreamError(9))
    );
    assert!(reactor.dispatch(&[event]).is_empty());
}

#[test]
fn shards_take_their_turns() {
    let mut group = Sharded::new(4);
    assert_eq!(group.shards(), 4);
    let turns: Vec<usize> = (0..5).map(|_| group.handle()).collect();
    assert_eq!(turns, [0, 1, 2, 3, 0]);
    assert_eq!(group.handle_for(6), 2);
    assert_eq!(Sharded::new(0).shards(), 1);
}

// ---- the local loop and its tasks ----

/// Poll a set once: every task queued since the last pass, and the tasks that
/// each poll wakes. Whether everything has finished comes back.
fn pass(set: &mut TaskSet, mut poll: impl FnMut(u32, &mut Vec<u32>) -> bool) -> bool {
    set.begin();
    while let Some(task) = set.next() {
        let mut woken = Vec::new();
        if poll(task, &mut woken) {
            set.finish(task);
        }
        for index in woken {
            set.wake(index);
        }
    }
    set.is_empty()
}

#[test]
fn an_empty_task_set_is_already_done() {
    let mut tasks = TaskSet::new();
    assert!(tasks.is_empty(), "a set with no tasks should be empty");
    assert_eq!(tasks.len(), 0);
    assert!(pass(&mut tasks, |_, _| true));
}

#[test]
fn tasks_in_a_set_run_at_their_own_pace() {
    let mut tasks = TaskSet::new();
    let mut state: Vec<(&str, u32, YieldNow)> = Vec::new();
    for (label, yields) in [("slow", 8), ("fast", 1), ("middling", 4)] {
        let index = tasks.push();
        assert_eq!(index as usize, state.len());
        state.push((label, yields, yield_now()));
    }
    assert_eq!(tasks.len(), 3, "three tasks pushed");

    let mut order = Vec::new();
    loop {
        let done = pass(&mut tasks, |task, woken| {
            let (label, left, current) = &mut state[task as usize];
            while *left > 0 {
                match current.poll() {
                    Yield::WakeAndWait => {
                        woken.push(task);
                        return false;
                    }
                    Yield::Ready => {
                        *left -= 1;
                        *current = yield_now();
                    }
                }
            }
            order.push(*label);
            true
        });
        if done {
            break;
        }
    }
    assert_eq!(
        order,
        ["fast", "middling", "slow"],
        "finishing order should follow how much work each task had"
    );
}

#[test]
fn a_drained_set_takes_more_work() {
    let mut done = Vec::new();
    let mut tasks = TaskSet::new();
    let first = tasks.push();
    let mut yielded = false;
    while !pass(&mut tasks, |task, woken| {
        assert_eq!(task, first);
        if yielded {
            done.push("first");
        } else {
            woken.push(task);
        }
        std::mem::replace(&mut yielded, true)
    }) {}
    assert_eq!(done, ["first"]);
    assert!(tasks.is_empty(), "the set should have drained");

    tasks.push();
    assert_eq!(tasks.len(), 1, "a drained set still accepts work");
    while !pass(&mut tasks, |_, _| {
        done.push("second");
        true
    }) {}
    assert_eq!(done, ["first", "second"]);
}

#[test]
fn an_idle_task_is_not_polled_when_another_is_woken() {
    let mut polls = 0;
    let mut tasks = TaskSet::new();
    let idle = tasks.push();
    let busy = tasks.push();
    let mut left = 64;
    for _ in 0..200 {
        pass(&mut tasks, |task, woken| {
            if task == idle {
                polls += 1;
                return false;
            }
            if left == 0 {
                return true;
            }
            left -= 1;
            woken.push(busy);
            false
        });
    }
    assert_eq!(left, 0);
    assert_eq!(
        polls, 1,
        "the idle task should have been polled once, when it was added, and never again"
    );
}

#[test]
fn a_wake_after_a_task_finished_does_not_strand_the_rest() {
    let mut tasks = TaskSet::new();
    // Finishes first, and leaves its waker behind.
    let leaks = tasks.push();
    // Has to still run after the stale wake lands in front of it.
    tasks.push();
    let mut left = 4;
    let mut ran = false;
    for number in 0..64 {
        if number > 0 {
            tasks.wake(leaks);
        }
        pass(&mut tasks, |task, woken| {
            if task == leaks {
                return true;
            }
            if left > 0 {
                left -= 1;
                woken.push(task);
                return false;
            }
            ran = true;
            true
        });
    }
    assert!(ran, "a task queued behind a finished one should still be polled");
}

#[test]
fn a_task_woken_twice_is_queued_once_and_wakes_the_parent_once() {
    let mut tasks = TaskSet::new();
    let a = tasks.push();
    pass(&mut tasks, |_, _| false);
    assert!(tasks.wake(a), "the first wake has to wake the parent");
    assert!(!tasks.wake(a), "the second finds the task queued");
    let mut polls = 0;
    pass(&mut tasks, |_, _| {
        polls += 1;
        false
    });
    assert_eq!(polls, 1);
}

#[test]
fn a_pass_polls_once_what_was_woken_before_it_and_leaves_what_was_woken_during_it() {
    let mut tasks = TaskSet::new();
    for _ in 0..4 {
        tasks.push();
    }
    // The most recent is polled first: 3 finishes and wakes itself, 2 wakes
    // itself and 1, which is still ahead, and 0 wakes 3 and 2.
    let mut polled = Vec::new();
    let done = pass(&mut tasks, |task, woken| {
        polled.push(task);
        match task {
            3 => woken.push(3),
            2 => woken.extend([2, 1]),
            0 => woken.extend([3, 2]),
            _ => {}
        }
        task == 3
    });
    assert!(!done);
    assert_eq!(polled, [3, 2, 1, 0]);

    // 1 was polled after its wake, and 3 has finished, so only 2 is left; a
    // task that is added meanwhile comes along.
    let added = tasks.push();
    let mut polled = Vec::new();
    let done = pass(&mut tasks, |task, _| {
        polled.push(task);
        true
    });
    assert!(!done);
    assert_eq!(polled, [added, 2]);

    tasks.wake(0);
    tasks.wake(1);
    assert!(pass(&mut tasks, |_, _| true), "nothing unfinished is left");
    assert_eq!(tasks.len(), 0);
}

#[test]
fn a_local_loop_polls_what_was_woken_and_waits_otherwise() {
    let mut state = LocalLoop::new();
    assert_eq!(state.step(LoopEvent::Start, 9), LoopStep::Poll);
    assert_eq!(state.step(LoopEvent::Pending, 9), LoopStep::Wait);
    assert!(!state.wake(9), "the waiting thread does not interrupt itself");
    assert!(state.wake(4), "another thread has to");
    assert_eq!(state.step(LoopEvent::Waited, 9), LoopStep::Poll);
    assert!(state.wake(9), "the thread is not inside the wait");
    assert_eq!(state.step(LoopEvent::Pending, 9), LoopStep::Wait);
    assert_eq!(state.step(LoopEvent::WaitFailed, 9), LoopStep::Poll);
    assert_eq!(state.step(LoopEvent::PendingAfterFailure, 9), LoopStep::Poll);
    assert_eq!(state.step(LoopEvent::PendingAfterFailure, 9), LoopStep::Wait);
}

// ---- addresses ----

fn path_addr(path: &str) -> Addr {
    Addr::path(path.as_bytes()).expect("path fits")
}

#[test]
fn a_bound_path_reads_back_as_itself() {
    let path = "/tmp/nagoya-unix-roundtrip.sock";
    let mut storage = SockAddr::zeroed();
    let len = path_addr(path).write_to(&mut storage);
    assert_eq!(len as usize, 2 + path.len() + 1);
    let listener =
        TcpListener::bind(8, &path_addr(path), Ok(0), Some(Ok(0))).expect("bind");
    let local = listener.local_addr(Ok((storage, len))).expect("local_addr");
    assert!(local == path_addr(path), "bound address changed in the kernel");
    match &local {
        Addr::Path(unix) => {
            assert_eq!(
                unix.as_path_bytes(),
                Some(path.as_bytes()),
                "path came back different"
            );
            assert!(!unix.is_unnamed());
            assert!(!unix.is_abstract());
        }
        _ => panic!("a Unix listener reported another family"),
    }
    // A Unix socket has no port, and says so rather than inventing one.
    assert_eq!(local.port(), 0);
}

#[test]
fn an_impossible_path_is_refused_at_construction() {
    let longest = vec![b'a'; UNIX_PATH_CAPACITY - 1];
    assert!(UnixPath::new(&longest).is_ok(), "the longest path that fits was refused");
    let too_long = vec![b'a'; UNIX_PATH_CAPACITY];
    assert!(UnixPath::new(&too_long).is_err(), "an over-long path was accepted");

    // A NUL inside the path would have the kernel stop at it and bind to a
    // prefix, which is truncation by another name.
    assert!(UnixPath::new(b"/tmp/a\0b").is_err(), "an interior NUL was accepted");
    assert!(UnixPath::new(b"").is_err(), "an empty path was accepted");
}

#[test]
fn a_refused_name_says_why() {
    let too_long = vec![b'a'; UNIX_PATH_CAPACITY];
    assert_eq!(UnixPath::new(&too_long).map(|_| ()), Err(StreamError(libc::ENAMETOOLONG)));
    assert_eq!(UnixPath::new(b"").map(|_| ()), Err(StreamError(libc::EINVAL)));
    assert_eq!(UnixPath::new(b"a\0b").map(|_| ()), Err(StreamError(libc::EINVAL)));
    assert_eq!(
        UnixPath::abstract_name(&too_long).map(|_| ()),
        Err(StreamError(libc::ENAMETOOLONG))
    );
}

#[test]
fn addresses_survive_the_kernels_layout() {
    let v6 = [0, 1, 2, 3, 4, 5, 6, 7, 8, 9, 10, 11, 12, 13, 14, 15];
    let addrs = vec![
        Addr::localhost(0x1234),
        Addr::V4([10, 0, 0, 7], 65535),
        Addr::V6(v6, 443),
        Addr::Path(UnixPath::abstract_name(b"a\0name").expect("fits")),
        path_addr("relative"),
    ];
    for addr in addrs {
        let mut storage = SockAddr::zeroed();
        let len = addr.write_to(&mut storage);
        let back = Addr::read_from(&storage, len).expect("a family spoken here");
        assert!(back == addr);
        assert_eq!(back.port(), addr.port());
        assert_eq!(i32::from(storage.family), addr.family());
    }
    let mut storage = SockAddr::zeroed();
    assert_eq!(Addr::localhost(0x1234).write_to(&mut storage), 16);
    assert_eq!(&storage.data[..6], &[0x12, 0x34, 127, 0, 0, 1]);
    assert_eq!(Addr::V6(v6, 0x1234).write_to(&mut storage), 28);
    assert_eq!(&storage.data[..2], &[0x12, 0x34]);
    assert_eq!(&storage.data[6..22], &v6);
}

#[test]
fn families_hold_the_kernels_numbers() {
    assert_eq!(Addr::localhost(1).family(), libc::AF_INET);
    assert_eq!(Addr::V6([0; 16], 1).family(), libc::AF_INET6);
    assert_eq!(path_addr("x").family(), libc::AF_UNIX);
    let mut storage = SockAddr::zeroed();
    storage.family = 77;
    assert!(Addr::read_from(&storage, 16).is_none());
    assert_eq!(
        addr_of(Ok((storage, 16))).map(|_| ()),
        Err(StreamError(libc::EAFNOSUPPORT))
    );
    assert_eq!(addr_of(Err(StreamError(9))).map(|_| ()), Err(StreamError(9)));
}

#[test]
fn a_name_is_a_path_or_abstract_or_none() {
    let unnamed = UnixPath::unnamed();
    assert!(unnamed.is_unnamed());
    assert_eq!(unnamed.as_path_bytes(), None);
    assert_eq!(unnamed.as_abstract_name(), None);
    let hidden = UnixPath::abstract_name(b"bus").expect("fits");
    assert!(hidden.is_abstract());
    assert_eq!(hidden.as_abstract_name(), Some(&b"bus"[..]));
    assert_eq!(hidden.as_path_bytes(), None);
    assert_eq!(hidden.encoded(), b"\0bus");
    assert_eq!(UnixPath::new(b"bus").expect("fits").encoded(), b"bus");
}

// ---- sockets ----

#[test]
fn a_connect_in_flight_is_no_error() {
    let addr = Addr::localhost(80);
    let socket = TcpSocket::connect(5, &addr, Err(StreamError(libc::EINPROGRESS))).expect("started");
    assert_eq!(socket.raw(), 5);
    assert!(socket.wants_nodelay());
    assert!(TcpSocket::connect(5, &path_addr("x"), Ok(0)).expect("done").raw() == 5);
    assert!(!TcpSocket::connect(5, &path_addr("x"), Ok(0)).expect("done").wants_nodelay());
    assert_eq!(
        TcpSocket::connect(5, &addr, Err(StreamError(111))).map(|_| ()),
        Err(StreamError(111))
    );
    assert_eq!(TcpSocket::connect_error(Ok(0)), Ok(()));
    assert_eq!(TcpSocket::connect_error(Ok(111)), Err(StreamError(111)));
    assert_eq!(TcpSocket::connect_error(Err(StreamError(9))), Err(StreamError(9)));
}

#[test]
fn what_a_call_returned_is_a_count_or_the_error_it_left() {
    assert_eq!(check(3, 9), Ok(3));
    assert_eq!(check(-1, 9), Err(StreamError(9)));
    assert_eq!(TcpSocket::moved(7, 0), Ok(7));
    assert_eq!(TcpSocket::moved(-1, 11), Err(StreamError(11)));
    assert_eq!(TcpSocket::pending(0, 12), Some(12));
    assert_eq!(TcpSocket::pending(-1, 12), None);
    assert_eq!(TcpSocket::send_buffer(0, 4096), Some(4096));
    assert_eq!(TcpSocket::send_buffer(0, -1), None);
    assert_eq!(TcpSocket::send_vectored(b"", b"x"), (1, 1));
    assert_eq!(TcpSocket::send_vectored(b"h", b"x"), (0, 2));
    assert_eq!(Fd::from_raw(6).raw(), 6);
    assert_eq!(Fd::from_raw(6).into_raw(), 6);
}

#[test]
fn a_listener_is_bound_and_listening_or_an_error() {
    let addr = Addr::localhost(0);
    assert!(TcpListener::wants_reuse(&addr));
    assert!(!TcpListener::wants_reuse(&path_addr("x")));
    let failed = TcpListener::bind(4, &addr, Err(StreamError(98)), None);
    assert_eq!(failed.map(|_| ()), Err(StreamError(98)));
    let failed = TcpListener::bind(4, &addr, Ok(0), Some(Err(StreamError(95))));
    assert_eq!(failed.map(|_| ()), Err(StreamError(95)));
    let listener = TcpListener::bind(4, &addr, Ok(0), Some(Ok(0))).expect("bound");
    assert_eq!(listener.raw(), 4);
    let mut peer = SockAddr::zeroed();
    let len = Addr::localhost(9).write_to(&mut peer);
    let (socket, from) = listener.accept(Ok(12), &peer, len).expect("accepted");
    assert_eq!(socket.raw(), 12);
    assert!(from == Addr::localhost(9));
    assert_eq!(
        listener.accept(Err(StreamError(24)), &peer, len).map(|_| ()),
        Err(StreamError(24))
    );
    assert_eq!(BACKLOG, 1024);
}

#[test]
fn an_accept_that_lost_its_connection_is_worth_another() {
    assert!(transient_accept(StreamError(libc::ECONNABORTED)));
    assert!(transient_accept(StreamError(libc::ECONNRESET)));
    assert!(transient_accept(StreamError(libc::ECONNREFUSED)));
    assert!(!transient_accept(StreamError(libc::EMFILE)));
    assert!(!transient_accept(StreamError(BROKEN_PIPE)));
    assert_eq!(CONNECTION_RESET, 54);
}

// ---- connections ----

fn stream(reactor: &mut Reactor<u32>, capacity: Option<usize>) -> TcpStream {
    let registration = registered(reactor, 5);
    TcpStream::from_socket(TcpSocket::from_raw(5, libc::AF_INET), registration, capacity)
}

#[test]
fn a_read_asks_once_and_waits_for_the_next_edge() {
    let mut reactor = Reactor::new();
    let stream = stream(&mut reactor, None);
    assert_eq!(stream.poll_read(&mut reactor, 64, None, Some(1)).step, Step::Call);
    let turn = stream.poll_read(&mut reactor, 64, Some(Ok(10)), Some(1));
    assert_eq!(turn.step, Step::Ready(Ok(10)));
    // A short read has shown the socket empty, so the next read parks.
    assert_eq!(stream.poll_read(&mut reactor, 64, None, Some(1)).step, Step::Pending);
    let event = readable(stream.get_registration());
    assert_eq!(reactor.dispatch(&[event]), vec![(0, 1)]);
    assert_eq!(stream.poll_read(&mut reactor, 64, None, Some(1)).step, Step::Call);
    // One that filled the buffer has not.
    let turn = stream.poll_read(&mut reactor, 64, Some(Ok(64)), Some(1));
    assert_eq!(turn.step, Step::Ready(Ok(64)));
    assert_eq!(stream.poll_read(&mut reactor, 64, None, Some(1)).step, Step::Call);
    let turn = stream.poll_read(&mut reactor, 64, Some(Err(StreamError(4))), Some(1));
    assert_eq!(turn.step, Step::Call);
    let turn = stream.poll_read(&mut reactor, 64, Some(Err(StreamError(11))), Some(1));
    assert_eq!(turn.step, Step::Pending);
    let turn = stream.poll_read(&mut reactor, 64, Some(Err(StreamError(104))), Some(1));
    assert_eq!(turn.step, Step::Ready(Err(StreamError(104))));
}

#[test]
fn a_peer_that_hung_up_with_its_last_write_is_read_to_the_end() {
    let mut reactor = Reactor::new();
    let stream = stream(&mut reactor, None);
    let gone = Event {
        hangup: true,
        ..readable(stream.get_registration())
    };
    reactor.dispatch(&[gone]);
    assert_eq!(stream.poll_read(&mut reactor, 64, None, Some(1)).step, Step::Call);
    let turn = stream.poll_read(&mut reactor, 64, Some(Ok(6)), Some(1));
    assert_eq!(turn.step, Step::Ready(Ok(6)));
    assert_eq!(stream.poll_read(&mut reactor, 64, None, Some(1)).step, Step::Call);
    let turn = stream.poll_read(&mut reactor, 64, Some(Ok(0)), Some(1));
    assert_eq!(turn.step, Step::Ready(Ok(0)));
}

#[test]
fn a_write_that_filled_the_buffer_is_not_refused_to_learn_it() {
    let mut reactor = Reactor::new();
    let stream = stream(&mut reactor, Some(8192));
    assert_eq!(stream.poll_write_vectored(&mut reactor, 8192, None, Some(1)).step, Step::Call);
    let turn = stream.poll_write_vectored(&mut reactor, 8192, Some(Ok(8192)), Some(1));
    assert_eq!(turn.step, Step::Ready(Ok(8192)));
    // The buffer is full: the next write waits rather than being rejected.
    assert_eq!(
        stream.poll_write_vectored(&mut reactor, 8192, None, Some(1)).step,
        Step::Pending
    );
    let room = Event {
        token: stream.get_registration().watched().1,
        readable: false,
        writable: true,
        hangup: false,
    };
    assert_eq!(reactor.dispatch(&[room]), vec![(0, 1)]);
    assert_eq!(stream.poll_write_vectored(&mut reactor, 100, None, Some(1)).step, Step::Call);
    let turn = stream.poll_write_vectored(&mut reactor, 100, Some(Ok(100)), Some(1));
    assert_eq!(turn.step, Step::Ready(Ok(100)));
    // There is room left: the next write goes ahead.
    assert_eq!(stream.poll_write_vectored(&mut reactor, 100, None, Some(1)).step, Step::Call);
}

#[test]
fn a_connect_ends_once_there_is_a_peer() {
    let mut reactor = Reactor::new();
    let registration = registered(&mut reactor, 5);
    let socket = TcpSocket::from_raw(5, libc::AF_INET);
    let mut stream =
        TcpStream::connect_started(socket, registration, None, &Addr::localhost(80));
    assert_eq!(stream.connected(&mut reactor, None, Some(1)).step, Step::Call);
    let turn = stream.connected(&mut reactor, Some((Ok(()), false)), Some(1));
    assert_eq!(turn.step, Step::Pending);
    let turn = stream.connected(&mut reactor, Some((Ok(()), true)), Some(1));
    assert_eq!(turn.step, Step::Ready(Ok(())));
    assert_eq!(stream.connected(&mut reactor, None, Some(1)).step, Step::Ready(Ok(())));

    // A Unix-domain connect has finished inside the call.
    let registration = registered(&mut reactor, 6);
    let socket = TcpSocket::from_raw(6, libc::AF_UNIX);
    let mut stream = TcpStream::connect_started(socket, registration, None, &path_addr("x"));
    assert_eq!(stream.connected(&mut reactor, None, Some(1)).step, Step::Ready(Ok(())));
    assert_eq!(stream.get_ref().raw(), 6);
    let (socket, registration) = stream.into_parts();
    assert_eq!(socket.raw(), 6);
    assert_eq!(registration.watched().0, 6);

    let registration = registered(&mut reactor, 7);
    let socket = TcpSocket::from_raw(7, libc::AF_INET);
    let mut stream =
        TcpStream::connect_started(socket, registration, None, &Addr::localhost(80));
    let turn = stream.connected(&mut reactor, Some((Err(StreamError(111)), false)), Some(1));
    assert_eq!(turn.step, Step::Ready(Err(StreamError(111))));
}

#[test]
fn two_buffers_are_written_as_one() {
    let (header, payload) = (b"head".as_slice(), b"payload".as_slice());
    let mut transfer = WriteAllVectored::new(header.len(), payload.len());
    assert_eq!(transfer.rest(header, payload), Some((header, payload)));
    assert_eq!(transfer.step(Ok(2)), nagoya::io::Progress::More);
    assert_eq!(transfer.rest(header, payload), Some((&b"ad"[..], payload)));
    assert_eq!(transfer.step(Ok(4)), nagoya::io::Progress::More);
    assert_eq!(transfer.rest(header, payload), Some((&b""[..], &b"yload"[..])));
    assert_eq!(
        transfer.step(Ok(0)),
        nagoya::io::Progress::Failed(StreamError(BROKEN_PIPE))
    );
    assert_eq!(transfer.step(Ok(5)), nagoya::io::Progress::Done(()));
    assert_eq!(transfer.rest(header, payload), None);
}

#[test]
fn an_accept_waits_for_a_connection() {
    let mut reactor = Reactor::new();
    let registration = registered(&mut reactor, 4);
    assert_eq!(poll_accept::<u8, u32>(&registration, &mut reactor, None, Some(1)).step, Step::Call);
    let turn = poll_accept(&registration, &mut reactor, Some(Ok("peer")), Some(1));
    assert_eq!(turn.step, Step::Ready(Ok("peer")));
    let turn = poll_accept::<u8, u32>(
        &registration,
        &mut reactor,
        Some(Err(StreamError(libc::ECONNABORTED))),
        Some(1),
    );
    assert_eq!(turn.step, Step::Call, "the connection went away; the next may be there");
    let turn =
        poll_accept::<u8, u32>(&registration, &mut reactor, Some(Err(StreamError(11))), Some(1));
    assert_eq!(turn.step, Step::Pending);
    let turn =
        poll_accept::<u8, u32>(&registration, &mut reactor, Some(Err(StreamError(24))), Some(1));
    assert_eq!(turn.step, Step::Ready(Err(StreamError(24))));
}

#[test]
fn reading_into_a_full_buffer_reads_nothing() {
    let mut reactor = Reactor::new();
    let stream = stream(&mut reactor, None);
    assert_eq!(stream.poll_read_buf(&mut reactor, 0, None, Some(1)).step, Step::Ready(Ok(0)));
    assert_eq!(stream.poll_read_buf(&mut reactor, 16, None, Some(1)).step, Step::Call);
    let turn = stream.poll_read_buf(&mut reactor, 16, Some(Ok(3)), Some(1));
    assert_eq!(turn.step, Step::Ready(Ok(3)));
}

#[test]
fn counters_are_read_and_cleared() {
    let mut counters = Counters::new();
    counters.received(false);
    counters.received(true);
    counters.waited();
    counters.sent(false);
    counters.sent(true);
    counters.woken();
    assert_eq!(take(&mut counters), (2, 1, 1));
    assert_eq!(take(&mut counters), (0, 0, 0));
    assert_eq!(take_writes(&mut counters), (2, 1));
    assert_eq!(take_writes(&mut counters), (0, 0));
}

// ---- resolving ----

fn answer(addrs: Vec<Addr>) -> Option<Result<Vec<SockAddr>, i32>> {
    let entries = addrs
        .iter()
        .map(|addr| {
            let mut storage = SockAddr::zeroed();
            addr.write_to(&mut storage);
            storage
        })
        .collect();
    Some(Ok(entries))
}

fn resolved(step: Step<Result<Vec<Addr>, ResolveError>>) -> Result<Vec<Addr>, ResolveError> {
    match step {
        Step::Ready(result) => result,
        _ => panic!("the resolver has answered"),
    }
}

#[test]
fn a_nul_in_the_host_is_refused_before_the_resolver() {
    let step = resolve("local\0host", 80, None);
    assert!(matches!(step, Step::Ready(Err(ResolveError::Nul))));
}

#[test]
fn an_address_literal_comes_back_with_the_callers_port() {
    assert!(matches!(resolve("127.0.0.1", 9, None), Step::Call));
    let step = resolve("127.0.0.1", 9, answer(vec![Addr::V4([127, 0, 0, 1], 0)]));
    let addrs = resolved(step).unwrap_or_else(|_| panic!("resolve"));
    assert!(
        addrs.iter().any(|addr| *addr == Addr::V4([127, 0, 0, 1], 9)),
        "127.0.0.1 did not resolve to itself"
    );
}

#[test]
fn localhost_keeps_every_family_and_the_port() {
    let loopback = [0, 0, 0, 0, 0, 0, 0, 0, 0, 0, 0, 0, 0, 0, 0, 1];
    let step = resolve(
        "localhost",
        1234,
        answer(vec![Addr::V6(loopback, 0), Addr::V4([127, 0, 0, 1], 0), path_addr("skipped")]),
    );
    let addrs = resolved(step).unwrap_or_else(|_| panic!("localhost did not resolve"));
    assert!(!addrs.is_empty(), "no addresses");
    assert!(addrs.iter().all(|addr| addr.port() == 1234));
    let v4 = addrs.iter().any(|addr| matches!(addr, Addr::V4(..)));
    let v6 = addrs.iter().any(|addr| matches!(addr, Addr::V6(..)));
    assert!(v4 && v6, "localhost lost a family");
    assert_eq!(addrs.len(), 2);
}

#[test]
fn a_resolver_that_finds_nothing_is_an_error() {
    let empty = resolved(resolve("x", 1, answer(vec![path_addr("unspoken")])));
    assert_eq!(empty.map(|_| ()).unwrap_err().message(), "resolver returned no address");
    let failed = resolved(resolve("x", 1, Some(Err(-2))));
    assert!(matches!(failed, Err(ResolveError::Failed(-2))));
    assert_eq!(ResolveError::Failed(-2).message(), "getaddrinfo failed (-2)");
    assert_eq!(ResolveError::Nul.message(), "host has a nul byte");
}

#[test]
fn every_address_is_tried_before_the_last_error() {
    let mut attempt = ConnectAny::new();
    assert_eq!(attempt.next(0), Err(StreamError(libc::ECONNREFUSED)));
    assert_eq!(attempt.next(2), Ok(0));
    attempt.failed(StreamError(101));
    assert_eq!(attempt.next(2), Ok(1));
    attempt.failed(StreamError(110));
    assert_eq!(attempt.next(2), Err(StreamError(110)));
}

// ---- signals ----

#[test]
fn a_number_outside_1_to_31_is_rejected() {
    let mut claims = Claims::new();
    for number in [0, 32, 64] {
        let kind = SignalKind::from_raw(number);
        let error = claims.acquire(kind.as_raw()).expect_err("rejected");
        assert_eq!(error.0, libc::EINVAL, "signal {number}");
    }
    assert_eq!(claims.acquire(-1).expect_err("rejected").0, libc::EINVAL);
}

#[test]
fn a_signal_the_kernel_will_not_catch_is_rejected_and_can_be_asked_again() {
    let mut claims = Claims::new();
    let mut fds = SignalFds::new();
    for _ in 0..2 {
        let claim = claims.acquire(libc::SIGKILL).expect("free");
        let ArmStep::Failed(error) = fds.arm(&claim, ArmEvent::Start) else {
            panic!("SIGKILL was armed");
        };
        let refused = Signal::new(claim, Err(error), None, None);
        match refused {
            Err(undo) => {
                assert_eq!(undo.error.0, libc::EINVAL);
                assert!(!undo.disarm);
                assert!(undo.registration.is_none());
                claims.release(undo.claim);
            }
            Ok(_) => panic!("SIGKILL"),
        }
    }
    let claim = claims.acquire(libc::SIGSTOP).expect("free");
    assert_eq!(
        fds.arm(&claim, ArmEvent::Start),
        ArmStep::Failed(StreamError(libc::EINVAL))
    );
}

#[test]
fn a_second_waiter_for_the_same_signal_is_busy() {
    let mut claims = Claims::new();
    let hangup = SignalKind::hangup().as_raw();
    let first = claims.acquire(hangup).expect("first");
    assert_eq!(first.as_raw(), libc::SIGHUP);
    let error = claims.acquire(hangup).expect_err("second");
    assert_eq!(error.0, libc::EBUSY);
    claims.release(first);
    assert!(claims.acquire(hangup).is_ok(), "waiter after drop");
}

/// A waiter for `kind` on the descriptor `fd`.
fn waiter(claims: &mut Claims, reactor: &mut Reactor<u32>, kind: SignalKind, fd: i32) -> Signal {
    let claim = claims.acquire(kind.as_raw()).expect("free");
    let registration = registered(reactor, fd);
    match Signal::new(claim, Ok(fd), Some(Ok(registration)), Some(Ok(()))) {
        Ok(signal) => signal,
        Err(_) => panic!("signal"),
    }
}

#[test]
fn interrupt_terminate_and_hangup_are_delivered_and_do_not_kill_the_process() {
    let mut claims = Claims::new();
    let mut reactor = Reactor::new();
    let kinds = [
        (SignalKind::hangup(), libc::SIGHUP),
        (SignalKind::interrupt(), libc::SIGINT),
        (SignalKind::terminate(), libc::SIGTERM),
    ];
    for (fd, (kind, number)) in (20..).zip(kinds) {
        assert_eq!(kind.as_raw(), number);
        let signal = waiter(&mut claims, &mut reactor, kind, fd);
        assert!(signal.kind() == kind);
        assert_eq!(signal.raw(), fd);
        assert!(matches!(signal.poll_recv(&mut reactor, None, Some(1)).step, Step::Call));
        let delivered = read_one(128, 0, 128, number);
        let turn = signal.poll_recv(&mut reactor, Some(delivered), Some(1));
        assert!(matches!(turn.step, Step::Ready(Ok(got)) if got == kind));
        // A second delivery shares the edge, so the next wait looks again.
        assert!(matches!(signal.poll_recv(&mut reactor, None, Some(1)).step, Step::Call));
        let (claim, registration) = signal.into_parts();
        claims.release(claim);
        reactor.deregister(registration);
        assert!(claims.acquire(number).is_ok(), "drop did not give the claim back");
    }
}

#[test]
fn two_signals_do_not_complete_each_other() {
    let mut claims = Claims::new();
    let mut reactor = Reactor::new();
    let interrupt = waiter(&mut claims, &mut reactor, SignalKind::interrupt(), 30);
    let terminate = waiter(&mut claims, &mut reactor, SignalKind::terminate(), 31);
    for (signal, waker) in [(&interrupt, 1), (&terminate, 2)] {
        assert!(matches!(signal.poll_recv(&mut reactor, None, Some(waker)).step, Step::Call));
        let nothing = Some(Err(StreamError(11)));
        assert!(matches!(
            signal.poll_recv(&mut reactor, nothing, Some(waker)).step,
            Step::Pending
        ));
    }
    let event = readable(interrupt.get_registration());
    assert_eq!(reactor.dispatch(&[event]), vec![(0, 1)]);
    assert!(matches!(interrupt.poll_recv(&mut reactor, None, Some(1)).step, Step::Call));
    assert!(
        matches!(terminate.poll_recv(&mut reactor, None, Some(2)).step, Step::Pending),
        "SIGTERM completed because SIGINT was delivered"
    );
}

#[test]
fn a_waiter_that_could_not_be_made_is_undone() {
    let mut claims = Claims::new();
    let mut reactor: Reactor<u32> = Reactor::new();
    let claim = claims.acquire(2).expect("free");
    match Signal::new(claim, Ok(5), Some(Err(StreamError(9))), None) {
        Err(undo) => {
            assert_eq!(undo.error.0, 9);
            assert!(undo.disarm);
            claims.release(undo.claim);
        }
        Ok(_) => panic!("the poller refused it"),
    }
    let claim = claims.acquire(2).expect("free again");
    let registration = registered(&mut reactor, 5);
    match Signal::new(claim, Ok(5), Some(Ok(registration)), Some(Err(StreamError(22)))) {
        Err(undo) => {
            assert_eq!(undo.error.0, 22);
            assert!(undo.disarm);
            assert_eq!(undo.registration.expect("to be given up").watched().0, 5);
        }
        Ok(_) => panic!("the commit failed"),
    }
}

#[test]
fn a_signal_is_blocked_before_its_descriptor_is_made() {
    let mut claims = Claims::new();
    let mut fds = SignalFds::new();
    let claim = claims.acquire(1).expect("free");
    assert_eq!(fds.arm(&claim, ArmEvent::Start), ArmStep::Block);
    assert_eq!(fds.arm(&claim, ArmEvent::Blocked), ArmStep::Create);
    assert_eq!(
        fds.arm(&claim, ArmEvent::CreateFailed(StreamError(24))),
        ArmStep::Unblock(StreamError(24))
    );
    assert_eq!(
        fds.arm(&claim, ArmEvent::Unblocked(StreamError(24))),
        ArmStep::Failed(StreamError(24))
    );
    assert_eq!(fds.arm(&claim, ArmEvent::Start), ArmStep::Block);
    assert_eq!(
        fds.arm(&claim, ArmEvent::BlockFailed(StreamError(22))),
        ArmStep::Failed(StreamError(22))
    );
    assert_eq!(fds.arm(&claim, ArmEvent::Created(17)), ArmStep::Armed(17));
    assert_eq!(fds.arm(&claim, ArmEvent::Start), ArmStep::Armed(17));
}

#[test]
fn a_short_delivery_is_an_error() {
    assert!(matches!(read_one(-1, 11, 128, 0), Err(error) if error.would_block()));
    assert!(matches!(read_one(0, 0, 128, 0), Err(Errno(libc::EPIPE))));
    assert!(matches!(read_one(64, 0, 128, 1), Err(Errno(libc::EIO))));
    assert!(matches!(read_one(128, 0, 128, 15), Ok(kind) if kind.as_raw() == 15));
}
