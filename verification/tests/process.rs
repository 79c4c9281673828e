use nagoya::io::StreamError;
use nagoya::process::{
    both_drained, drain, observed, pipe_read, pipe_write, poll_exit, take_or_park, watch,
    watch_plan, watched_pid, Asked, Child, ChildStdin, Chunk, Drained, ExitEvent, ExitStep,
    Orphan, Readiness, ThreadExit, WatchPlan,
};
use nagoya::reactor::driver::{Reactor, Registration};
use nagoya::reactor::net::Step;
use nagoya::reactor::poller::Event;

type Exit = ExitEvent<i32, &'static str>;

fn registered(reactor: &mut Reactor<u32>, fd: i32) -> Registration {
    let registration = reactor.reserve(fd);
    reactor.register(registration, Ok(())).expect("register")
}

#[test]
fn the_handles_are_send() {
    fn send<T: Send>() {}
    send::<Child<u32, i32>>();
    send::<ChildStdin<u32>>();
    send::<ThreadExit<u32>>();
}

#[test]
fn echo_is_read_to_end_of_file() {
    let mut reactor = Reactor::new();
    let registration = registered(&mut reactor, 7);
    let mut chunk = [0u8; 16];
    chunk[..6].copy_from_slice(b"hello\n");
    let mut output = Vec::new();
    let mut pipe = Some("stdout");
    let mut answers = vec![Ok(0), Ok(6), Err(StreamError(4))];
    let mut read = None;
    loop {
        let turn = pipe_read(&registration, &mut reactor, chunk.len(), read, Some(1));
        read = match turn.step {
            Step::Call => answers.pop(),
            Step::Ready(Ok(n)) => {
                let (drained, closed) =
                    drain::<_, ()>(&mut pipe, &mut output, &chunk, Some(Chunk::Read(n)));
                if drained == Drained::Done {
                    assert_eq!(closed, Some("stdout"));
                    break;
                }
                None
            }
            Step::Ready(Err(_)) => panic!("read"),
            Step::Pending => {
                let event = Event {
                    token: registration.watched().1,
                    readable: true,
                    writable: false,
                    hangup: false,
                };
                assert_eq!(reactor.dispatch(&[event]), vec![(0, 1)]);
                None
            }
        };
    }
    assert_eq!(output, b"hello\n");
}

#[test]
fn a_write_after_close_is_an_error_rather_than_a_hang() {
    let mut stdin = ChildStdin::new("pipe");
    assert_eq!(stdin.writable().map(|pipe| *pipe), Ok("pipe"));
    assert_eq!(stdin.close(), Some("pipe"));
    assert!(stdin.writable().is_err());
    assert_eq!(
        stdin.writable().unwrap_err().message(),
        "the child's standard input was already closed"
    );
    assert_eq!(stdin.close(), None, "closing twice is no error");
}

/// Collect one read of a pipe.
fn collect(pipe: &mut Option<u8>, into: &mut Vec<u8>, chunk: &[u8], read: Chunk<&'static str>) -> Drained<&'static str> {
    drain(pipe, into, chunk, Some(read)).0
}

#[test]
fn output_collects_both_streams() {
    let (mut out, mut err) = (Vec::new(), Vec::new());
    let (mut stdout, mut stderr) = (Some(1), Some(2));
    assert_eq!(collect(&mut stdout, &mut out, b"out\n....", Chunk::Read(4)), Drained::More);
    assert_eq!(collect(&mut stderr, &mut err, b"err\n....", Chunk::Read(4)), Drained::More);
    assert_eq!(collect(&mut stdout, &mut out, b"........", Chunk::Read(0)), Drained::Done);
    assert_eq!(stdout, None, "a pipe read to its end is not needed any more");
    assert_eq!(collect(&mut stderr, &mut err, b"........", Chunk::Pending), Drained::Pending);
    assert_eq!(both_drained::<()>(Some(Ok(())), None), None);
    assert_eq!(collect(&mut stdout, &mut out, b"........", Chunk::Pending), Drained::Done);
    assert_eq!(collect(&mut stderr, &mut err, b"........", Chunk::Read(0)), Drained::Done);
    assert_eq!(both_drained::<()>(Some(Ok(())), Some(Ok(()))), Some(Ok(())));
    assert_eq!(out, b"out\n");
    assert_eq!(err, b"err\n");
}

/// Whether a wait returned this status.
fn is_ready(step: ExitStep<i32, &'static str>, status: i32) -> bool {
    matches!(step, ExitStep::Ready(Ok(got)) if got == status)
}

#[test]
fn kill_returns_promptly_and_wait_reports_the_signal() {
    let mut child = Child::new(4321, false);
    assert!(child.process().is_some());
    child.start_kill().expect("kill");
    assert!(matches!(child.poll_wait(Exit::Start).0, ExitStep::Ask));
    let (step, process) = child.poll_wait(Exit::Asked(Asked::Exited(9)));
    assert!(is_ready(step, 9), "wait after kill");
    assert_eq!(process, Some(4321));
    assert!(is_ready(child.poll_wait(Exit::Start).0, 9));
    // Reaped, so the pid is no longer this handle's to name.
    assert_eq!(child.process(), None);
    let refused = child.start_kill().unwrap_err();
    assert_eq!(refused.message(), "invalid argument: can't kill an exited process");
    assert_eq!(child.give_up(), None);
}

#[test]
fn a_wait_dropped_part_way_can_be_waited_again() {
    let mut child: Child<u32, i32> = Child::new(1, false);
    assert!(matches!(child.poll_wait(Exit::Start).0, ExitStep::Ask));
    assert!(matches!(child.poll_wait(Exit::Asked(Asked::Running)).0, ExitStep::Watch));
    assert!(matches!(child.poll_wait(Exit::Watched(Readiness::Parked)).0, ExitStep::Pending));
    // Given up here. The kernel has nothing to say yet, and a second wait
    // starts over.
    assert_eq!(child.try_wait::<()>(None), (Step::Call, None));
    assert_eq!(child.try_wait::<()>(Some(Ok(None))), (Step::Ready(Ok(None)), None));
    assert!(matches!(child.poll_wait(Exit::Asked(Asked::Interrupted)).0, ExitStep::Ask));
    assert!(matches!(child.poll_wait(Exit::Watched(Readiness::Check)).0, ExitStep::Ask));
    assert!(is_ready(child.poll_wait(Exit::Asked(Asked::Exited(0))).0, 0));
    // Kept once reaped: a third wait answers without the kernel.
    assert!(is_ready(child.poll_wait(Exit::Start).0, 0));
    assert_eq!(child.try_wait::<()>(None), (Step::Ready(Ok(Some(0))), None));
}

#[test]
fn asking_once_reaps_a_child_that_has_exited() {
    let mut child: Child<u32, i32> = Child::new(8, true);
    assert_eq!(child.try_wait(Some(Err("refused"))), (Step::Ready(Err("refused")), None));
    assert_eq!(
        child.try_wait::<()>(Some(Ok(Some(3)))),
        (Step::Ready(Ok(Some(3))), Some(8))
    );
    assert!(is_ready(child.poll_wait(Exit::Start).0, 3));
}

#[test]
fn an_orphan_is_held_until_its_wait_is_over() {
    let mut orphan = Orphan::adopt(12);
    assert!(matches!(orphan.reap_or_park(Exit::Start), (Some(ExitStep::Ask), None)));
    *orphan.process_mut().expect("held") += 1;
    let parked = orphan.reap_or_park(Exit::Watched(Readiness::Parked));
    assert!(matches!(parked, (Some(ExitStep::Pending), None)));
    let reaped = orphan.reap_or_park(Exit::Asked(Asked::Exited(0)));
    assert!(matches!(reaped, (Some(ExitStep::Ready(Ok(0))), Some(13))));
    assert!(orphan.process_mut().is_none());
    assert!(matches!(orphan.reap_or_park(Exit::Start), (None, None)));
    let mut lost = Orphan::adopt(14);
    let failed = lost.reap_or_park(Exit::Asked(Asked::Failed("not ours")));
    assert!(matches!(failed, (Some(ExitStep::Ready(Err("not ours"))), Some(14))));
}

#[test]
fn a_child_that_is_exiting_is_waited_for_in_the_kernel() {
    assert!(matches!(poll_exit(Exit::Watched(Readiness::Exiting)), ExitStep::WaitInKernel));
    assert!(matches!(poll_exit(Exit::Waited(Ok(3))), ExitStep::Ready(Ok(3))));
    assert!(matches!(poll_exit(Exit::Waited(Err("gone"))), ExitStep::Ready(Err("gone"))));
    assert!(matches!(
        poll_exit(Exit::Asked(Asked::Failed("refused"))),
        ExitStep::Ready(Err("refused"))
    ));
}

#[test]
fn a_dropped_child_is_handed_on_to_be_reaped() {
    let mut child: Child<u32, i32> = Child::new(5, true);
    *child.process_mut().expect("running") = 6;
    assert_eq!(child.give_up(), Some((6, true)));
    let quiet: Child<u32, i32> = Child::new(7, false);
    assert_eq!(quiet.give_up(), Some((7, false)));
}

#[test]
fn a_watch_falls_back_to_a_thread() {
    assert_eq!(watched_pid(77), Ok(77));
    assert_eq!(watched_pid(u32::MAX), Err(StreamError(libc::ESRCH)));
    assert_eq!(watch(9, 0), Ok(Some(9)));
    assert_eq!(watch(-1, libc::ESRCH), Ok(None));
    assert_eq!(watch(-1, libc::ENOSYS), Err(StreamError(libc::ENOSYS)));
    assert_eq!(watch(1 << 40, 0), Err(StreamError(libc::EBADF)));
    assert_eq!(watch_plan(watch(9, 0)), WatchPlan::Register(9));
    assert_eq!(watch_plan(watch(-1, libc::ESRCH)), WatchPlan::Exiting);
    assert_eq!(watch_plan(watch(-1, libc::ENOSYS)), WatchPlan::Thread);
    assert!(observed(0, true));
    assert!(observed(-1, false));
    assert!(!observed(-1, true));
}

#[test]
fn an_exit_that_a_thread_saw_is_not_lost() {
    let mut exit = ThreadExit::new();
    assert_eq!(exit.observed_or_park(Some(1)), (false, None, None));
    assert_eq!(exit.parked(), Some(&1));
    assert_eq!(exit.observed_or_park(Some(2)), (false, Some(1), None));
    assert_eq!(exit.observed_or_park(None), (false, None, None));
    assert_eq!(exit.exited(), Some(2));
    assert_eq!(exit.observed_or_park(Some(3)), (true, None, Some(3)));
    assert_eq!(exit.exited(), None);

    let mut reactor = Reactor::new();
    let registration = registered(&mut reactor, 3);
    assert_eq!(
        take_or_park(&registration, &mut reactor, Some(1)),
        (Readiness::Check, None, Some(1))
    );
    assert_eq!(
        take_or_park(&registration, &mut reactor, Some(1)),
        (Readiness::Parked, None, None)
    );
}

#[test]
fn only_not_yet_uses_up_the_readiness_of_a_pipe() {
    let mut reactor = Reactor::new();
    let registration = registered(&mut reactor, 3);
    let mut write = |written| pipe_write(&registration, &mut reactor, 10, written, Some(1)).step;
    assert_eq!(write(None), Step::Call);
    assert_eq!(write(Some(Ok(4))), Step::Ready(Ok(4)));
    assert_eq!(write(None), Step::Call, "a short write to a pipe proves nothing");
    assert_eq!(write(Some(Err(StreamError(4)))), Step::Call);
    assert_eq!(write(Some(Err(StreamError(32)))), Step::Ready(Err(StreamError(32))));
    assert_eq!(write(None), Step::Call);
    assert_eq!(write(Some(Err(StreamError(11)))), Step::Pending);
    assert_eq!(pipe_write(&registration, &mut reactor, 0, None, None).step, Step::Ready(Ok(0)));

    let read = registered(&mut reactor, 4);
    let mut read = |got| pipe_read(&read, &mut reactor, 10, got, Some(1)).step;
    assert_eq!(read(None), Step::Call);
    assert_eq!(read(Some(Ok(3))), Step::Ready(Ok(3)));
    assert_eq!(read(None), Step::Pending, "a short read has shown the pipe empty");
    assert_eq!(read(Some(Ok(0))), Step::Ready(Ok(0)));
    assert_eq!(read(None), Step::Call, "the end stays the end");
}

#[test]
fn a_failed_collection_ends_at_the_first_failure() {
    let mut into = Vec::new();
    let mut pipe = Some(1);
    let broken = collect(&mut pipe, &mut into, b"", Chunk::Failed("broken"));
    assert_eq!(broken, Drained::Failed("broken"));
    assert_eq!(collect(&mut pipe, &mut into, b"", Chunk::Interrupted), Drained::More);
    assert_eq!(drain::<_, ()>(&mut pipe, &mut into, b"", None), (Drained::More, None));
    assert_eq!(both_drained(Some(Err("out")), Some(Err("err"))), Some(Err("out")));
    assert_eq!(both_drained(None, Some(Err("err"))), Some(Err("err")));
    assert_eq!(both_drained::<()>(None, None), None);
}
