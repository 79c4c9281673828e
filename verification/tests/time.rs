use std::rc::Rc;

use nagoya::time::heap::{Entry, TimerHeap, NOT_QUEUED};
use nagoya::time::{
    driver_step, poll, set_clock, sleep, sleep_until, timeout, DriverStep, Elapsed, Sleep, Timers,
};

const MILLISECOND: u128 = 1_000_000;

/// Poll a sleep; whether it is over.
fn is_over(sleep: &mut Sleep, timers: &mut Timers<u32>, now: u64) -> bool {
    sleep.poll(timers, now, 0).ready
}

/// Move the clock to the next deadline, firing what is due there, until the
/// sleep is over; the time it then is.
fn wait_for(sleep: &mut Sleep, timers: &mut Timers<u32>, mut now: u64) -> u64 {
    while !is_over(sleep, timers, now) {
        let (_, next) = poll(timers, now);
        now = now.max(next.expect("an armed sleep is due sometime"));
        poll(timers, now);
    }
    now
}

#[test]
fn indexed_heap_removal_preserves_order_and_indices() {
    let mut heap = TimerHeap::default();
    let mut slots = Vec::new();
    for (seq, deadline) in [90, 10, 50, 10, 80, 20, 60, 30, 70, 40].into_iter().enumerate() {
        let slot = heap.add_slot();
        heap.push(Entry {
            deadline,
            seq: seq as u64,
            slot,
        });
        slots.push(slot);
    }
    for id in [2, 0, 7] {
        let index = heap.index_of(slots[id]);
        let removed = heap.remove(index);
        assert_eq!(removed.slot, slots[id]);
        assert_eq!(heap.index_of(slots[id]), NOT_QUEUED);
        let mut places: Vec<usize> = slots
            .iter()
            .map(|slot| heap.index_of(*slot))
            .filter(|index| *index != NOT_QUEUED)
            .collect();
        places.sort_unstable();
        assert_eq!(places, (0..places.len()).collect::<Vec<_>>());
    }
    let mut order = Vec::new();
    while let Some(entry) = heap.pop() {
        assert_eq!(heap.index_of(entry.slot), NOT_QUEUED);
        order.push((entry.deadline, entry.seq));
    }
    assert_eq!(
        order,
        [(10, 1), (10, 3), (20, 5), (40, 9), (60, 6), (70, 8), (80, 4)]
    );
}

#[test]
fn dropping_an_armed_sleep_releases_registry_ownership_immediately() {
    let mut timers = Timers::new();
    let waker = Rc::new(());
    let mut sleep = sleep_until(u64::MAX);
    assert!(!sleep.poll(&mut timers, 0, waker.clone()).ready);
    assert_eq!(Rc::strong_count(&waker), 2);
    sleep.give_up(&mut timers);
    assert_eq!(
        Rc::strong_count(&waker),
        1,
        "canceled timer is still retained by the registry"
    );
    assert_eq!(poll(&mut timers, u64::MAX - 1).1, None);
}

#[test]
fn a_sleep_waits_at_least_its_duration() {
    let mut timers = Timers::new();
    let started = 1_000;
    let mut pending = sleep(started, 50 * MILLISECOND);
    let now = wait_for(&mut pending, &mut timers, started);
    assert!(now - started >= 50_000_000);
    assert_eq!(now, 50_001_000);
}

#[test]
fn sleeps_fire_in_deadline_order_not_registration_order() {
    let mut timers = Timers::new();
    let mut out = Vec::new();
    let mut far = sleep(0, 60 * MILLISECOND);
    let mut near = sleep(0, 10 * MILLISECOND);
    let now = wait_for(&mut near, &mut timers, 0);
    out.push("near");
    wait_for(&mut far, &mut timers, now);
    out.push("far");
    assert_eq!(out, ["near", "far"]);

    // Both armed, the far one first: one round hands their wakers out by
    // deadline.
    let mut far = sleep(0, 60 * MILLISECOND);
    let mut near = sleep(0, 10 * MILLISECOND);
    assert!(!far.poll(&mut timers, 0, 1).ready);
    assert!(!near.poll(&mut timers, 0, 2).ready);
    assert_eq!(poll(&mut timers, 70_000_000).0, vec![2, 1]);
}

#[test]
fn a_timeout_lets_a_finished_future_through() {
    let mut timers: Timers<u32> = Timers::new();
    let mut limited = timeout(0, 30_000 * MILLISECOND);
    assert_eq!(limited.poll(Some(7), &mut timers, 0, 0).output, Some(Ok(7)));
}

#[test]
fn a_timeout_gives_up_on_one_that_does_not_finish() {
    let mut timers: Timers<u32> = Timers::new();
    let mut limited = timeout(0, 20 * MILLISECOND);
    let mut inner = sleep(0, 30_000 * MILLISECOND);
    let mut now = 0;
    let out = loop {
        let seen = if is_over(&mut inner, &mut timers, now) { Some(()) } else { None };
        if let Some(out) = limited.poll(seen, &mut timers, now, 0).output {
            break out;
        }
        let (_, next) = poll(&mut timers, now);
        now = next.expect("two are armed");
        poll(&mut timers, now);
    };
    assert_eq!(out, Err(Elapsed));
    assert_eq!(now, 20_000_000);
}

#[test]
fn a_future_ready_at_its_deadline_wins() {
    let mut timers: Timers<u32> = Timers::new();
    let mut limited = timeout(0, 20 * MILLISECOND);
    let mut inner = sleep(0, 20 * MILLISECOND);
    let mut now = 0;
    let out = loop {
        let seen = if is_over(&mut inner, &mut timers, now) { Some(()) } else { None };
        if let Some(out) = limited.poll(seen, &mut timers, now, 0).output {
            break out;
        }
        let (_, next) = poll(&mut timers, now);
        now = next.expect("two are armed");
        poll(&mut timers, now);
    };
    assert_eq!(out, Ok(()));
}

#[test]
fn dropping_a_sleep_disarms_it() {
    let mut timers = Timers::new();
    for n in 0..1_000 {
        let mut pending = sleep(n, 5 * MILLISECOND);
        let mut limited = timeout(n, 1);
        let seen = if is_over(&mut pending, &mut timers, n) { Some(()) } else { None };
        assert_eq!(limited.poll(seen, &mut timers, n, 0).output, None);
        limited.give_up(&mut timers);
        pending.give_up(&mut timers);
    }
    let mut last = sleep(1_000, 20 * MILLISECOND);
    assert!(!last.poll(&mut timers, 1_000, 77).ready);
    assert_eq!(poll(&mut timers, 1_000_000_000).0, vec![77], "a dead timer was woken");
}

#[test]
fn only_the_first_choice_of_a_clock_counts() {
    let mut clock: Option<u64> = None;
    set_clock(&mut clock, 5);
    set_clock(&mut clock, 3);
    assert_eq!(clock, Some(5), "a late choice moved time");
}

#[test]
fn a_timer_that_becomes_the_earliest_nudges() {
    let mut timers = Timers::new();
    let mut first = sleep_until(100);
    let mut later = sleep_until(200);
    let mut sooner = sleep_until(50);
    assert!(first.poll(&mut timers, 0, 'a').nudge);
    assert!(!later.poll(&mut timers, 0, 'b').nudge);
    assert!(sooner.poll(&mut timers, 0, 'c').nudge);
    let again = first.poll(&mut timers, 0, 'd');
    assert!(!again.ready);
    assert!(!again.nudge);
    assert_eq!(again.dropped, Some('a'));
    assert_eq!(poll(&mut timers, 100), (vec!['c', 'd'], Some(200)));
    assert!(first.poll(&mut timers, 100, 'e').ready);
    assert!(!later.poll(&mut timers, 100, 'f').ready);
}

#[test]
fn a_deadline_is_held_at_the_largest_time_there_is() {
    assert_eq!(sleep(u64::MAX - 5, 10).deadline(), u64::MAX);
    assert_eq!(sleep(7, u128::MAX).deadline(), u64::MAX);
    assert_eq!(sleep(7, 3).deadline(), 10);
    assert_eq!(Elapsed.message(), "the future did not complete within its timeout");
}

#[test]
fn the_driver_waits_only_as_long_as_it_has_to() {
    assert_eq!(driver_step(true, Some(900), 100), DriverStep::Again);
    assert_eq!(driver_step(false, Some(100), 100), DriverStep::Again);
    assert_eq!(driver_step(false, Some(900), 100), DriverStep::WaitFor(800));
    assert_eq!(driver_step(false, None, 100), DriverStep::WaitForNudge);
}

#[test]
fn an_empty_heap_has_no_first_entry() {
    let mut heap = TimerHeap::new();
    assert!(heap.peek().is_none());
    assert!(heap.pop().is_none());
    let slot = heap.add_slot();
    assert_eq!(heap.index_of(slot), NOT_QUEUED);
    heap.push(Entry { deadline: 3, seq: 0, slot });
    assert_eq!(heap.peek().map(|entry| entry.deadline), Some(3));
    assert_eq!(heap.index_of(slot), 0);
}
