use std::sync::atomic::{AtomicUsize, Ordering};
use std::sync::Arc;

use nagoya::sync::{Acquire, Barrier, BarrierWait, Notified, Notify, RwLock, Semaphore, WaitQueue, WakeKind};

/// A waker that counts its wakes.
#[derive(Debug, Default)]
struct Count(AtomicUsize);

type Waker = Arc<Count>;

fn counter() -> (Arc<Count>, Waker) {
    let count = Arc::new(Count::default());
    (count.clone(), count)
}

fn wake(waker: Option<Waker>) {
    if let Some(waker) = waker {
        waker.0.fetch_add(1, Ordering::Relaxed);
    }
}

fn wake_each(wakers: Vec<Waker>) {
    for waker in wakers {
        wake(Some(waker));
    }
}

fn wakes(count: &Arc<Count>) -> usize {
    count.0.load(Ordering::Relaxed)
}

/// Poll a notified future; whether it is ready.
fn poll_notified(future: &mut Notified, notify: &mut Notify<Waker>, waker: &Waker) -> bool {
    future.poll(notify, Some(waker.clone())).ready
}

/// Poll a fresh notified future once and drop it; whether it was ready.
fn fresh_is_ready(notify: &mut Notify<Waker>, waker: &Waker) -> bool {
    let mut future = notify.notified();
    let ready = poll_notified(&mut future, notify, waker);
    drop_notified(future, notify);
    ready
}

fn drop_notified(future: Notified, notify: &mut Notify<Waker>) {
    let (_, woken) = future.give_up(notify);
    wake(woken);
}

fn poll_acquire(future: &mut Acquire, semaphore: &mut Semaphore<Waker>, waker: &Waker) -> bool {
    future.poll(semaphore, Some(waker.clone())).permit.is_some()
}

fn drop_acquire(future: Acquire, semaphore: &mut Semaphore<Waker>) {
    let (_, woken) = future.give_up(semaphore);
    wake(woken);
}

fn notification_before_the_wait() {
    let mut notify = Notify::new();
    let (_, waker) = counter();
    wake(notify.notify_one());
    let mut future = notify.notified();
    assert!(poll_notified(&mut future, &mut notify, &waker));
}

#[test]
fn sync_a_notification_before_the_wait_is_not_lost() {
    notification_before_the_wait();
}

#[test]
fn sync_api_a_notification_before_the_wait_is_not_lost() {
    notification_before_the_wait();
}

fn readers_share() {
    let mut lock: RwLock<u32, Waker> = RwLock::new(5);
    let (_, waker) = counter();
    let a = lock.try_read().expect("first reader");
    let b = lock.try_read().expect("second reader");
    assert_eq!(*lock.read_value(&a), 5);
    assert_eq!(*lock.read_value(&b), 5);
    assert!(lock.try_write().is_none(), "a writer must not join readers");
    wake_each(lock.release_read(a));
    assert!(lock.try_write().is_none(), "one reader still holds it");
    wake_each(lock.release_read(b));
    let w = lock.try_write().expect("the last reader left");
    *lock.write_value(&w) = 6;
    wake_each(lock.release_write(w));
    let guard = lock.read().poll(&mut lock, Some(waker)).guard.expect("free");
    assert_eq!(*lock.read_value(&guard), 6);
}

#[test]
fn sync_readers_share_and_a_writer_excludes() {
    readers_share();
}

#[test]
fn sync_api_readers_share_and_a_writer_excludes() {
    readers_share();
}

fn write_guard_excludes() {
    let mut lock: RwLock<u32, Waker> = RwLock::new(0);
    let w = lock.try_write().expect("free");
    assert!(lock.try_read().is_none());
    wake_each(lock.release_write(w));
    assert!(lock.try_read().is_some());
}

#[test]
fn sync_a_write_guard_excludes_readers() {
    write_guard_excludes();
}

#[test]
fn sync_api_a_write_guard_excludes_readers() {
    write_guard_excludes();
}

fn exactly_its_permits() {
    let mut semaphore: Semaphore<Waker> = Semaphore::new(2);
    let a = semaphore.try_acquire().expect("first");
    let b = semaphore.try_acquire().expect("second");
    assert!(semaphore.try_acquire().is_none());
    wake(semaphore.release(a));
    let c = semaphore.try_acquire().expect("one was returned");
    wake(semaphore.release(b));
    wake(semaphore.release(c));
    assert_eq!(semaphore.available_permits(), 2);
}

#[test]
fn sync_a_semaphore_hands_out_exactly_its_permits() {
    exactly_its_permits();
}

#[test]
fn sync_api_a_semaphore_hands_out_exactly_its_permits() {
    exactly_its_permits();
}

fn barrier_of_four() {
    let mut barrier: Barrier<Waker> = Barrier::new(4);
    let mut passed = 0;
    let mut leaders = 0;
    let mut waiting: Vec<(BarrierWait, Arc<Count>)> = Vec::new();
    for arrival in 0..4 {
        let (count, waker) = counter();
        let mut wait = barrier.wait();
        let passage = wait.poll(&mut barrier, Some(waker));
        wake_each(passage.wake);
        match passage.leads {
            None => waiting.push((wait, count)),
            Some(leads) => {
                assert_eq!(arrival, 3, "someone was let through early");
                passed += 1;
                if leads {
                    leaders += 1;
                }
            }
        }
        if arrival < 3 {
            assert_eq!(passed, 0);
        }
    }
    for (mut wait, count) in waiting {
        assert_eq!(wakes(&count), 1, "a waiter was not woken");
        let passage = wait.poll(&mut barrier, Some(count));
        if passage.leads.expect("everyone has arrived") {
            leaders += 1;
        }
        passed += 1;
    }
    assert_eq!(passed, 4);
    assert_eq!(leaders, 1, "exactly one waiter leads a rendezvous");
}

#[test]
fn sync_a_barrier_releases_only_once_everyone_has_arrived() {
    barrier_of_four();
}

#[test]
fn sync_api_a_barrier_releases_only_once_everyone_has_arrived() {
    barrier_of_four();
}

fn barrier_of_one() {
    let mut barrier: Barrier<Waker> = Barrier::new(1);
    let (_, waker) = counter();
    assert_eq!(barrier.wait().poll(&mut barrier, Some(waker.clone())).leads, Some(true));
    // Reusable: a second rendezvous behaves like the first.
    assert_eq!(barrier.wait().poll(&mut barrier, Some(waker)).leads, Some(true));
}

#[test]
fn sync_a_barrier_of_one_never_blocks() {
    barrier_of_one();
}

#[test]
fn sync_api_a_barrier_of_one_never_blocks() {
    barrier_of_one();
}

fn forgotten_permit() {
    let mut semaphore: Semaphore<Waker> = Semaphore::new(1);
    let (_, waker) = counter();
    let acquisition = semaphore.acquire().poll(&mut semaphore, Some(waker));
    acquisition.permit.expect("one was free").forget();
    assert_eq!(semaphore.available_permits(), 0);
    assert!(semaphore.try_acquire().is_none());
}

#[test]
fn sync_a_forgotten_permit_does_not_come_back() {
    forgotten_permit();
}

#[test]
fn sync_api_a_forgotten_permit_does_not_come_back() {
    forgotten_permit();
}

fn added_permits() {
    let mut semaphore: Semaphore<Waker> = Semaphore::new(0);
    wake_each(semaphore.add_permits(3));
    assert_eq!(semaphore.available_permits(), 3);
    for _ in 0..3 {
        let (_, waker) = counter();
        let acquisition = semaphore.acquire().poll(&mut semaphore, Some(waker));
        acquisition.permit.expect("one for each event").forget();
    }
    assert_eq!(semaphore.available_permits(), 0);
    assert!(semaphore.try_acquire().is_none());
}

#[test]
fn sync_added_permits_are_a_signal_a_forgetting_waiter_can_count() {
    added_permits();
}

#[test]
fn sync_api_added_permits_are_a_signal_a_forgetting_waiter_can_count() {
    added_permits();
}

fn owned_guards() {
    let mut lock: RwLock<Vec<u32>, Waker> = RwLock::new(Vec::new());
    {
        let (_, waker) = counter();
        let w = lock.write().poll(&mut lock, Some(waker)).guard.expect("free");
        lock.write_value(&w).push(1);
        wake_each(lock.release_write(w));
    }
    let (_, waker) = counter();
    let r = lock.read().poll(&mut lock, Some(waker)).guard.expect("free");
    assert_eq!(lock.read_value(&r).as_slice(), &[1]);
}

#[test]
fn sync_owned_guards_outlive_the_borrow() {
    owned_guards();
}

#[test]
fn sync_api_owned_guards_outlive_the_borrow() {
    owned_guards();
}

#[test]
fn canceling_the_first_acquirer_does_not_consume_the_only_wake() {
    let mut semaphore = Semaphore::new(0);
    let (a_count, a_waker) = counter();
    let (b_count, b_waker) = counter();
    let mut a = semaphore.acquire();
    let mut b = semaphore.acquire();
    assert!(!poll_acquire(&mut a, &mut semaphore, &a_waker));
    assert!(!poll_acquire(&mut b, &mut semaphore, &b_waker));
    drop_acquire(a, &mut semaphore);
    wake_each(semaphore.add_permits(1));
    assert_eq!(wakes(&a_count), 0);
    assert_eq!(wakes(&b_count), 1);
    assert!(poll_acquire(&mut b, &mut semaphore, &b_waker));
}

#[test]
fn canceling_an_awakened_acquirer_hands_the_wake_on() {
    let mut semaphore = Semaphore::new(0);
    let (_, a_waker) = counter();
    let (b_count, b_waker) = counter();
    let mut a = semaphore.acquire();
    let mut b = semaphore.acquire();
    assert!(!poll_acquire(&mut a, &mut semaphore, &a_waker));
    assert!(!poll_acquire(&mut b, &mut semaphore, &b_waker));
    wake_each(semaphore.add_permits(1));
    drop_acquire(a, &mut semaphore);
    assert_eq!(wakes(&b_count), 1);
    assert!(poll_acquire(&mut b, &mut semaphore, &b_waker));
}

#[test]
fn two_notifications_belong_to_two_registered_waiters() {
    let mut notify = Notify::new();
    // A task may await multiple futures with the very same waker.
    let (_, waker) = counter();
    let mut a = notify.notified();
    let mut b = notify.notified();
    assert!(!poll_notified(&mut a, &mut notify, &waker));
    assert!(!poll_notified(&mut b, &mut notify, &waker));
    wake(notify.notify_one());
    wake(notify.notify_one());
    assert!(poll_notified(&mut a, &mut notify, &waker));
    assert!(poll_notified(&mut b, &mut notify, &waker));
    assert!(!fresh_is_ready(&mut notify, &waker));
}

#[test]
fn enable_registers_each_waiter_without_needing_a_waker() {
    let mut notify = Notify::new();
    let (_, waker) = counter();
    let mut a = notify.notified();
    let mut b = notify.notified();
    assert!(!a.enable(&mut notify).ready);
    assert!(!b.enable(&mut notify).ready);
    wake(notify.notify_one());
    wake(notify.notify_one());
    assert!(poll_notified(&mut a, &mut notify, &waker));
    assert!(poll_notified(&mut b, &mut notify, &waker));
}

#[test]
fn canceling_a_notified_waiter_transfers_its_notification() {
    let mut notify = Notify::new();
    let (_, a_waker) = counter();
    let (b_count, b_waker) = counter();
    let mut a = notify.notified();
    let mut b = notify.notified();
    assert!(!poll_notified(&mut a, &mut notify, &a_waker));
    assert!(!poll_notified(&mut b, &mut notify, &b_waker));
    wake(notify.notify_one());
    drop_notified(a, &mut notify);
    assert_eq!(wakes(&b_count), 1);
    assert!(poll_notified(&mut b, &mut notify, &b_waker));
}

#[test]
fn canceled_assigned_notification_becomes_a_spare_permit() {
    let mut notify = Notify::new();
    let (_, waker) = counter();
    let mut a = notify.notified();
    assert!(!a.enable(&mut notify).ready);
    wake(notify.notify_one());
    drop_notified(a, &mut notify);
    assert!(fresh_is_ready(&mut notify, &waker));
    assert!(!fresh_is_ready(&mut notify, &waker));
}

#[test]
fn dropping_an_enabled_ready_future_returns_its_reserved_permit() {
    let mut notify = Notify::new();
    let (_, waker) = counter();
    wake(notify.notify_one());
    let mut a = notify.notified();
    assert!(a.enable(&mut notify).ready);
    // enable acknowledges readiness but has not delivered the result to poll.
    drop_notified(a, &mut notify);
    assert!(fresh_is_ready(&mut notify, &waker));
    assert!(!fresh_is_ready(&mut notify, &waker));
}

#[test]
fn a_repolled_waiter_updates_its_waker_without_duplicate_registration() {
    let mut semaphore = Semaphore::new(0);
    let (old_count, old) = counter();
    let (new_count, new) = counter();
    let mut acquire = semaphore.acquire();
    assert!(!poll_acquire(&mut acquire, &mut semaphore, &old));
    assert!(!poll_acquire(&mut acquire, &mut semaphore, &new));
    wake_each(semaphore.add_permits(1));
    assert_eq!(wakes(&old_count), 0);
    assert_eq!(wakes(&new_count), 1);
    assert!(poll_acquire(&mut acquire, &mut semaphore, &new));
}

#[test]
fn broadcasts_reach_old_futures_but_not_new_ones() {
    let mut notify = Notify::new();
    let (_, waker) = counter();
    let mut unpolled = notify.notified();
    let mut registered = notify.notified();
    assert!(!poll_notified(&mut registered, &mut notify, &waker));
    wake_each(notify.notify_waiters());
    assert!(poll_notified(&mut unpolled, &mut notify, &waker));
    assert!(poll_notified(&mut registered, &mut notify, &waker));
    assert!(!fresh_is_ready(&mut notify, &waker));
}

#[test]
fn an_old_broadcast_does_not_consume_a_new_spare_notification() {
    let mut notify = Notify::new();
    let (_, waker) = counter();
    let mut old = notify.notified();
    wake_each(notify.notify_waiters());
    wake(notify.notify_one());
    assert!(poll_notified(&mut old, &mut notify, &waker));
    assert!(fresh_is_ready(&mut notify, &waker));
    assert!(!fresh_is_ready(&mut notify, &waker));
}

#[test]
fn canceling_lock_waits_releases_their_wakers_and_reuses_slots() {
    let mut lock: RwLock<i32, Waker> = RwLock::new(0);
    let held = lock.try_write().unwrap();
    let (count, waker) = counter();
    for _ in 0..128 {
        let mut read = lock.read();
        assert!(read.poll(&mut lock, Some(waker.clone())).guard.is_none());
        read.give_up(&mut lock);
        assert_eq!(Arc::strong_count(&count), 2);
    }
    wake_each(lock.release_write(held));
    assert_eq!(wakes(&count), 0);
    assert!(lock.try_write().is_some());
}

#[test]
fn the_wait_queue_grants_in_order_and_reuses_a_left_slot() {
    let mut queue: WaitQueue<&'static str> = WaitQueue::new();
    let (mut a, mut b, mut c) = (None, None, None);
    assert!(queue.register(&mut a, Some("a")).is_none());
    assert!(queue.register(&mut b, Some("b")).is_none());
    assert!(queue.register(&mut c, Some("c")).is_none());
    assert_eq!(a, Some(0));
    assert_eq!(b, Some(1));
    assert_eq!(c, Some(2));
    assert_eq!(queue.waker(b), Some(&"b"));
    assert_eq!(queue.register(&mut b, Some("again")), Some("b"));

    // One in the middle leaves: the others keep their order.
    let left = queue.remove(&mut b).expect("registered");
    assert_eq!(b, None);
    assert_eq!(left.kind, WakeKind::Queued);
    assert_eq!(left.waker, Some("again"));
    let mut d = None;
    queue.register(&mut d, Some("d"));
    assert_eq!(d, Some(1), "the slot that was left is used again");

    assert_eq!(queue.grant_one(), Some(Some("a")));
    assert_eq!(queue.kind(0), WakeKind::One);
    assert_eq!(queue.kind(2), WakeKind::Queued);
    assert_eq!(queue.grant_all(), vec!["c", "d"]);
    assert_eq!(queue.kind(1), WakeKind::All);
    assert_eq!(queue.grant_one(), None);
    assert!(queue.remove(&mut None).is_none());
}

#[test]
fn a_waiting_acquirer_gets_the_permit_that_is_given_back() {
    let mut semaphore = Semaphore::new(1);
    let held = semaphore.try_acquire().expect("free");
    let (count, waker) = counter();
    let mut acquire = semaphore.acquire();
    assert!(!poll_acquire(&mut acquire, &mut semaphore, &waker));
    assert!(semaphore.waker(&acquire).is_some());
    wake(semaphore.release(held));
    assert_eq!(wakes(&count), 1);
    assert_eq!(semaphore.available_permits(), 1);
    assert!(poll_acquire(&mut acquire, &mut semaphore, &waker));
    assert_eq!(semaphore.available_permits(), 0);
}

#[test]
fn an_added_permit_wraps_the_count_as_the_machine_does() {
    let mut semaphore: Semaphore<Waker> = Semaphore::new(usize::MAX);
    semaphore.add_permits(3);
    assert_eq!(semaphore.available_permits(), 2);
}

#[test]
fn a_notification_is_not_counted_twice_while_nobody_waits() {
    let mut notify: Notify<Waker> = Notify::default();
    let (_, waker) = counter();
    wake(notify.notify_one());
    wake(notify.notify_one());
    assert!(fresh_is_ready(&mut notify, &waker));
    assert!(!fresh_is_ready(&mut notify, &waker));
}

#[test]
fn a_barrier_releases_a_group_together_and_starts_the_next_as_new() {
    let mut barrier: Barrier<u32> = Barrier::new(3);
    let mut waits: Vec<BarrierWait> = (0..9).map(|_| barrier.wait()).collect();
    let mut poll = |barrier: &mut Barrier<u32>, task: usize| {
        waits[task].poll(barrier, Some(task as u32))
    };
    assert_eq!(poll(&mut barrier, 4).leads, None);
    assert_eq!(poll(&mut barrier, 0).leads, None);
    assert_eq!(poll(&mut barrier, 4).leads, None, "two of three have arrived");
    let last = poll(&mut barrier, 7);
    assert_eq!(last.leads, Some(true));
    assert_eq!(last.wake, [4, 0]);

    // A slow waiter is still of the group that has gone: it neither joins the
    // next nor is kept by it.
    assert_eq!(poll(&mut barrier, 1).leads, None);
    assert_eq!(poll(&mut barrier, 0).leads, Some(false));
    assert_eq!(poll(&mut barrier, 2).leads, None);
    assert_eq!(poll(&mut barrier, 1).leads, None);
    assert_eq!(poll(&mut barrier, 3).leads, Some(true));
    assert_eq!(poll(&mut barrier, 5).leads, None);
    assert_eq!(poll(&mut barrier, 4).leads, Some(false));
    assert_eq!(poll(&mut barrier, 2).leads, Some(false));
    assert_eq!(poll(&mut barrier, 1).leads, Some(false));
    assert_eq!(poll(&mut barrier, 5).leads, None);
}

#[test]
fn a_lock_goes_by_the_guards_that_are_alive() {
    let mut lock: RwLock<u8, u32> = RwLock::new(1);
    let first = lock.try_read().expect("a free lock");
    let second = lock.try_read().expect("readers share");
    assert!(lock.try_write().is_none());
    lock.release_read(first);
    assert!(lock.try_write().is_none(), "one reader is left");
    lock.release_read(second);
    let writer = lock.try_write().expect("no guard is left");
    assert!(lock.try_write().is_none());
    assert!(lock.try_read().is_none());
    assert_eq!(lock.held(), "write", "a refusal leaves the lock as it was");
    lock.release_write(writer);
    assert!(lock.try_read().is_some());
}

#[test]
fn a_lock_says_whether_another_reader_can_be_counted() {
    let mut lock: RwLock<u8, u32> = RwLock::new(1);
    assert!(lock.counts_another());
    let reader = lock.try_read().expect("a free lock");
    assert!(lock.counts_another());
    lock.release_read(reader);
    let _writer = lock.try_write().expect("a free lock");
    assert!(lock.counts_another());
}

#[test]
fn a_barrier_wait_that_is_given_up_still_counts_as_an_arrival() {
    let mut barrier: Barrier<Waker> = Barrier::new(2);
    let (count, waker) = counter();
    let mut first = barrier.wait();
    assert_eq!(first.poll(&mut barrier, Some(waker.clone())).leads, None);
    assert!(barrier.waker(&first).is_some());
    assert!(first.give_up(&mut barrier).is_some());
    let mut second = barrier.wait();
    let passage = second.poll(&mut barrier, Some(waker));
    assert_eq!(passage.leads, Some(true));
    assert!(passage.wake.is_empty());
    assert_eq!(wakes(&count), 0);
}

#[test]
fn a_lock_says_how_it_is_held() {
    let mut lock: RwLock<u8, Waker> = RwLock::new(1);
    assert_eq!(lock.held(), "free");
    let r = lock.try_read().expect("free");
    assert_eq!(lock.held(), "read");
    lock.release_read(r);
    let w = lock.try_write().expect("free");
    assert_eq!(lock.held(), "write");
    lock.release_write(w);
    *lock.get_mut() = 9;
    assert_eq!(lock.into_inner(), 9);
}

#[test]
fn releasing_a_write_lock_wakes_every_waiter() {
    let mut lock: RwLock<u8, Waker> = RwLock::new(1);
    let held = lock.try_write().expect("free");
    let (r_count, r_waker) = counter();
    let (w_count, w_waker) = counter();
    let mut read = lock.read();
    let mut write = lock.write();
    assert!(read.poll(&mut lock, Some(r_waker.clone())).guard.is_none());
    assert!(write.poll(&mut lock, Some(w_waker.clone())).guard.is_none());
    assert!(lock.reader_waker(&read).is_some());
    assert!(lock.writer_waker(&write).is_some());
    wake_each(lock.release_write(held));
    assert_eq!(wakes(&r_count), 1);
    assert_eq!(wakes(&w_count), 1);
    let guard = read.poll(&mut lock, Some(r_waker)).guard.expect("free now");
    assert!(write.poll(&mut lock, Some(w_waker)).guard.is_none(), "a reader is in");
    wake_each(lock.release_read(guard));
    assert_eq!(wakes(&w_count), 2);
    write.give_up(&mut lock);
}
