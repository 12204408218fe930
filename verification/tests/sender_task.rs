use crossbeam_channel::futures::sender_task::{
    lock_outcome, notify_outcome, unlock_result, LockOutcome, Notify, SenderTask, LOCKED,
    LOCKED_NOTIFIED, NOTIFIED, PARKED,
};

#[test]
fn register_then_notify_wakes_once() {
    let mut t = SenderTask::new(1u32);
    assert_eq!(t.state(), PARKED);
    assert_eq!(t.register(2), Ok(()));
    assert_eq!(*t.task(), 2);
    assert_eq!(t.state(), PARKED);
    assert_eq!(t.notify(), Notify { result: Ok(()), wake: true });
    assert!(t.notified());
    // One-shot: a second notification fails and wakes nobody.
    assert_eq!(t.notify(), Notify { result: Err(()), wake: false });
    assert_eq!(t.state(), NOTIFIED);
}

#[test]
fn register_after_notify_fails_and_keeps_the_lock_bit() {
    let mut t = SenderTask::new(1u32);
    t.notify();
    assert_eq!(t.register(2), Err(()));
    assert_eq!(*t.task(), 1);
    assert_eq!(t.state(), LOCKED_NOTIFIED);
    assert_eq!(t.notify(), Notify { result: Err(()), wake: false });
}

#[test]
fn try_register_hands_the_task_back() {
    let mut t = SenderTask::new(1u32);
    t.notify();
    assert_eq!(t.try_register(9), Err(9));
}

#[test]
fn notification_inside_a_registration_fails_it() {
    let mut t = SenderTask::new(1u32);
    let prev = t.lock();
    assert_eq!(lock_outcome(prev), LockOutcome::Acquired);
    assert_eq!(t.state(), LOCKED);
    // A notification lands while the lock is held: no wake-up...
    assert_eq!(t.notify(), Notify { result: Ok(()), wake: false });
    t.store_task(2);
    // ...and the registration reports it instead.
    let prev = t.unlock();
    assert_eq!(prev, LOCKED_NOTIFIED);
    assert_eq!(unlock_result(prev), Err(()));
    assert_eq!(t.state(), NOTIFIED);
}

#[test]
fn decisions_on_each_word() {
    assert_eq!(lock_outcome(PARKED), LockOutcome::Acquired);
    assert_eq!(lock_outcome(NOTIFIED), LockOutcome::AlreadyNotified);
    assert_eq!(unlock_result(LOCKED), Ok(()));
    assert_eq!(unlock_result(LOCKED_NOTIFIED), Err(()));
    assert_eq!(notify_outcome(PARKED), Notify { result: Ok(()), wake: true });
    assert_eq!(notify_outcome(LOCKED), Notify { result: Ok(()), wake: false });
    assert_eq!(notify_outcome(NOTIFIED), Notify { result: Err(()), wake: false });
    assert_eq!(notify_outcome(LOCKED_NOTIFIED), Notify { result: Err(()), wake: false });
}

#[test]
fn every_register_after_notify_fails() {
    let mut t = SenderTask::new(1u32);
    assert_eq!(t.notify(), Notify { result: Ok(()), wake: true });
    assert_eq!(t.register(2), Err(()));
    assert_eq!(t.register(3), Err(()));
    assert_eq!(t.state(), LOCKED_NOTIFIED);
    assert_eq!(*t.task(), 1);
}
