use crossbeam_channel::err::{SendError, TryRecvError, TrySendError};
use crossbeam_channel::flavors::queue::Queue;

#[test]
fn bounded_queue_is_fifo_and_refuses_when_full() {
    let mut q = Queue::with_capacity(2);
    assert_eq!(q.capacity(), Some(2));
    assert_eq!(q.try_send(1), Ok(()));
    assert_eq!(q.try_send(2), Ok(()));
    assert!(q.is_full());
    assert_eq!(q.try_send(3), Err(TrySendError::Full(3)));
    assert_eq!(q.len(), 2);
    assert_eq!(q.try_recv(), Ok(1));
    assert_eq!(q.try_send(3), Ok(()));
    assert_eq!(q.try_recv(), Ok(2));
    assert_eq!(q.try_recv(), Ok(3));
    assert_eq!(q.try_recv(), Err(TryRecvError::Empty));
}

#[test]
fn unbounded_queue_never_fills() {
    let mut q = Queue::new();
    assert_eq!(q.capacity(), None);
    for i in 0..100 {
        assert_eq!(q.send(i), Ok(()));
    }
    assert!(!q.is_full());
    assert_eq!(q.len(), 100);
    for i in 0..100 {
        assert_eq!(q.try_recv(), Ok(i));
    }
}

#[test]
fn disconnected_queue_drains_then_reports() {
    let mut q = Queue::with_capacity(3);
    assert_eq!(q.try_send('a'), Ok(()));
    assert_eq!(q.try_send('b'), Ok(()));
    assert!(q.disconnect());
    assert!(!q.disconnect());
    assert!(q.is_disconnected());
    assert_eq!(q.try_send('c'), Err(TrySendError::Disconnected('c')));
    assert_eq!(q.send('c'), Err(SendError('c')));
    assert_eq!(q.try_recv(), Ok('a'));
    assert_eq!(q.try_recv(), Ok('b'));
    assert_eq!(q.try_recv(), Err(TryRecvError::Disconnected));
    assert_eq!(q.try_recv(), Err(TryRecvError::Disconnected));
}

#[test]
fn zero_capacity_queue_refuses_everything() {
    let mut q = Queue::with_capacity(0);
    assert!(q.is_full());
    assert_eq!(q.try_send(1), Err(TrySendError::Full(1)));
}
