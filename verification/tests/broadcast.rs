use crossbeam_channel::broadcast::Broadcast;
use crossbeam_channel::err::{TryRecvError, TrySendError};
use crossbeam_channel::flavors::queue::Queue;

/// Makes the deliveries of one broadcast to the queues that `b`'s senders
/// name, then drops the disconnected senders when a delivery failed, as a
/// caller of the library does.
fn broadcast_to(b: &mut Broadcast<usize>, queues: &mut [Queue<i32>], msg: i32) -> Vec<usize> {
    let mut order = Vec::new();
    let mut sent = Vec::new();
    for (i, m) in b.broadcast(msg) {
        let q = *b.sender(i);
        order.push(q);
        sent.push(match queues[q].try_send(m) {
            Ok(()) => true,
            Err(TrySendError::Full(_)) | Err(TrySendError::Disconnected(_)) => false,
        });
    }
    if Broadcast::<usize>::needs_cleanup(&sent) {
        let disconnected = (0..b.len()).map(|i| queues[*b.sender(i)].is_disconnected()).collect();
        b.drop_disconnected(disconnected);
    }
    order
}

/// Everything the queue still holds, oldest first.
fn drain(q: &mut Queue<i32>) -> Vec<i32> {
    let mut out = Vec::new();
    loop {
        match q.try_recv() {
            Ok(m) => out.push(m),
            Err(TryRecvError::Empty) | Err(TryRecvError::Disconnected) => return out,
        }
    }
}

#[test]
fn smoke() {
    let mut queues = vec![Queue::with_capacity(1), Queue::new()];

    let mut b = Broadcast::new();
    b.register(0usize);
    b.register(1usize);
    broadcast_to(&mut b, &mut queues, 1);
    drop(b);
    for q in queues.iter_mut() {
        q.disconnect();
    }

    assert_eq!(drain(&mut queues[0]), [1]);
    assert_eq!(drain(&mut queues[1]), [1]);
}

#[test]
fn broadcast_plans_clones_then_the_message_to_the_first() {
    let mut b = Broadcast::new();
    for s in 0..3usize {
        b.register(s);
    }
    let d = b.broadcast(String::from("m"));
    assert_eq!(
        d,
        vec![(1, String::from("m")), (2, String::from("m")), (0, String::from("m"))]
    );
    assert_eq!(b.len(), 3);
}

#[test]
fn broadcast_to_one_sender_hands_it_the_message() {
    let mut b = Broadcast::new();
    b.register(9usize);
    assert_eq!(b.broadcast(5), vec![(0, 5)]);
}

#[test]
fn broadcast_to_nobody_makes_no_delivery() {
    let b: Broadcast<usize> = Broadcast::new();
    assert!(b.broadcast(5).is_empty());
}

#[test]
fn cleanup_is_needed_only_after_a_failure() {
    assert!(!Broadcast::<usize>::needs_cleanup(&vec![]));
    assert!(!Broadcast::<usize>::needs_cleanup(&vec![true, true]));
    assert!(Broadcast::<usize>::needs_cleanup(&vec![true, false, true]));
}

#[test]
fn failed_send_drops_disconnected_senders_in_order() {
    let mut queues: Vec<Queue<i32>> = (0..4).map(|_| Queue::new()).collect();
    queues[1].disconnect();
    queues[3].disconnect();
    let mut b = Broadcast::new();
    for s in 0..4usize {
        b.register(s);
    }
    assert_eq!(broadcast_to(&mut b, &mut queues, 7), vec![1, 2, 3, 0]);
    assert_eq!(b.len(), 2);
    assert_eq!(*b.sender(0), 0);
    assert_eq!(*b.sender(1), 2);
    assert_eq!(drain(&mut queues[0]), [7]);
    assert_eq!(drain(&mut queues[2]), [7]);

    assert_eq!(broadcast_to(&mut b, &mut queues, 8), vec![2, 0]);
    assert_eq!(drain(&mut queues[0]), [8]);
    assert_eq!(drain(&mut queues[2]), [8]);
}

#[test]
fn drop_disconnected_keeps_connected_in_order() {
    let mut b = Broadcast::new();
    for s in 10..15usize {
        b.register(s);
    }
    b.drop_disconnected(vec![false, true, false, true, false]);
    assert_eq!(b.len(), 3);
    assert_eq!((*b.sender(0), *b.sender(1), *b.sender(2)), (10, 12, 14));
    b.drop_disconnected(vec![false, false, false]);
    assert_eq!(b.len(), 3);
}

#[test]
fn full_but_connected_sender_is_kept() {
    let mut queues = vec![Queue::with_capacity(0), Queue::new()];
    let mut b = Broadcast::new();
    b.register(0usize);
    b.register(1usize);
    broadcast_to(&mut b, &mut queues, 4);
    assert_eq!(b.len(), 2);
    assert_eq!(drain(&mut queues[1]), [4]);
    queues[0].disconnect();
    broadcast_to(&mut b, &mut queues, 5);
    assert_eq!(b.len(), 1);
    assert_eq!(*b.sender(0), 1);
}

#[test]
fn cloned_broadcast_has_the_same_senders() {
    let mut b = Broadcast::new();
    b.register(3usize);
    let mut c = b.clone();
    c.register(4usize);
    assert_eq!(b.len(), 1);
    assert_eq!(c.len(), 2);
    assert_eq!(*c.sender(0), 3);
}
