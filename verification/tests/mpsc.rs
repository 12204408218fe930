use crossbeam_channel::err::{Async, AsyncSink, SendError, TrySendError};
use crossbeam_channel::futures::mpsc::{channel, Wake};

#[test]
fn full_channel_refuses_and_parks_the_sender() {
    let (mut chan, mut tx, mut rx) = channel::<i32, u32>(1);
    assert_eq!(tx.try_send(&mut chan, 1), Ok(()));
    assert_eq!(tx.try_send(&mut chan, 2), Err(TrySendError::Full(2)));

    // The receiver has not polled yet, so parking wakes nobody.
    assert_eq!(tx.poll_ready(&mut chan, 10), Ok(Async::NotReady));
    assert!(chan.take_wakes().is_empty());
    assert_eq!(*chan.sender_task(0), 10);

    // Taking the item frees a slot and notifies the parked sender.
    assert_eq!(rx.poll(&mut chan, 20), Ok(Async::Ready(Some(1))));
    assert_eq!(chan.take_wakes(), vec![Wake::Sender(0)]);

    // Notified, the sender drops its notifier and finds capacity.
    assert_eq!(tx.poll_ready(&mut chan, 11), Ok(Async::Ready(())));
    assert_eq!(tx.try_send(&mut chan, 2), Ok(()));
    // The receiver registered its task when it polled; the accepted item
    // wakes it.
    assert_eq!(chan.take_wakes(), vec![Wake::Receiver(20)]);
    assert_eq!(rx.poll(&mut chan, 21), Ok(Async::Ready(Some(2))));
}

#[test]
fn receiver_wake_up_is_consumed() {
    let (mut chan, mut tx, mut rx) = channel::<i32, u32>(4);
    assert_eq!(rx.poll(&mut chan, 20), Ok(Async::NotReady));
    assert_eq!(tx.try_send(&mut chan, 1), Ok(()));
    assert_eq!(tx.try_send(&mut chan, 2), Ok(()));
    // Only the first item wakes the receiver: the wake-up takes its task.
    assert_eq!(chan.take_wakes(), vec![Wake::Receiver(20)]);
    assert_eq!(rx.poll(&mut chan, 21), Ok(Async::Ready(Some(1))));
    assert_eq!(rx.poll(&mut chan, 21), Ok(Async::Ready(Some(2))));
    assert_eq!(rx.poll(&mut chan, 21), Ok(Async::NotReady));
}

#[test]
fn start_send_on_full_channel_hands_the_item_back() {
    let (mut chan, mut tx, mut rx) = channel::<i32, u32>(1);
    assert_eq!(rx.poll(&mut chan, 20), Ok(Async::NotReady));
    assert_eq!(tx.start_send(&mut chan, 1, 10), Ok(AsyncSink::Ready));
    assert_eq!(tx.start_send(&mut chan, 2, 10), Ok(AsyncSink::NotReady(2)));
    // The item woke the receiver; parking found no receiver task left.
    assert_eq!(chan.take_wakes(), vec![Wake::Receiver(20)]);
    assert_eq!(tx.poll_complete::<i32>(), Ok(Async::Ready(())));
}

#[test]
fn parked_sender_stays_parked_until_notified() {
    let (mut chan, mut tx, _rx) = channel::<i32, u32>(1);
    assert_eq!(tx.try_send(&mut chan, 1), Ok(()));
    assert_eq!(tx.poll_ready(&mut chan, 10), Ok(Async::NotReady));
    // Polling again re-registers on the same notifier with the new task.
    assert_eq!(tx.poll_ready(&mut chan, 12), Ok(Async::NotReady));
    assert_eq!(*chan.sender_task(0), 12);
}

#[test]
fn closing_a_notified_sender_passes_the_notification_on() {
    let (mut chan, mut tx1, mut rx) = channel::<i32, u32>(1);
    let mut tx2 = tx1.clone_in(&mut chan);
    assert_eq!(tx1.try_send(&mut chan, 1), Ok(()));
    assert_eq!(tx1.poll_ready(&mut chan, 10), Ok(Async::NotReady));
    assert_eq!(tx2.poll_ready(&mut chan, 11), Ok(Async::NotReady));
    chan.take_wakes();

    // The receiver takes the item and notifies the first parked sender...
    assert_eq!(rx.poll(&mut chan, 20), Ok(Async::Ready(Some(1))));
    assert_eq!(chan.take_wakes(), vec![Wake::Sender(0)]);
    // ...which closes instead of sending: the second one is notified.
    assert_eq!(tx1.close::<i32, u32>(&mut chan), Ok(Async::Ready(())));
    assert_eq!(chan.take_wakes(), vec![Wake::Sender(1)]);
    assert_eq!(tx2.poll_ready(&mut chan, 11), Ok(Async::Ready(())));
}

#[test]
fn closing_an_unnotified_sender_wakes_itself_only() {
    let (mut chan, mut tx, _rx) = channel::<i32, u32>(1);
    assert_eq!(tx.try_send(&mut chan, 1), Ok(()));
    assert_eq!(tx.poll_ready(&mut chan, 10), Ok(Async::NotReady));
    assert_eq!(tx.close::<i32, u32>(&mut chan), Ok(Async::Ready(())));
    assert_eq!(chan.take_wakes(), vec![Wake::Sender(0)]);
}

#[test]
fn last_sender_drop_disconnects_and_wakes_the_receiver() {
    let (mut chan, tx1, mut rx) = channel::<i32, u32>(2);
    let mut tx2 = tx1.clone_in(&mut chan);
    assert_eq!(tx2.try_send(&mut chan, 5), Ok(()));
    assert_eq!(rx.poll(&mut chan, 20), Ok(Async::Ready(Some(5))));
    assert_eq!(rx.poll(&mut chan, 21), Ok(Async::NotReady));
    tx1.drop_in(&mut chan);
    assert!(chan.take_wakes().is_empty());
    tx2.drop_in(&mut chan);
    assert_eq!(chan.take_wakes(), vec![Wake::Receiver(21)]);
    assert_eq!(rx.poll(&mut chan, 22), Ok(Async::Ready(None)));
}

#[test]
fn closed_receiver_drains_buffered_items() {
    let (mut chan, mut tx, mut rx) = channel::<i32, u32>(3);
    assert_eq!(tx.try_send(&mut chan, 1), Ok(()));
    assert_eq!(tx.try_send(&mut chan, 2), Ok(()));
    rx.close(&mut chan);
    assert_eq!(tx.try_send(&mut chan, 3), Err(TrySendError::Disconnected(3)));
    assert_eq!(tx.start_send(&mut chan, 4, 10), Err(SendError(4)));
    assert_eq!(rx.poll(&mut chan, 20), Ok(Async::Ready(Some(1))));
    assert_eq!(rx.poll(&mut chan, 20), Ok(Async::Ready(Some(2))));
    assert_eq!(rx.poll(&mut chan, 20), Ok(Async::Ready(None)));
}

#[test]
fn dropping_the_receiver_notifies_every_parked_sender() {
    let (mut chan, mut tx1, rx) = channel::<i32, u32>(1);
    let mut tx2 = tx1.clone_in(&mut chan);
    assert_eq!(tx1.try_send(&mut chan, 1), Ok(()));
    assert_eq!(tx1.poll_ready(&mut chan, 10), Ok(Async::NotReady));
    assert_eq!(tx2.poll_ready(&mut chan, 11), Ok(Async::NotReady));
    chan.take_wakes();
    rx.drop_in(&mut chan);
    assert_eq!(chan.take_wakes(), vec![Wake::Sender(0), Wake::Sender(1)]);
    // Notified, the sender gives up its notifier; the channel is still full
    // and its notifier queue is disconnected, so the poll fails.
    assert_eq!(tx1.poll_ready(&mut chan, 10), Err(SendError(())));
}

#[test]
fn empty_poll_notifies_one_parked_sender() {
    // A sender parked on a zero-capacity channel is notified by every poll
    // that finds nothing.
    let (mut chan, mut tx, mut rx) = channel::<i32, u32>(0);
    assert_eq!(tx.try_send(&mut chan, 1), Err(TrySendError::Full(1)));
    assert_eq!(tx.poll_ready(&mut chan, 10), Ok(Async::NotReady));
    assert_eq!(rx.poll(&mut chan, 20), Ok(Async::NotReady));
    assert_eq!(chan.take_wakes(), vec![Wake::Sender(0)]);
    // Nobody else is parked: the next empty poll notifies nobody.
    assert_eq!(rx.poll(&mut chan, 20), Ok(Async::NotReady));
    assert!(chan.take_wakes().is_empty());
}

#[test]
fn receiver_drop_refuses_a_parked_sender_on_a_full_channel() {
    let (mut chan, mut tx, rx) = channel::<i32, u32>(1);
    assert_eq!(tx.try_send(&mut chan, 1), Ok(()));
    assert_eq!(tx.poll_ready(&mut chan, 10), Ok(Async::NotReady));
    assert!(tx.is_valid_in(&chan));
    rx.drop_in(&mut chan);
    // The drop notified the parked sender...
    assert_eq!(chan.take_wakes(), vec![Wake::Sender(0)]);
    assert!(tx.is_valid_in(&chan));
    // ...and every later attempt fails, though the buffer is still full.
    assert_eq!(tx.poll_ready(&mut chan, 10), Err(SendError(())));
    assert_eq!(tx.try_send(&mut chan, 2), Err(TrySendError::Disconnected(2)));
    assert_eq!(tx.start_send(&mut chan, 3, 10), Err(SendError(3)));
}

#[test]
fn parked_senders_are_woken_in_line_one_per_poll() {
    let (mut chan, mut tx1, mut rx) = channel::<i32, u32>(1);
    let mut tx2 = tx1.clone_in(&mut chan);
    assert_eq!(tx1.try_send(&mut chan, 1), Ok(()));
    assert_eq!(tx1.poll_ready(&mut chan, 10), Ok(Async::NotReady));
    assert_eq!(tx2.poll_ready(&mut chan, 11), Ok(Async::NotReady));
    chan.take_wakes();
    // One sender waits before the second: it is woken by the second poll.
    assert_eq!(rx.poll(&mut chan, 20), Ok(Async::Ready(Some(1))));
    assert_eq!(chan.take_wakes(), vec![Wake::Sender(0)]);
    assert_eq!(rx.poll(&mut chan, 20), Ok(Async::NotReady));
    assert_eq!(chan.take_wakes(), vec![Wake::Sender(1)]);
}

#[test]
fn not_ready_sender_is_parked_holding_its_task() {
    let (mut chan, mut tx, _rx) = channel::<i32, u32>(1);
    assert_eq!(tx.try_send(&mut chan, 1), Ok(()));
    assert_eq!(tx.start_send(&mut chan, 2, 33), Ok(AsyncSink::NotReady(2)));
    assert_eq!(*chan.sender_task(0), 33);
}
