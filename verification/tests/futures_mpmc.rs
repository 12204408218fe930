use crossbeam_channel::err::{Async, AsyncSink};
use crossbeam_channel::futures::mpsc::channel;

// Tasks are named by numbers here: `u32` stands for the task that polls.

#[test]
fn send_recv() {
    let (mut chan, mut tx, mut rx) = channel::<i32, u32>(1);

    assert_eq!(tx.start_send(&mut chan, 1, 10), Ok(AsyncSink::Ready));

    assert_eq!(rx.poll(&mut chan, 20), Ok(Async::Ready(Some(1))));
}

#[test]
fn send_shared_recv() {
    let (mut chan, mut tx1, mut rx) = channel::<i32, u32>(1);
    let mut tx2 = tx1.clone_in(&mut chan);

    assert_eq!(tx1.start_send(&mut chan, 1, 10), Ok(AsyncSink::Ready));
    assert_eq!(rx.poll(&mut chan, 20), Ok(Async::Ready(Some(1))));

    assert_eq!(tx2.start_send(&mut chan, 2, 11), Ok(AsyncSink::Ready));
    assert_eq!(rx.poll(&mut chan, 20), Ok(Async::Ready(Some(2))));
}

#[test]
fn recv_close_gets_none() {
    let (mut chan, mut tx, mut rx) = channel::<i32, u32>(1);

    rx.close(&mut chan);

    assert_eq!(rx.poll(&mut chan, 20), Ok(Async::Ready(None)));
    assert!(tx.poll_ready(&mut chan, 10).is_err());

    tx.drop_in(&mut chan);
}

#[test]
fn tx_close_gets_none() {
    let (mut chan, tx, mut rx) = channel::<i32, u32>(1);
    tx.drop_in(&mut chan);

    assert_eq!(rx.poll(&mut chan, 20), Ok(Async::Ready(None)));
    assert_eq!(rx.poll(&mut chan, 20), Ok(Async::Ready(None)));
}
