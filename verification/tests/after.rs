use crossbeam_channel::err::RecvNonblocking;
use crossbeam_channel::flavors::after::{Channel, RecvStep, Token};

#[test]
fn message_arrives_at_the_deadline_once() {
    let mut c = Channel::new(1_000, 200);
    assert_eq!(c.deadline(), Some(1_200));
    assert_eq!(c.capacity(), Some(1));

    assert_eq!(c.recv(1_050), RecvStep::Wait(150));
    assert!(c.is_empty(1_050));
    assert_eq!(c.len(1_050), 0);
    assert_eq!(c.state(1_050), 0);

    assert!(!c.is_empty(1_200));
    assert_eq!(c.len(1_300), 1);
    assert_eq!(c.state(1_200), 1);
    assert_eq!(c.recv(1_300), RecvStep::Deliver(1_200));

    // Delivered once: afterwards the channel is empty and blocks.
    assert_eq!(c.recv(5_000), RecvStep::BlockForever);
    assert_eq!(c.recv_nonblocking(5_000), RecvNonblocking::Empty);
    assert!(c.is_empty(5_000));
    assert_eq!(c.len(5_000), 0);
    assert_eq!(c.state(5_000), 1);
}

#[test]
fn nonblocking_receive_before_and_after_the_deadline() {
    let mut c = Channel::new(0, 10);
    assert_eq!(c.recv_nonblocking(9), RecvNonblocking::Empty);
    assert_eq!(c.recv_nonblocking(10), RecvNonblocking::Message(10));
    assert_eq!(c.recv_nonblocking(11), RecvNonblocking::Empty);
    assert_eq!(c.recv(11), RecvStep::BlockForever);
}

#[test]
fn selection_fills_the_token() {
    let mut c = Channel::new(5, 5);
    let mut token = Token { after: None };
    assert!(c.register(&mut token));
    assert!(!c.try_select(&mut token, 7));
    assert_eq!(token.after, None);
    assert!(c.retry(&mut token, 10));
    assert_eq!(token.after, Some(10));
    assert_eq!(c.read(&token), Some(10));
    let mut other = Token { after: Some(3) };
    assert!(!c.accept(&mut other, 20));
    assert_eq!(other.after, Some(3));
    c.unregister();
}

#[test]
fn deadline_far_beyond_any_u64_of_nanoseconds() {
    // A deadline as far as `Duration::MAX` from now: the clock holds it.
    let dur: u128 = (u64::MAX as u128) * 1_000_000_000 + 999_999_999;
    let mut c = Channel::new(5, dur);
    assert_eq!(c.deadline(), Some(5 + dur));
    assert_eq!(c.recv(5), RecvStep::Wait(dur));
    assert_eq!(c.recv_nonblocking(dur), RecvNonblocking::Empty);
    assert_eq!(c.recv_nonblocking(5 + dur), RecvNonblocking::Message(5 + dur));
}
