//! A bounded, futures-aware MPSC channel with back pressure.
//!
//! The channel refuses new items when `cap` items are already in flight.
//! A sender that finds no capacity parks: it enqueues a one-shot notifier
//! (a [`SenderTask`]) holding its task, and the receiver notifies one parked
//! sender per item it takes. When the last sender goes, the channel is
//! disconnected and the receiver is woken; when the receiver closes, senders
//! are refused while the receiver drains what is buffered.
//!
//! [`Channel`] is the state that the senders and the receiver share; the
//! handles [`Sender`] and [`Receiver`] hold what each handle owns. Every
//! operation takes the shared state by `&mut`, so a caller that shares it
//! between threads serialises the operations. Tasks to wake are not woken
//! here: they are queued as [`Wake`]s for the caller to take.

use vstd::prelude::*;

use crate::err::{Async, AsyncSink, SendError, TryRecvError, TrySendError};
use crate::flavors::queue::{
    spec_disconnect, spec_try_recv, spec_try_send, Queue, QueueView,
};
use crate::futures::sender_task::{
    is_locked, is_notified, lemma_word_table, valid_word, SenderTask, PARKED, NOTIFIED,
};

verus! {

broadcast use {
    SenderTask::lemma_notified_copy,
    SenderTask::lemma_registered_copy,
    SenderTask::lemma_spec_new,
};

/// A task that must be woken.
#[derive(Debug, PartialEq, Eq)]
pub enum Wake<W> {
    /// The receiver's task, which a wake-up consumes: the receiver registers
    /// again when it next polls.
    Receiver(W),
    /// The task stored in the sender notifier with this index.
    Sender(usize),
}

/// The shared state of a channel, as values.
pub struct ChannelView<T, W> {
    /// The count of sender handles outstanding.
    pub senders: nat,
    /// The bounded queue of items.
    pub items: QueueView<T>,
    /// The unbounded queue of parked sender notifiers, by index.
    pub sender_tasks: QueueView<usize>,
    /// Every sender notifier made so far; an index names one.
    pub tasks: Seq<SenderTask<W>>,
    /// The receiver's task, once the receiver has polled.
    pub receiver_task: Option<W>,
    /// Tasks to wake, oldest first.
    pub wakes: Seq<Wake<W>>,
}

impl<T, W> ChannelView<T, W> {
    /// The invariant of the shared state: the item queue is bounded and
    /// within its capacity, the notifier queue is unbounded, holds each
    /// notifier at most once and only notifiers that exist, and every
    /// notifier word is one of the four states.
    pub open spec fn wf(self) -> bool {
        &&& self.items.wf()
        &&& self.items.cap is Some
        &&& self.sender_tasks.cap is None
        &&& self.sender_tasks.items.no_duplicates()
        &&& forall|i: int|
            0 <= i < self.sender_tasks.items.len() ==> #[trigger] self.sender_tasks.items[i]
                < self.tasks.len()
        &&& forall|i: int| 0 <= i < self.tasks.len() ==> valid_word(#[trigger] self.tasks[i].word())
    }

    /// The same state with the receiver's task taken and woken, if it has one.
    pub open spec fn wake_receiver(self) -> ChannelView<T, W> {
        if self.receiver_task is Some {
            ChannelView {
                receiver_task: None,
                wakes: self.wakes.push(Wake::Receiver(self.receiver_task->0)),
                ..self
            }
        } else {
            self
        }
    }
}

/// The position in `q`, from `j` on, of the first notifier that is not yet
/// notified, or `q.len()` when there is none.
pub open spec fn first_unnotified_from<W>(q: Seq<usize>, tasks: Seq<SenderTask<W>>, j: int) -> int
    decreases q.len() - j,
{
    if j < 0 || j >= q.len() {
        q.len() as int
    } else if !is_notified(tasks[q[j] as int].word()) {
        j
    } else {
        first_unnotified_from(q, tasks, j + 1)
    }
}

/// The wake-ups that notifying the notifiers `q`, in order, produces: one for
/// each notifier that is parked.
pub open spec fn wakes_for<W>(q: Seq<usize>, tasks: Seq<SenderTask<W>>) -> Seq<Wake<W>>
    decreases q.len(),
{
    if q.len() == 0 {
        Seq::empty()
    } else {
        wakes_for(q.drop_last(), tasks) + if tasks[q.last() as int].word() == PARKED {
            seq![Wake::Sender(q.last())]
        } else {
            Seq::empty()
        }
    }
}

/// The notifiers after every one whose index is in `q` has been notified.
pub open spec fn notify_all_tasks<W>(tasks: Seq<SenderTask<W>>, q: Seq<usize>) -> Seq<SenderTask<W>> {
    Seq::new(
        tasks.len(),
        |i: int|
            if q.contains(i as usize) {
                tasks[i].notified_copy()
            } else {
                tasks[i]
            },
    )
}

/// Notifying one parked sender: parked notifiers are taken from the front of
/// the queue until one that is not yet notified is found and notified.
pub open spec fn spec_notify_one<T, W>(c: ChannelView<T, W>) -> ChannelView<T, W> {
    let q = c.sender_tasks.items;
    let k = first_unnotified_from(q, c.tasks, 0);
    if k < q.len() {
        let id = q[k];
        ChannelView {
            sender_tasks: c.sender_tasks.with_items(q.skip(k + 1)),
            tasks: c.tasks.update(id as int, c.tasks[id as int].notified_copy()),
            wakes: if c.tasks[id as int].word() == PARKED {
                c.wakes.push(Wake::Sender(id))
            } else {
                c.wakes
            },
            ..c
        }
    } else {
        ChannelView { sender_tasks: c.sender_tasks.with_items(Seq::empty()), ..c }
    }
}

/// Notifying every parked sender: the queue is emptied and each notifier in
/// it notified.
pub open spec fn spec_notify_all<T, W>(c: ChannelView<T, W>) -> ChannelView<T, W> {
    let q = c.sender_tasks.items;
    ChannelView {
        sender_tasks: c.sender_tasks.with_items(Seq::empty()),
        tasks: notify_all_tasks(c.tasks, q),
        wakes: c.wakes + wakes_for(q, c.tasks),
        ..c
    }
}

/// The step keeps every existing notifier and whether it holds its lock bit,
/// so a sender handle that was valid for the old state is valid for the new.
pub open spec fn keeps_notifiers<T, W>(old: ChannelView<T, W>, new: ChannelView<T, W>) -> bool {
    &&& old.tasks.len() <= new.tasks.len()
    &&& forall|i: int|
        0 <= i < old.tasks.len() ==> is_locked(#[trigger] new.tasks[i].word()) == is_locked(
            old.tasks[i].word(),
        )
    &&& keeps_parked(old, new)
}

/// The step keeps notified notifiers notified, and keeps in the queue every
/// queued notifier that it leaves unnotified: a parked sender is either
/// notified or still waits in line.
pub open spec fn keeps_parked<T, W>(old: ChannelView<T, W>, new: ChannelView<T, W>) -> bool {
    &&& forall|i: int|
        0 <= i < old.tasks.len() && is_notified(old.tasks[i].word()) ==> is_notified(
            #[trigger] new.tasks[i].word(),
        )
    &&& forall|id: usize|
        #![trigger new.sender_tasks.items.contains(id)]
        #![trigger old.sender_tasks.items.contains(id)]
        id < old.tasks.len() && old.sender_tasks.items.contains(id) && !is_notified(
            new.tasks[id as int].word(),
        ) ==> new.sender_tasks.items.contains(id)
}

/// Notifying one parked sender keeps the invariant and the notifiers.
pub proof fn lemma_notify_one_keeps<T, W>(c: ChannelView<T, W>)
    requires
        c.wf(),
    ensures
        spec_notify_one(c).wf(),
        keeps_notifiers(c, spec_notify_one(c)),
        spec_notify_one(c).tasks.len() == c.tasks.len(),
        forall|i: int|
            0 <= i < c.tasks.len() ==> (#[trigger] spec_notify_one(c).tasks[i]).stored_task()
                == c.tasks[i].stored_task(),
{
    lemma_notify_one_tasks(c);
    let q = c.sender_tasks.items;
    let k = first_unnotified_from(q, c.tasks, 0);
    let c1 = spec_notify_one(c);
    if k < q.len() {
        lemma_first_unnotified_range(q, c.tasks, 0);
        let id = q[k];
        lemma_word_table(c.tasks[id as int].word());
        assert forall|i: int| 0 <= i < c1.sender_tasks.items.len() implies #[trigger] c1.sender_tasks.items[i]
            < c1.tasks.len() by {
            assert(c1.sender_tasks.items[i] == q[i + k + 1]);
        }
        assert forall|i: int| 0 <= i < c.tasks.len() implies is_locked(#[trigger] c1.tasks[i].word())
            == is_locked(c.tasks[i].word()) && valid_word(c1.tasks[i].word()) && (is_notified(
            c.tasks[i].word(),
        ) ==> is_notified(c1.tasks[i].word())) by {
            lemma_word_table(c.tasks[i].word());
            lemma_word_table(c.tasks[i].notified_copy().word());
        }
        lemma_word_table(c1.tasks[id as int].word());
        assert forall|x: usize|
            x < c.tasks.len() && q.contains(x) && !is_notified(c1.tasks[x as int].word()) implies #[trigger] c1.sender_tasks.items.contains(
            x,
        ) by {
            let p = choose|p: int| 0 <= p < q.len() && q[p] == x;
            if p < k {
                lemma_before_first_notified(q, c.tasks, 0, p);
                lemma_word_table(c.tasks[x as int].word());
                lemma_word_table(c.tasks[x as int].notified_copy().word());
            } else if p > k {
                assert(c1.sender_tasks.items[p - k - 1] == x);
            }
        }
    } else {
        assert(c1.sender_tasks.items =~= Seq::<usize>::empty());
        assert forall|x: usize|
            x < c.tasks.len() && q.contains(x) && !is_notified(c1.tasks[x as int].word()) implies #[trigger] c1.sender_tasks.items.contains(
            x,
        ) by {
            let p = choose|p: int| 0 <= p < q.len() && q[p] == x;
            lemma_before_first_notified(q, c.tasks, 0, p);
        }
    }
}

/// Every notifier in the queue before the first unnotified one, from `j` on,
/// is notified.
pub proof fn lemma_before_first_notified<W>(q: Seq<usize>, tasks: Seq<SenderTask<W>>, j: int, p: int)
    requires
        0 <= j <= p < first_unnotified_from(q, tasks, j),
        p < q.len(),
    ensures
        is_notified(tasks[q[p] as int].word()),
    decreases p - j,
{
    if j < p {
        lemma_before_first_notified(q, tasks, j + 1, p);
    }
}

/// Notifying one parked sender keeps every notifier's task.
proof fn lemma_notify_one_tasks<T, W>(c: ChannelView<T, W>)
    requires
        c.wf(),
    ensures
        spec_notify_one(c).tasks.len() == c.tasks.len(),
        forall|i: int|
            0 <= i < c.tasks.len() ==> (#[trigger] spec_notify_one(c).tasks[i]).stored_task()
                == c.tasks[i].stored_task(),
{
    let q = c.sender_tasks.items;
    let k = first_unnotified_from(q, c.tasks, 0);
    lemma_first_unnotified_range(q, c.tasks, 0);
    if k < q.len() {
        let id = q[k];
        assert(id < c.tasks.len());
        assert forall|i: int| 0 <= i < c.tasks.len() implies (#[trigger] spec_notify_one(c).tasks[i]).stored_task()
            == c.tasks[i].stored_task() by {
            c.tasks[i].lemma_notified_copy();
            if i == id {
                assert(spec_notify_one(c).tasks[i] == c.tasks[i].notified_copy());
            }
        }
    }
}

/// Notifying every parked sender keeps the invariant and the notifiers.
pub proof fn lemma_notify_all_keeps<T, W>(c: ChannelView<T, W>)
    requires
        c.wf(),
    ensures
        spec_notify_all(c).wf(),
        keeps_notifiers(c, spec_notify_all(c)),
        spec_notify_all(c).tasks.len() == c.tasks.len(),
        forall|i: int|
            0 <= i < c.tasks.len() ==> (#[trigger] spec_notify_all(c).tasks[i]).stored_task()
                == c.tasks[i].stored_task(),
{
    assert forall|i: int| 0 <= i < c.tasks.len() implies (#[trigger] spec_notify_all(c).tasks[i]).stored_task()
        == c.tasks[i].stored_task() by {
        c.tasks[i].lemma_notified_copy();
    }
    let c1 = spec_notify_all(c);
    assert(c1.sender_tasks.items =~= Seq::<usize>::empty());
    assert forall|i: int| 0 <= i < c.tasks.len() implies is_locked(#[trigger] c1.tasks[i].word())
        == is_locked(c.tasks[i].word()) && valid_word(c1.tasks[i].word()) && (is_notified(
        c.tasks[i].word(),
    ) ==> is_notified(c1.tasks[i].word())) by {
        lemma_word_table(c.tasks[i].word());
        lemma_word_table(c.tasks[i].notified_copy().word());
    }
    assert forall|x: usize|
        x < c.tasks.len() && c.sender_tasks.items.contains(x) && !is_notified(
            c1.tasks[x as int].word(),
        ) implies #[trigger] c1.sender_tasks.items.contains(x) by {
        assert(c1.tasks[x as int] == c.tasks[x as int].notified_copy());
        lemma_word_table(c.tasks[x as int].word());
        lemma_word_table(c.tasks[x as int].notified_copy().word());
    }
}

/// The first-unnotified position lies between `j` and the end of the queue.
pub proof fn lemma_first_unnotified_range<W>(q: Seq<usize>, tasks: Seq<SenderTask<W>>, j: int)
    requires
        0 <= j <= q.len(),
    ensures
        j <= first_unnotified_from(q, tasks, j) <= q.len(),
    decreases q.len() - j,
{
    if j < q.len() && is_notified(tasks[q[j] as int].word()) {
        lemma_first_unnotified_range(q, tasks, j + 1);
    }
}

/// Offering an item: the item queue decides; an accepted item wakes the
/// receiver.
pub open spec fn spec_sender_try_send<T, W>(c: ChannelView<T, W>, item: T) -> (ChannelView<T, W>, Result<(), TrySendError<T>>) {
    let (items, r) = spec_try_send(c.items, item);
    if r is Ok {
        (ChannelView { items, ..c }.wake_receiver(), r)
    } else {
        (c, r)
    }
}

/// Polling for capacity, by a sender parked on `task` whose current task is
/// `current`. The sender first re-registers on its notifier and keeps it only
/// if it was not yet notified. With no capacity, it stays parked on that
/// notifier, or parks on a new one that it enqueues (waking the receiver);
/// with capacity it unparks. A disconnected channel fails the poll.
pub open spec fn spec_poll_ready<T, W>(c: ChannelView<T, W>, task: Option<usize>, current: W) -> (
    ChannelView<T, W>,
    Option<usize>,
    Result<Async<()>, SendError<()>>,
) {
    let c1 = match task {
        Some(id) => ChannelView {
            tasks: c.tasks.update(id as int, c.tasks[id as int].registered_copy(current)),
            ..c
        },
        None => c,
    };
    let kept = match task {
        Some(id) => if c.tasks[id as int].word() == PARKED {
            Some(id)
        } else {
            None
        },
        None => None,
    };
    if c.items.is_full() {
        match kept {
            Some(id) => (c1, Some(id), Ok(Async::NotReady)),
            None => {
                let n = c1.tasks.len() as usize;
                let c2 = ChannelView { tasks: c1.tasks.push(SenderTask::spec_new(current)), ..c1 };
                if c1.sender_tasks.disconnected {
                    (c2, None, Err(SendError(())))
                } else {
                    (
                        ChannelView {
                            sender_tasks: c2.sender_tasks.with_items(c2.sender_tasks.items.push(n)),
                            ..c2
                        }.wake_receiver(),
                        Some(n),
                        Ok(Async::NotReady),
                    )
                }
            },
        }
    } else if c.items.disconnected {
        (c1, None, Err(SendError(())))
    } else {
        (c1, None, Ok(Async::Ready(())))
    }
}

/// Offering an item as a sink: a refused full channel turns into a poll for
/// capacity that parks the sender and hands the item back.
pub open spec fn spec_start_send<T, W>(c: ChannelView<T, W>, task: Option<usize>, item: T, current: W) -> (
    ChannelView<T, W>,
    Option<usize>,
    Result<AsyncSink<T>, SendError<T>>,
) {
    let (c1, r) = spec_sender_try_send(c, item);
    match r {
        Ok(()) => (c1, task, Ok(AsyncSink::Ready)),
        Err(TrySendError::Full(i)) => {
            let (c2, t2, p) = spec_poll_ready(c, task, current);
            (
                c2,
                t2,
                if p is Err {
                    Err(SendError(i))
                } else {
                    Ok(AsyncSink::NotReady(i))
                },
            )
        },
        Err(TrySendError::Disconnected(i)) => (c, task, Err(SendError(i))),
    }
}

/// Closing a sender: it gives up its notifier, notifying it; if someone had
/// already notified it, that notification is passed on to another parked
/// sender.
pub open spec fn spec_sender_close<T, W>(c: ChannelView<T, W>, task: Option<usize>) -> ChannelView<T, W> {
    match task {
        None => c,
        Some(id) => {
            let t = c.tasks[id as int];
            let c1 = ChannelView {
                tasks: c.tasks.update(id as int, t.notified_copy()),
                wakes: if t.word() == PARKED {
                    c.wakes.push(Wake::Sender(id))
                } else {
                    c.wakes
                },
                ..c
            };
            if is_notified(t.word()) {
                spec_notify_one(c1)
            } else {
                c1
            }
        },
    }
}

/// Dropping a sender: it closes, and the last sender disconnects both queues
/// and wakes the receiver.
pub open spec fn spec_sender_drop<T, W>(c: ChannelView<T, W>, task: Option<usize>) -> ChannelView<T, W> {
    let c1 = spec_sender_close(c, task);
    let c2 = ChannelView { senders: (c1.senders - 1) as nat, ..c1 };
    if c.senders == 1 {
        ChannelView {
            items: spec_disconnect(c2.items).0,
            sender_tasks: spec_disconnect(c2.sender_tasks).0,
            ..c2
        }.wake_receiver()
    } else {
        c2
    }
}

/// Closing the receiver: both queues are disconnected.
pub open spec fn spec_receiver_close<T, W>(c: ChannelView<T, W>) -> ChannelView<T, W> {
    ChannelView {
        items: spec_disconnect(c.items).0,
        sender_tasks: spec_disconnect(c.sender_tasks).0,
        ..c
    }
}

/// Polling the receiver, whose current task is `current`: an item taken frees
/// a slot and notifies one parked sender; an empty channel notifies one too;
/// a disconnected, drained channel ends the stream, disconnects the notifier
/// queue and notifies every parked sender.
pub open spec fn spec_poll<T, W>(c: ChannelView<T, W>, current: W) -> (ChannelView<T, W>, Result<Async<Option<T>>, ()>) {
    let c1 = ChannelView { receiver_task: Some(current), ..c };
    let (items, r) = spec_try_recv(c.items);
    match r {
        Ok(x) => (spec_notify_one(ChannelView { items, ..c1 }), Ok(Async::Ready(Some(x)))),
        Err(TryRecvError::Empty) => (spec_notify_one(c1), Ok(Async::NotReady)),
        Err(TryRecvError::Disconnected) => (
            spec_notify_all(ChannelView { sender_tasks: spec_disconnect(c.sender_tasks).0, ..c1 }),
            Ok(Async::Ready(None)),
        ),
    }
}

/// Dropping the receiver: both queues are disconnected and every parked
/// sender is notified.
pub open spec fn spec_receiver_drop<T, W>(c: ChannelView<T, W>) -> ChannelView<T, W> {
    spec_notify_all(spec_receiver_close(c))
}

/// The step keeps every existing notifier but `except` and whether it holds
/// its lock bit.
pub open spec fn keeps_notifiers_but<T, W>(
    old: ChannelView<T, W>,
    new: ChannelView<T, W>,
    except: Option<usize>,
) -> bool {
    &&& old.tasks.len() <= new.tasks.len()
    &&& forall|i: int|
        0 <= i < old.tasks.len() && except != Some(i as usize) ==> is_locked(
            #[trigger] new.tasks[i].word(),
        ) == is_locked(old.tasks[i].word())
    &&& keeps_parked(old, new)
}

/// A state whose notifiers and notifier queue are those of a well-formed
/// state, and whose item queue is bounded and within its capacity, is
/// well-formed.
pub proof fn lemma_wf_frame<T, W>(c: ChannelView<T, W>, c2: ChannelView<T, W>)
    requires
        c.wf(),
        c2.tasks == c.tasks,
        c2.sender_tasks.items == c.sender_tasks.items,
        c2.sender_tasks.cap == c.sender_tasks.cap,
        c2.items.wf(),
        c2.items.cap is Some,
    ensures
        c2.wf(),
        keeps_notifiers(c, c2),
{
}

/// Polling for capacity keeps the invariant and every notifier but the one
/// the sender parked on, and leaves the sender valid.
pub proof fn lemma_poll_ready_keeps<T, W>(c: ChannelView<T, W>, task: Option<usize>, current: W)
    requires
        c.wf(),
        parked_valid_in(task, c),
        c.tasks.len() <= usize::MAX,
    ensures
        spec_poll_ready(c, task, current).0.wf(),
        keeps_notifiers_but(c, spec_poll_ready(c, task, current).0, task),
        parked_valid_in(spec_poll_ready(c, task, current).1, spec_poll_ready(c, task, current).0),
        spec_poll_ready(c, task, current).2 == Ok::<Async<()>, SendError<()>>(Async::NotReady)
            ==> parked_holding(spec_poll_ready(c, task, current).1, spec_poll_ready(c, task, current).0, current),
{
    let (c2, t2, r) = spec_poll_ready(c, task, current);
    let c1 = match task {
        Some(id) => ChannelView {
            tasks: c.tasks.update(id as int, c.tasks[id as int].registered_copy(current)),
            ..c
        },
        None => c,
    };
    if let Some(id) = task {
        lemma_word_table(c.tasks[id as int].word());
        lemma_word_table(c.tasks[id as int].registered_copy(current).word());
    }
    assert forall|i: int| 0 <= i < c1.tasks.len() implies valid_word(#[trigger] c1.tasks[i].word())
        && (task != Some(i as usize) ==> c1.tasks[i] == c.tasks[i]) by {
    }
    assert(c1.wf());
    assert forall|i: int|
        0 <= i < c.tasks.len() && is_notified(c.tasks[i].word()) implies is_notified(
        #[trigger] c1.tasks[i].word(),
    ) by {
        lemma_word_table(c.tasks[i].word());
        lemma_word_table(c.tasks[i].registered_copy(current).word());
    }
    if c.items.is_full() && c2.tasks.len() > c1.tasks.len() {
        let n = c1.tasks.len() as usize;
        lemma_word_table(PARKED);
        assert(c2.tasks == c1.tasks.push(SenderTask::spec_new(current)));
        assert forall|i: int| 0 <= i < c2.tasks.len() implies valid_word(#[trigger] c2.tasks[i].word())
            by {
            if i < c1.tasks.len() {
                assert(c2.tasks[i] == c1.tasks[i]);
            }
        }
        if !c1.sender_tasks.disconnected {
            let q = c1.sender_tasks.items.push(n);
            assert(c2.sender_tasks.items == q);
            assert forall|i: int| 0 <= i < q.len() implies #[trigger] q[i] < c2.tasks.len() by {
                if i < q.len() - 1 {
                    assert(q[i] == c1.sender_tasks.items[i]);
                }
            }
            assert forall|a: int, b: int| 0 <= a < b < q.len() implies q[a] != q[b] by {
                if b == q.len() - 1 {
                    assert(q[a] == c1.sender_tasks.items[a]);
                    assert(q[a] < c1.tasks.len());
                } else {
                    assert(q[a] == c1.sender_tasks.items[a]);
                    assert(q[b] == c1.sender_tasks.items[b]);
                }
            }
        }
        assert forall|i: int| 0 <= i < c.tasks.len() && task != Some(i as usize) implies is_locked(
            #[trigger] c2.tasks[i].word(),
        ) == is_locked(c.tasks[i].word()) by {
            assert(c2.tasks[i] == c1.tasks[i]);
        }
        assert forall|i: int| 0 <= i < c.tasks.len() implies #[trigger] c2.tasks[i] == c1.tasks[i] by {}
        assert forall|x: usize| #[trigger] c.sender_tasks.items.contains(x) implies c2.sender_tasks.items.contains(x) by {
            if !c1.sender_tasks.disconnected {
                let p = choose|p: int| 0 <= p < c.sender_tasks.items.len() && c.sender_tasks.items[p] == x;
                assert(c2.sender_tasks.items[p] == x);
            }
        }
        if !c1.sender_tasks.disconnected {
            let n = c1.tasks.len() as usize;
            assert(c2.sender_tasks.items[c2.sender_tasks.items.len() - 1] == n);
            lemma_word_table(c2.tasks[n as int].word());
        }
    } else {
        if let Some(id) = t2 {
            lemma_word_table(c.tasks[id as int].word());
        }
    }
}

/// Back pressure: a connected channel refuses an item as full exactly when
/// `cap` items are in flight, and otherwise holds one more item, which goes
/// to the back.
pub proof fn lemma_back_pressure<T, W>(c: ChannelView<T, W>, item: T)
    requires
        c.wf(),
        !c.items.disconnected,
    ensures
        (spec_sender_try_send(c, item).1 matches Err(TrySendError::Full(_))) <==> c.items.items.len()
            == c.items.cap->0,
        spec_sender_try_send(c, item).1 is Ok ==> spec_sender_try_send(c, item).0.items.items
            == c.items.items.push(item),
        spec_sender_try_send(c, item).0.items.items.len() <= c.items.cap->0,
{
}

/// Items come out in the order they went in: an item accepted by a connected
/// channel is received after the items already buffered, and right away when
/// none were.
pub proof fn lemma_items_in_order<T, W>(c: ChannelView<T, W>, item: T, current: W)
    requires
        c.wf(),
        !c.items.disconnected,
        !c.items.is_full(),
    ensures
        spec_sender_try_send(c, item).1 is Ok,
        spec_poll(spec_sender_try_send(c, item).0, current).1 == (if c.items.items.len() > 0 {
            Ok::<Async<Option<T>>, ()>(Async::Ready(Some(c.items.items[0])))
        } else {
            Ok::<Async<Option<T>>, ()>(Async::Ready(Some(item)))
        }),
{
    let c1 = spec_sender_try_send(c, item).0;
    assert(c1.items.items == c.items.items.push(item));
    assert(c1.items.items[0] == (if c.items.items.len() > 0 {
        c.items.items[0]
    } else {
        item
    }));
}

/// Closing the receiver refuses further items while the buffered items can
/// still be received, oldest first; once none is left the stream ends. A
/// sender that has not parked finds the channel failed.
pub proof fn lemma_close_refuses_and_drains<T, W>(c: ChannelView<T, W>, item: T, current: W)
    requires
        c.wf(),
    ensures
        spec_sender_try_send(spec_receiver_close(c), item).1 == Err::<(), TrySendError<T>>(
            TrySendError::Disconnected(item),
        ),
        spec_poll(spec_receiver_close(c), current).1 == (if c.items.items.len() > 0 {
            Ok::<Async<Option<T>>, ()>(Async::Ready(Some(c.items.items[0])))
        } else {
            Ok::<Async<Option<T>>, ()>(Async::Ready(None))
        }),
        spec_poll(spec_receiver_close(c), current).0.items.disconnected,
        spec_poll(spec_receiver_close(c), current).0.items.items.len() == if c.items.items.len()
            > 0 {
            c.items.items.len() - 1
        } else {
            0
        },
        spec_poll_ready(spec_receiver_close(c), None, current).2 is Err,
{
}

/// The end of the stream is final: a disconnected channel with no buffered
/// item answers every poll with the end of the stream.
pub proof fn lemma_end_of_stream_repeats<T, W>(c: ChannelView<T, W>, first: W, second: W)
    requires
        c.wf(),
        c.items.disconnected,
        c.items.items.len() == 0,
    ensures
        spec_poll(c, first).1 == Ok::<Async<Option<T>>, ()>(Async::Ready(None)),
        spec_poll(spec_poll(c, first).0, second).1 == Ok::<Async<Option<T>>, ()>(
            Async::Ready(None),
        ),
        spec_poll(c, first).0.items == c.items,
{
}

/// When the last sender goes, the channel is disconnected and a receiver that
/// has polled is woken; once drained, its next poll ends the stream.
pub proof fn lemma_last_sender_disconnects<T, W>(c: ChannelView<T, W>, task: Option<usize>, current: W)
    requires
        c.wf(),
        c.senders == 1,
        task matches Some(id) ==> id < c.tasks.len(),
    ensures
        spec_sender_drop(c, task).senders == 0,
        spec_sender_drop(c, task).items.disconnected,
        spec_sender_drop(c, task).sender_tasks.disconnected,
        spec_sender_drop(c, task).items.items == c.items.items,
        c.receiver_task is Some ==> spec_sender_drop(c, task).wakes.last() == Wake::Receiver(
            c.receiver_task->0,
        ),
        c.items.items.len() == 0 ==> spec_poll(spec_sender_drop(c, task), current).1 == Ok::<
            Async<Option<T>>,
            (),
        >(Async::Ready(None)),
{
}

/// The search for an unnotified notifier from `j` on finds one, at the latest
/// at `w`, when the notifier at `w` is not notified.
pub proof fn lemma_first_unnotified_found<W>(q: Seq<usize>, tasks: Seq<SenderTask<W>>, j: int, w: int)
    requires
        0 <= j <= w < q.len(),
        !is_notified(tasks[q[w] as int].word()),
    ensures
        j <= first_unnotified_from(q, tasks, j) <= w,
        !is_notified(tasks[q[first_unnotified_from(q, tasks, j)] as int].word()),
    decreases w - j,
{
    if j < w && is_notified(tasks[q[j] as int].word()) {
        lemma_first_unnotified_found(q, tasks, j + 1, w);
    }
}

/// One parked sender per item: a poll that takes an item notifies at most one
/// notifier, the first parked one that was not yet notified; when the queue
/// of parked senders holds such a notifier, it is notified, so the slot the
/// item freed reaches a sender.
pub proof fn lemma_one_sender_per_item<T, W>(c: ChannelView<T, W>, current: W)
    requires
        c.wf(),
        c.items.items.len() > 0,
    ensures
        ({
            let q = c.sender_tasks.items;
            let c2 = spec_poll(c, current).0;
            let k = first_unnotified_from(q, c.tasks, 0);
            &&& spec_poll(c, current).1 == Ok::<Async<Option<T>>, ()>(
                Async::Ready(Some(c.items.items[0])),
            )
            &&& c2.tasks.len() == c.tasks.len()
            &&& forall|i: int|
                0 <= i < c.tasks.len() && (k >= q.len() || i != q[k]) ==> #[trigger] c2.tasks[i]
                    == c.tasks[i]
            &&& (exists|w: int| 0 <= w < q.len() && !is_notified(c.tasks[q[w] as int].word()))
                ==> k < q.len() && !is_notified(c.tasks[q[k] as int].word()) && is_notified(
                c2.tasks[q[k] as int].word(),
            )
        }),
{
    let q = c.sender_tasks.items;
    let k = first_unnotified_from(q, c.tasks, 0);
    let c1 = ChannelView { items: spec_try_recv(c.items).0, receiver_task: Some(current), ..c };
    let c2 = spec_poll(c, current).0;
    assert(c2 == spec_notify_one(c1));
    lemma_first_unnotified_range(q, c.tasks, 0);
    if k < q.len() {
        let id = q[k];
        assert(id < c.tasks.len());
        assert(c2.tasks == c.tasks.update(id as int, c.tasks[id as int].notified_copy()));
        lemma_word_table(c.tasks[id as int].word());
        lemma_word_table(c.tasks[id as int].notified_copy().word());
    } else {
        assert(c2.tasks == c.tasks);
    }
    if exists|w: int| 0 <= w < q.len() && !is_notified(c.tasks[q[w] as int].word()) {
        let w = choose|w: int| 0 <= w < q.len() && !is_notified(c.tasks[q[w] as int].word());
        lemma_first_unnotified_found(q, c.tasks, 0, w);
    }
}

/// The sender is parked on a notifier that is parked and holds `current`, so
/// that a notification wakes that task.
pub open spec fn parked_holding<T, W>(task: Option<usize>, c: ChannelView<T, W>, current: W) -> bool {
    task matches Some(id) && id < c.tasks.len() && c.tasks[id as int].word() == PARKED
        && c.tasks[id as int].stored_task() == current
}

/// A sender parked on `task` may act on a channel in state `c`: the notifier
/// exists, holds no lock bit, and waits in the queue of parked senders until
/// it is notified.
pub open spec fn parked_valid_in<T, W>(task: Option<usize>, c: ChannelView<T, W>) -> bool {
    task matches Some(id) ==> id < c.tasks.len() && !is_locked(c.tasks[id as int].word()) && (
    !is_notified(c.tasks[id as int].word()) ==> c.sender_tasks.items.contains(id))
}

/// Notifying the notifiers of `q` wakes every parked one among them.
pub proof fn lemma_wakes_for_parked<W>(q: Seq<usize>, tasks: Seq<SenderTask<W>>, id: usize)
    requires
        q.contains(id),
        id < tasks.len(),
        tasks[id as int].word() == PARKED,
    ensures
        wakes_for(q, tasks).contains(Wake::Sender(id)),
    decreases q.len(),
{
    let w = wakes_for(q, tasks);
    if q.last() == id {
        let rest = wakes_for(q.drop_last(), tasks);
        assert(w == rest + seq![Wake::<W>::Sender(id)]);
        assert(w[rest.len() as int] == Wake::<W>::Sender(id));
    } else {
        let p = choose|p: int| 0 <= p < q.len() && q[p] == id;
        assert(q.drop_last()[p] == id);
        lemma_wakes_for_parked(q.drop_last(), tasks, id);
        let rest = wakes_for(q.drop_last(), tasks);
        let j = choose|j: int| 0 <= j < rest.len() && rest[j] == Wake::<W>::Sender(id);
        assert(w[j] == Wake::<W>::Sender(id));
    }
}

/// Once the receiver is gone, no sender of the channel waits in vain: the
/// drop notifies the notifier every sender parked on (waking it if it was
/// parked), and afterwards every offer is refused and every poll for
/// capacity fails, even on a full channel and for a sender that had parked.
pub proof fn lemma_receiver_gone_refuses<T, W>(c: ChannelView<T, W>, task: Option<usize>, item: T, current: W)
    requires
        c.wf(),
        parked_valid_in(task, c),
    ensures
        task matches Some(id) ==> is_notified(spec_receiver_drop(c).tasks[id as int].word()),
        task matches Some(id) ==> (c.tasks[id as int].word() == PARKED ==> spec_receiver_drop(
            c,
        ).wakes.contains(Wake::Sender(id))),
        parked_valid_in(task, spec_receiver_drop(c)),
        spec_sender_try_send(spec_receiver_drop(c), item).1 == Err::<(), TrySendError<T>>(
            TrySendError::Disconnected(item),
        ),
        spec_poll_ready(spec_receiver_drop(c), task, current).2 == Err::<Async<()>, SendError<()>>(
            SendError(()),
        ),
        spec_start_send(spec_receiver_drop(c), task, item, current).2 == Err::<
            AsyncSink<T>,
            SendError<T>,
        >(SendError(item)),
{
    let c1 = spec_receiver_close(c);
    let d = spec_receiver_drop(c);
    assert(c1.wf());
    lemma_notify_all_keeps(c1);
    if let Some(id) = task {
        lemma_word_table(c.tasks[id as int].word());
        lemma_word_table(c.tasks[id as int].notified_copy().word());
        if !is_notified(c.tasks[id as int].word()) {
            assert(c1.sender_tasks.items.contains(id));
            assert(d.tasks[id as int] == c.tasks[id as int].notified_copy());
            if c.tasks[id as int].word() == PARKED {
                lemma_wakes_for_parked(c1.sender_tasks.items, c1.tasks, id);
                let w = wakes_for(c1.sender_tasks.items, c1.tasks);
                let j = choose|j: int| 0 <= j < w.len() && w[j] == Wake::<W>::Sender(id);
                assert(d.wakes[c.wakes.len() + j] == Wake::<W>::Sender(id));
            }
        }
        assert(is_notified(d.tasks[id as int].word()));
        lemma_word_table(d.tasks[id as int].word());
    }
}

/// How many notifiers wait in `q` before `id` that are not yet notified.
pub open spec fn waiting_ahead<W>(q: Seq<usize>, tasks: Seq<SenderTask<W>>, id: usize) -> nat
    decreases q.len(),
{
    if q.len() == 0 || q[0] == id {
        0
    } else {
        (if is_notified(tasks[q[0] as int].word()) {
            0nat
        } else {
            1nat
        }) + waiting_ahead(q.drop_first(), tasks, id)
    }
}

/// The receiver's state after polling once with each of `currents`, in order.
pub open spec fn spec_polls<T, W>(c: ChannelView<T, W>, currents: Seq<W>) -> ChannelView<T, W>
    decreases currents.len(),
{
    if currents.len() == 0 {
        c
    } else {
        spec_polls(spec_poll(c, currents[0]).0, currents.drop_first())
    }
}

/// Skipping a prefix of notified notifiers other than `id` leaves the count
/// of those waiting before `id` as it is.
proof fn lemma_waiting_skip<W>(q: Seq<usize>, tasks: Seq<SenderTask<W>>, id: usize, j: int)
    requires
        0 <= j <= q.len(),
        forall|i: int| #![trigger q[i]] 0 <= i < j ==> q[i] != id && is_notified(tasks[q[i] as int].word()),
    ensures
        waiting_ahead(q, tasks, id) == waiting_ahead(q.skip(j), tasks, id),
    decreases j,
{
    if j == 0 {
        assert(q.skip(0) =~= q);
    } else {
        assert(q[0] != id && is_notified(tasks[q[0] as int].word()));
        let r = q.drop_first();
        assert forall|i: int| #![trigger r[i]] 0 <= i < j - 1 implies r[i] != id && is_notified(
            tasks[r[i] as int].word(),
        ) by {
            assert(r[i] == q[i + 1]);
            assert(is_notified(tasks[q[i + 1] as int].word()));
        }
        lemma_waiting_skip(r, tasks, id, j - 1);
        assert(r.skip(j - 1) =~= q.skip(j));
    }
}

/// The count of waiting notifiers depends only on whether the queued ones are
/// notified.
proof fn lemma_waiting_frame<W>(q: Seq<usize>, t1: Seq<SenderTask<W>>, t2: Seq<SenderTask<W>>, id: usize)
    requires
        forall|i: int|
            0 <= i < q.len() ==> is_notified(#[trigger] t1[q[i] as int].word()) == is_notified(
                t2[q[i] as int].word(),
            ),
    ensures
        waiting_ahead(q, t1, id) == waiting_ahead(q, t2, id),
    decreases q.len(),
{
    if q.len() > 0 && q[0] != id {
        let r = q.drop_first();
        assert(is_notified(t1[q[0] as int].word()) == is_notified(t2[q[0] as int].word()));
        assert forall|i: int| 0 <= i < r.len() implies is_notified(#[trigger] t1[r[i] as int].word())
            == is_notified(t2[r[i] as int].word()) by {
            assert(r[i] == q[i + 1]);
            assert(is_notified(t1[q[i + 1] as int].word()) == is_notified(t2[q[i + 1] as int].word()));
        }
        lemma_waiting_frame(r, t1, t2, id);
    }
}

/// A poll keeps the invariant and the notifiers, and only appends wake-ups.
pub proof fn lemma_poll_keeps<T, W>(c: ChannelView<T, W>, current: W)
    requires
        c.wf(),
    ensures
        spec_poll(c, current).0.wf(),
        keeps_notifiers(c, spec_poll(c, current).0),
        spec_poll(c, current).0.wakes.subrange(0, c.wakes.len() as int) == c.wakes,
        spec_poll(c, current).0.wakes.len() >= c.wakes.len(),
        spec_poll(c, current).0.tasks.len() == c.tasks.len(),
        forall|i: int|
            0 <= i < c.tasks.len() ==> (#[trigger] spec_poll(c, current).0.tasks[i]).stored_task()
                == c.tasks[i].stored_task(),
{
    let c1 = ChannelView { items: spec_try_recv(c.items).0, receiver_task: Some(current), ..c };
    let c3 = ChannelView { sender_tasks: spec_disconnect(c.sender_tasks).0, ..c1 };
    let c2 = spec_poll(c, current).0;
    if c.items.items.len() > 0 || !c.items.disconnected {
        let b = if c.items.items.len() > 0 { c1 } else { ChannelView { receiver_task: Some(current), ..c } };
        assert(c2 == spec_notify_one(b));
        assert(b.wf());
        lemma_notify_one_keeps(b);
        assert(c2.wakes.subrange(0, c.wakes.len() as int) =~= c.wakes);
        assert forall|i: int| 0 <= i < c.tasks.len() implies (#[trigger] c2.tasks[i]).stored_task()
            == c.tasks[i].stored_task() by {
            assert(c2.tasks[i] == spec_notify_one(b).tasks[i]);
        }
    } else {
        assert(c2 == spec_notify_all(c3));
        assert(c3.wf());
        lemma_notify_all_keeps(c3);
        assert(c2.wakes.subrange(0, c.wakes.len() as int) =~= c.wakes);
        assert forall|i: int| 0 <= i < c.tasks.len() implies (#[trigger] c2.tasks[i]).stored_task()
            == c.tasks[i].stored_task() by {
            assert(c2.tasks[i] == spec_notify_all(c3).tasks[i]);
        }
    }
}

/// Each poll moves a parked, unnotified sender forward: if no unnotified
/// sender waits before it, the poll notifies it and queues its wake-up;
/// otherwise it is notified or one fewer unnotified sender waits before it.
pub proof fn lemma_poll_advances<T, W>(c: ChannelView<T, W>, id: usize, current: W)
    requires
        c.wf(),
        parked_valid_in(Some(id), c),
        !is_notified(c.tasks[id as int].word()),
    ensures
        ({
            let c2 = spec_poll(c, current).0;
            let w = waiting_ahead(c.sender_tasks.items, c.tasks, id);
            &&& parked_valid_in(Some(id), c2)
            &&& w == 0 ==> is_notified(c2.tasks[id as int].word())
            &&& is_notified(c2.tasks[id as int].word()) ==> c2.wakes.contains(Wake::Sender(id))
            &&& !is_notified(c2.tasks[id as int].word()) ==> w > 0 && waiting_ahead(
                c2.sender_tasks.items,
                c2.tasks,
                id,
            ) + 1 == w
        }),
{
    let q = c.sender_tasks.items;
    let c2 = spec_poll(c, current).0;
    lemma_poll_keeps(c, current);
    lemma_word_table(c.tasks[id as int].word());
    assert(c.tasks[id as int].word() == PARKED);
    assert(q.contains(id));
    let p = choose|p: int| 0 <= p < q.len() && q[p] == id;
    lemma_first_unnotified_found(q, c.tasks, 0, p);
    let k = first_unnotified_from(q, c.tasks, 0);
    if c.items.items.len() > 0 || !c.items.disconnected {
        let b = if c.items.items.len() > 0 {
            ChannelView { items: spec_try_recv(c.items).0, receiver_task: Some(current), ..c }
        } else {
            ChannelView { receiver_task: Some(current), ..c }
        };
        assert(c2 == spec_notify_one(b));
        let x = q[k];
        assert forall|i: int| #![trigger q[i]] 0 <= i < k implies q[i] != id && is_notified(
            c.tasks[q[i] as int].word(),
        ) by {
            lemma_before_first_notified(q, c.tasks, 0, i);
        }
        lemma_word_table(c.tasks[x as int].word());
        lemma_word_table(c.tasks[x as int].notified_copy().word());
        if x == id {
            // No unnotified sender waits before it: it is notified now.
            lemma_waiting_skip(q, c.tasks, id, k);
            assert(q.skip(k)[0] == id);
            assert(c2.wakes == c.wakes.push(Wake::Sender(id)));
            assert(c2.wakes[c.wakes.len() as int] == Wake::<W>::Sender(id));
        } else {
            assert(k < p) by {
                if k > p {
                    lemma_before_first_notified(q, c.tasks, 0, p);
                }
            }
            lemma_waiting_skip(q, c.tasks, id, k);
            let r = q.skip(k);
            assert(r[0] == x);
            assert(r.drop_first() =~= q.skip(k + 1));
            assert(c2.sender_tasks.items == q.skip(k + 1));
            assert(c2.tasks == c.tasks.update(x as int, c.tasks[x as int].notified_copy()));
            assert forall|i: int| 0 <= i < q.skip(k + 1).len() implies is_notified(
                #[trigger] c2.tasks[q.skip(k + 1)[i] as int].word(),
            ) == is_notified(c.tasks[q.skip(k + 1)[i] as int].word()) by {
                assert(q.skip(k + 1)[i] == q[i + k + 1]);
                assert(q[i + k + 1] != q[k]);
            }
            lemma_waiting_frame(q.skip(k + 1), c2.tasks, c.tasks, id);
            assert(c2.tasks[id as int] == c.tasks[id as int]);
            assert(q.skip(k + 1)[p - k - 1] == id);
        }
    } else {
        let c3 = ChannelView {
            sender_tasks: spec_disconnect(c.sender_tasks).0,
            receiver_task: Some(current),
            ..c
        };
        assert(c2 == spec_notify_all(c3));
        assert(c2.tasks[id as int] == c.tasks[id as int].notified_copy());
        lemma_word_table(c.tasks[id as int].notified_copy().word());
        lemma_wakes_for_parked(q, c.tasks, id);
        let w = wakes_for(q, c.tasks);
        let j = choose|j: int| 0 <= j < w.len() && w[j] == Wake::<W>::Sender(id);
        assert(c2.wakes[c.wakes.len() + j] == Wake::<W>::Sender(id));
    }
    lemma_word_table(c2.tasks[id as int].word());
}

/// Polls keep a notified notifier notified, keep a queued wake-up queued,
/// and keep the invariant.
pub proof fn lemma_polls_keep<T, W>(c: ChannelView<T, W>, id: usize, currents: Seq<W>)
    requires
        c.wf(),
        id < c.tasks.len(),
    ensures
        spec_polls(c, currents).wf(),
        id < spec_polls(c, currents).tasks.len(),
        is_notified(c.tasks[id as int].word()) ==> is_notified(
            spec_polls(c, currents).tasks[id as int].word(),
        ),
        c.wakes.contains(Wake::Sender(id)) ==> spec_polls(c, currents).wakes.contains(
            Wake::Sender(id),
        ),
        spec_polls(c, currents).tasks[id as int].stored_task() == c.tasks[id as int].stored_task(),
    decreases currents.len(),
{
    if currents.len() > 0 {
        let c2 = spec_poll(c, currents[0]).0;
        lemma_poll_keeps(c, currents[0]);
        if c.wakes.contains(Wake::Sender(id)) {
            let j = choose|j: int| 0 <= j < c.wakes.len() && c.wakes[j] == Wake::<W>::Sender(id);
            assert(c2.wakes.subrange(0, c.wakes.len() as int)[j] == c2.wakes[j]);
        }
        lemma_polls_keep(c2, id, currents.drop_first());
    }
}

/// No parked sender waits forever while the receiver polls: a sender parked
/// on a notifier that `k` unnotified senders wait before is notified, and its
/// wake-up queued, within `k + 1` polls of the receiver.
pub proof fn lemma_parked_sender_woken<T, W>(c: ChannelView<T, W>, id: usize, currents: Seq<W>)
    requires
        c.wf(),
        parked_valid_in(Some(id), c),
        !is_notified(c.tasks[id as int].word()),
        currents.len() > waiting_ahead(c.sender_tasks.items, c.tasks, id),
    ensures
        is_notified(spec_polls(c, currents).tasks[id as int].word()),
        spec_polls(c, currents).wakes.contains(Wake::Sender(id)),
        spec_polls(c, currents).tasks[id as int].stored_task() == c.tasks[id as int].stored_task(),
    decreases currents.len(),
{
    let c2 = spec_poll(c, currents[0]).0;
    lemma_poll_advances(c, id, currents[0]);
    lemma_poll_keeps(c, currents[0]);
    if is_notified(c2.tasks[id as int].word()) {
        lemma_polls_keep(c2, id, currents.drop_first());
    } else {
        lemma_parked_sender_woken(c2, id, currents.drop_first());
    }
}

/// A sender that a poll for capacity left not ready is woken, with the task
/// that polled, within `k + 1` polls of the receiver, `k` being the count of
/// unnotified senders waiting before it.
pub proof fn lemma_not_ready_sender_woken<T, W>(
    c: ChannelView<T, W>,
    task: Option<usize>,
    current: W,
    currents: Seq<W>,
)
    requires
        c.wf(),
        parked_valid_in(task, c),
        parked_holding(task, c, current),
        currents.len() > waiting_ahead(c.sender_tasks.items, c.tasks, task->0),
    ensures
        is_notified(spec_polls(c, currents).tasks[task->0 as int].word()),
        spec_polls(c, currents).wakes.contains(Wake::Sender(task->0)),
        spec_polls(c, currents).tasks[task->0 as int].stored_task() == current,
{
    lemma_word_table(PARKED);
    lemma_parked_sender_woken(c, task->0, currents);
}

/// A poll takes exactly one item: when items are buffered it returns the
/// oldest and leaves the others, in order; when none is buffered on a
/// connected channel it is not ready and the buffer is left as it is; once
/// disconnected and drained it ends the stream. The buffer's capacity and
/// connection never change, and the poll registers the polling task.
pub proof fn lemma_poll_takes_one<T, W>(c: ChannelView<T, W>, current: W)
    requires
        c.wf(),
    ensures
        spec_poll(c, current).0.items.cap == c.items.cap,
        spec_poll(c, current).0.items.disconnected == c.items.disconnected,
        spec_poll(c, current).0.receiver_task == Some(current),
        spec_poll(c, current).0.senders == c.senders,
        c.items.items.len() > 0 ==> spec_poll(c, current).1 == Ok::<Async<Option<T>>, ()>(
            Async::Ready(Some(c.items.items[0])),
        ) && spec_poll(c, current).0.items.items == c.items.items.subrange(
            1,
            c.items.items.len() as int,
        ),
        c.items.items.len() == 0 && !c.items.disconnected ==> spec_poll(c, current).1 == Ok::<
            Async<Option<T>>,
            (),
        >(Async::NotReady) && spec_poll(c, current).0.items.items == c.items.items,
        c.items.items.len() == 0 && c.items.disconnected ==> spec_poll(c, current).1 == Ok::<
            Async<Option<T>>,
            (),
        >(Async::Ready(None)) && spec_poll(c, current).0.items.items == c.items.items,
{
}

/// Back pressure releases as soon as there is room: on a connected channel
/// whose buffer is not full, a poll for capacity is ready for every sender,
/// parked or not, and the sender ends up parked on nothing. On a full
/// connected channel it is not ready unless the notifier queue is gone.
pub proof fn lemma_poll_ready_capacity<T, W>(c: ChannelView<T, W>, task: Option<usize>, current: W)
    requires
        c.wf(),
        parked_valid_in(task, c),
    ensures
        !c.items.is_full() && !c.items.disconnected ==> spec_poll_ready(c, task, current).2
            == Ok::<Async<()>, SendError<()>>(Async::Ready(())) && spec_poll_ready(
            c,
            task,
            current,
        ).1 is None,
        !c.items.is_full() && c.items.disconnected ==> spec_poll_ready(c, task, current).2
            == Err::<Async<()>, SendError<()>>(SendError(())),
        c.items.is_full() && !c.sender_tasks.disconnected ==> spec_poll_ready(c, task, current).2
            == Ok::<Async<()>, SendError<()>>(Async::NotReady) && spec_poll_ready(
            c,
            task,
            current,
        ).1 is Some,
        spec_poll_ready(c, task, current).0.items == c.items,
        spec_poll_ready(c, task, current).0.senders == c.senders,
{
}

/// Sending as a sink fails only on a disconnected channel, and then hands the
/// item back. On a connected channel with room the item is appended and
/// accepted; on a connected full channel whose notifier queue is there, the
/// item is handed back as not ready and the sender is parked.
pub proof fn lemma_start_send_outcomes<T, W>(c: ChannelView<T, W>, task: Option<usize>, item: T, current: W)
    requires
        c.wf(),
        parked_valid_in(task, c),
    ensures
        spec_start_send(c, task, item, current).2 is Err ==> (c.items.disconnected
            || c.sender_tasks.disconnected) && spec_start_send(c, task, item, current).2
            == Err::<AsyncSink<T>, SendError<T>>(SendError(item)),
        !c.items.disconnected && !c.items.is_full() ==> spec_start_send(c, task, item, current).2
            == Ok::<AsyncSink<T>, SendError<T>>(AsyncSink::Ready) && spec_start_send(
            c,
            task,
            item,
            current,
        ).0.items.items == c.items.items.push(item),
        !c.items.disconnected && c.items.is_full() && !c.sender_tasks.disconnected
            ==> spec_start_send(c, task, item, current).2 == Ok::<AsyncSink<T>, SendError<T>>(
            AsyncSink::NotReady(item),
        ) && spec_start_send(c, task, item, current).1 is Some && spec_start_send(
            c,
            task,
            item,
            current,
        ).0.items == c.items,
        spec_start_send(c, task, item, current).0.senders == c.senders,
{
}

/// Every sender drop counts: whatever the sender parked on, the count of
/// senders drops by exactly one, the buffered items stay, and the drop that
/// takes the count to zero disconnects the channel, so that once every sender
/// is gone the receiver drains the buffer and ends the stream.
pub proof fn lemma_sender_drop_counts<T, W>(c: ChannelView<T, W>, task: Option<usize>)
    requires
        c.wf(),
        parked_valid_in(task, c),
        c.senders >= 1,
    ensures
        spec_sender_drop(c, task).senders + 1 == c.senders,
        spec_sender_drop(c, task).items.items == c.items.items,
        spec_sender_drop(c, task).items.cap == c.items.cap,
        spec_sender_drop(c, task).items.disconnected == (c.items.disconnected || c.senders == 1),
        c.senders > 1 ==> spec_sender_drop(c, task).items.disconnected == c.items.disconnected,
{
}

/// The shared state of a channel.
pub struct Channel<T, W> {
    senders: usize,
    items: Queue<T>,
    sender_tasks: Queue<usize>,
    tasks: Vec<SenderTask<W>>,
    receiver_task: Option<W>,
    wakes: Vec<Wake<W>>,
}

impl<T, W> View for Channel<T, W> {
    type V = ChannelView<T, W>;

    closed spec fn view(&self) -> ChannelView<T, W> {
        ChannelView {
            senders: self.senders as nat,
            items: self.items@,
            sender_tasks: self.sender_tasks@,
            tasks: self.tasks@,
            receiver_task: self.receiver_task,
            wakes: self.wakes@,
        }
    }
}

/// The sending half of a channel: the notifier it parked on, if any.
pub struct Sender {
    task: Option<usize>,
}

/// The receiving half of a channel.
pub struct Receiver {}

impl Sender {
    /// The notifier this sender parked on, if any.
    pub closed spec fn parked_on(&self) -> Option<usize> {
        self.task
    }

    /// The sender belongs to a channel in state `c`: the notifier it parked
    /// on exists, holds no lock bit, and waits in the queue of parked
    /// senders until it is notified.
    pub open spec fn valid_in<T, W>(&self, c: ChannelView<T, W>) -> bool {
        parked_valid_in(self.parked_on(), c)
    }
}

/// A sender handle valid for one state is valid for every state that keeps
/// the notifiers.
pub proof fn lemma_sender_stays_valid<T, W>(
    s: &Sender,
    old: ChannelView<T, W>,
    new: ChannelView<T, W>,
)
    requires
        s.valid_in(old),
        keeps_notifiers(old, new),
    ensures
        s.valid_in(new),
{
    if let Some(id) = s.parked_on() {
        assert(is_locked(new.tasks[id as int].word()) == is_locked(old.tasks[id as int].word()));
        if !is_notified(new.tasks[id as int].word()) {
            assert(!is_notified(old.tasks[id as int].word()));
            assert(old.sender_tasks.items.contains(id));
        }
    }
}

/// Creates a bounded, futures-aware MPSC channel that refuses new items when
/// `cap` items are in flight. Returns its shared state, one sender and the
/// receiver.
pub fn channel<T, W>(cap: usize) -> (r: (Channel<T, W>, Sender, Receiver))
    ensures
        r.0@ == (ChannelView::<T, W> {
            senders: 1,
            items: QueueView { items: Seq::empty(), cap: Some(cap as nat), disconnected: false },
            sender_tasks: QueueView { items: Seq::empty(), cap: None, disconnected: false },
            tasks: Seq::empty(),
            receiver_task: None,
            wakes: Seq::empty(),
        }),
        r.0@.wf(),
        r.1.parked_on() is None,
{
    let channel = Channel {
        senders: 1,
        items: Queue::with_capacity(cap),
        sender_tasks: Queue::new(),
        tasks: Vec::new(),
        receiver_task: None,
        wakes: Vec::new(),
    };
    (channel, Sender { task: None }, Receiver {})
}

impl<T, W> Channel<T, W> {
    /// The invariant of the shared state.
    pub open spec fn wf(&self) -> bool {
        self@.wf()
    }

    /// Takes the tasks to wake, oldest first.
    pub fn take_wakes(&mut self) -> (w: Vec<Wake<W>>)
        ensures
            w@ == old(self)@.wakes,
            final(self)@ == (ChannelView { wakes: Seq::empty(), ..old(self)@ }),
    {
        let mut w = Vec::new();
        std::mem::swap(&mut w, &mut self.wakes);
        w
    }

    /// The task stored in the sender notifier `id`.
    pub fn sender_task(&self, id: usize) -> (t: &W)
        requires
            id < self@.tasks.len(),
        ensures
            *t == self@.tasks[id as int].stored_task(),
    {
        self.tasks[id].task()
    }

    /// The count of sender handles outstanding.
    pub fn sender_count(&self) -> (n: usize)
        ensures
            n == self@.senders,
    {
        self.senders
    }

    /// Wakes the receiver's task, if it has one; the wake-up consumes it.
    fn notify_receiver(&mut self)
        ensures
            final(self)@ == old(self)@.wake_receiver(),
    {
        let mut task = None;
        std::mem::swap(&mut task, &mut self.receiver_task);
        if let Some(t) = task {
            self.wakes.push(Wake::Receiver(t));
        }
    }

    /// Notifies every parked sender that the channel has been disconnected.
    pub fn notify_all_senders(&mut self)
        requires
            old(self).wf(),
            old(self)@.items.disconnected,
            old(self)@.sender_tasks.disconnected,
        ensures
            final(self).wf(),
            final(self)@ == spec_notify_all(old(self)@),
            keeps_notifiers(old(self)@, final(self)@),
    {
        let ghost c0 = self@;
        let ghost q0 = c0.sender_tasks.items;
        let ghost mut j: int = 0;
        proof {
            assert(q0.skip(0) =~= q0);
            assert(q0.take(0) =~= Seq::<usize>::empty());
            assert(notify_all_tasks(c0.tasks, q0.take(0)) =~= c0.tasks);
            assert(c0.wakes + wakes_for(q0.take(0), c0.tasks) =~= c0.wakes);
        }
        loop
            invariant_except_break
                0 <= j <= q0.len(),
                c0.wf(),
                q0 == c0.sender_tasks.items,
                self@ == (ChannelView {
                    sender_tasks: c0.sender_tasks.with_items(q0.skip(j)),
                    tasks: notify_all_tasks(c0.tasks, q0.take(j)),
                    wakes: c0.wakes + wakes_for(q0.take(j), c0.tasks),
                    ..c0
                }),
            ensures
                self@ == spec_notify_all(c0),
            decreases q0.len() - j,
        {
            proof {
                assert forall|i: int| 0 <= i < self@.tasks.len() implies valid_word(
                    #[trigger] self@.tasks[i].word(),
                ) by {
                    lemma_word_table(c0.tasks[i].word());
                    lemma_word_table(c0.tasks[i].notified_copy().word());
                }
            }
            match self.sender_tasks.try_recv() {
                Ok(id) => {
                    proof {
                        assert(id == q0[j]);
                        assert(q0.skip(j).drop_first() =~= q0.skip(j + 1));
                        assert(!q0.take(j).contains(id)) by {
                            if q0.take(j).contains(id) {
                                let i = choose|i: int| 0 <= i < j && q0.take(j)[i] == id;
                                assert(q0[i] == q0[j]);
                            }
                        }
                        assert(self.tasks@[id as int] == c0.tasks[id as int]);
                    }
                    let n = self.tasks[id].notify();
                    if n.wake {
                        self.wakes.push(Wake::Sender(id));
                    }
                    proof {
                        let t1 = q0.take(j + 1);
                        assert(self.tasks@.len() == self.tasks.len());
                        assert(t1.drop_last() =~= q0.take(j));
                        assert(t1.last() == id);
                        assert(self@.tasks =~= notify_all_tasks(c0.tasks, t1)) by {
                            assert forall|i: int| 0 <= i < c0.tasks.len() implies (#[trigger] t1.contains(
                                i as usize,
                            ) <==> (q0.take(j).contains(i as usize) || i == id)) by {
                                if i == id {
                                    assert(t1[j] == id);
                                }
                                if q0.take(j).contains(i as usize) {
                                    let m = choose|m: int|
                                        0 <= m < j && q0.take(j)[m] == i as usize;
                                    assert(t1[m] == i as usize);
                                }
                                if t1.contains(i as usize) {
                                    let m = choose|m: int| 0 <= m < j + 1 && t1[m] == i as usize;
                                    if m < j {
                                        assert(q0.take(j)[m] == i as usize);
                                    }
                                }
                            }
                        }
                        assert(self@.wakes =~= c0.wakes + wakes_for(t1, c0.tasks));
                        j = j + 1;
                    }
                },
                Err(_) => {
                    proof {
                        assert(j == q0.len());
                        assert(q0.skip(j) =~= Seq::<usize>::empty());
                        assert(q0.take(j) =~= q0);
                    }
                    break;
                },
            }
        }
        proof {
            lemma_notify_all_keeps(c0);
        }
    }

    /// Notifies a single parked sender that channel capacity is available.
    pub fn notify_one_sender(&mut self)
        requires
            old(self).wf(),
        ensures
            final(self).wf(),
            final(self)@ == spec_notify_one(old(self)@),
            keeps_notifiers(old(self)@, final(self)@),
    {
        let ghost c0 = self@;
        let ghost q0 = c0.sender_tasks.items;
        let ghost k = first_unnotified_from(q0, c0.tasks, 0);
        let ghost mut j: int = 0;
        proof {
            assert(q0.skip(0) =~= q0);
        }
        loop
            invariant_except_break
                0 <= j <= q0.len(),
                self.wf(),
                self@ == (ChannelView { sender_tasks: c0.sender_tasks.with_items(q0.skip(j)), ..c0 }),
                first_unnotified_from(q0, c0.tasks, j) == k,
                k == first_unnotified_from(q0, c0.tasks, 0),
                q0 == c0.sender_tasks.items,
            ensures
                self.wf(),
                self@ == spec_notify_one(c0),
            decreases q0.len() - j,
        {
            proof {
                assert(self@.sender_tasks.items =~= q0.skip(j));
            }
            match self.sender_tasks.try_recv() {
                Ok(id) => {
                    proof {
                        assert(id == q0[j]);
                        assert(q0.skip(j).drop_first() =~= q0.skip(j + 1));
                        assert(self.sender_tasks@.items == q0.skip(j + 1));
                    }
                    let n = self.tasks[id].notify();
                    if n.wake {
                        self.wakes.push(Wake::Sender(id));
                    }
                    if n.result.is_ok() {
                        proof {
                            lemma_word_table(c0.tasks[id as int].word());
                            assert(k == j);
                            assert forall|i: int|
                                0 <= i < self@.sender_tasks.items.len() implies #[trigger] self@.sender_tasks.items[i]
                                < self@.tasks.len() by {
                                assert(self@.sender_tasks.items[i] == q0[i + j + 1]);
                            }
                            assert(self@.tasks =~= c0.tasks.update(id as int, c0.tasks[id as int].notified_copy()));
                            assert(self@ == spec_notify_one(c0));
                        }
                        break;
                    }
                    proof {
                        lemma_word_table(c0.tasks[id as int].word());
                        c0.tasks[id as int].lemma_notify_notified();
                        assert(self@.tasks =~= c0.tasks);
                        j = j + 1;
                    }
                },
                Err(_) => {
                    proof {
                        assert(q0.skip(j).len() == 0);
                        assert(j == q0.len());
                        assert(q0.skip(j) =~= Seq::<usize>::empty());
                    }
                    break;
                },
            }
        }
        proof {
            lemma_notify_one_keeps(c0);
        }
    }
}

impl Sender {
    /// The sender belongs to the channel `chan`: the notifier it parked on,
    /// if any, exists and holds no lock bit.
    pub fn is_valid_in<T, W>(&self, chan: &Channel<T, W>) -> (b: bool)
        requires
            chan.wf(),
        ensures
            b == self.valid_in(chan@),
    {
        match self.task {
            Some(id) => {
                if id < chan.tasks.len() {
                    assert(valid_word(chan@.tasks[id as int].word()));
                    if chan.tasks[id].locked() {
                        return false;
                    }
                    if chan.tasks[id].notified() {
                        return true;
                    }
                    // Not yet notified: the notifier must wait in the queue.
                    let n = chan.sender_tasks.len();
                    let mut i: usize = 0;
                    while i < n
                        invariant
                            n == chan@.sender_tasks.items.len(),
                            i <= n,
                            forall|j: int| 0 <= j < i ==> chan@.sender_tasks.items[j] != id,
                            id < chan@.tasks.len(),
                            !is_locked(chan@.tasks[id as int].word()),
                            !is_notified(chan@.tasks[id as int].word()),
                            self.task == Some(id),
                        decreases n - i,
                    {
                        if *chan.sender_tasks.get(i) == id {
                            assert(chan@.sender_tasks.items[i as int] == id);
                            return true;
                        }
                        i = i + 1;
                    }
                    assert(!chan@.sender_tasks.items.contains(id));
                    false
                } else {
                    false
                }
            },
            None => true,
        }
    }

    /// Attempts to send an item without blocking; wakes the receiver when the
    /// item is accepted.
    pub fn try_send<T, W>(&mut self, chan: &mut Channel<T, W>, item: T) -> (r: Result<(), TrySendError<T>>)
        requires
            old(chan).wf(),
        ensures
            final(chan).wf(),
            (final(chan)@, r) == spec_sender_try_send(old(chan)@, item),
            final(self).parked_on() == old(self).parked_on(),
            keeps_notifiers(old(chan)@, final(chan)@),
    {
        let ghost c0 = chan@;
        let r = chan.items.try_send(item);
        proof {
            lemma_wf_frame(c0, chan@);
        }
        match r {
            Ok(()) => {
                chan.notify_receiver();
                Ok(())
            },
            Err(e) => Err(e),
        }
    }

    /// Polls the channel for capacity to send at least one item: `Ready` when
    /// there may be capacity, `NotReady` when there is none (the sender is then
    /// parked on a notifier holding `current`, its current task), and an error
    /// when the receiver has gone.
    pub fn poll_ready<T, W>(&mut self, chan: &mut Channel<T, W>, current: W) -> (r: Result<Async<()>, SendError<()>>)
        requires
            old(chan).wf(),
            old(self).valid_in(old(chan)@),
        ensures
            final(chan).wf(),
            (final(chan)@, final(self).parked_on(), r) == spec_poll_ready(
                old(chan)@,
                old(self).parked_on(),
                current,
            ),
            final(self).valid_in(final(chan)@),
            keeps_notifiers_but(old(chan)@, final(chan)@, old(self).parked_on()),
            r == Ok::<Async<()>, SendError<()>>(Async::NotReady) ==> parked_holding(
                final(self).parked_on(),
                final(chan)@,
                current,
            ),
    {
        let ghost c0 = chan@;
        let ghost task0 = self.task;
        let ghost cur = current;
        proof {
            assert(chan.tasks@.len() == chan.tasks.len());
            lemma_poll_ready_keeps(c0, task0, cur);
        }
        // Re-register on the notifier this sender parked on; keep it only if
        // it has not been notified. A failed registration hands the task back.
        let (task, spare): (Option<usize>, Option<W>) = match self.task {
            Some(id) => {
                proof {
                    lemma_word_table(c0.tasks[id as int].word());
                }
                match chan.tasks[id].try_register(current) {
                    Ok(()) => (Some(id), None),
                    Err(back) => (None, Some(back)),
                }
            },
            None => (None, Some(current)),
        };
        self.task = None;
        proof {
            if let Some(id) = task0 {
                lemma_word_table(c0.tasks[id as int].word());
                lemma_word_table(c0.tasks[id as int].registered_copy(cur).word());
            }
            assert(task is None ==> spare == Some(cur));
        }
        if chan.items.is_full() {
            let task = match task {
                Some(id) => id,
                None => {
                    let n = chan.tasks.len();
                    chan.tasks.push(SenderTask::new(spare.unwrap()));
                    match chan.sender_tasks.send(n) {
                        Ok(()) => {},
                        Err(_) => {
                            return Err(SendError(()));
                        },
                    }
                    chan.notify_receiver();
                    n
                },
            };
            self.task = Some(task);
            Ok(Async::NotReady)
        } else if chan.items.is_disconnected() {
            Err(SendError(()))
        } else {
            Ok(Async::Ready(()))
        }
    }

    /// Offers an item as a sink. When the channel is full, the sender polls
    /// for capacity, which parks it on a notifier holding `current`, and the
    /// item is handed back as not ready.
    pub fn start_send<T, W>(&mut self, chan: &mut Channel<T, W>, item: T, current: W) -> (r: Result<AsyncSink<T>, SendError<T>>)
        requires
            old(chan).wf(),
            old(self).valid_in(old(chan)@),
        ensures
            final(chan).wf(),
            (final(chan)@, final(self).parked_on(), r) == spec_start_send(
                old(chan)@,
                old(self).parked_on(),
                item,
                current,
            ),
            final(self).valid_in(final(chan)@),
            keeps_notifiers_but(old(chan)@, final(chan)@, old(self).parked_on()),
            (r matches Ok(AsyncSink::NotReady(_))) ==> parked_holding(
                final(self).parked_on(),
                final(chan)@,
                current,
            ),
    {
        match self.try_send(chan, item) {
            Ok(()) => Ok(AsyncSink::Ready),
            Err(TrySendError::Full(i)) => match self.poll_ready(chan, current) {
                Ok(Async::Ready(())) => {
                    // Nothing frees capacity between the refused offer and
                    // the poll, so the poll cannot find any.
                    assert(false);
                    Err(SendError(i))
                },
                Ok(Async::NotReady) => Ok(AsyncSink::NotReady(i)),
                Err(_) => Err(SendError(i)),
            },
            Err(TrySendError::Disconnected(i)) => Err(SendError(i)),
        }
    }

    /// Completes the items sent so far; they are in the channel already.
    pub fn poll_complete<T>(&mut self) -> (r: Result<Async<()>, SendError<T>>)
        ensures
            r == Ok::<Async<()>, SendError<T>>(Async::Ready(())),
            final(self).parked_on() == old(self).parked_on(),
    {
        Ok(Async::Ready(()))
    }

    /// Closes the sender: it gives up its notifier, notifying it; when the
    /// notifier had already been notified, another parked sender is notified
    /// in its place, so the capacity it stood for is not lost.
    pub fn close<T, W>(&mut self, chan: &mut Channel<T, W>) -> (r: Result<Async<()>, SendError<T>>)
        requires
            old(chan).wf(),
            old(self).valid_in(old(chan)@),
        ensures
            final(chan).wf(),
            final(chan)@ == spec_sender_close(old(chan)@, old(self).parked_on()),
            final(self).parked_on() is None,
            r == Ok::<Async<()>, SendError<T>>(Async::Ready(())),
            keeps_notifiers(old(chan)@, final(chan)@),
    {
        let ghost c0 = chan@;
        let task = self.task;
        self.task = None;
        let renotify = match task {
            Some(id) => {
                proof {
                    lemma_word_table(c0.tasks[id as int].word());
                }
                let n = chan.tasks[id].notify();
                if n.wake {
                    chan.wakes.push(Wake::Sender(id));
                }
                proof {
                    lemma_word_table(chan@.tasks[id as int].word());
                    assert forall|i: int| 0 <= i < chan@.tasks.len() implies valid_word(
                        #[trigger] chan@.tasks[i].word(),
                    ) && is_locked(chan@.tasks[i].word()) == is_locked(c0.tasks[i].word()) by {
                        if i != id {
                            assert(chan@.tasks[i] == c0.tasks[i]);
                        }
                    }
                }
                n.result.is_err()
            },
            None => false,
        };
        if renotify {
            let ghost c1 = chan@;
            chan.notify_one_sender();
            proof {
                assert(keeps_notifiers(c1, chan@));
            }
        }
        Ok(Async::Ready(()))
    }

    /// Makes another sender for the channel; it has not parked.
    pub fn clone_in<T, W>(&self, chan: &mut Channel<T, W>) -> (s: Sender)
        requires
            old(chan)@.senders < usize::MAX,
        ensures
            final(chan)@ == (ChannelView { senders: old(chan)@.senders + 1, ..old(chan)@ }),
            s.parked_on() is None,
    {
        chan.senders = chan.senders + 1;
        Sender { task: None }
    }

    /// Drops the sender: it closes, and the last sender disconnects the
    /// channel and wakes the receiver.
    pub fn drop_in<T, W>(self, chan: &mut Channel<T, W>)
        requires
            old(chan).wf(),
            self.valid_in(old(chan)@),
            old(chan)@.senders >= 1,
        ensures
            final(chan).wf(),
            final(chan)@ == spec_sender_drop(old(chan)@, self.parked_on()),
            keeps_notifiers(old(chan)@, final(chan)@),
    {
        let ghost c0 = chan@;
        let mut me = self;
        let _ = me.close::<T, W>(chan);
        let prev = chan.senders;
        chan.senders = prev - 1;
        if prev == 1 {
            // The final sender: disconnect the channel and wake the receiver.
            chan.items.disconnect();
            chan.sender_tasks.disconnect();
            chan.notify_receiver();
        }
    }
}

impl Receiver {
    /// Closes the receiving half: further items are refused while the items
    /// already buffered can still be received.
    pub fn close<T, W>(&mut self, chan: &mut Channel<T, W>)
        requires
            old(chan).wf(),
        ensures
            final(chan).wf(),
            final(chan)@ == spec_receiver_close(old(chan)@),
            keeps_notifiers(old(chan)@, final(chan)@),
    {
        chan.items.disconnect();
        chan.sender_tasks.disconnect();
    }

    /// Polls for the next item, registering `current` as the receiver's task:
    /// an item when one is buffered, `NotReady` when none is and senders
    /// remain, and the end of the stream once the channel is disconnected
    /// and drained.
    pub fn poll<T, W>(&mut self, chan: &mut Channel<T, W>, current: W) -> (r: Result<Async<Option<T>>, ()>)
        requires
            old(chan).wf(),
        ensures
            final(chan).wf(),
            (final(chan)@, r) == spec_poll(old(chan)@, current),
            keeps_notifiers(old(chan)@, final(chan)@),
    {
        let ghost c0 = chan@;
        chan.receiver_task = Some(current);
        let r = chan.items.try_recv();
        proof {
            lemma_wf_frame(c0, chan@);
        }
        match r {
            Ok(item) => {
                // An item was taken: notify a single parked sender that a
                // slot has opened up.
                chan.notify_one_sender();
                Ok(Async::Ready(Some(item)))
            },
            Err(TryRecvError::Empty) => {
                chan.notify_one_sender();
                Ok(Async::NotReady)
            },
            Err(TryRecvError::Disconnected) => {
                // The channel is closed: release every parked sender.
                chan.sender_tasks.disconnect();
                chan.notify_all_senders();
                Ok(Async::Ready(None))
            },
        }
    }

    /// Drops the receiver: the channel is disconnected and every parked
    /// sender is notified.
    pub fn drop_in<T, W>(self, chan: &mut Channel<T, W>)
        requires
            old(chan).wf(),
        ensures
            final(chan).wf(),
            final(chan)@ == spec_receiver_drop(old(chan)@),
            keeps_notifiers(old(chan)@, final(chan)@),
    {
        chan.items.disconnect();
        chan.sender_tasks.disconnect();
        chan.notify_all_senders();
    }
}

} // verus!
