//! Fan-out: sends one message to every registered sender.
//!
//! The senders are of any kind. A broadcast says which deliveries to make:
//! every sender but the first gets a clone of the message, in order, and the
//! first gets the message itself. The caller makes them; when one fails, it
//! asks each sender whether it is disconnected, and those that are dropped.

use vstd::prelude::*;

verus! {

/// The senders whose entry in `disconnected` is `false`, in order.
pub open spec fn filter_connected<S>(senders: Seq<S>, disconnected: Seq<bool>) -> Seq<S>
    decreases senders.len(),
{
    if senders.len() == 0 {
        Seq::empty()
    } else {
        let rest = filter_connected(senders.drop_last(), disconnected.drop_last());
        if disconnected.last() {
            rest
        } else {
            rest.push(senders.last())
        }
    }
}

/// A cleanup keeps exactly the senders that report themselves connected, in
/// their order: it keeps them all when all are connected, none when none is,
/// and never more than there were.
pub proof fn lemma_filter_connected<S>(senders: Seq<S>, disconnected: Seq<bool>)
    requires
        disconnected.len() == senders.len(),
    ensures
        filter_connected(senders, disconnected).len() <= senders.len(),
        (forall|i: int| 0 <= i < senders.len() ==> !#[trigger] disconnected[i]) ==> filter_connected(
            senders,
            disconnected,
        ) == senders,
        (forall|i: int| 0 <= i < senders.len() ==> #[trigger] disconnected[i]) ==> filter_connected(
            senders,
            disconnected,
        ).len() == 0,
        forall|x: S| #[trigger] filter_connected(senders, disconnected).contains(x) ==> senders.contains(x),
    decreases senders.len(),
{
    if senders.len() > 0 {
        let s1 = senders.drop_last();
        let d1 = disconnected.drop_last();
        lemma_filter_connected(s1, d1);
        let f = filter_connected(senders, disconnected);
        let f1 = filter_connected(s1, d1);
        if forall|i: int| 0 <= i < senders.len() ==> !#[trigger] disconnected[i] {
            assert forall|i: int| 0 <= i < s1.len() implies !#[trigger] d1[i] by {
                assert(d1[i] == disconnected[i]);
            }
            assert(!disconnected[senders.len() - 1]);
            assert(senders =~= s1.push(senders.last()));
        }
        if forall|i: int| 0 <= i < senders.len() ==> #[trigger] disconnected[i] {
            assert forall|i: int| 0 <= i < s1.len() implies #[trigger] d1[i] by {
                assert(d1[i] == disconnected[i]);
            }
            assert(disconnected[senders.len() - 1]);
        }
        assert forall|x: S| #[trigger] f.contains(x) implies senders.contains(x) by {
            if f1.contains(x) {
                let k = choose|k: int| 0 <= k < s1.len() && s1[k] == x;
                assert(senders[k] == x);
            } else {
                assert(x == senders.last());
                assert(senders[senders.len() - 1] == x);
            }
        }
    }
}

/// The deliveries of one broadcast of `msg` to `n` senders, in the order
/// they are made: a clone to each sender but the first, in order, then the
/// message itself to the first. Each sender gets exactly one.
pub open spec fn is_broadcast_plan<T: Clone>(n: nat, msg: T, d: Seq<(usize, T)>) -> bool {
    &&& d.len() == n
    &&& forall|i: int| 0 <= i < n - 1 ==> (#[trigger] d[i]).0 == i + 1 && cloned::<T>(msg, d[i].1)
    &&& n > 0 ==> d[n - 1] == (0usize, msg)
}

/// Some delivery of `d` goes to the sender at position `j`.
pub open spec fn delivered_to<T>(d: Seq<(usize, T)>, j: usize) -> bool {
    exists|i: int| 0 <= i < d.len() && (#[trigger] d[i]).0 == j
}

/// A broadcast reaches every sender exactly once and no one else: each
/// delivery goes to a registered sender, no sender gets two, and each gets
/// one; in particular a sender registered last gets one, as do all before it.
pub proof fn lemma_each_sender_once<T: Clone>(n: nat, msg: T, d: Seq<(usize, T)>)
    requires
        is_broadcast_plan(n, msg, d),
    ensures
        forall|i: int| 0 <= i < d.len() ==> (#[trigger] d[i]).0 < n,
        forall|i: int, k: int| 0 <= i < d.len() && 0 <= k < d.len() && (#[trigger] d[i]).0 == (
        #[trigger] d[k]).0 ==> i == k,
        forall|j: usize| j < n ==> #[trigger] delivered_to(d, j),
{
    assert forall|j: usize| j < n implies #[trigger] delivered_to(d, j) by {
        if j == 0 {
            assert(d[n - 1].0 == 0);
        } else {
            assert(d[j - 1].0 == j);
        }
    }
}

/// Some delivery failed.
pub open spec fn some_failed(sent: Seq<bool>) -> bool {
    exists|i: int| 0 <= i < sent.len() && !#[trigger] sent[i]
}

/// A set of senders to broadcast to.
pub struct Broadcast<S> {
    senders: Vec<S>,
}

impl<S: Clone> Clone for Broadcast<S> {
    /// A broadcast to clones of the same senders, in the same order.
    fn clone(&self) -> (c: Self)
        ensures
            c@.len() == self@.len(),
            forall|i: int| 0 <= i < self@.len() ==> cloned::<S>(self@[i], #[trigger] c@[i]),
    {
        Broadcast { senders: self.senders.clone() }
    }
}

impl<S> View for Broadcast<S> {
    type V = Seq<S>;

    closed spec fn view(&self) -> Seq<S> {
        self.senders@
    }
}

impl<S> Broadcast<S> {
    /// A broadcast to no sender.
    pub fn new() -> (b: Broadcast<S>)
        ensures
            b@ == Seq::<S>::empty(),
    {
        Broadcast { senders: Vec::new() }
    }

    /// Adds a sender; it gets every later broadcast.
    pub fn register(&mut self, tx: S)
        ensures
            final(self)@ == old(self)@.push(tx),
    {
        self.senders.push(tx);
    }

    /// The number of senders.
    pub fn len(&self) -> (n: usize)
        ensures
            n == self@.len(),
    {
        self.senders.len()
    }

    /// The sender at position `i`, in registration order.
    pub fn sender(&self, i: usize) -> (s: &S)
        requires
            i < self@.len(),
        ensures
            *s == self@[i as int],
    {
        &self.senders[i]
    }

    /// Broadcasts `msg`: returns the deliveries to make, in order, each a
    /// sender's position and the message for it. Every sender but the first
    /// gets a clone, in order, and the first gets the message itself last;
    /// each sender gets exactly one delivery.
    pub fn broadcast<T: Clone>(&self, msg: T) -> (d: Vec<(usize, T)>)
        ensures
            is_broadcast_plan(self@.len(), msg, d@),
    {
        let n = self.senders.len();
        let mut d: Vec<(usize, T)> = Vec::new();
        let mut i: usize = 1;
        while i < n
            invariant
                n == self@.len(),
                1 <= i,
                i < n ==> d@.len() == i - 1,
                i >= n ==> d@.len() == (if n == 0 { 0 } else { n - 1 }),
                forall|k: int| 0 <= k < d@.len() ==> (#[trigger] d@[k]).0 == k + 1 && cloned::<T>(msg, d@[k].1),
            decreases n - i,
        {
            let m = msg.clone();
            d.push((i, m));
            i = i + 1;
        }
        if n > 0 {
            d.push((0, msg));
        }
        d
    }

    /// Whether a broadcast whose deliveries succeeded as `sent` says must be
    /// followed by a cleanup: when one of them failed.
    pub fn needs_cleanup(sent: &Vec<bool>) -> (b: bool)
        ensures
            b == some_failed(sent@),
    {
        let mut i: usize = 0;
        while i < sent.len()
            invariant
                i <= sent@.len(),
                forall|k: int| 0 <= k < i ==> sent@[k],
            decreases sent@.len() - i,
        {
            if !sent[i] {
                return true;
            }
            i = i + 1;
        }
        false
    }

    /// Drops the senders whose entry in `disconnected` is `true`, keeping the
    /// others in order.
    pub fn drop_disconnected(&mut self, disconnected: Vec<bool>)
        requires
            disconnected@.len() == old(self)@.len(),
        ensures
            final(self)@ == filter_connected(old(self)@, disconnected@),
    {
        let ghost s0 = self@;
        let mut rest: Vec<S> = Vec::new();
        std::mem::swap(&mut rest, &mut self.senders);
        // Reverse into `pending`, so that popping it yields the senders in
        // the order they were registered in.
        let mut pending: Vec<S> = Vec::new();
        while rest.len() > 0
            invariant
                rest@ + pending@.reverse() == s0,
            decreases rest.len(),
        {
            let s = rest.pop().unwrap();
            proof {
                assert(rest@.push(s) + pending@.reverse() =~= rest@ + pending@.push(s).reverse());
            }
            pending.push(s);
        }
        assert(pending@.reverse() =~= s0);
        let mut j: usize = 0;
        while pending.len() > 0
            invariant
                disconnected@.len() == s0.len(),
                pending@.reverse() == s0.skip(j as int),
                j <= s0.len(),
                self@ == filter_connected(s0.take(j as int), disconnected@.take(j as int)),
            decreases pending.len(),
        {
            let ghost before = pending@;
            let s = pending.pop().unwrap();
            proof {
                assert(before.reverse().len() == before.len());
                assert(s0.skip(j as int).len() == before.len());
                assert(before == pending@.push(s));
                assert(before.reverse()[0] == s);
                assert(s0.skip(j as int)[0] == s0[j as int]);
                assert(pending@.reverse() =~= before.reverse().drop_first());
                assert(pending@.reverse() =~= s0.skip(j + 1));
            }
            if !disconnected[j] {
                self.senders.push(s);
            }
            proof {
                assert(s0.take(j + 1).drop_last() =~= s0.take(j as int));
                assert(disconnected@.take(j + 1).drop_last() =~= disconnected@.take(j as int));
                assert(j < disconnected@.len() == disconnected.len());
            }
            j = j + 1;
        }
        proof {
            assert(s0.take(s0.len() as int) =~= s0);
            assert(disconnected@.take(s0.len() as int) =~= disconnected@);
        }
    }
}

} // verus!
