//! A one-shot notifier that coordinates a parked sender with whoever frees
//! capacity for it.
//!
//! The notifier's state is a word of two bits:
//!
//! ```text
//!    Parked  --notify-->  Notified
//!      |  ^                   |
//!   register (lock/unlock) register (lock)
//!      v  |                   v
//!    Locked  --notify-->  LockedNotified
//! ```
//!
//! Once notified, a notifier stays notified. Registering takes two atomic
//! steps (set the lock bit, store the task, clear the lock bit); a notification
//! that lands between them is reported to the registrant instead of waking the
//! task, so no notification is lost.

use vstd::prelude::*;

verus! {

/// Bit set once the notifier has been notified.
pub const NOTIFIED_BIT: usize = 1;
/// Bit set while a registration is in progress.
pub const LOCKED_BIT: usize = 2;

/// Initial state.
pub const PARKED: usize = 0;
/// A registration is in progress.
pub const LOCKED: usize = 2;
/// Notified.
pub const NOTIFIED: usize = 1;
/// Notified while a registration is in progress.
pub const LOCKED_NOTIFIED: usize = 3;

/// The word holds one of the four states.
pub open spec fn valid_word(s: usize) -> bool {
    s <= 3
}

/// The notified bit is set in `s`.
pub open spec fn is_notified(s: usize) -> bool {
    s & NOTIFIED_BIT == NOTIFIED_BIT
}

/// The lock bit is set in `s`.
pub open spec fn is_locked(s: usize) -> bool {
    s & LOCKED_BIT == LOCKED_BIT
}

/// The word after the lock bit is set (first step of a registration).
pub open spec fn lock_word(s: usize) -> usize {
    s | LOCKED_BIT
}

/// The word after the lock bit is cleared (last step of a registration).
pub open spec fn unlock_word(s: usize) -> usize {
    s & !LOCKED_BIT
}

/// The word after a notification.
pub open spec fn notify_word(s: usize) -> usize {
    s | NOTIFIED_BIT
}

/// The four states and the three steps on them, as a table.
pub proof fn lemma_word_table(s: usize)
    requires
        valid_word(s),
    ensures
        s == PARKED ==> !is_notified(s) && !is_locked(s) && lock_word(s) == LOCKED
            && unlock_word(s) == PARKED && notify_word(s) == NOTIFIED,
        s == LOCKED ==> !is_notified(s) && is_locked(s) && lock_word(s) == LOCKED
            && unlock_word(s) == PARKED && notify_word(s) == LOCKED_NOTIFIED,
        s == NOTIFIED ==> is_notified(s) && !is_locked(s) && lock_word(s) == LOCKED_NOTIFIED
            && unlock_word(s) == NOTIFIED && notify_word(s) == NOTIFIED,
        s == LOCKED_NOTIFIED ==> is_notified(s) && is_locked(s) && lock_word(s)
            == LOCKED_NOTIFIED && unlock_word(s) == NOTIFIED && notify_word(s)
            == LOCKED_NOTIFIED,
{
    assert(s == 0usize ==> (s & 1usize) != 1usize && (s & 2usize) != 2usize && (s | 2usize) == 2usize
        && (s & !2usize) == 0usize && (s | 1usize) == 1usize) by (bit_vector);
    assert(s == 2usize ==> (s & 1usize) != 1usize && (s & 2usize) == 2usize && (s | 2usize) == 2usize
        && (s & !2usize) == 0usize && (s | 1usize) == 3usize) by (bit_vector);
    assert(s == 1usize ==> (s & 1usize) == 1usize && (s & 2usize) != 2usize && (s | 2usize) == 3usize
        && (s & !2usize) == 1usize && (s | 1usize) == 1usize) by (bit_vector);
    assert(s == 3usize ==> (s & 1usize) == 1usize && (s & 2usize) == 2usize && (s | 2usize) == 3usize
        && (s & !2usize) == 1usize && (s | 1usize) == 3usize) by (bit_vector);
}

/// Once notified, a notifier stays notified, whatever step comes next; every
/// step keeps the word one of the four states.
pub proof fn lemma_notified_is_sticky(s: usize)
    requires
        valid_word(s),
    ensures
        valid_word(lock_word(s)),
        valid_word(unlock_word(s)),
        valid_word(notify_word(s)),
        is_notified(s) ==> is_notified(lock_word(s)) && is_notified(unlock_word(s))
            && is_notified(notify_word(s)),
        is_notified(notify_word(s)),
{
    lemma_word_table(s);
    lemma_word_table(lock_word(s));
    lemma_word_table(unlock_word(s));
    lemma_word_table(notify_word(s));
}

/// A notification succeeds exactly when the notifier was not yet notified, so
/// of two notifications the second always fails and wakes nobody.
pub proof fn lemma_notify_is_one_shot(s: usize)
    requires
        valid_word(s),
    ensures
        spec_notify_outcome(s).result is Ok <==> !is_notified(s),
        spec_notify_outcome(notify_word(s)).result is Err,
        !spec_notify_outcome(notify_word(s)).wake,
{
    lemma_word_table(s);
    lemma_word_table(notify_word(s));
}

/// A notification is never lost against a registration that starts from a
/// parked notifier: whether it lands before the lock step, between the lock
/// and unlock steps, or after the unlock step, either it wakes the stored task
/// or the registration fails (and the registrant learns of it).
pub proof fn lemma_notification_never_lost()
    ensures
        // before the lock step: the stored task is woken, and the
        // registration finds the notifier notified
        spec_notify_outcome(PARKED).wake,
        spec_lock_outcome(notify_word(PARKED)) == LockOutcome::AlreadyNotified,
        // between the steps: the notification succeeds without a wake-up,
        // and the registration fails
        spec_notify_outcome(lock_word(PARKED)).result is Ok,
        !spec_notify_outcome(lock_word(PARKED)).wake,
        spec_unlock_result(notify_word(lock_word(PARKED))) is Err,
        unlock_word(notify_word(lock_word(PARKED))) == NOTIFIED,
        // after the unlock step: the registration succeeded and the newly
        // stored task is woken
        spec_lock_outcome(PARKED) == LockOutcome::Acquired,
        spec_unlock_result(lock_word(PARKED)) is Ok,
        spec_notify_outcome(unlock_word(lock_word(PARKED))).wake,
{
    lemma_word_table(PARKED);
    lemma_word_table(NOTIFIED);
    lemma_word_table(LOCKED);
    lemma_word_table(LOCKED_NOTIFIED);
}

/// What the first step of a registration found.
#[derive(Debug, PartialEq, Eq, Clone, Copy)]
pub enum LockOutcome {
    /// The notifier was parked: the lock is held and the task may be stored.
    Acquired,
    /// The notifier was already notified: the registration fails.
    AlreadyNotified,
}

/// What a notification did.
#[derive(Debug, PartialEq, Eq, Clone, Copy)]
pub struct Notify {
    /// `Ok` when this call is the one that notified, `Err` when the notifier
    /// had already been notified.
    pub result: Result<(), ()>,
    /// The stored task must be woken.
    pub wake: bool,
}

/// The decision taken on the word that the first step of a registration saw.
pub open spec fn spec_lock_outcome(prev: usize) -> LockOutcome {
    if prev == PARKED {
        LockOutcome::Acquired
    } else {
        LockOutcome::AlreadyNotified
    }
}

/// The result of a registration, given the word that its last step saw.
pub open spec fn spec_unlock_result(prev: usize) -> Result<(), ()> {
    if prev == LOCKED_NOTIFIED {
        Err(())
    } else {
        Ok(())
    }
}

/// The decision taken on the word that a notification saw.
pub open spec fn spec_notify_outcome(prev: usize) -> Notify {
    Notify {
        result: if prev == PARKED || prev == LOCKED {
            Ok(())
        } else {
            Err(())
        },
        wake: prev == PARKED,
    }
}

/// Decides a registration on the word that setting the lock bit returned: a
/// notified word, with or without the lock bit left by an earlier failed
/// registration, fails it. A word locked but not notified means two
/// concurrent registrations, which the protocol rules out.
pub fn lock_outcome(prev: usize) -> (r: LockOutcome)
    requires
        prev == PARKED || prev == NOTIFIED || prev == LOCKED_NOTIFIED,
    ensures
        r == spec_lock_outcome(prev),
{
    if prev == PARKED {
        LockOutcome::Acquired
    } else {
        LockOutcome::AlreadyNotified
    }
}

/// Decides the result of a registration on the word that clearing the lock
/// bit returned: a notification that arrived while the lock was held makes
/// the registration fail.
pub fn unlock_result(prev: usize) -> (r: Result<(), ()>)
    ensures
        r == spec_unlock_result(prev),
{
    if prev == LOCKED_NOTIFIED {
        Err(())
    } else {
        Ok(())
    }
}

/// Decides a notification on the word that setting the notified bit returned.
pub fn notify_outcome(prev: usize) -> (r: Notify)
    requires
        valid_word(prev),
    ensures
        r == spec_notify_outcome(prev),
{
    let wake = prev == PARKED;
    if prev == PARKED || prev == LOCKED {
        Notify { result: Ok(()), wake }
    } else {
        Notify { result: Err(()), wake }
    }
}

/// A one-shot notifier holding the task of a parked sender.
pub struct SenderTask<W> {
    state: usize,
    task: W,
}

impl<W> SenderTask<W> {
    /// The state word.
    pub closed spec fn word(&self) -> usize {
        self.state
    }

    /// The task that a notification wakes.
    pub closed spec fn stored_task(&self) -> W {
        self.task
    }

    /// The state word holds one of the four states.
    pub open spec fn wf(&self) -> bool {
        valid_word(self.word())
    }

    /// A parked notifier holding `current`.
    pub closed spec fn spec_new(current: W) -> SenderTask<W> {
        SenderTask { state: PARKED, task: current }
    }

    /// This notifier after a notification.
    pub closed spec fn notified_copy(self) -> SenderTask<W> {
        SenderTask { state: notify_word(self.state), task: self.task }
    }

    /// This notifier after a registration of `current` that runs as one step:
    /// a parked notifier stores `current`; a notified one keeps its task and
    /// its lock bit.
    pub closed spec fn registered_copy(self, current: W) -> SenderTask<W> {
        if self.state == PARKED {
            SenderTask { state: PARKED, task: current }
        } else {
            SenderTask { state: lock_word(self.state), task: self.task }
        }
    }

    /// What a notified copy holds.
    pub broadcast proof fn lemma_notified_copy(self)
        ensures
            #[trigger] self.notified_copy().word() == notify_word(self.word()),
            self.notified_copy().stored_task() == self.stored_task(),
    {
    }

    /// Notifying a notified notifier changes nothing.
    pub proof fn lemma_notify_notified(self)
        requires
            self.wf(),
            is_notified(self.word()),
        ensures
            self.notified_copy() == self,
    {
        lemma_word_table(self.state);
    }

    /// What a registered copy holds.
    pub broadcast proof fn lemma_registered_copy(self, current: W)
        ensures
            self.word() == PARKED ==> #[trigger] self.registered_copy(current).word() == PARKED
                && self.registered_copy(current).stored_task() == current,
            self.word() != PARKED ==> self.registered_copy(current).word() == lock_word(
                self.word(),
            ) && self.registered_copy(current).stored_task() == self.stored_task(),
    {
    }

    /// What a new notifier holds.
    pub broadcast proof fn lemma_spec_new(current: W)
        ensures
            #[trigger] Self::spec_new(current).word() == PARKED,
            Self::spec_new(current).stored_task() == current,
    {
    }

    /// A parked notifier holding `current`, the task that creates it.
    pub fn new(current: W) -> (t: SenderTask<W>)
        ensures
            t == Self::spec_new(current),
            t.word() == PARKED,
            t.stored_task() == current,
    {
        SenderTask { state: PARKED, task: current }
    }

    /// The task that a notification wakes.
    pub fn task(&self) -> (t: &W)
        ensures
            *t == self.stored_task(),
    {
        &self.task
    }

    /// The state word.
    pub fn state(&self) -> (s: usize)
        ensures
            s == self.word(),
    {
        self.state
    }

    /// The notifier has been notified.
    pub fn notified(&self) -> (b: bool)
        requires
            self.wf(),
        ensures
            b == is_notified(self.word()),
    {
        proof {
            lemma_word_table(self.state);
        }
        self.state == NOTIFIED || self.state == LOCKED_NOTIFIED
    }

    /// A registration holds the lock.
    pub fn locked(&self) -> (b: bool)
        requires
            self.wf(),
        ensures
            b == is_locked(self.word()),
    {
        proof {
            lemma_word_table(self.state);
        }
        self.state == LOCKED || self.state == LOCKED_NOTIFIED
    }

    /// First step of a registration: sets the lock bit and returns the word
    /// it replaced.
    pub fn lock(&mut self) -> (prev: usize)
        ensures
            prev == old(self).word(),
            final(self).word() == lock_word(prev),
            final(self).stored_task() == old(self).stored_task(),
    {
        let prev = self.state;
        self.state = prev | LOCKED_BIT;
        prev
    }

    /// Stores the task that the next notification wakes. Only the holder of
    /// the lock may do this.
    pub fn store_task(&mut self, current: W)
        requires
            is_locked(old(self).word()),
        ensures
            final(self).word() == old(self).word(),
            final(self).stored_task() == current,
    {
        self.task = current;
    }

    /// Last step of a registration: clears the lock bit and returns the word
    /// it replaced.
    pub fn unlock(&mut self) -> (prev: usize)
        ensures
            prev == old(self).word(),
            final(self).word() == unlock_word(prev),
            final(self).stored_task() == old(self).stored_task(),
    {
        let prev = self.state;
        self.state = prev & !LOCKED_BIT;
        prev
    }

    /// Registers `current` as the task to wake, unless the notifier has been
    /// notified; in that case `current` is handed back.
    pub fn try_register(&mut self, current: W) -> (r: Result<(), W>)
        requires
            old(self).wf(),
            old(self).word() != LOCKED,
        ensures
            final(self).wf(),
            *final(self) == old(self).registered_copy(current),
            old(self).word() == PARKED ==> r is Ok && final(self).word() == PARKED
                && final(self).stored_task() == current,
            is_notified(old(self).word()) ==> r == Err::<(), W>(current) && final(self).word()
                == LOCKED_NOTIFIED && final(self).stored_task() == old(self).stored_task(),
    {
        proof {
            lemma_word_table(self.state);
        }
        let prev = self.lock();
        proof {
            lemma_word_table(self.state);
        }
        match lock_outcome(prev) {
            LockOutcome::Acquired => {
                self.store_task(current);
                let prev2 = self.unlock();
                proof {
                    lemma_word_table(prev2);
                }
                let released = unlock_result(prev2);
                // No notification can land inside a registration that runs
                // as one step.
                assert(released is Ok);
                Ok(())
            },
            LockOutcome::AlreadyNotified => Err(current),
        }
    }

    /// Registers `current` as the task to wake. Fails, every time, once the
    /// notifier has been notified; the notifier then keeps its lock bit and
    /// its task. Only one task registers on a notifier, so no registration is
    /// in progress when another starts.
    pub fn register(&mut self, current: W) -> (r: Result<(), ()>)
        requires
            old(self).wf(),
            old(self).word() != LOCKED,
        ensures
            final(self).wf(),
            *final(self) == old(self).registered_copy(current),
            old(self).word() == PARKED ==> r is Ok && final(self).word() == PARKED
                && final(self).stored_task() == current,
            is_notified(old(self).word()) ==> r is Err && final(self).word() == LOCKED_NOTIFIED
                && final(self).stored_task() == old(self).stored_task(),
    {
        match self.try_register(current) {
            Ok(()) => Ok(()),
            Err(_) => Err(()),
        }
    }

    /// Notifies: sets the notified bit. The result is `Ok` for the call that
    /// notified and `Err` once already notified; the stored task is to be
    /// woken when no registration was in progress.
    pub fn notify(&mut self) -> (n: Notify)
        requires
            old(self).wf(),
        ensures
            final(self).wf(),
            *final(self) == old(self).notified_copy(),
            final(self).word() == notify_word(old(self).word()),
            final(self).stored_task() == old(self).stored_task(),
            n == spec_notify_outcome(old(self).word()),
    {
        proof {
            lemma_word_table(self.state);
        }
        let prev = self.state;
        self.state = prev | NOTIFIED_BIT;
        proof {
            lemma_word_table(prev);
        }
        notify_outcome(prev)
    }
}

} // verus!
