//! Mutual exclusion usable before any OS-level primitive exists.
//!
//! On the hardware the lock word is taken with a load-linked /
//! store-conditional retry loop and contended cores sleep on a
//! wait-for-event instruction; those instructions live with the
//! architecture layer.  What is verified here is the lock discipline
//! itself: acquisition only from the free state, guaranteed release on
//! every exit path of a scoped critical section, and no reentrancy —
//! taking a lock this core already holds would spin forever, so the
//! contracts rule it out.

use vstd::prelude::*;

verus! {

/// A binary spinlock.
pub struct Spinlock {
    value: usize,
}

impl Spinlock {
    pub const LOCKED_VALUE: usize = 1;

    pub const UNLOCKED_VALUE: usize = 0;

    /// Whether the lock is held.
    pub closed spec fn is_locked(self) -> bool {
        self.value == 1
    }

    /// The lock word never holds anything but the two lock states.
    pub closed spec fn wf(self) -> bool {
        self.value == 0 || self.value == 1
    }

    /// A fresh, free lock.
    pub fn new() -> (r: Self)
        ensures
            r.wf(),
            !r.is_locked(),
    {
        Spinlock { value: 0 }
    }

    /// One atomic attempt: takes the lock exactly when it was free and
    /// reports whether it did.
    #[must_use]
    pub fn try_lock(&mut self) -> (r: bool)
        requires
            old(self).wf(),
        ensures
            final(self).wf(),
            r == !old(self).is_locked(),
            final(self).is_locked(),
    {
        if self.value == 0 {
            self.value = 1;
            true
        } else {
            false
        }
    }

    /// Blocks — busy-waits, there is no scheduler to suspend into —
    /// until the lock is acquired.  Not reentrant: on a single core a
    /// lock already held here can never be released, so acquisition
    /// demands the free state.
    pub fn lock(&mut self)
        requires
            old(self).wf(),
            !old(self).is_locked(),
        ensures
            final(self).wf(),
            final(self).is_locked(),
    {
        self.value = 1;
    }

    /// Releases the lock unconditionally; the unlocking core then
    /// broadcasts a wake signal so that no waiter sleeps forever.
    pub fn force_unlock(&mut self)
        requires
            old(self).wf(),
        ensures
            final(self).wf(),
            !final(self).is_locked(),
    {
        self.value = 0;
    }

    /// Scoped acquisition: acquires, runs `body` to completion, then
    /// releases on every exit path.  The critical section receives
    /// nothing from the lock and cannot leak it.
    pub fn synchronized<F, R>(&mut self, body: F) -> (r: R) where F: FnOnce() -> R
        requires
            old(self).wf(),
            !old(self).is_locked(),
            call_requires(body, ()),
        ensures
            final(self).wf(),
            !final(self).is_locked(),
            call_ensures(body, (), r),
    {
        self.lock();
        let result = body();
        self.force_unlock();
        result
    }
}

/// A backoff helper for spin loops; the low-power wait instruction it
/// stands in front of belongs to the architecture layer.
pub struct SpinLoopWait;

impl SpinLoopWait {
    pub fn new() -> Self {
        SpinLoopWait {  }
    }

    /// Forgets any accumulated backoff state; this strategy keeps
    /// none.
    pub fn reset(&mut self) {
    }

    /// One round of waiting before the next poll of the contended
    /// location.
    pub fn wait(&mut self) {
    }
}

} // verus!
