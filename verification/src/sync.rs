//! Spin mutex and reader-writer lock built on the atomic cell.
//!
//! Both locks live on a single-core target where concurrency comes only
//! from interrupt preemption. Each acquisition step is one atomic
//! transition; the verified model states those transitions exactly.
//! The busy-wait forms (`lock`, `lock_shared`, `lock_exclusive`) retry
//! the corresponding `try_*` step; under an exclusive borrow a retry
//! can never be unblocked by another party, so the verified forms ask
//! for a state in which the first attempt succeeds.

use vstd::prelude::*;

use crate::atomic::{Atomic, AtomicBool};

verus! {

/// Largest number of concurrently outstanding shared locks. Reaching
/// it makes further shared acquisitions fail rather than wrap.
pub const MAX_SHARED_LOCKS: u16 = 65535;

/// The update step of a shared acquisition: admits one more reader
/// unless the count is saturated, in which case it declines.
fn saturating_reader_bump(v: u16) -> (o: Option<u16>)
    ensures
        v == MAX_SHARED_LOCKS ==> o is None,
        v < MAX_SHARED_LOCKS ==> o is Some && o->0 == v + 1,
{
    if v == MAX_SHARED_LOCKS {
        None
    } else {
        Some(v + 1)
    }
}

/// A binary spin lock: one atomic boolean, test-and-set to acquire.
#[derive(Debug)]
pub struct RP2040Mutex {
    locked: AtomicBool,
}

impl RP2040Mutex {
    /// Whether the lock is currently held.
    pub closed spec fn held(self) -> bool {
        self.locked.value()
    }

    pub fn new() -> (r: Self)
        ensures
            !r.held(),
    {
        RP2040Mutex { locked: Atomic::new(false) }
    }

    /// One acquisition attempt: atomically swaps the flag to locked and
    /// succeeds exactly when it was free. After the call the lock is
    /// held either way (on failure, by its prior owner).
    pub fn try_lock(&mut self) -> (r: bool)
        ensures
            r == !old(self).held(),
            final(self).held(),
    {
        !self.locked.swap(true)
    }

    /// Blocking acquisition. On the target this spins on `try_lock`
    /// until an interrupt handler releases the lock; a spin on an
    /// exclusively borrowed lock could never end, so the verified form
    /// requires the lock to be free.
    pub fn lock(&mut self)
        requires
            !old(self).held(),
        ensures
            final(self).held(),
    {
        let acquired = self.try_lock();
        proof {
            assert(acquired);
        }
    }

    /// Releases the lock. Callers must hold it.
    pub fn unlock(&mut self)
        requires
            old(self).held(),
        ensures
            !final(self).held(),
    {
        self.locked.store(false)
    }

    pub fn is_locked(&self) -> (r: bool)
        ensures
            r == self.held(),
    {
        self.locked.load()
    }
}

/// A reader-writer lock: a spin mutex for the exclusive side and a
/// saturating counter of outstanding shared holders.
pub struct RP2040RwLock {
    exclusive_lock: RP2040Mutex,
    shared_lock_count: Atomic<u16>,
}

impl RP2040RwLock {
    /// Whether the exclusive side is held.
    pub closed spec fn exclusive(self) -> bool {
        self.exclusive_lock.held()
    }

    /// How many shared holders are outstanding.
    pub closed spec fn readers(self) -> u16 {
        self.shared_lock_count.value()
    }

    /// The lock never has an exclusive holder and shared holders at
    /// once. Every operation preserves this.
    pub open spec fn wf(self) -> bool {
        self.exclusive() ==> self.readers() == 0
    }

    /// Whether one `try_lock_shared` step succeeds in a given state.
    pub open spec fn shared_acquirable(self) -> bool {
        !self.exclusive() && self.readers() < MAX_SHARED_LOCKS
    }

    /// Whether one `try_lock_exclusive` step succeeds in a given state.
    pub open spec fn exclusive_acquirable(self) -> bool {
        !self.exclusive() && self.readers() == 0
    }

    pub fn new() -> (r: Self)
        ensures
            !r.exclusive(),
            r.readers() == 0,
            r.wf(),
    {
        RP2040RwLock { exclusive_lock: RP2040Mutex::new(), shared_lock_count: Atomic::new(0) }
    }

    /// One shared acquisition attempt, a single atomic step on the
    /// target: fails if the exclusive side is held or the reader count
    /// is saturated, otherwise admits exactly one more reader.
    pub fn try_lock_shared(&mut self) -> (r: bool)
        ensures
            r == old(self).shared_acquirable(),
            r ==> final(self).readers() == old(self).readers() + 1,
            !r ==> final(self).readers() == old(self).readers(),
            final(self).exclusive() == old(self).exclusive(),
            old(self).wf() ==> final(self).wf(),
    {
        if self.exclusive_lock.is_locked() {
            return false;
        }
        let updated = self.shared_lock_count.fetch_update(saturating_reader_bump);
        updated.is_ok()
    }

    /// Releases one shared hold. Callers must hold a shared lock.
    pub fn unlock_shared(&mut self)
        requires
            old(self).readers() >= 1,
        ensures
            final(self).readers() == old(self).readers() - 1,
            final(self).exclusive() == old(self).exclusive(),
            old(self).wf() ==> final(self).wf(),
    {
        self.shared_lock_count.fetch_sub(1);
    }

    /// Blocking shared acquisition; the verified form requires a state
    /// in which the first attempt succeeds (see `lock` above).
    pub fn lock_shared(&mut self)
        requires
            old(self).shared_acquirable(),
        ensures
            final(self).readers() == old(self).readers() + 1,
            final(self).exclusive() == old(self).exclusive(),
            old(self).wf() ==> final(self).wf(),
    {
        let acquired = self.try_lock_shared();
        proof {
            assert(acquired);
        }
    }

    /// One exclusive acquisition attempt, a single atomic step on the
    /// target: fails if the exclusive side is already held or any
    /// reader is outstanding, otherwise claims the exclusive flag.
    pub fn try_lock_exclusive(&mut self) -> (r: bool)
        ensures
            r == old(self).exclusive_acquirable(),
            r ==> final(self).exclusive(),
            !r ==> final(self).exclusive() == old(self).exclusive(),
            final(self).readers() == old(self).readers(),
            old(self).wf() ==> final(self).wf(),
    {
        if self.exclusive_lock.is_locked() {
            return false;
        }
        if self.shared_lock_count.load() != 0 {
            return false;
        }
        self.exclusive_lock.try_lock()
    }

    /// Releases the exclusive hold. Callers must hold it.
    pub fn unlock_exclusive(&mut self)
        requires
            old(self).exclusive(),
        ensures
            !final(self).exclusive(),
            final(self).readers() == old(self).readers(),
            old(self).wf() ==> final(self).wf(),
    {
        self.exclusive_lock.unlock()
    }

    /// Blocking exclusive acquisition; the verified form requires a
    /// state in which the first attempt succeeds (see `lock` above).
    pub fn lock_exclusive(&mut self)
        requires
            old(self).exclusive_acquirable(),
        ensures
            final(self).exclusive(),
            final(self).readers() == old(self).readers(),
            old(self).wf() ==> final(self).wf(),
    {
        let acquired = self.try_lock_exclusive();
        proof {
            assert(acquired);
        }
    }

    /// Turns the caller's exclusive hold into one shared hold in a
    /// single atomic step: the reader count is incremented and the
    /// exclusive flag cleared within one critical section on the
    /// target, so no other party ever observes the lock free in
    /// between.
    pub fn downgrade(&mut self)
        requires
            old(self).exclusive(),
            old(self).wf(),
        ensures
            !final(self).exclusive(),
            final(self).readers() == 1,
            final(self).wf(),
    {
        self.shared_lock_count.fetch_add(1);
        self.exclusive_lock.unlock();
    }

    /// Whether any party holds the lock, shared or exclusive.
    pub fn is_locked(&self) -> (r: bool)
        ensures
            r == (self.exclusive() || self.readers() != 0),
    {
        self.is_locked_exclusive() || self.shared_lock_count.load() != 0
    }

    pub fn is_locked_exclusive(&self) -> (r: bool)
        ensures
            r == self.exclusive(),
    {
        self.exclusive_lock.is_locked()
    }
}

/// Mutual exclusion between readers and the writer: in any
/// well-formed state, an exclusive holder and a shared holder never
/// coexist.
pub proof fn lemma_rw_mutual_exclusion(l: RP2040RwLock)
    requires
        l.wf(),
    ensures
        !(l.exclusive() && l.readers() > 0),
{
}

/// A saturated reader count refuses the next shared acquisition:
/// `try_lock_shared` cannot succeed, so the count is not altered.
pub proof fn lemma_reader_count_bound(l: RP2040RwLock)
    requires
        l.readers() == MAX_SHARED_LOCKS,
    ensures
        !l.shared_acquirable(),
{
}

/// Downgrade atomicity: while the downgrading party held the exclusive
/// lock, no exclusive acquisition could succeed, and in the state the
/// one-step downgrade produces none can either — there is no window in
/// which a third party finds the lock free.
pub proof fn lemma_downgrade_atomic(before: RP2040RwLock, after: RP2040RwLock)
    requires
        before.exclusive(),
        before.wf(),
        // what `downgrade` ensures of the state it produces
        !after.exclusive(),
        after.readers() == 1,
    ensures
        !before.exclusive_acquirable(),
        !after.exclusive_acquirable(),
{
}

} // verus!
