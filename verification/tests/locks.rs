use rkb1_core::sync::{RP2040Mutex, RP2040RwLock, MAX_SHARED_LOCKS};

#[test]
fn mutex_try_lock_and_unlock() {
    let mut m = RP2040Mutex::new();
    assert!(!m.is_locked());
    assert!(m.try_lock());
    assert!(m.is_locked());
    assert!(!m.try_lock());
    assert!(m.is_locked());
    m.unlock();
    assert!(!m.is_locked());
}

#[test]
fn mutex_lock_blocks_out_second_acquisition() {
    let mut m = RP2040Mutex::new();
    m.lock();
    assert!(m.is_locked());
    assert!(!m.try_lock());
    m.unlock();
    assert!(m.try_lock());
}

#[test]
fn rwlock_shared_and_exclusive_exclude_each_other() {
    let mut l = RP2040RwLock::new();
    assert!(!l.is_locked());
    assert!(l.try_lock_shared());
    assert!(l.is_locked());
    assert!(!l.is_locked_exclusive());
    // a shared holder blocks the exclusive side
    assert!(!l.try_lock_exclusive());
    l.unlock_shared();
    assert!(!l.is_locked());
    assert!(l.try_lock_exclusive());
    assert!(l.is_locked_exclusive());
    // an exclusive holder blocks both sides
    assert!(!l.try_lock_exclusive());
    assert!(!l.try_lock_shared());
    l.unlock_exclusive();
    assert!(!l.is_locked());
}

#[test]
fn rwlock_many_readers() {
    let mut l = RP2040RwLock::new();
    for _ in 0..10 {
        assert!(l.try_lock_shared());
    }
    assert!(!l.try_lock_exclusive());
    for _ in 0..10 {
        l.unlock_shared();
    }
    assert!(!l.is_locked());
}

#[test]
fn reader_count_saturates_without_corruption() {
    let mut l = RP2040RwLock::new();
    for _ in 0..MAX_SHARED_LOCKS {
        assert!(l.try_lock_shared());
    }
    // the next reader is refused and the count is untouched
    assert!(!l.try_lock_shared());
    assert!(!l.try_lock_shared());
    l.unlock_shared();
    assert!(l.try_lock_shared());
    assert!(!l.try_lock_shared());
}

#[test]
fn downgrade_is_atomic_for_onlookers() {
    let mut l = RP2040RwLock::new();
    assert!(l.try_lock_exclusive());
    // a competitor spinning on the exclusive side never gets in while
    // the first holder owns the lock...
    assert!(!l.try_lock_exclusive());
    l.downgrade();
    // ...and after the one-step downgrade the lock is shared, not free
    assert!(!l.is_locked_exclusive());
    assert!(l.is_locked());
    assert!(!l.try_lock_exclusive());
    // exactly one shared hold came out of the downgrade
    l.unlock_shared();
    assert!(!l.is_locked());
    assert!(l.try_lock_exclusive());
}

#[test]
fn lock_shared_then_exclusive_after_release() {
    let mut l = RP2040RwLock::new();
    l.lock_shared();
    assert!(l.is_locked());
    l.unlock_shared();
    l.lock_exclusive();
    assert!(l.is_locked_exclusive());
    l.unlock_exclusive();
}
