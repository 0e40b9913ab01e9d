//! Crash-recoverable lock primitives: reattachment after reopen, timed
//! locking, and condition-variable semantics.

use nvml::reattach::{CtoBoxInner, CtoPoolArc, CtoRootBox, CtoSafe};
use nvml::sync::{
    CtoConditionVariable, CtoMutexLock, CtoMutexLockAndConditionVariable,
    CtoParkingLotReadWriteLock, RawRwLockState, FRESH_CONTROL_WORD,
};

#[test]
fn timed_lock_past_deadline_on_held_mutex_returns_empty() {
    let arc = CtoPoolArc::new(1);
    let mut mutex = CtoMutexLock::new(42u64, &arc);
    mutex.lock();
    // deadline already in the past: empty immediately, no blocking
    assert!(!mutex.timed_lock(100, 50));
    assert!(mutex.locked);
    assert_eq!(*mutex.get(), 42);
}

#[test]
fn timed_lock_succeeds_on_free_mutex() {
    let arc = CtoPoolArc::new(1);
    let mut mutex = CtoMutexLock::new(7u32, &arc);
    assert!(mutex.timed_lock(100, 50));
    assert!(mutex.locked);
}

#[test]
fn try_lock_reports_contention_as_none() {
    let arc = CtoPoolArc::new(1);
    let mut pair = CtoMutexLockAndConditionVariable::new(
        CtoMutexLock::new(5u8, &arc),
        CtoConditionVariable::new(&arc),
    );
    assert!(pair.try_lock());
    assert!(!pair.try_lock());
    pair.unlock();
    assert!(pair.try_lock());
}

#[test]
fn reattach_after_reopen_leaves_mutex_lockable() {
    let first_open = CtoPoolArc::new(1);
    let mut mutex = CtoMutexLock::new(9u64, &first_open);
    mutex.lock();
    *mutex.get_mut() = 10;
    mutex.unlock();

    // simulate a reopen: the control word holds stale garbage and the
    // transient readiness marker is gone
    mutex.control_word = 0xdead_beef_dead_beef;
    mutex.ready_epoch = None;
    mutex.locked = true;

    let second_open = CtoPoolArc::new(2);
    mutex.cto_pool_opened(&second_open);
    assert_eq!(mutex.control_word, FRESH_CONTROL_WORD);
    assert_eq!(mutex.ready_epoch, Some(2));
    assert!(!mutex.locked);

    // a single thread's lock succeeds immediately
    mutex.lock();
    assert!(mutex.locked);
    assert_eq!(*mutex.get(), 10);
}

#[test]
fn reattach_propagates_through_composite_values() {
    let first_open = CtoPoolArc::new(1);
    let pair = CtoMutexLockAndConditionVariable::new(
        CtoMutexLock::new(3u32, &first_open),
        CtoConditionVariable::new(&first_open),
    );
    let mut root = CtoRootBox::new(CtoBoxInner { cto_pool_arc: first_open, value: pair });

    // simulate a reopen scrambling every transient word
    root.root.value.cto_mutex_lock.control_word = 77;
    root.root.value.cto_mutex_lock.ready_epoch = None;
    root.root.value.cto_condition_variable.control_word = 99;
    root.root.value.cto_condition_variable.ready_epoch = None;
    root.root.cto_pool_arc = CtoPoolArc::new(0);

    let second_open = CtoPoolArc::new(5);
    root.cto_pool_opened(&second_open);
    assert_eq!(root.root.cto_pool_arc, second_open);
    assert_eq!(root.root.value.cto_mutex_lock.ready_epoch, Some(5));
    assert_eq!(root.root.value.cto_condition_variable.ready_epoch, Some(5));
    root.root.value.lock();
    assert_eq!(*root.root.value.get(), 3);
}

#[test]
fn condition_variable_timed_wait_times_out_and_reacquires() {
    let arc = CtoPoolArc::new(1);
    let mut pair = CtoMutexLockAndConditionVariable::new(
        CtoMutexLock::new(1u8, &arc),
        CtoConditionVariable::new(&arc),
    );
    pair.lock();
    let woken = pair.timed_wait(10, 20);
    assert!(!woken);
    // the mutex is held again on return
    assert!(pair.cto_mutex_lock.locked);
    pair.cto_condition_variable.notify_one();
    pair.cto_condition_variable.notify_all();
    pair.unlock();
}

#[test]
fn rwlock_created_path_runs_initializer_once() {
    let arc = CtoPoolArc::new(1);
    let created: Result<CtoParkingLotReadWriteLock<u32>, u8> =
        CtoParkingLotReadWriteLock::new(|_pool| Ok(11u32), &arc);
    let mut lock = created.unwrap();
    assert_eq!(lock.rwlock().raw.state, FRESH_CONTROL_WORD);
    assert!(lock.rwlock_mut().try_write());
    assert_eq!(*lock.rwlock_mut().get(), 11);
    lock.rwlock_mut().unlock_write();
}

#[test]
fn rwlock_created_path_surfaces_initializer_error() {
    let arc = CtoPoolArc::new(1);
    let created: Result<CtoParkingLotReadWriteLock<u32>, u8> =
        CtoParkingLotReadWriteLock::new(|_pool| Err(77u8), &arc);
    assert_eq!(created.err(), Some(77));
}

#[test]
fn rwlock_readers_exclude_writer() {
    let arc = CtoPoolArc::new(1);
    let created: Result<CtoParkingLotReadWriteLock<u64>, ()> =
        CtoParkingLotReadWriteLock::new(|_pool| Ok(0u64), &arc);
    let mut lock = created.unwrap();
    assert!(lock.rwlock_mut().try_read());
    assert!(lock.rwlock_mut().try_read());
    assert!(!lock.rwlock_mut().try_write());
    lock.rwlock_mut().unlock_read();
    lock.rwlock_mut().unlock_read();
    assert!(lock.rwlock_mut().try_write());
    assert!(!lock.rwlock_mut().try_read());
    lock.rwlock_mut().unlock_write();
}

#[test]
fn rwlock_reattach_rebuilds_raw_state() {
    let first_open = CtoPoolArc::new(1);
    let created: Result<CtoParkingLotReadWriteLock<u32>, ()> =
        CtoParkingLotReadWriteLock::new(|_pool| Ok(8u32), &first_open);
    let mut lock = created.unwrap();

    // simulate a reopen with garbage in the raw word
    lock.inner.raw = RawRwLockState { state: 0xffff_ffff };
    lock.inner.ready_epoch = None;
    lock.inner.readers = 3;
    lock.inner.writer = true;

    let second_open = CtoPoolArc::new(2);
    lock.cto_pool_opened(&second_open);
    assert_eq!(lock.inner.raw.state, FRESH_CONTROL_WORD);
    assert_eq!(lock.inner.readers, 0);
    assert!(!lock.inner.writer);
    assert!(lock.rwlock_mut().try_write());
    assert_eq!(*lock.rwlock_mut().get(), 8);
}
