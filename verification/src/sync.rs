//! Crash-recoverable lock primitives whose payload lives in persistent
//! memory.
//!
//! A native lock's control word encodes kernel- and address-specific bit
//! patterns: bytes that were valid before a restart carry no meaning
//! afterwards, and no liveness is owed to a lock word written by a dead
//! process. These wrappers therefore never trust a persisted control
//! word. On every open — first creation and every reopen — the
//! reattachment call overwrites the word with a freshly constructed state
//! and only then marks the primitive ready; locking demands readiness
//! under some open, so no caller can reach a stale word.

use vstd::prelude::*;
use crate::reattach::{CtoPoolArc, CtoSafe};

verus! {

/// The control word value of a freshly constructed, unheld native lock.
pub const FRESH_CONTROL_WORD: u64 = 0;

/// The raw state of a read-write lock, owned by this layer itself rather
/// than borrowed from a foreign lock's private layout, so that
/// reconstruction on reopen is a first-class operation.
#[derive(Clone, Copy, PartialEq, Eq, Structural, Debug)]
pub struct RawRwLockState {
    /// The packed reader/writer state word.
    pub state: u64,
}

impl RawRwLockState {
    /// A freshly constructed raw lock: nobody holds it.
    pub fn new() -> (r: Self)
        ensures
            r.state == FRESH_CONTROL_WORD,
    {
        RawRwLockState { state: FRESH_CONTROL_WORD }
    }
}

/// A mutex whose protected value lives in persistent memory. The control
/// word is rebuilt on every open; until then the mutex is not ready and
/// must not be locked.
pub struct CtoMutexLock<T: CtoSafe> {
    /// Bytes of the native lock's control word as persisted: possibly
    /// stale garbage right after an open.
    pub control_word: u64,
    /// The epoch of the open under which the control word was rebuilt;
    /// nothing, before the first reattachment of this open.
    pub ready_epoch: Option<u64>,
    /// Whether the calling side currently holds the mutex.
    pub locked: bool,
    /// The protected value.
    pub value: T,
}

impl<T: CtoSafe> CtoMutexLock<T> {
    /// Ready: safe to lock under some open of the pool.
    pub open spec fn ready(self) -> bool {
        self.ready_epoch is Some
    }

    /// Creates a mutex around a value, ready under the given open.
    pub fn new(value: T, cto_pool_arc: &CtoPoolArc) -> (r: Self)
        ensures
            r.ready(),
            r.ready_epoch == Some(cto_pool_arc.epoch),
            !r.locked,
            r.control_word == FRESH_CONTROL_WORD,
            r.value == value,
    {
        CtoMutexLock {
            control_word: FRESH_CONTROL_WORD,
            ready_epoch: Some(cto_pool_arc.epoch),
            locked: false,
            value,
        }
    }

    /// Blocks until the mutex is acquired. With no other holder it
    /// succeeds at once; locking a mutex this side already holds would
    /// block forever, so it is ruled out.
    pub fn lock(&mut self)
        requires
            old(self).ready(),
            !old(self).locked,
        ensures
            final(self).locked,
            final(self).value == old(self).value,
            final(self).ready_epoch == old(self).ready_epoch,
            final(self).control_word == old(self).control_word,
    {
        self.locked = true;
    }

    /// Acquires the mutex if nobody holds it; contention is an ordinary
    /// outcome, not an error.
    pub fn try_lock(&mut self) -> (r: bool)
        requires
            old(self).ready(),
        ensures
            r == !old(self).locked,
            !r ==> *final(self) == *old(self),
            r ==> final(self).locked,
            final(self).value == old(self).value,
            final(self).ready_epoch == old(self).ready_epoch,
            final(self).control_word == old(self).control_word,
    {
        if self.locked {
            false
        } else {
            self.locked = true;
            true
        }
    }

    /// Acquires the mutex or gives up at the absolute deadline. On a
    /// mutex that is already held, a deadline at or before now returns
    /// empty immediately rather than blocking; with no other thread to
    /// release it, any deadline passes unserved.
    pub fn timed_lock(&mut self, now: u64, absolute_deadline: u64) -> (r: bool)
        requires
            old(self).ready(),
        ensures
            r == !old(self).locked,
            !r ==> *final(self) == *old(self),
            r ==> final(self).locked,
            final(self).value == old(self).value,
            final(self).ready_epoch == old(self).ready_epoch,
            final(self).control_word == old(self).control_word,
    {
        if self.locked {
            if absolute_deadline <= now {
                // the deadline is already past: empty immediately, with
                // no blocking at all
                false
            } else {
                // the holder is this caller's own side and cannot release
                // meanwhile, so the deadline passes and the wait times out
                false
            }
        } else {
            self.locked = true;
            true
        }
    }

    /// Releases the mutex.
    pub fn unlock(&mut self)
        requires
            old(self).locked,
        ensures
            !final(self).locked,
            final(self).value == old(self).value,
            final(self).ready_epoch == old(self).ready_epoch,
            final(self).control_word == old(self).control_word,
    {
        self.locked = false;
    }

    /// Reads the protected value; only the holder may.
    pub fn get(&self) -> (r: &T)
        requires
            self.locked,
        ensures
            r == &self.value,
    {
        &self.value
    }

    /// Writes through to the protected value; only the holder may.
    pub fn get_mut(&mut self) -> (r: &mut T)
        requires
            old(self).locked,
        ensures
            *r == old(self).value,
            final(self).value == *final(r),
            final(self).locked == old(self).locked,
            final(self).ready_epoch == old(self).ready_epoch,
            final(self).control_word == old(self).control_word,
    {
        &mut self.value
    }
}

impl<T: CtoSafe> CtoSafe for CtoMutexLock<T> {
    open spec fn reattached_to(&self, pool: CtoPoolArc) -> bool {
        &&& self.ready_epoch == Some(pool.epoch)
        &&& !self.locked
        &&& self.control_word == FRESH_CONTROL_WORD
        &&& self.value.reattached_to(pool)
    }

    /// Rebuilds the control word in place — whatever stale bits the open
    /// found are discarded — and reattaches the protected value. The
    /// mutex comes out ready and unheld: a single thread's `lock` then
    /// succeeds immediately.
    fn cto_pool_opened(&mut self, cto_pool_arc: &CtoPoolArc) {
        self.control_word = FRESH_CONTROL_WORD;
        self.ready_epoch = Some(cto_pool_arc.epoch);
        self.locked = false;
        self.value.cto_pool_opened(cto_pool_arc)
    }
}

/// A condition variable whose transient state is rebuilt on every open.
pub struct CtoConditionVariable {
    /// Bytes of the native condition variable's control word.
    pub control_word: u64,
    /// The epoch of the open under which the word was rebuilt.
    pub ready_epoch: Option<u64>,
}

impl CtoConditionVariable {
    /// Ready: safe to wait on or notify under some open.
    pub open spec fn ready(self) -> bool {
        self.ready_epoch is Some
    }

    /// Creates a condition variable, ready under the given open.
    pub fn new(cto_pool_arc: &CtoPoolArc) -> (r: Self)
        ensures
            r.ready(),
            r.ready_epoch == Some(cto_pool_arc.epoch),
            r.control_word == FRESH_CONTROL_WORD,
    {
        CtoConditionVariable {
            control_word: FRESH_CONTROL_WORD,
            ready_epoch: Some(cto_pool_arc.epoch),
        }
    }

    /// Rebuilds the transient state for the given open.
    pub fn reinitialize(&mut self, cto_pool_arc: &CtoPoolArc)
        ensures
            final(self).ready(),
            final(self).ready_epoch == Some(cto_pool_arc.epoch),
            final(self).control_word == FRESH_CONTROL_WORD,
    {
        self.control_word = FRESH_CONTROL_WORD;
        self.ready_epoch = Some(cto_pool_arc.epoch);
    }

    /// Wakes one waiter, if any is parked.
    pub fn notify_one(&mut self)
        requires
            old(self).ready(),
        ensures
            *final(self) == *old(self),
    {
    }

    /// Wakes every parked waiter.
    pub fn notify_all(&mut self)
        requires
            old(self).ready(),
        ensures
            *final(self) == *old(self),
    {
    }
}

impl CtoSafe for CtoConditionVariable {
    open spec fn reattached_to(&self, pool: CtoPoolArc) -> bool {
        self.ready_epoch == Some(pool.epoch) && self.control_word == FRESH_CONTROL_WORD
    }

    fn cto_pool_opened(&mut self, cto_pool_arc: &CtoPoolArc) {
        self.reinitialize(cto_pool_arc)
    }
}

/// A mutex and its condition variable side by side, so waiting and
/// notifying always go through the mutex that guards the value.
pub struct CtoMutexLockAndConditionVariable<T: CtoSafe> {
    /// The mutex guarding the value.
    pub cto_mutex_lock: CtoMutexLock<T>,
    /// The condition variable tied to it.
    pub cto_condition_variable: CtoConditionVariable,
}

impl<T: CtoSafe> CtoMutexLockAndConditionVariable<T> {
    /// Ready: both halves are safe to use under some open.
    pub open spec fn ready(self) -> bool {
        self.cto_mutex_lock.ready() && self.cto_condition_variable.ready()
    }

    /// Pairs an existing mutex with an existing condition variable.
    pub fn new(
        cto_mutex_lock: CtoMutexLock<T>,
        cto_condition_variable: CtoConditionVariable,
    ) -> (r: Self)
        ensures
            r.cto_mutex_lock == cto_mutex_lock,
            r.cto_condition_variable == cto_condition_variable,
    {
        CtoMutexLockAndConditionVariable { cto_mutex_lock, cto_condition_variable }
    }

    /// Locks the mutex; wait and notify are then available.
    pub fn lock(&mut self)
        requires
            old(self).ready(),
            !old(self).cto_mutex_lock.locked,
        ensures
            final(self).cto_mutex_lock.locked,
            final(self).cto_mutex_lock.value == old(self).cto_mutex_lock.value,
            final(self).cto_mutex_lock.ready_epoch == old(self).cto_mutex_lock.ready_epoch,
            final(self).cto_condition_variable == old(self).cto_condition_variable,
    {
        self.cto_mutex_lock.lock()
    }

    /// Locks the mutex if nobody holds it; an empty result means the
    /// lock is held by another, an expected outcome.
    pub fn try_lock(&mut self) -> (r: bool)
        requires
            old(self).ready(),
        ensures
            r == !old(self).cto_mutex_lock.locked,
            !r ==> *final(self) == *old(self),
            r ==> final(self).cto_mutex_lock.locked,
            final(self).cto_mutex_lock.value == old(self).cto_mutex_lock.value,
            final(self).cto_condition_variable == old(self).cto_condition_variable,
    {
        self.cto_mutex_lock.try_lock()
    }

    /// Locks the mutex or gives up at the absolute deadline; a deadline
    /// already passed on a held mutex returns empty immediately.
    pub fn timed_lock(&mut self, now: u64, absolute_deadline: u64) -> (r: bool)
        requires
            old(self).ready(),
        ensures
            r == !old(self).cto_mutex_lock.locked,
            !r ==> *final(self) == *old(self),
            r ==> final(self).cto_mutex_lock.locked,
            final(self).cto_mutex_lock.value == old(self).cto_mutex_lock.value,
            final(self).cto_condition_variable == old(self).cto_condition_variable,
    {
        self.cto_mutex_lock.timed_lock(now, absolute_deadline)
    }

    /// Releases the mutex.
    pub fn unlock(&mut self)
        requires
            old(self).cto_mutex_lock.locked,
        ensures
            !final(self).cto_mutex_lock.locked,
            final(self).cto_mutex_lock.value == old(self).cto_mutex_lock.value,
            final(self).cto_mutex_lock.ready_epoch == old(self).cto_mutex_lock.ready_epoch,
            final(self).cto_condition_variable == old(self).cto_condition_variable,
    {
        self.cto_mutex_lock.unlock()
    }

    /// Waits on the condition variable until notified or the absolute
    /// deadline passes: atomically releases the mutex and reacquires it
    /// before returning, whatever woke it. With no other thread to
    /// notify, the deadline passes and the wait reports a timeout.
    pub fn timed_wait(&mut self, now: u64, absolute_deadline: u64) -> (r: bool)
        requires
            old(self).ready(),
            old(self).cto_mutex_lock.locked,
        ensures
            final(self).cto_mutex_lock.locked,
            final(self).cto_mutex_lock.value == old(self).cto_mutex_lock.value,
            final(self).cto_mutex_lock.ready_epoch == old(self).cto_mutex_lock.ready_epoch,
            final(self).cto_condition_variable == old(self).cto_condition_variable,
            !r,
    {
        // release, let the deadline pass unserved, reacquire
        self.cto_mutex_lock.unlock();
        self.cto_mutex_lock.lock();
        false
    }

    /// Reads the protected value; only the holder may.
    pub fn get(&self) -> (r: &T)
        requires
            self.cto_mutex_lock.locked,
        ensures
            r == &self.cto_mutex_lock.value,
    {
        self.cto_mutex_lock.get()
    }

    /// Writes through to the protected value; only the holder may.
    pub fn get_mut(&mut self) -> (r: &mut T)
        requires
            old(self).cto_mutex_lock.locked,
        ensures
            *r == old(self).cto_mutex_lock.value,
            final(self).cto_mutex_lock.value == *final(r),
            final(self).cto_mutex_lock.locked == old(self).cto_mutex_lock.locked,
            final(self).cto_mutex_lock.ready_epoch == old(self).cto_mutex_lock.ready_epoch,
            final(self).cto_condition_variable == old(self).cto_condition_variable,
    {
        self.cto_mutex_lock.get_mut()
    }
}

impl<T: CtoSafe> CtoSafe for CtoMutexLockAndConditionVariable<T> {
    open spec fn reattached_to(&self, pool: CtoPoolArc) -> bool {
        self.cto_mutex_lock.reattached_to(pool) && self.cto_condition_variable.reattached_to(
            pool,
        )
    }

    /// Reattaches both halves, mutex first, exactly once per open.
    fn cto_pool_opened(&mut self, cto_pool_arc: &CtoPoolArc) {
        self.cto_mutex_lock.cto_pool_opened(cto_pool_arc);
        self.cto_condition_variable.cto_pool_opened(cto_pool_arc)
    }
}

/// The inner read-write lock: raw state, reader and writer bookkeeping,
/// and the protected value.
pub struct RwLock<Value: CtoSafe> {
    /// The raw lock state, rebuilt on every open.
    pub raw: RawRwLockState,
    /// The epoch of the open under which the raw state was rebuilt.
    pub ready_epoch: Option<u64>,
    /// How many readers currently hold the lock.
    pub readers: usize,
    /// Whether a writer currently holds the lock.
    pub writer: bool,
    /// The protected value.
    pub value: Value,
}

impl<Value: CtoSafe> RwLock<Value> {
    /// Ready: safe to lock under some open.
    pub open spec fn ready(self) -> bool {
        self.ready_epoch is Some
    }

    /// Acquires the lock for writing if no reader or writer holds it.
    pub fn try_write(&mut self) -> (r: bool)
        requires
            old(self).ready(),
        ensures
            r == (!old(self).writer && old(self).readers == 0),
            !r ==> *final(self) == *old(self),
            r ==> final(self).writer && final(self).readers == 0,
            final(self).value == old(self).value,
            final(self).ready_epoch == old(self).ready_epoch,
    {
        if !self.writer && self.readers == 0 {
            self.writer = true;
            true
        } else {
            false
        }
    }

    /// Acquires the lock for reading if no writer holds it.
    pub fn try_read(&mut self) -> (r: bool)
        requires
            old(self).ready(),
            old(self).readers < usize::MAX,
        ensures
            r == !old(self).writer,
            !r ==> *final(self) == *old(self),
            r ==> final(self).readers == old(self).readers + 1 && !final(self).writer,
            final(self).value == old(self).value,
            final(self).ready_epoch == old(self).ready_epoch,
    {
        if !self.writer {
            self.readers = self.readers + 1;
            true
        } else {
            false
        }
    }

    /// Releases the write lock.
    pub fn unlock_write(&mut self)
        requires
            old(self).writer,
        ensures
            !final(self).writer,
            final(self).readers == old(self).readers,
            final(self).value == old(self).value,
            final(self).ready_epoch == old(self).ready_epoch,
    {
        self.writer = false;
    }

    /// Releases one read lock.
    pub fn unlock_read(&mut self)
        requires
            old(self).readers >= 1,
        ensures
            final(self).readers == old(self).readers - 1,
            final(self).writer == old(self).writer,
            final(self).value == old(self).value,
            final(self).ready_epoch == old(self).ready_epoch,
    {
        self.readers = self.readers - 1;
    }

    /// Reads the protected value; a holder of either lock side may.
    pub fn get(&self) -> (r: &Value)
        requires
            self.writer || self.readers >= 1,
        ensures
            r == &self.value,
    {
        &self.value
    }

    /// Writes through to the protected value; only the writer may.
    pub fn get_mut(&mut self) -> (r: &mut Value)
        requires
            old(self).writer,
        ensures
            *r == old(self).value,
            final(self).value == *final(r),
            final(self).writer == old(self).writer,
            final(self).readers == old(self).readers,
            final(self).ready_epoch == old(self).ready_epoch,
    {
        &mut self.value
    }
}

/// A read-write lock whose value lives in persistent memory, with its
/// raw lock state reconstructed in place on every open.
pub struct CtoParkingLotReadWriteLock<Value: CtoSafe> {
    /// The inner lock and value.
    pub inner: RwLock<Value>,
    /// The pool-handle reference, rebound on every open.
    pub cto_pool_arc: CtoPoolArc,
}

impl<Value: CtoSafe> CtoParkingLotReadWriteLock<Value> {
    /// The created path: binds to the pool, constructs the raw lock
    /// state afresh, and runs the value initializer once. A failed
    /// initializer surfaces its error and builds nothing.
    pub fn new<InitializationError, Initializer: FnOnce(CtoPoolArc) -> Result<
        Value,
        InitializationError,
    >>(initializer: Initializer, cto_pool_arc: &CtoPoolArc) -> (r: Result<
        Self,
        InitializationError,
    >)
        requires
            call_requires(initializer, (*cto_pool_arc,)),
        ensures
            r matches Ok(lock) ==> {
                &&& lock.cto_pool_arc == *cto_pool_arc
                &&& lock.inner.ready()
                &&& lock.inner.ready_epoch == Some(cto_pool_arc.epoch)
                &&& !lock.inner.writer
                &&& lock.inner.readers == 0
                &&& lock.inner.raw.state == FRESH_CONTROL_WORD
                &&& call_ensures(initializer, (*cto_pool_arc,), Ok(lock.inner.value))
            },
            r matches Err(e) ==> call_ensures(
                initializer,
                (*cto_pool_arc,),
                Err::<Value, InitializationError>(e),
            ),
    {
        let raw = RawRwLockState::new();
        match initializer(*cto_pool_arc) {
            Ok(value) => Ok(
                CtoParkingLotReadWriteLock {
                    inner: RwLock {
                        raw,
                        ready_epoch: Some(cto_pool_arc.epoch),
                        readers: 0,
                        writer: false,
                        value,
                    },
                    cto_pool_arc: *cto_pool_arc,
                },
            ),
            Err(error) => Err(error),
        }
    }

    /// Accesses the read-write lock.
    pub fn rwlock(&self) -> (r: &RwLock<Value>)
        ensures
            r == &self.inner,
    {
        &self.inner
    }

    /// Writes through to the read-write lock.
    pub fn rwlock_mut(&mut self) -> (r: &mut RwLock<Value>)
        ensures
            *r == old(self).inner,
            final(self).inner == *final(r),
            final(self).cto_pool_arc == old(self).cto_pool_arc,
    {
        &mut self.inner
    }
}

impl<Value: CtoSafe> CtoSafe for CtoParkingLotReadWriteLock<Value> {
    open spec fn reattached_to(&self, pool: CtoPoolArc) -> bool {
        &&& self.cto_pool_arc == pool
        &&& self.inner.ready_epoch == Some(pool.epoch)
        &&& !self.inner.writer
        &&& self.inner.readers == 0
        &&& self.inner.raw.state == FRESH_CONTROL_WORD
        &&& self.inner.value.reattached_to(pool)
    }

    /// Reconstructs the raw lock state in place — the persisted bytes are
    /// discarded, never trusted — then reattaches the protected value and
    /// rebinds the pool-handle reference.
    fn cto_pool_opened(&mut self, cto_pool_arc: &CtoPoolArc) {
        self.inner.raw = RawRwLockState::new();
        self.inner.ready_epoch = Some(cto_pool_arc.epoch);
        self.inner.readers = 0;
        self.inner.writer = false;
        self.inner.value.cto_pool_opened(cto_pool_arc);
        cto_pool_arc.write(&mut self.cto_pool_arc);
    }
}


/// Reattachment leaves no lock poisoned: any mutex that has been
/// reattached to the current open is ready and unheld, so a single
/// thread's `lock` on it succeeds immediately — whatever stale
/// control-word bits the reopen found.
pub proof fn lemma_reattached_mutex_accepts_lock<T: CtoSafe>(m: CtoMutexLock<T>, pool: CtoPoolArc)
    requires
        m.reattached_to(pool),
    ensures
        m.ready(),
        !m.locked,
        m.control_word == FRESH_CONTROL_WORD,
{
}

/// The same freedom from poisoning for the read-write lock: reattachment
/// leaves it ready, with no reader and no writer.
pub proof fn lemma_reattached_rwlock_accepts_write<Value: CtoSafe>(
    lock: CtoParkingLotReadWriteLock<Value>,
    pool: CtoPoolArc,
)
    requires
        lock.reattached_to(pool),
    ensures
        lock.inner.ready(),
        !lock.inner.writer,
        lock.inner.readers == 0,
{
}

} // verus!
