//! The reattachment protocol: rebinding persisted values to a pool open.
//!
//! Any runtime-only state a persisted value carries — above all the
//! lightweight reference to the pool handle — becomes invalid the moment
//! the process restarts and the region is remapped. Every persisted value
//! therefore implements a capability that is invoked once, synchronously,
//! the moment the owning pool becomes available: on first creation and on
//! every later reopen, before any concurrent access is permitted. The
//! call rebinds the pool-handle reference and rebuilds any transient
//! substructure, recursively and in a fixed order for composite values.

use vstd::prelude::*;

verus! {

/// A lightweight reference to one open of a pool: it carries the per-open
/// epoch token, so a value rebound to it can be told from one still bound
/// to an earlier open.
#[derive(Clone, Copy, PartialEq, Eq, Structural, Debug)]
pub struct CtoPoolArc {
    /// The epoch token of the pool open this reference denotes.
    pub epoch: u64,
}

impl CtoPoolArc {
    /// The reference denoting the open with the given epoch token.
    pub fn new(epoch: u64) -> (r: Self)
        ensures
            r.epoch == epoch,
    {
        CtoPoolArc { epoch }
    }

    /// Rebinds `slot` to this open.
    pub fn write(&self, slot: &mut CtoPoolArc)
        ensures
            *final(slot) == *self,
    {
        *slot = *self;
    }

    /// Rebinds `slot` to this open, discarding what it held.
    pub fn replace(&self, slot: &mut CtoPoolArc)
        ensures
            *final(slot) == *self,
    {
        *slot = *self;
    }
}

/// The capability every persisted value must implement: called once per
/// pool open, single-threaded, before any concurrent access, to rebind
/// the value's pool-handle reference and rebuild its runtime-only
/// substructure. Composite values propagate the call to every nested
/// reattachable field, in a fixed order, exactly once per open.
pub trait CtoSafe: Sized {
    /// Whether this value has been rebound to the given open and all its
    /// transient substructure rebuilt: the Ready state of the value.
    spec fn reattached_to(&self, pool: CtoPoolArc) -> bool;

    /// Rebinds the value to the pool open and rebuilds its transient
    /// state, leaving it Ready under that open.
    fn cto_pool_opened(&mut self, cto_pool_arc: &CtoPoolArc)
        ensures
            final(self).reattached_to(*cto_pool_arc),
    ;
}

impl CtoSafe for u8 {
    open spec fn reattached_to(&self, pool: CtoPoolArc) -> bool {
        true
    }

    fn cto_pool_opened(&mut self, cto_pool_arc: &CtoPoolArc) {
    }
}

impl CtoSafe for u32 {
    open spec fn reattached_to(&self, pool: CtoPoolArc) -> bool {
        true
    }

    fn cto_pool_opened(&mut self, cto_pool_arc: &CtoPoolArc) {
    }
}

impl CtoSafe for u64 {
    open spec fn reattached_to(&self, pool: CtoPoolArc) -> bool {
        true
    }

    fn cto_pool_opened(&mut self, cto_pool_arc: &CtoPoolArc) {
    }
}

/// A persisted value paired with its pool-handle reference. The created
/// path runs a value-specific initializer once; the reopened path skips
/// the initializer and reattaches only. Both leave the pair Ready.
pub struct CtoBoxInner<Value: CtoSafe> {
    /// The pool-handle reference, rebound on every open.
    pub cto_pool_arc: CtoPoolArc,
    /// The persisted value itself.
    pub value: Value,
}

impl<Value: CtoSafe> CtoBoxInner<Value> {
    /// Rebinds the pair's pool-handle reference; shared by the created
    /// and the reopened path.
    pub fn common_initialization(&mut self, cto_pool_arc: &CtoPoolArc)
        ensures
            final(self).cto_pool_arc == *cto_pool_arc,
            final(self).value == old(self).value,
    {
        cto_pool_arc.replace(&mut self.cto_pool_arc);
    }

    /// The created path: binds to the pool and runs the value-specific
    /// initializer once. A failed initializer surfaces its error and
    /// builds nothing.
    pub fn created<InitializationError, Initializer: FnOnce(CtoPoolArc) -> Result<
        Value,
        InitializationError,
    >>(cto_pool_arc: &CtoPoolArc, initializer: Initializer) -> (r: Result<
        Self,
        InitializationError,
    >)
        requires
            call_requires(initializer, (*cto_pool_arc,)),
        ensures
            r matches Ok(b) ==> b.cto_pool_arc == *cto_pool_arc && call_ensures(
                initializer,
                (*cto_pool_arc,),
                Ok(b.value),
            ),
            r matches Err(e) ==> call_ensures(
                initializer,
                (*cto_pool_arc,),
                Err::<Value, InitializationError>(e),
            ),
    {
        match initializer(*cto_pool_arc) {
            Ok(value) => Ok(CtoBoxInner { cto_pool_arc: *cto_pool_arc, value }),
            Err(error) => Err(error),
        }
    }

    /// Reads the persisted value.
    pub fn value(&self) -> (r: &Value)
        ensures
            r == &self.value,
    {
        &self.value
    }

    /// Writes through to the persisted value.
    pub fn value_mut(&mut self) -> (r: &mut Value)
        ensures
            *r == old(self).value,
            final(self).value == *final(r),
            final(self).cto_pool_arc == old(self).cto_pool_arc,
    {
        &mut self.value
    }
}

impl<Value: CtoSafe> CtoSafe for CtoBoxInner<Value> {
    open spec fn reattached_to(&self, pool: CtoPoolArc) -> bool {
        self.cto_pool_arc == pool && self.value.reattached_to(pool)
    }

    /// The reopened path: rebinds the pair, then propagates reattachment
    /// to the value it wraps.
    fn cto_pool_opened(&mut self, cto_pool_arc: &CtoPoolArc) {
        self.common_initialization(cto_pool_arc);
        self.value.cto_pool_opened(cto_pool_arc)
    }
}

/// The root value of a pool. It deliberately runs no automatic cleanup:
/// a pool's root must stay exactly as persisted when a handle is dropped,
/// or reopening the pool would find a dismantled root.
pub struct CtoRootBox<T: CtoSafe> {
    /// The persisted root value.
    pub root: T,
}

impl<T: CtoSafe> CtoRootBox<T> {
    /// Wraps a value as the root of a pool.
    pub fn new(root: T) -> (r: Self)
        ensures
            r.root == root,
    {
        CtoRootBox { root }
    }

    /// Borrows the root value.
    pub fn as_ptr(this: &Self) -> (r: &T)
        ensures
            r == &this.root,
    {
        &this.root
    }

    /// Writes through to the root value.
    pub fn as_mut(this: &mut Self) -> (r: &mut T)
        ensures
            *r == old(this).root,
            final(this).root == *final(r),
    {
        &mut this.root
    }
}

impl<T: CtoSafe> CtoSafe for CtoRootBox<T> {
    open spec fn reattached_to(&self, pool: CtoPoolArc) -> bool {
        self.root.reattached_to(pool)
    }

    fn cto_pool_opened(&mut self, cto_pool_arc: &CtoPoolArc) {
        self.root.cto_pool_opened(cto_pool_arc)
    }
}

} // verus!
