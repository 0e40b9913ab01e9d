//! Persisted objects over an object pool: typed allocation with a
//! one-shot constructor, and the two-phase lifecycle every persisted
//! value follows — a created path that runs the initializer once, and a
//! reopened path that only reattaches.

#![allow(non_camel_case_types)]
#![allow(non_snake_case)]

use vstd::prelude::*;
use crate::errors::{GenericError, ECANCELED, ENOSPC};

verus! {

/// What a struct must implement to be persisted in an object pool. A
/// persistable value is created exactly once, by its initializer, inside
/// an allocation; afterwards it is only ever reattached.
pub trait Persistable: Sized {
    /// What the initializer is given.
    type Arguments;

    /// The unique type number of this persistable, zero only for the
    /// root type of a pool.
    spec fn spec_type_number() -> u64;

    /// Size in bytes the value occupies in the pool.
    spec fn spec_size() -> int;

    /// What the initializer builds from its arguments.
    spec fn spec_initialize(arguments: Self::Arguments) -> Self;

    /// The unique type number of this persistable.
    fn type_number() -> (r: u64)
        ensures
            r == Self::spec_type_number(),
    ;

    /// Size in bytes the value occupies in the pool; never zero.
    fn size() -> (r: usize)
        ensures
            r == Self::spec_size(),
            r >= 1,
    ;

    /// Builds the value from its arguments, exactly once, inside an
    /// allocation.
    fn initialize(arguments: Self::Arguments) -> (r: Self)
        ensures
            r == Self::spec_initialize(arguments),
    ;
}

/// The unique object identifier of a persisted value: which pool it
/// lives in and where.
#[derive(Clone, Copy, PartialEq, Eq, Structural, Debug)]
pub struct Oid {
    /// Identifies the pool.
    pub pool_uuid_lo: u64,
    /// Offset of the value inside the pool.
    pub off: u64,
}

impl Oid {
    /// The identifier of no object at all.
    pub fn null() -> (r: Self)
        ensures
            r.pool_uuid_lo == 0 && r.off == 0,
    {
        Oid { pool_uuid_lo: 0, off: 0 }
    }

    /// Whether this identifies no object.
    pub fn is_null(&self) -> (r: bool)
        ensures
            r == (self.pool_uuid_lo == 0 && self.off == 0),
    {
        self.pool_uuid_lo == 0 && self.off == 0
    }
}

/// An open object pool: its identity, the offset where the next
/// allocation lands, and how much space is left.
pub struct PersistentObjectPool {
    /// Identifies the pool; never zero.
    pub pool_uuid_lo: u64,
    /// Where the next allocation lands; starts past the null offset.
    pub next_off: u64,
    /// How many bytes the pool can still allocate.
    pub remaining_space: u64,
    /// The epoch token of this open.
    pub epoch: u64,
}

impl PersistentObjectPool {
    /// Pool well-formedness: a real identity, offsets past null, and an
    /// address range that cannot wrap.
    pub open spec fn wf(self) -> bool {
        &&& self.pool_uuid_lo != 0
        &&& self.next_off >= 1
        &&& self.next_off + self.remaining_space <= u64::MAX
    }

    /// An open pool with the given identity and space.
    pub fn new(pool_uuid_lo: u64, remaining_space: u64, epoch: u64) -> (r: Self)
        requires
            pool_uuid_lo != 0,
            remaining_space <= u64::MAX - 1,
        ensures
            r.wf(),
            r.pool_uuid_lo == pool_uuid_lo,
            r.next_off == 1,
            r.remaining_space == remaining_space,
            r.epoch == epoch,
    {
        PersistentObjectPool { pool_uuid_lo, next_off: 1, remaining_space, epoch }
    }
}

/// A handle to one persisted value of type `T`, together with the value
/// it owns in the pool.
pub struct PersistentObject<T: Persistable> {
    /// The unique object identifier.
    pub oid: Oid,
    /// The persisted value.
    pub value: T,
}

impl<T: Persistable> PersistentObject<T> {
    /// Allocates space for one `T` in the pool and runs `T`'s
    /// initializer exactly once inside the allocation. Fails, changing
    /// nothing, exactly when the pool lacks the space; the error carries
    /// the OS error number for exhaustion.
    pub fn allocate_uninitialized_and_construct(
        pool: &mut PersistentObjectPool,
        arguments: T::Arguments,
    ) -> (r: Result<Self, GenericError>)
        requires
            old(pool).wf(),
            T::spec_size() >= 1,
        ensures
            final(pool).wf(),
            final(pool).pool_uuid_lo == old(pool).pool_uuid_lo,
            final(pool).epoch == old(pool).epoch,
            r is Ok <==> T::spec_size() <= old(pool).remaining_space,
            r is Err ==> *final(pool) == *old(pool) && (r matches Err(e) ==> e.os_error_number
                == ENOSPC),
            r matches Ok(o) ==> {
                &&& o.value == T::spec_initialize(arguments)
                &&& o.oid.pool_uuid_lo == old(pool).pool_uuid_lo
                &&& o.oid.off == old(pool).next_off
                &&& !(o.oid.pool_uuid_lo == 0 && o.oid.off == 0)
                &&& final(pool).next_off == old(pool).next_off + T::spec_size()
                &&& final(pool).remaining_space == old(pool).remaining_space - T::spec_size()
            },
    {
        let size = T::size();
        if (size as u64) > pool.remaining_space {
            return Err(GenericError::new(ENOSPC, "pmemobj_alloc"));
        }
        let oid = Oid { pool_uuid_lo: pool.pool_uuid_lo, off: pool.next_off };
        pool.next_off = pool.next_off + (size as u64);
        pool.remaining_space = pool.remaining_space - (size as u64);
        let value = T::initialize(arguments);
        Ok(PersistentObject { oid, value })
    }

    /// Allocates and constructs the root object of a pool: the one
    /// persistable whose type number is zero.
    pub fn allocate_uninitialized_and_construct_root_object(
        pool: &mut PersistentObjectPool,
        arguments: T::Arguments,
    ) -> (r: Result<Self, GenericError>)
        requires
            old(pool).wf(),
            T::spec_size() >= 1,
            T::spec_type_number() == 0,
        ensures
            final(pool).wf(),
            final(pool).pool_uuid_lo == old(pool).pool_uuid_lo,
            final(pool).epoch == old(pool).epoch,
            r is Ok <==> T::spec_size() <= old(pool).remaining_space,
            r is Err ==> *final(pool) == *old(pool) && (r matches Err(e) ==> e.os_error_number
                == ENOSPC),
            r matches Ok(o) ==> o.value == T::spec_initialize(arguments),
    {
        Self::allocate_uninitialized_and_construct(pool, arguments)
    }

    /// Whether this handle identifies no object.
    pub fn is_null(&self) -> (r: bool)
        ensures
            r == (self.oid.pool_uuid_lo == 0 && self.oid.off == 0),
    {
        self.oid.is_null()
    }

    /// Whether two handles identify the same object.
    pub fn equals(&self, other: &Self) -> (r: bool)
        ensures
            r == (self.oid == other.oid),
    {
        self.oid.pool_uuid_lo == other.oid.pool_uuid_lo && self.oid.off == other.oid.off
    }

    /// Reads the persisted value.
    pub fn get(&self) -> (r: &T)
        ensures
            r == &self.value,
    {
        &self.value
    }

    /// Writes through to the persisted value.
    pub fn get_mut(&mut self) -> (r: &mut T)
        ensures
            *r == old(self).value,
            final(self).value == *final(r),
            final(self).oid == old(self).oid,
    {
        &mut self.value
    }

    /// Frees the object, handing its bytes back to the pool.
    pub fn free(self, pool: &mut PersistentObjectPool)
        requires
            old(pool).wf(),
            T::spec_size() >= 1,
            old(pool).remaining_space + T::spec_size() <= u64::MAX - old(pool).next_off,
        ensures
            final(pool).wf(),
            final(pool).remaining_space == old(pool).remaining_space + T::spec_size(),
            final(pool).next_off == old(pool).next_off,
            final(pool).pool_uuid_lo == old(pool).pool_uuid_lo,
            final(pool).epoch == old(pool).epoch,
    {
        let size = T::size();
        pool.remaining_space = pool.remaining_space + (size as u64);
    }
}

/// An example persistable: one byte of payload, initialized from the
/// argument itself.
pub struct foo {
    /// The persisted byte.
    pub address: u8,
}

impl Persistable for foo {
    type Arguments = u8;

    open spec fn spec_type_number() -> u64 {
        2
    }

    open spec fn spec_size() -> int {
        1
    }

    open spec fn spec_initialize(arguments: u8) -> Self {
        foo { address: arguments }
    }

    fn type_number() -> u64 {
        2
    }

    fn size() -> usize {
        1
    }

    fn initialize(arguments: u8) -> Self {
        foo { address: arguments }
    }
}

/// The durable image of one named object pool.
pub struct PersistedObjectPool {
    /// The layout name the pool was created under, if it has one.
    pub layout_name: Option<String>,
    /// Whether the image passes its consistency check.
    pub consistent: bool,
    /// Identifies the pool; never zero.
    pub pool_uuid_lo: u64,
    /// Where the next allocation lands.
    pub next_off: u64,
    /// How many bytes the pool can still allocate.
    pub remaining_space: u64,
}

/// The persistent medium for object pools: named images and fresh epoch
/// and identity tokens.
pub struct ObjectPoolDirectory {
    /// The images, at most one per layout name.
    pub pools: Vec<PersistedObjectPool>,
    /// The next epoch token to issue.
    pub next_epoch: u64,
    /// The next pool identity to issue; never zero.
    pub next_uuid: u64,
}

/// An extension interface for a store of named object pools. A layout
/// name of nothing addresses the store's unnamed pool.
pub trait PersistentMemoryObjectPoolPathExt: Sized {
    /// Whether the store holds an object pool under this layout name.
    spec fn spec_has_object_pool(&self, layoutName: Option<Seq<char>>) -> bool;

    /// Whether the named image passes its consistency check.
    spec fn spec_object_pool_consistent(&self, layoutName: Option<Seq<char>>) -> bool;

    /// The durable image filed under this layout name.
    spec fn spec_stored_object_pool(&self, layoutName: Option<Seq<char>>) -> PersistedObjectPool;

    /// The epoch token the next open or create will be issued.
    spec fn spec_next_epoch(&self) -> u64;

    /// The store's own invariant; every operation keeps it.
    spec fn inv(&self) -> bool;

    /// Validates that an existing object pool is consistent; asking
    /// about an absent pool is the one error.
    fn validatePersistentMemoryObjectPoolIsConsistent(&self, layoutName: Option<&str>) -> (r:
        Result<bool, GenericError>)
        requires
            self.inv(),
        ensures
            r matches Ok(b) ==> self.spec_has_object_pool(spec_layout_key(layoutName)) && b
                == self.spec_object_pool_consistent(spec_layout_key(layoutName)),
            r is Err ==> !self.spec_has_object_pool(spec_layout_key(layoutName)),
    ;

    /// Opens an existing object pool under a fresh epoch.
    fn openPersistentMemoryObjectPool(&mut self, layoutName: Option<&str>) -> (r: Result<
        PersistentObjectPool,
        GenericError,
    >)
        requires
            old(self).inv(),
        ensures
            final(self).inv(),
            r is Ok <==> old(self).spec_has_object_pool(spec_layout_key(layoutName)),
            r is Err ==> *final(self) == *old(self),
            r matches Ok(p) ==> {
                let stored = old(self).spec_stored_object_pool(spec_layout_key(layoutName));
                &&& p.wf()
                &&& p.pool_uuid_lo == stored.pool_uuid_lo
                &&& p.next_off == stored.next_off
                &&& p.remaining_space == stored.remaining_space
                &&& p.epoch == old(self).spec_next_epoch()
                &&& final(self).spec_next_epoch() == (if old(self).spec_next_epoch()
                    < u64::MAX {
                    old(self).spec_next_epoch() + 1
                } else {
                    old(self).spec_next_epoch() as int
                })
                &&& final(self).spec_has_object_pool(spec_layout_key(layoutName))
                &&& final(self).spec_stored_object_pool(spec_layout_key(layoutName)) == stored
            },
    ;

    /// Creates, and implicitly opens, a new object pool under a name the
    /// store does not hold yet.
    fn createPersistentMemoryObjectPool(&mut self, layoutName: Option<&str>, poolSize: u64) -> (r:
        Result<PersistentObjectPool, GenericError>)
        requires
            old(self).inv(),
            poolSize <= u64::MAX - 1,
        ensures
            final(self).inv(),
            old(self).spec_has_object_pool(spec_layout_key(layoutName)) ==> r is Err && *final(self) == *old(self),
            !old(self).spec_has_object_pool(spec_layout_key(layoutName)) ==> r is Ok,
            r matches Ok(p) ==> {
                &&& !old(self).spec_has_object_pool(spec_layout_key(layoutName))
                &&& final(self).spec_has_object_pool(spec_layout_key(layoutName))
                &&& p.wf()
                &&& p.remaining_space == poolSize
                &&& p.next_off == 1
                &&& p.epoch == old(self).spec_next_epoch()
                &&& final(self).spec_next_epoch() == (if old(self).spec_next_epoch()
                    < u64::MAX {
                    old(self).spec_next_epoch() + 1
                } else {
                    old(self).spec_next_epoch() as int
                })
            },
    ;
}

/// The spec-level key a layout-name argument addresses.
pub open spec fn spec_layout_key(layoutName: Option<&str>) -> Option<Seq<char>> {
    match layoutName {
        Some(name) => Some(name@),
        None => None,
    }
}

/// Whether an image's stored name matches the key.
pub open spec fn spec_name_matches(stored: Option<String>, key: Option<Seq<char>>) -> bool {
    match (stored, key) {
        (Some(a), Some(b)) => a@ == b,
        (None, None) => true,
        _ => false,
    }
}

impl ObjectPoolDirectory {
    /// The index of the image filed under the key, if any.
    pub open spec fn spec_index_of(&self, key: Option<Seq<char>>) -> int {
        choose|i: int|
            0 <= i < self.pools@.len() && spec_name_matches(
                (#[trigger] self.pools@[i]).layout_name,
                key,
            )
    }

    /// An empty medium holding no object pools.
    pub fn new() -> (r: Self)
        ensures
            r.inv(),
            r.pools@.len() == 0,
    {
        ObjectPoolDirectory { pools: Vec::new(), next_epoch: 1, next_uuid: 1 }
    }

    /// Finds the image filed under the key.
    fn find(&self, layoutName: Option<&str>) -> (r: Option<usize>)
        ensures
            r is Some <==> self.spec_has_object_pool(spec_layout_key(layoutName)),
            r matches Some(i) ==> i < self.pools@.len() && spec_name_matches(
                self.pools@[i as int].layout_name,
                spec_layout_key(layoutName),
            ),
    {
        let n = self.pools.len();
        let mut i: usize = 0;
        while i < n
            invariant
                n == self.pools@.len(),
                i <= n,
                forall|k: int|
                    0 <= k < i ==> !spec_name_matches(
                        (#[trigger] self.pools@[k]).layout_name,
                        spec_layout_key(layoutName),
                    ),
            decreases n - i,
        {
            let matches_here = match (&self.pools[i].layout_name, layoutName) {
                (Some(stored), Some(wanted)) => layout_str_equals(stored.as_str(), wanted),
                (None, None) => true,
                _ => false,
            };
            if matches_here {
                return Some(i);
            }
            i = i + 1;
        }
        None
    }
}

/// Whether two layout-name slices hold the same characters.
fn layout_str_equals(a: &str, b: &str) -> (r: bool)
    ensures
        r == (a@ == b@),
{
    let a_owned = a.to_owned();
    let b_owned = b.to_owned();
    a_owned == b_owned
}

impl PersistentMemoryObjectPoolPathExt for ObjectPoolDirectory {
    open spec fn spec_has_object_pool(&self, layoutName: Option<Seq<char>>) -> bool {
        exists|i: int|
            0 <= i < self.pools@.len() && spec_name_matches(
                (#[trigger] self.pools@[i]).layout_name,
                layoutName,
            )
    }

    open spec fn spec_object_pool_consistent(&self, layoutName: Option<Seq<char>>) -> bool {
        self.pools@[self.spec_index_of(layoutName)].consistent
    }

    open spec fn spec_stored_object_pool(&self, layoutName: Option<Seq<char>>) -> PersistedObjectPool {
        self.pools@[self.spec_index_of(layoutName)]
    }

    open spec fn spec_next_epoch(&self) -> u64 {
        self.next_epoch
    }

    open spec fn inv(&self) -> bool {
        &&& forall|i: int, j: int|
            0 <= i < j < self.pools@.len() ==> !(exists|key: Option<Seq<char>>|
                spec_name_matches((#[trigger] self.pools@[i]).layout_name, key)
                    && spec_name_matches((#[trigger] self.pools@[j]).layout_name, key))
        &&& forall|i: int|
            0 <= i < self.pools@.len() ==> (#[trigger] self.pools@[i]).pool_uuid_lo != 0 && (
            #[trigger] self.pools@[i]).next_off >= 1 && self.pools@[i].next_off
                + self.pools@[i].remaining_space <= u64::MAX
        &&& self.next_uuid != 0
    }

    fn validatePersistentMemoryObjectPoolIsConsistent(&self, layoutName: Option<&str>) -> (r:
        Result<bool, GenericError>) {
        let found = self.find(layoutName);
        match found {
            Some(i) => {
                proof {
                    let key = spec_layout_key(layoutName);
                    let j = self.spec_index_of(key);
                    assert(0 <= j < self.pools@.len() && spec_name_matches(
                        self.pools@[j].layout_name,
                        key,
                    ));
                    assert(j == i);
                }
                Ok(self.pools[i].consistent)
            },
            None => Err(GenericError::new(ECANCELED, "pmemobj_check")),
        }
    }

    fn openPersistentMemoryObjectPool(&mut self, layoutName: Option<&str>) -> (r: Result<
        PersistentObjectPool,
        GenericError,
    >) {
        let found = self.find(layoutName);
        match found {
            Some(i) => {
                let epoch = self.next_epoch;
                if self.next_epoch < u64::MAX {
                    self.next_epoch = self.next_epoch + 1;
                }
                let image = &self.pools[i];
                Ok(
                    PersistentObjectPool {
                        pool_uuid_lo: image.pool_uuid_lo,
                        next_off: image.next_off,
                        remaining_space: image.remaining_space,
                        epoch,
                    },
                )
            },
            None => Err(GenericError::new(ECANCELED, "pmemobj_open")),
        }
    }

    fn createPersistentMemoryObjectPool(&mut self, layoutName: Option<&str>, poolSize: u64) -> (r:
        Result<PersistentObjectPool, GenericError>) {
        let found = self.find(layoutName);
        if found.is_some() {
            return Err(GenericError::new(ECANCELED, "pmemobj_create"));
        }
        let uuid = self.next_uuid;
        if self.next_uuid < u64::MAX {
            self.next_uuid = self.next_uuid + 1;
        }
        let epoch = self.next_epoch;
        if self.next_epoch < u64::MAX {
            self.next_epoch = self.next_epoch + 1;
        }
        let stored_name: Option<String> = match layoutName {
            Some(name) => Some(name.to_owned()),
            None => None,
        };
        let ghost pre = *self;
        self.pools.push(
            PersistedObjectPool {
                layout_name: stored_name,
                consistent: true,
                pool_uuid_lo: uuid,
                next_off: 1,
                remaining_space: poolSize,
            },
        );
        proof {
            let key = spec_layout_key(layoutName);
            let n = self.pools@.len() - 1;
            assert(spec_name_matches(self.pools@[n].layout_name, key));
            assert forall|i: int, j: int|
                0 <= i < j < self.pools@.len() implies !(exists|key2: Option<Seq<char>>|
                spec_name_matches((#[trigger] self.pools@[i]).layout_name, key2)
                    && spec_name_matches((#[trigger] self.pools@[j]).layout_name, key2)) by {
                if j < n {
                    assert(pre.pools@[i] == self.pools@[i]);
                    assert(pre.pools@[j] == self.pools@[j]);
                } else {
                    assert(j == n);
                    if exists|key2: Option<Seq<char>>|
                        spec_name_matches(self.pools@[i].layout_name, key2) && spec_name_matches(
                            self.pools@[n].layout_name,
                            key2,
                        ) {
                        let key2 = choose|key2: Option<Seq<char>>|
                            spec_name_matches(self.pools@[i].layout_name, key2)
                                && spec_name_matches(self.pools@[n].layout_name, key2);
                        assert(spec_name_matches(self.pools@[i].layout_name, key));
                        assert(pre.spec_has_object_pool(key));
                    }
                }
            }
        }
        Ok(PersistentObjectPool { pool_uuid_lo: uuid, next_off: 1, remaining_space: poolSize, epoch })
    }
}

} // verus!
