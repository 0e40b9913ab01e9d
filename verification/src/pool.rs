//! Opening, creating, checking and closing named pools.
//!
//! The persistent medium is modelled as a directory of named pool
//! images: everything durable a pool holds survives a close, and a
//! reopen hands back the same durable state under a fresh epoch token.
//! Transient state — the epoch binding, lock control words — is exactly
//! what reattachment must rebuild after every open.

use vstd::prelude::*;
use crate::block::CtoPool;
use crate::errors::PmdkError;

verus! {

/// The durable image of one named pool: what survives a close.
pub struct PersistedPool {
    /// The layout name the pool was created under.
    pub layout_name: String,
    /// Whether the image passes its consistency check.
    pub consistent: bool,
    /// The pool's durable contents. The epoch field inside is dead
    /// weight while closed: every open issues a fresh one.
    pub pool: CtoPool,
}

/// The persistent medium: a directory of named pool images and the
/// source of fresh per-open epoch tokens.
pub struct PoolDirectory {
    /// The images, at most one per layout name.
    pub pools: Vec<PersistedPool>,
    /// The next epoch token to issue.
    pub next_epoch: u64,
}

/// An extension interface for a store of named pools: validate, open, or
/// create (and implicitly open) a pool by its layout name.
pub trait CtoPoolPathExt: Sized {
    /// Whether the store holds a pool under this layout name.
    spec fn spec_has_pool(&self, layout_name: Seq<char>) -> bool;

    /// Whether the named pool's image passes its consistency check.
    spec fn spec_pool_consistent(&self, layout_name: Seq<char>) -> bool;

    /// The durable pool state filed under this layout name.
    spec fn spec_stored_pool(&self, layout_name: Seq<char>) -> CtoPool;

    /// The store's own invariant; every operation keeps it.
    spec fn inv(&self) -> bool;

    /// The epoch token the next open or create will be issued.
    spec fn spec_next_epoch(&self) -> u64;

    /// Validates that an existing pool is consistent. `Ok(true)` means
    /// consistent, `Ok(false)` means the image is damaged; asking about
    /// an absent pool is the one error.
    fn validate_cto_pool_is_consistent(&self, layout_name: &str) -> (r: Result<bool, PmdkError>)
        requires
            self.inv(),
        ensures
            r matches Ok(b) ==> self.spec_has_pool(layout_name@) && b == self.spec_pool_consistent(
                layout_name@,
            ),
            r is Err ==> !self.spec_has_pool(layout_name@) && r == Err::<bool, PmdkError>(
                PmdkError::PoolDoesNotExist,
            ),
    ;

    /// Opens an existing pool: its durable state under a fresh epoch.
    fn open_cto_pool(&mut self, layout_name: &str) -> (r: Result<CtoPool, PmdkError>)
        requires
            old(self).inv(),
        ensures
            final(self).inv(),
            r is Ok <==> old(self).spec_has_pool(layout_name@),
            r is Err ==> r == Err::<CtoPool, PmdkError>(PmdkError::PoolDoesNotExist)
                && *final(self) == *old(self),
            r matches Ok(p) ==> p.wf() && pool_durable_eq(
                p,
                old(self).spec_stored_pool(layout_name@),
            ) && final(self).spec_has_pool(layout_name@) && final(self).spec_stored_pool(
                layout_name@,
            ) == old(self).spec_stored_pool(layout_name@),
            r matches Ok(p) ==> p.epoch == old(self).spec_next_epoch() && final(self).spec_next_epoch() == (if old(self).spec_next_epoch() < u64::MAX {
                old(self).spec_next_epoch() + 1
            } else {
                old(self).spec_next_epoch() as int
            }),
    ;

    /// Creates, and implicitly opens, a new pool under a name the store
    /// does not hold yet.
    fn create_cto_pool(&mut self, layout_name: &str, pool_size_in_blocks: usize, block_capacity: usize) -> (r: Result<
        CtoPool,
        PmdkError,
    >)
        requires
            old(self).inv(),
        ensures
            final(self).inv(),
            old(self).spec_has_pool(layout_name@) ==> r == Err::<CtoPool, PmdkError>(
                PmdkError::PoolAlreadyExists,
            ) && *final(self) == *old(self),
            !old(self).spec_has_pool(layout_name@) && block_capacity == 0 ==> r == Err::<
                CtoPool,
                PmdkError,
            >(PmdkError::PoolSizeTooSmall),
            !old(self).spec_has_pool(layout_name@) && block_capacity >= 1 ==> r is Ok,
            r is Err ==> *final(self) == *old(self),
            r matches Ok(pool) ==> {
                &&& !old(self).spec_has_pool(layout_name@)
                &&& final(self).spec_has_pool(layout_name@)
                &&& pool.wf()
                &&& pool.block_count() == 0
                &&& pool.budget == pool_size_in_blocks
                &&& pool.block_capacity == block_capacity
                &&& pool.epoch == old(self).spec_next_epoch()
                &&& final(self).spec_next_epoch() == (if old(self).spec_next_epoch()
                    < u64::MAX {
                    old(self).spec_next_epoch() + 1
                } else {
                    old(self).spec_next_epoch() as int
                })
            },
    ;
}

/// Two pools hold the same durable state: same class, same arena bytes,
/// same metadata, same remaining budget. The epoch may differ: it is
/// transient, reissued on every open.
pub open spec fn pool_durable_eq(a: CtoPool, b: CtoPool) -> bool {
    &&& a.block_capacity == b.block_capacity
    &&& a.budget == b.budget
    &&& a.block_count() == b.block_count()
    &&& a.meta() == b.meta()
    &&& a.payload@.len() == b.payload@.len()
    &&& forall|i: int| 0 <= i < a.payload@.len() ==> (#[trigger] a.payload@[i])@ == b.payload@[i]@
}

impl PoolDirectory {
    /// The index of the image filed under `layout_name`, if any.
    pub open spec fn spec_index_of(&self, layout_name: Seq<char>) -> int {
        choose|i: int|
            0 <= i < self.pools@.len() && (#[trigger] self.pools@[i]).layout_name@ == layout_name
    }

    /// Directory well-formedness: layout names are unique and every
    /// image holds a well-formed pool.
    pub open spec fn wf(&self) -> bool {
        &&& forall|i: int, j: int|
            0 <= i < j < self.pools@.len() ==> (#[trigger] self.pools@[i]).layout_name@ != (
            #[trigger] self.pools@[j]).layout_name@
        &&& forall|i: int| 0 <= i < self.pools@.len() ==> (#[trigger] self.pools@[i]).pool.wf()
    }

    /// An empty medium holding no pools.
    pub fn new() -> (r: Self)
        ensures
            r.wf(),
            r.pools@.len() == 0,
            r.next_epoch == 1,
    {
        PoolDirectory { pools: Vec::new(), next_epoch: 1 }
    }

    /// Finds the image filed under `layout_name`.
    fn find(&self, layout_name: &str) -> (r: Option<usize>)
        ensures
            r is Some <==> self.spec_has_pool(layout_name@),
            r matches Some(i) ==> i < self.pools@.len() && self.pools@[i as int].layout_name@
                == layout_name@,
    {
        let n = self.pools.len();
        let mut i: usize = 0;
        while i < n
            invariant
                n == self.pools@.len(),
                i <= n,
                forall|k: int|
                    0 <= k < i ==> (#[trigger] self.pools@[k]).layout_name@ != layout_name@,
            decreases n - i,
        {
            if str_equals(self.pools[i].layout_name.as_str(), layout_name) {
                return Some(i);
            }
            i = i + 1;
        }
        None
    }

    /// Closes an open pool, persisting its durable state under the
    /// given layout name. The name must already be filed: a pool is
    /// closed back to where it was created or opened from.
    pub fn close_cto_pool(&mut self, layout_name: &str, pool: CtoPool)
        requires
            old(self).wf(),
            old(self).spec_has_pool(layout_name@),
            pool.wf(),
        ensures
            final(self).wf(),
            final(self).spec_has_pool(layout_name@),
            final(self).next_epoch == old(self).next_epoch,
            final(self).pools@.len() == old(self).pools@.len(),
            final(self).spec_index_of(layout_name@) == old(self).spec_index_of(layout_name@),
            final(self).pools@[final(self).spec_index_of(layout_name@)].pool == pool,
            final(self).pools@[final(self).spec_index_of(layout_name@)].consistent,
            final(self).pools@[final(self).spec_index_of(layout_name@)].layout_name == old(self).pools@[old(self).spec_index_of(layout_name@)].layout_name,
            forall|i: int|
                0 <= i < old(self).pools@.len() && i != old(self).spec_index_of(layout_name@)
                    ==> final(self).pools@[i] == old(self).pools@[i],
    {
        let found = self.find(layout_name);
        match found {
            Some(i) => {
                let ghost pre = *self;
                let slot = &mut self.pools[i];
                slot.pool = pool;
                slot.consistent = true;
                proof {
                    assert(self.pools@[i as int].layout_name@ == layout_name@);
                    assert forall|a: int, b: int|
                        0 <= a < b < self.pools@.len() implies (#[trigger] self.pools@[a])
                        .layout_name@ != (#[trigger] self.pools@[b]).layout_name@ by {
                        assert(pre.pools@[a].layout_name@ != pre.pools@[b].layout_name@);
                    }
                    let j = self.spec_index_of(layout_name@);
                    assert(0 <= j < self.pools@.len() && self.pools@[j].layout_name@
                        == layout_name@);
                    assert(j == i);
                }
            },
            None => {
                proof {
                    assert(false);
                }
            },
        }
    }
}

impl CtoPoolPathExt for PoolDirectory {
    open spec fn spec_has_pool(&self, layout_name: Seq<char>) -> bool {
        exists|i: int|
            0 <= i < self.pools@.len() && (#[trigger] self.pools@[i]).layout_name@ == layout_name
    }

    open spec fn spec_pool_consistent(&self, layout_name: Seq<char>) -> bool {
        self.pools@[self.spec_index_of(layout_name)].consistent
    }

    open spec fn spec_stored_pool(&self, layout_name: Seq<char>) -> CtoPool {
        self.pools@[self.spec_index_of(layout_name)].pool
    }

    open spec fn inv(&self) -> bool {
        self.wf()
    }

    open spec fn spec_next_epoch(&self) -> u64 {
        self.next_epoch
    }

    fn validate_cto_pool_is_consistent(&self, layout_name: &str) -> (r: Result<bool, PmdkError>) {
        let found = self.find(layout_name);
        match found {
            Some(i) => {
                proof {
                    let j = self.spec_index_of(layout_name@);
                    assert(0 <= j < self.pools@.len() && self.pools@[j].layout_name@
                        == layout_name@);
                    assert(j == i);
                }
                Ok(self.pools[i].consistent)
            },
            None => Err(PmdkError::PoolDoesNotExist),
        }
    }

    fn open_cto_pool(&mut self, layout_name: &str) -> (r: Result<CtoPool, PmdkError>) {
        let found = self.find(layout_name);
        match found {
            Some(i) => {
                let epoch = self.next_epoch;
                if self.next_epoch < u64::MAX {
                    self.next_epoch = self.next_epoch + 1;
                }
                let stored = &self.pools[i].pool;
                let opened = CtoPool {
                    block_capacity: stored.block_capacity,
                    payload: clone_payload(&stored.payload),
                    block_meta_data_items: crate::block::BlockMetaDataItems {
                        items: clone_meta(&stored.block_meta_data_items.items),
                    },
                    budget: stored.budget,
                    epoch,
                };
                proof {
                    let j = self.spec_index_of(layout_name@);
                    assert(0 <= j < self.pools@.len() && self.pools@[j].layout_name@
                        == layout_name@);
                    assert(j == i);
                    assert(self.pools@[i as int].pool.wf());
                    assert forall|b: int|
                        0 <= b < opened.block_count() implies (#[trigger] opened.block_bytes(
                        b,
                    )).len() == opened.block_capacity by {
                        assert(opened.payload@[b]@ == stored.payload@[b]@);
                        assert(stored.block_bytes(b).len() == stored.block_capacity);
                    }
                    assert forall|b: int|
                        0 <= b < opened.block_count() implies 0 <= #[trigger] opened
                        .used_length_of(b) <= opened.block_capacity by {
                        assert(stored.used_length_of(b) <= stored.block_capacity);
                    }
                    assert(opened.wf());
                }
                Ok(opened)
            },
            None => Err(PmdkError::PoolDoesNotExist),
        }
    }

    fn create_cto_pool(&mut self, layout_name: &str, pool_size_in_blocks: usize, block_capacity: usize) -> (r: Result<
        CtoPool,
        PmdkError,
    >) {
        let found = self.find(layout_name);
        if found.is_some() {
            return Err(PmdkError::PoolAlreadyExists);
        }
        if block_capacity == 0 {
            return Err(PmdkError::PoolSizeTooSmall);
        }
        let epoch = self.next_epoch;
        if self.next_epoch < u64::MAX {
            self.next_epoch = self.next_epoch + 1;
        }
        let pool = CtoPool::new(block_capacity, pool_size_in_blocks, epoch);
        let ghost pre = *self;
        self.pools.push(
            PersistedPool {
                layout_name: layout_name.to_owned(),
                consistent: true,
                pool: CtoPool::new(block_capacity, pool_size_in_blocks, epoch),
            },
        );
        proof {
            let n = self.pools@.len() - 1;
            assert(self.pools@[n].layout_name@ == layout_name@);
        }
        Ok(pool)
    }
}

/// Whether two string slices hold the same characters.
fn str_equals(a: &str, b: &str) -> (r: bool)
    ensures
        r == (a@ == b@),
{
    let a_owned = a.to_owned();
    let b_owned = b.to_owned();
    a_owned == b_owned
}

/// Duplicates the payload arena byte for byte.
fn clone_payload(payload: &Vec<Vec<u8>>) -> (r: Vec<Vec<u8>>)
    ensures
        r@.len() == payload@.len(),
        forall|i: int| 0 <= i < payload@.len() ==> (#[trigger] r@[i])@ == payload@[i]@,
{
    let n = payload.len();
    let mut r: Vec<Vec<u8>> = Vec::new();
    let mut i: usize = 0;
    while i < n
        invariant
            n == payload@.len(),
            i <= n,
            r@.len() == i,
            forall|k: int| 0 <= k < i ==> (#[trigger] r@[k])@ == payload@[k]@,
        decreases n - i,
    {
        let source = &payload[i];
        let m = source.len();
        let mut row: Vec<u8> = Vec::new();
        let mut j: usize = 0;
        while j < m
            invariant
                m == source@.len(),
                j <= m,
                row@ == source@.take(j as int),
            decreases m - j,
        {
            row.push(source[j]);
            proof {
                assert(row@ =~= source@.take(j + 1));
            }
            j = j + 1;
        }
        proof {
            assert(source@.take(m as int) =~= source@);
        }
        r.push(row);
        i = i + 1;
    }
    r
}

/// Duplicates the metadata table entry for entry.
fn clone_meta(items: &Vec<crate::block::BlockMetaData>) -> (r: Vec<crate::block::BlockMetaData>)
    ensures
        r@ == items@,
{
    let n = items.len();
    let mut r: Vec<crate::block::BlockMetaData> = Vec::new();
    let mut i: usize = 0;
    while i < n
        invariant
            n == items@.len(),
            i <= n,
            r@ == items@.take(i as int),
        decreases n - i,
    {
        let entry = crate::block::BlockMetaData {
            next: items[i].next,
            used_length: items[i].used_length,
            descriptor: items[i].descriptor,
        };
        r.push(entry);
        proof {
            assert(r@ =~= items@.take(i + 1));
        }
        i = i + 1;
    }
    proof {
        assert(items@.take(n as int) =~= items@);
    }
    r
}

} // verus!
