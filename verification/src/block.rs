//! Blocks, their persisted metadata, and chains of blocks.
//!
//! A pool is an arena of fixed-capacity blocks addressed by index. Beside
//! every block the pool persists its metadata: the next-link that threads
//! blocks into chains, the number of payload bytes used, and the packed
//! descriptor under which a free chain is filed in a bag. A chain is a
//! non-empty, forward-only sequence of distinct blocks holding one logical
//! variable-length allocation; only its final block may be partially used.

use vstd::prelude::*;
use crate::descriptor::{AtomicChainLengthAndBagStripeIndex, ChainLengthAndBagStripeIndex};
use crate::errors::PmdkError;

verus! {

/// Metadata persisted beside one block.
pub struct BlockMetaData {
    /// Index of the next block of the chain this block belongs to.
    pub next: Option<usize>,
    /// How many payload bytes of the block are used, `0 ..= capacity`.
    pub used_length: usize,
    /// Packed length-and-stripe word; meaningful on the head block of a
    /// free chain filed in a bag, and "unfiled" everywhere else.
    pub descriptor: AtomicChainLengthAndBagStripeIndex,
}

/// The table of every block's metadata, indexed by block number.
pub struct BlockMetaDataItems {
    pub items: Vec<BlockMetaData>,
}

/// An ordered walk over linked blocks: one logical variable-length
/// allocation. The index list mirrors the persisted next-links; it is the
/// arena-relative form of the chain that stays valid across remaps.
pub struct Chain {
    pub blocks: Vec<usize>,
}

/// An open pool: the arena of blocks, their metadata table, the remaining
/// allocation budget in blocks, and the per-open epoch token.
pub struct CtoPool {
    /// Payload capacity of every block of this pool, at least one byte.
    pub block_capacity: usize,
    /// Payload bytes, one fixed-capacity row per block.
    pub payload: Vec<Vec<u8>>,
    /// Metadata table, parallel to `payload`.
    pub block_meta_data_items: BlockMetaDataItems,
    /// How many more blocks the pool has room for.
    pub budget: usize,
    /// Unique token of this open of the pool; a reopen bumps it.
    pub epoch: u64,
}

impl Chain {
    /// The block indices of the chain, in walk order.
    pub open spec fn view_blocks(self) -> Seq<usize> {
        self.blocks@
    }

    /// The set of blocks the chain owns.
    pub open spec fn block_set(self) -> Set<usize> {
        self.blocks@.to_set()
    }

    /// How many blocks the chain has.
    pub fn length(&self) -> (r: usize)
        ensures
            r == self.view_blocks().len(),
    {
        self.blocks.len()
    }

    /// The head block of the chain.
    pub fn head(&self) -> (r: usize)
        requires
            self.view_blocks().len() >= 1,
        ensures
            r == self.view_blocks()[0],
    {
        self.blocks[0]
    }
}

impl CtoPool {
    /// How many blocks the arena holds.
    pub open spec fn block_count(self) -> int {
        self.block_meta_data_items.items@.len() as int
    }

    /// The metadata table as a sequence.
    pub open spec fn meta(self) -> Seq<BlockMetaData> {
        self.block_meta_data_items.items@
    }

    /// All `block_capacity` payload bytes of block `b`.
    pub open spec fn block_bytes(self, b: int) -> Seq<u8> {
        self.payload@[b]@
    }

    /// The used length of block `b`, as a mathematical integer.
    pub open spec fn used_length_of(self, b: int) -> int {
        self.meta()[b].used_length as int
    }

    /// The persisted next-link of block `b`.
    pub open spec fn next_of(self, b: int) -> Option<usize> {
        self.meta()[b].next
    }

    /// The persisted packed descriptor of block `b`.
    pub open spec fn descriptor_of(self, b: int) -> crate::descriptor::ChainLengthAndBagStripeIndex {
        self.meta()[b].descriptor.spec_get()
    }

    /// The used prefix of block `b`'s payload.
    pub open spec fn used_bytes(self, b: int) -> Seq<u8> {
        self.block_bytes(b).take(self.used_length_of(b))
    }

    /// Arena well-formedness: every block has a full-capacity payload row
    /// and a used length within it.
    pub open spec fn wf(self) -> bool {
        &&& self.block_capacity >= 1
        &&& self.block_count() <= usize::MAX
        &&& self.payload@.len() == self.block_count()
        &&& forall|b: int|
            0 <= b < self.block_count() ==> (#[trigger] self.block_bytes(b)).len()
                == self.block_capacity
        &&& forall|b: int|
            0 <= b < self.block_count() ==> 0 <= #[trigger] self.used_length_of(b)
                <= self.block_capacity
    }

    /// Well-formedness survives an update that touches at most the one
    /// block `changed`, keeps every other row and metadata entry, and
    /// leaves `changed` itself within bounds.
    pub proof fn lemma_wf_after_update(a: Self, b: Self, changed: int)
        requires
            a.wf(),
            b.block_capacity == a.block_capacity,
            b.payload@.len() == a.payload@.len(),
            b.meta().len() == a.meta().len(),
            forall|i: int|
                0 <= i < b.block_count() && i != changed ==> b.meta()[i] == a.meta()[i],
            forall|i: int|
                0 <= i < b.block_count() && i != changed ==> b.payload@[i] == a.payload@[i],
            0 <= changed < b.block_count() ==> b.used_length_of(changed) <= b.block_capacity
                && b.block_bytes(changed).len() == b.block_capacity,
        ensures
            b.wf(),
    {
        assert forall|i: int|
            0 <= i < b.block_count() implies (#[trigger] b.block_bytes(i)).len()
            == b.block_capacity by {
            if i != changed {
                assert(a.block_bytes(i).len() == a.block_capacity);
                assert(b.payload@[i] == a.payload@[i]);
            }
        }
        assert forall|i: int|
            0 <= i < b.block_count() implies 0 <= #[trigger] b.used_length_of(i)
            <= b.block_capacity by {
            if i != changed {
                assert(a.used_length_of(i) <= a.block_capacity);
                assert(b.meta()[i] == a.meta()[i]);
            }
        }
    }

    /// A fresh pool with no blocks allocated yet and room for
    /// `budget_in_blocks` blocks.
    pub fn new(block_capacity: usize, budget_in_blocks: usize, epoch: u64) -> (r: Self)
        requires
            block_capacity >= 1,
        ensures
            r.wf(),
            r.block_count() == 0,
            r.budget == budget_in_blocks,
            r.block_capacity == block_capacity,
            r.epoch == epoch,
    {
        CtoPool {
            block_capacity,
            payload: Vec::new(),
            block_meta_data_items: BlockMetaDataItems { items: Vec::new() },
            budget: budget_in_blocks,
            epoch,
        }
    }

    /// Spawns one fresh zeroed block from the pool's remaining space.
    /// Fails with `OutOfSpace`, and changes nothing, exactly when the
    /// budget is exhausted.
    pub fn allocate_block(&mut self) -> (r: Result<usize, PmdkError>)
        requires
            old(self).wf(),
        ensures
            final(self).wf(),
            final(self).block_capacity == old(self).block_capacity,
            final(self).epoch == old(self).epoch,
            old(self).budget == 0 <==> r is Err,
            r is Err ==> r == Err::<usize, PmdkError>(PmdkError::OutOfSpace) && *final(self)
                == *old(self),
            r matches Ok(b) ==> {
                &&& b == old(self).block_count()
                &&& final(self).block_count() == old(self).block_count() + 1
                &&& final(self).budget == old(self).budget - 1
                &&& final(self).payload@ == old(self).payload@.push(
                    final(self).payload@[b as int],
                )
                &&& final(self).block_bytes(b as int)
                    == Seq::<u8>::new(old(self).block_capacity as nat, |i: int| 0u8)
                &&& final(self).meta() == old(self).meta().push(final(self).meta()[b as int])
                &&& final(self).meta()[b as int].next is None
                &&& final(self).meta()[b as int].used_length == 0
                &&& !final(self).meta()[b as int].descriptor.spec_get().spec_is_filed()
            },
    {
        if self.budget == 0 {
            return Err(PmdkError::OutOfSpace);
        }
        self.budget = self.budget - 1;
        let mut row: Vec<u8> = Vec::new();
        let mut i: usize = 0;
        while i < self.block_capacity
            invariant
                i <= self.block_capacity,
                row@ == Seq::<u8>::new(i as nat, |j: int| 0u8),
            decreases self.block_capacity - i,
        {
            row.push(0u8);
            i = i + 1;
        }
        let b = self.payload.len();
        self.payload.push(row);
        self.block_meta_data_items.items.push(BlockMetaData {
            next: None,
            used_length: 0,
            descriptor: AtomicChainLengthAndBagStripeIndex::new_unfiled(),
        });
        let count_after = self.block_meta_data_items.items.len();
        proof {
            assert(self.block_count() == count_after);
            assert forall|i: int|
                0 <= i < self.block_count() implies (#[trigger] self.block_bytes(i)).len()
                == self.block_capacity by {
                if i < old(self).block_count() {
                    assert(old(self).block_bytes(i).len() == old(self).block_capacity);
                    assert(self.payload@[i] == old(self).payload@[i]);
                }
            }
            assert forall|i: int|
                0 <= i < self.block_count() implies 0 <= #[trigger] self.used_length_of(i)
                <= self.block_capacity by {
                if i < old(self).block_count() {
                    assert(old(self).used_length_of(i) <= old(self).block_capacity);
                    assert(self.meta()[i] == old(self).meta()[i]);
                }
            }
            assert(self.block_bytes(b as int) =~= Seq::<u8>::new(
                old(self).block_capacity as nat,
                |i: int| 0u8,
            ));
        }
        Ok(b)
    }

    /// Rewrites the next-link of block `b` and nothing else.
    pub fn set_next(&mut self, b: usize, next: Option<usize>)
        requires
            old(self).wf(),
            b < old(self).block_count(),
        ensures
            final(self).wf(),
            final(self).payload@ == old(self).payload@,
            final(self).block_capacity == old(self).block_capacity,
            final(self).budget == old(self).budget,
            final(self).epoch == old(self).epoch,
            final(self).block_count() == old(self).block_count(),
            final(self).meta()[b as int].next == next,
            final(self).meta()[b as int].used_length == old(self).meta()[b as int].used_length,
            final(self).meta()[b as int].descriptor == old(self).meta()[b as int].descriptor,
            forall|i: int|
                0 <= i < old(self).block_count() && i != b ==> final(self).meta()[i]
                    == old(self).meta()[i],
    {
        let used_length = self.block_meta_data_items.items[b].used_length;
        let d = self.block_meta_data_items.items[b].descriptor;
        self.block_meta_data_items.items.set(
            b,
            BlockMetaData { next, used_length, descriptor: d },
        );
        proof {
            assert(old(self).block_bytes(b as int).len() == old(self).block_capacity);
            assert(old(self).used_length_of(b as int) <= old(self).block_capacity);
            assert(self.payload@[b as int] == old(self).payload@[b as int]);
            Self::lemma_wf_after_update(*old(self), *self, b as int);
        }
    }

    /// Rewrites the used length of block `b` and nothing else.
    pub fn set_used_length(&mut self, b: usize, used_length: usize)
        requires
            old(self).wf(),
            b < old(self).block_count(),
            used_length <= old(self).block_capacity,
        ensures
            final(self).wf(),
            final(self).payload@ == old(self).payload@,
            final(self).block_capacity == old(self).block_capacity,
            final(self).budget == old(self).budget,
            final(self).epoch == old(self).epoch,
            final(self).block_count() == old(self).block_count(),
            final(self).meta()[b as int].next == old(self).meta()[b as int].next,
            final(self).meta()[b as int].used_length == used_length,
            final(self).meta()[b as int].descriptor == old(self).meta()[b as int].descriptor,
            forall|i: int|
                0 <= i < old(self).block_count() && i != b ==> final(self).meta()[i]
                    == old(self).meta()[i],
    {
        let next = self.block_meta_data_items.items[b].next;
        let d = self.block_meta_data_items.items[b].descriptor;
        self.block_meta_data_items.items.set(
            b,
            BlockMetaData { next, used_length, descriptor: d },
        );
        proof {
            assert(old(self).block_bytes(b as int).len() == old(self).block_capacity);
            assert(old(self).used_length_of(b as int) <= old(self).block_capacity);
            assert(self.payload@[b as int] == old(self).payload@[b as int]);
            Self::lemma_wf_after_update(*old(self), *self, b as int);
        }
    }

    /// Rewrites the packed descriptor of block `b` and nothing else.
    pub fn set_descriptor(&mut self, b: usize, d: ChainLengthAndBagStripeIndex)
        requires
            old(self).wf(),
            b < old(self).block_count(),
        ensures
            final(self).wf(),
            final(self).payload@ == old(self).payload@,
            final(self).block_capacity == old(self).block_capacity,
            final(self).budget == old(self).budget,
            final(self).epoch == old(self).epoch,
            final(self).block_count() == old(self).block_count(),
            final(self).meta()[b as int].next == old(self).meta()[b as int].next,
            final(self).meta()[b as int].used_length == old(self).meta()[b as int].used_length,
            final(self).meta()[b as int].descriptor.spec_get() == d,
            forall|i: int|
                0 <= i < old(self).block_count() && i != b ==> final(self).meta()[i]
                    == old(self).meta()[i],
    {
        let next = self.block_meta_data_items.items[b].next;
        let used_length = self.block_meta_data_items.items[b].used_length;
        let mut word = AtomicChainLengthAndBagStripeIndex::new_unfiled();
        word.set(d);
        self.block_meta_data_items.items.set(
            b,
            BlockMetaData { next, used_length, descriptor: word },
        );
        proof {
            assert(old(self).block_bytes(b as int).len() == old(self).block_capacity);
            assert(old(self).used_length_of(b as int) <= old(self).block_capacity);
            assert(self.payload@[b as int] == old(self).payload@[b as int]);
            Self::lemma_wf_after_update(*old(self), *self, b as int);
        }
    }

    /// Reads the packed descriptor of block `b`.
    pub fn get_descriptor(&self, b: usize) -> (r: ChainLengthAndBagStripeIndex)
        requires
            self.wf(),
            b < self.block_count(),
        ensures
            r == self.meta()[b as int].descriptor.spec_get(),
    {
        self.block_meta_data_items.items[b].descriptor.get()
    }

    /// Reads the used length of block `b`.
    pub fn get_used_length(&self, b: usize) -> (r: usize)
        requires
            self.wf(),
            b < self.block_count(),
        ensures
            r == self.meta()[b as int].used_length,
    {
        self.block_meta_data_items.items[b].used_length
    }

    /// Reads the next-link of block `b`.
    pub fn get_next(&self, b: usize) -> (r: Option<usize>)
        requires
            self.wf(),
            b < self.block_count(),
        ensures
            r == self.meta()[b as int].next,
    {
        self.block_meta_data_items.items[b].next
    }

    /// Copies `n` bytes of `src`, starting at `src_start`, into block `b`
    /// at byte offset `offset`. Touches no other block and no metadata.
    pub fn write_within_block(
        &mut self,
        b: usize,
        offset: usize,
        src: &[u8],
        src_start: usize,
        n: usize,
    )
        requires
            old(self).wf(),
            b < old(self).block_count(),
            offset + n <= old(self).block_capacity,
            src_start + n <= src@.len(),
        ensures
            final(self).wf(),
            final(self).block_capacity == old(self).block_capacity,
            final(self).budget == old(self).budget,
            final(self).epoch == old(self).epoch,
            final(self).block_count() == old(self).block_count(),
            final(self).meta() == old(self).meta(),
            forall|i: int|
                0 <= i < old(self).block_count() && i != b ==> final(self).block_bytes(i)
                    == old(self).block_bytes(i),
            final(self).block_bytes(b as int) == old(self).block_bytes(b as int).take(
                offset as int,
            ) + src@.subrange(src_start as int, src_start + n) + old(self).block_bytes(
                b as int,
            ).skip(offset + n),
    {
        let ghost old_row = self.block_bytes(b as int);
        let src_len = src.len();
        let mut i: usize = 0;
        while i < n
            invariant
                old(self).wf(),
                b < old(self).block_count(),
                src_start + n <= src_len,
                src_len == src@.len(),
                self.wf(),
                b < self.block_count(),
                i <= n,
                offset + n <= self.block_capacity,
                src_start + n <= src@.len(),
                self.block_capacity == old(self).block_capacity,
                self.budget == old(self).budget,
                self.epoch == old(self).epoch,
                self.block_count() == old(self).block_count(),
                self.meta() == old(self).meta(),
                forall|k: int|
                    0 <= k < self.block_count() && k != b ==> self.block_bytes(k) == old(
                        self,
                    ).block_bytes(k),
                self.block_bytes(b as int) == old_row.take(offset as int) + src@.subrange(
                    src_start as int,
                    src_start + i,
                ) + old_row.skip(offset + i),
                old_row == old(self).block_bytes(b as int),
            decreases n - i,
        {
            let ghost pre = *self;
            let byte = src[src_start + i];
            let row = &mut self.payload[b];
            row.set(offset + i, byte);
            proof {
                assert(pre.block_bytes(b as int).len() == pre.block_capacity);
                assert(old(self).block_bytes(b as int).len() == old(self).block_capacity);
                assert(byte == src@[src_start + i]);
                assert(pre.used_length_of(b as int) <= pre.block_capacity);
                assert(self.block_bytes(b as int) == pre.block_bytes(b as int).update(
                    offset + i,
                    byte,
                ));
                Self::lemma_wf_after_update(pre, *self, b as int);
                assert forall|k: int|
                    0 <= k < self.block_count() && k != b implies self.block_bytes(k) == old(
                    self,
                ).block_bytes(k) by {
                    assert(pre.block_bytes(k) == old(self).block_bytes(k));
                    assert(self.payload@[k] == pre.payload@[k]);
                }
                assert(self.block_bytes(b as int) =~= old_row.take(offset as int)
                    + src@.subrange(src_start as int, src_start + i + 1) + old_row.skip(
                    offset + i + 1,
                ));
            }
            i = i + 1;
        }
        assert(self.block_bytes(b as int) =~= old(self).block_bytes(b as int).take(offset as int)
            + src@.subrange(src_start as int, src_start + n) + old(self).block_bytes(
            b as int,
        ).skip(offset + n));
    }

    /// Reads one payload byte of block `b`.
    pub fn read_byte(&self, b: usize, offset: usize) -> (r: u8)
        requires
            self.wf(),
            b < self.block_count(),
            offset < self.block_capacity,
        ensures
            r == self.block_bytes(b as int)[offset as int],
    {
        proof {
            assert(self.block_bytes(b as int).len() == self.block_capacity);
        }
        self.payload[b][offset]
    }
}

} // verus!
