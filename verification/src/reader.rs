//! The restart-safe chain reader: a resumable cursor that copies bytes out
//! of a chain, crossing block boundaries transparently.
//!
//! The cursor is transient state only — a position in the chain's block
//! table and a byte offset within the current block. It owns no blocks and
//! never mutates payload or metadata. Its defining property: copying in
//! several successive calls appends exactly the same bytes as one call for
//! the whole length, so a reader can resume mid-traversal without
//! re-walking from the start.

use vstd::prelude::*;
use crate::block::{Chain, CtoPool};
use crate::chain::{
    chain_content, chain_filled, chain_raw, chain_raw_from, chain_wf, lemma_chain_raw_len,
    lemma_content_is_raw_prefix, lemma_content_len_bound,
};

verus! {

/// A resumable read cursor over one chain. Stored in volatile memory and
/// discarded when the read sequence completes or is abandoned.
pub struct RestartCopyFromAt<'a> {
    /// The chain being read.
    pub chain: &'a Chain,
    /// The pool whose arena and block-metadata table back the chain.
    pub pool: &'a CtoPool,
    /// Index into the chain's block table of the block being read.
    pub position: usize,
    /// Byte offset within that block; always strictly below the block
    /// capacity, so the cursor is never left parked on a boundary.
    pub offset: usize,
}

impl<'a> RestartCopyFromAt<'a> {
    /// Cursor well-formedness: the chain is well formed over the pool and
    /// the cursor sits strictly inside a block, or exactly at the start of
    /// the one-past-the-end position once the chain is exhausted.
    pub open spec fn wf(self) -> bool {
        &&& self.pool.wf()
        &&& chain_wf(*self.pool, *self.chain)
        &&& self.position <= self.chain.view_blocks().len()
        &&& self.position < self.chain.view_blocks().len() ==> self.offset
            < self.pool.block_capacity
        &&& self.position == self.chain.view_blocks().len() ==> self.offset == 0
    }

    /// The raw bytes still ahead of the cursor.
    pub open spec fn remaining(self) -> Seq<u8> {
        let bs = self.chain.view_blocks();
        if self.position >= bs.len() {
            Seq::empty()
        } else {
            self.pool.block_bytes(bs[self.position as int] as int).skip(self.offset as int)
                + chain_raw_from(*self.pool, bs, self.position + 1)
        }
    }

    /// How many raw bytes are still ahead of the cursor.
    pub proof fn lemma_remaining_len(self)
        requires
            self.wf(),
        ensures
            self.remaining().len() == (self.chain.view_blocks().len() - self.position)
                * self.pool.block_capacity - self.offset,
    {
        let bs = self.chain.view_blocks();
        if self.position < bs.len() {
            lemma_chain_raw_len(*self.pool, bs, self.position + 1);
            assert(self.pool.block_bytes(bs[self.position as int] as int).len()
                == self.pool.block_capacity);
            assert((bs.len() - self.position) * self.pool.block_capacity
                == self.pool.block_capacity + (bs.len() - self.position - 1)
                * self.pool.block_capacity) by (nonlinear_arith);
        } else {
            assert((bs.len() - self.position) * self.pool.block_capacity == 0)
                by (nonlinear_arith)
                requires
                    self.position == bs.len(),
            ;
        }
    }

    /// A cursor at the head of a chain: everything the chain's capacity
    /// covers is still ahead of it.
    pub fn new(pool: &'a CtoPool, chain: &'a Chain) -> (r: Self)
        requires
            pool.wf(),
            chain_wf(*pool, *chain),
        ensures
            r.wf(),
            r.pool == pool,
            r.chain == chain,
            r.remaining() == chain_raw(*pool, *chain),
    {
        let r = RestartCopyFromAt { chain, pool, position: 0, offset: 0 };
        proof {
            assert(r.remaining() =~= chain_raw(*pool, *chain));
        }
        r
    }

    /// Copies exactly `copy_into_length` bytes at the cursor onto the end
    /// of `copy_into`, advancing the cursor past them and crossing block
    /// boundaries transparently. The caller must not ask for more bytes
    /// than are ahead of the cursor.
    pub fn copy_bytes_from_chains(&mut self, copy_into: &mut Vec<u8>, copy_into_length: usize)
        requires
            old(self).wf(),
            copy_into_length <= old(self).remaining().len(),
        ensures
            final(self).wf(),
            final(self).pool == old(self).pool,
            final(self).chain == old(self).chain,
            final(copy_into)@ == old(copy_into)@ + old(self).remaining().take(copy_into_length as int),
            final(self).remaining() == old(self).remaining().skip(copy_into_length as int),
            copy_into_length == 0 ==> *final(self) == *old(self) && final(copy_into)@ == old(
                copy_into,
            )@,
    {
        if copy_into_length == 0 {
            proof {
                assert(copy_into@ =~= copy_into@ + old(self).remaining().take(0));
                assert(self.remaining() =~= old(self).remaining().skip(0));
            }
            return ;
        }
        proof {
            if self.position >= self.chain.view_blocks().len() {
                assert(old(self).remaining().len() == 0);
            }
        }
        if self.offset == 0 {
            self.copy_bytes_from_chains_offset_is_zero(copy_into, copy_into_length)
        } else {
            let offset = self.offset;
            self.copy_bytes_from_chains_offset(copy_into, copy_into_length, offset)
        }
    }

    /// Continues a read from a mid-block offset.
    fn copy_bytes_from_chains_offset(
        &mut self,
        copy_into: &mut Vec<u8>,
        copy_into_capacity: usize,
        offset: usize,
    )
        requires
            old(self).wf(),
            old(self).position < old(self).chain.view_blocks().len(),
            offset == old(self).offset,
            1 <= copy_into_capacity <= old(self).remaining().len(),
        ensures
            final(self).wf(),
            final(self).pool == old(self).pool,
            final(self).chain == old(self).chain,
            final(copy_into)@ == old(copy_into)@ + old(self).remaining().take(
                copy_into_capacity as int,
            ),
            final(self).remaining() == old(self).remaining().skip(copy_into_capacity as int),
    {
        let remaining_capacity = self.pool.block_capacity - offset;
        self.copy_bytes_from_chains_inner(copy_into, copy_into_capacity, remaining_capacity)
    }

    /// Starts a read at the beginning of the current block.
    fn copy_bytes_from_chains_offset_is_zero(
        &mut self,
        copy_into: &mut Vec<u8>,
        copy_into_capacity: usize,
    )
        requires
            old(self).wf(),
            old(self).position < old(self).chain.view_blocks().len(),
            old(self).offset == 0,
            1 <= copy_into_capacity <= old(self).remaining().len(),
        ensures
            final(self).wf(),
            final(self).pool == old(self).pool,
            final(self).chain == old(self).chain,
            final(copy_into)@ == old(copy_into)@ + old(self).remaining().take(
                copy_into_capacity as int,
            ),
            final(self).remaining() == old(self).remaining().skip(copy_into_capacity as int),
    {
        let remaining_capacity = self.pool.block_capacity;
        self.copy_bytes_from_chains_inner(copy_into, copy_into_capacity, remaining_capacity)
    }

    /// Copies what the current block still holds, then either settles the
    /// cursor inside the block or advances to the next block and recurses
    /// with the remaining length.
    fn copy_bytes_from_chains_inner(
        &mut self,
        copy_into: &mut Vec<u8>,
        copy_into_capacity: usize,
        remaining_capacity: usize,
    )
        requires
            old(self).wf(),
            old(self).position < old(self).chain.view_blocks().len(),
            remaining_capacity == old(self).pool.block_capacity - old(self).offset,
            1 <= copy_into_capacity <= old(self).remaining().len(),
        ensures
            final(self).wf(),
            final(self).pool == old(self).pool,
            final(self).chain == old(self).chain,
            final(copy_into)@ == old(copy_into)@ + old(self).remaining().take(
                copy_into_capacity as int,
            ),
            final(self).remaining() == old(self).remaining().skip(copy_into_capacity as int),
        decreases old(self).chain.view_blocks().len() - old(self).position,
    {
        let ghost bs = self.chain.view_blocks();
        let ghost rem0 = old(self).remaining();
        let b = self.chain.blocks[self.position];
        let within = if copy_into_capacity <= remaining_capacity {
            copy_into_capacity
        } else {
            remaining_capacity
        };
        // copy the part that lies in the current block
        let offset = self.offset;
        let mut j: usize = 0;
        while j < within
            invariant
                self == old(self),
                self.wf(),
                bs == self.chain.view_blocks(),
                self.position < bs.len(),
                b == bs[self.position as int],
                j <= within,
                offset == self.offset,
                offset + within <= self.pool.block_capacity,
                copy_into@ == old(copy_into)@ + self.pool.block_bytes(b as int).subrange(
                    offset as int,
                    offset + j,
                ),
            decreases within - j,
        {
            let byte = self.pool.read_byte(b, offset + j);
            copy_into.push(byte);
            proof {
                assert(copy_into@ =~= old(copy_into)@ + self.pool.block_bytes(
                    b as int,
                ).subrange(offset as int, offset + j + 1));
            }
            j = j + 1;
        }
        proof {
            assert(self.pool.block_bytes(b as int).len() == self.pool.block_capacity);
            lemma_chain_raw_len(*self.pool, bs, self.position + 1);
        }
        if copy_into_capacity <= remaining_capacity {
            proof {
                assert(self.pool.block_bytes(b as int).subrange(
                    offset as int,
                    offset + copy_into_capacity,
                ) =~= rem0.take(copy_into_capacity as int));
            }
            self.restart_at_as_nothing_more_to_copy(copy_into_capacity, remaining_capacity, offset);
            proof {
                assert(self.remaining() =~= rem0.skip(copy_into_capacity as int));
            }
        } else {
            proof {
                // more bytes were asked for than this block holds, so the
                // walk has not reached the final block yet
                assert(rem0.len() == remaining_capacity + chain_raw_from(
                    *self.pool,
                    bs,
                    self.position + 1,
                ).len());
                assert(chain_raw_from(*self.pool, bs, self.position + 1).len() > 0);
                assert(self.position + 1 < bs.len()) by {
                    if self.position + 1 >= bs.len() {
                        assert(chain_raw_from(*self.pool, bs, self.position + 1).len() == 0);
                    }
                }
            }
            self.next_chain();
            let ghost mid = *self;
            self.copy_bytes_from_chains_inner(
                copy_into,
                copy_into_capacity - remaining_capacity,
                self.pool.block_capacity,
            );
            proof {
                assert(mid.remaining() =~= rem0.skip(remaining_capacity as int));
                assert(copy_into@ =~= old(copy_into)@ + rem0.take(copy_into_capacity as int));
                assert(self.remaining() =~= rem0.skip(copy_into_capacity as int));
            }
        }
    }

    /// Settles the cursor after a copy that ended inside the current
    /// block's span: advances the offset, collapsing to "next block,
    /// offset zero" exactly when the copy landed on the block boundary, so
    /// the cursor is never left at offset == capacity.
    fn restart_at_as_nothing_more_to_copy(
        &mut self,
        copy_into_capacity: usize,
        remaining_capacity: usize,
        offset: usize,
    )
        requires
            old(self).wf(),
            old(self).position < old(self).chain.view_blocks().len(),
            offset == old(self).offset,
            remaining_capacity == old(self).pool.block_capacity - offset,
            1 <= copy_into_capacity <= remaining_capacity,
        ensures
            final(self).wf(),
            final(self).pool == old(self).pool,
            final(self).chain == old(self).chain,
            final(self).position == (if copy_into_capacity == remaining_capacity {
                old(self).position + 1
            } else {
                old(self).position as int
            }),
            final(self).offset == (if copy_into_capacity == remaining_capacity {
                0
            } else {
                offset + copy_into_capacity
            }),
    {
        if copy_into_capacity == remaining_capacity {
            self.next_chain()
        } else {
            self.offset = offset + copy_into_capacity;
        }
    }

    /// Advances the cursor to the start of the next block of the walk.
    fn next_chain(&mut self)
        requires
            old(self).wf(),
            old(self).position < old(self).chain.view_blocks().len(),
        ensures
            final(self).wf(),
            final(self).pool == old(self).pool,
            final(self).chain == old(self).chain,
            final(self).position == old(self).position + 1,
            final(self).offset == 0,
    {
        let chain_length = self.chain.blocks.len();
        assert(self.position < chain_length);
        self.position = self.position + 1;
        self.offset = 0;
    }
}

/// Splitting one read into two successive reads of lengths `a` then `b`
/// yields the same bytes as one read of `a + b`, and leaves the cursor
/// with the same bytes ahead: the defining resumability law. By induction
/// any partition of a read into successive calls copies the same bytes as
/// one call for the summed length.
pub proof fn lemma_copy_partition(s: Seq<u8>, a: int, b: int)
    requires
        0 <= a,
        0 <= b,
        a + b <= s.len(),
    ensures
        s.take(a) + s.skip(a).take(b) == s.take(a + b),
        s.skip(a).skip(b) == s.skip(a + b),
{
    assert(s.take(a) + s.skip(a).take(b) =~= s.take(a + b));
    assert(s.skip(a).skip(b) =~= s.skip(a + b));
}

/// Round trip through a chain: reading back as many bytes as the chain's
/// content holds, from a fresh cursor, yields exactly that content — for
/// any write history that left the chain in the packed used shape.
pub proof fn lemma_chain_round_trip(pool: CtoPool, chain: Chain)
    requires
        pool.wf(),
        chain_wf(pool, chain),
        chain_filled(pool, chain),
    ensures
        chain_content(pool, chain).len() <= chain_raw(pool, chain).len(),
        chain_raw(pool, chain).take(chain_content(pool, chain).len() as int) == chain_content(
            pool,
            chain,
        ),
{
    lemma_content_is_raw_prefix(pool, chain.view_blocks(), 0);
    lemma_content_len_bound(pool, chain.view_blocks(), 0);
    lemma_chain_raw_len(pool, chain.view_blocks(), 0);
}


/// The cursor is never left parked on a block boundary: whenever a
/// well-formed cursor still has a block under it, its offset is strictly
/// inside that block, because a copy that lands exactly on the boundary
/// collapses to the next block at offset zero.
pub proof fn lemma_cursor_never_parks_on_boundary(cursor: RestartCopyFromAt)
    requires
        cursor.wf(),
        cursor.position < cursor.chain.view_blocks().len(),
    ensures
        cursor.offset < cursor.pool.block_capacity,
{
}

} // verus!
