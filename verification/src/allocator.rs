//! The segmented block allocator for one capacity class: acquiring,
//! growing and releasing chains over a pool and its bag of free chains.
//!
//! An allocation request is served from the caller's bag stripe first and
//! only then from fresh pool space; releasing a chain invalidates its
//! used-length metadata and files it back under the caller's stripe.
//! Resource exhaustion and capacity overruns are surfaced as explicit
//! results and never retried here.

use vstd::prelude::*;
use vstd::multiset::Multiset;
use crate::bag::{lemma_bag_wf_frame, BlockBag};
use crate::block::{Chain, CtoPool};
use crate::chain::{
    chain_capacity, chain_content, chain_filled, chain_wf, chain_used_length,
    lemma_content_extend, lemma_content_from_empty,
};
use crate::descriptor::MAXIMUM_CHAIN_LENGTH;
use crate::errors::PmdkError;

verus! {

/// How many blocks serve a logical object of `logical_size` bytes in a
/// class of `block_capacity`-byte blocks: at least one block, and enough
/// of them to cover the size.
pub open spec fn spec_blocks_needed(logical_size: int, block_capacity: int) -> int {
    if logical_size == 0 {
        1
    } else if logical_size % block_capacity == 0 {
        logical_size / block_capacity
    } else {
        logical_size / block_capacity + 1
    }
}

/// Computes `spec_blocks_needed` and its covering bounds.
pub fn blocks_needed(logical_size: usize, block_capacity: usize) -> (r: usize)
    requires
        block_capacity >= 1,
    ensures
        r == spec_blocks_needed(logical_size as int, block_capacity as int),
        r >= 1,
        r * block_capacity >= logical_size,
{
    let q = logical_size / block_capacity;
    let rem = logical_size % block_capacity;
    let r: usize = if logical_size == 0 {
        1
    } else if rem == 0 {
        q
    } else {
        // q + 1 cannot overflow: q < logical_size since block_capacity >= 1
        proof {
            assert(q < logical_size) by (nonlinear_arith)
                requires
                    block_capacity >= 1,
                    rem != 0,
                    q == logical_size / block_capacity,
                    rem == logical_size % block_capacity,
            ;
        }
        q + 1
    };
    proof {
        assert(r >= 1 && r * block_capacity >= logical_size) by (nonlinear_arith)
            requires
                block_capacity >= 1,
                logical_size >= 0,
                q == logical_size as int / block_capacity as int,
                rem == logical_size as int % block_capacity as int,
                (logical_size == 0 && r == 1) || (logical_size != 0 && rem == 0 && r == q) || (
                rem != 0 && r == q + 1),
        ;
    }
    r
}

/// Allocates `count` fresh zeroed blocks from the pool and links them onto
/// the tail of `chain` (which may be empty). Fails with `OutOfSpace`, and
/// changes nothing, exactly when the pool's budget cannot cover `count`.
pub fn allocate_linked_blocks(pool: &mut CtoPool, chain: &mut Chain, count: usize) -> (r: Result<
    (),
    PmdkError,
>)
    requires
        old(pool).wf(),
        old(chain).view_blocks().len() == 0 || chain_wf(*old(pool), *old(chain)),
        (old(chain).view_blocks().len() + count) * old(pool).block_capacity <= usize::MAX,
    ensures
        final(pool).wf(),
        final(pool).block_capacity == old(pool).block_capacity,
        final(pool).epoch == old(pool).epoch,
        r is Err <==> old(pool).budget < count,
        r is Err ==> *final(pool) == *old(pool) && *final(chain) == *old(chain) && r == Err::<
            (),
            PmdkError,
        >(PmdkError::OutOfSpace),
        r is Ok ==> {
            &&& final(pool).block_count() == old(pool).block_count() + count
            &&& final(pool).budget == old(pool).budget - count
            &&& final(chain).view_blocks() == old(chain).view_blocks() + Seq::new(
                count as nat,
                |i: int| (old(pool).block_count() + i) as usize,
            )
            &&& final(chain).view_blocks().len() > 0 ==> chain_wf(*final(pool), *final(chain))
            &&& forall|x: int|
                0 <= x < old(pool).block_count() ==> final(pool).block_bytes(x) == old(pool).block_bytes(x)
            &&& forall|x: int|
                0 <= x < old(pool).block_count() && (old(chain).view_blocks().len() == 0 || x
                    != old(chain).view_blocks().last()) ==> final(pool).meta()[x] == old(pool).meta()[x]
            &&& forall|x: int|
                0 <= x < old(pool).block_count() ==> #[trigger] final(pool).used_length_of(x)
                    == old(pool).used_length_of(x) && final(pool).descriptor_of(x) == old(pool).descriptor_of(x)
            &&& forall|x: int|
                old(pool).block_count() <= x < final(pool).block_count()
                    ==> #[trigger] final(pool).used_length_of(x) == 0 && !final(pool).descriptor_of(x).spec_is_filed() && final(pool).block_bytes(x) == Seq::<
                    u8,
                >::new(old(pool).block_capacity as nat, |i: int| 0u8)
        },
{
    if pool.budget < count {
        return Err(PmdkError::OutOfSpace);
    }
    let ghost old_bs = old(chain).view_blocks();
    let ghost old_count = old(pool).block_count();
    let mut i: usize = 0;
    while i < count
        invariant
            old(pool).wf(),
            old_bs.len() == 0 || chain_wf(*old(pool), *old(chain)),
            old_bs == old(chain).view_blocks(),
            old_count == old(pool).block_count(),
            old(pool).budget >= count,
            i <= count,
            pool.wf(),
            pool.block_capacity == old(pool).block_capacity,
            pool.epoch == old(pool).epoch,
            pool.block_count() == old_count + i,
            pool.budget == old(pool).budget - i,
            chain.view_blocks() == old_bs + Seq::new(i as nat, |k: int| (old_count + k) as usize),
            forall|k: int|
                0 <= k < old_bs.len() ==> (#[trigger] old_bs[k]) < old_count,
            forall|k: int|
                0 <= k < chain.view_blocks().len() ==> (#[trigger] chain.view_blocks()[k])
                    < pool.block_count(),
            chain.view_blocks().no_duplicates(),
            forall|k: int|
                0 <= k < chain.view_blocks().len() ==> #[trigger] pool.next_of(
                    chain.view_blocks()[k] as int,
                ) == (if k + 1 < chain.view_blocks().len() {
                    Some(chain.view_blocks()[k + 1])
                } else {
                    None::<usize>
                }),
            forall|x: int|
                0 <= x < old_count ==> pool.block_bytes(x) == old(pool).block_bytes(x),
            forall|x: int|
                0 <= x < old_count && (old_bs.len() == 0 || x != old_bs.last()) ==> pool.meta()[x]
                    == old(pool).meta()[x],
            forall|x: int|
                0 <= x < old_count ==> #[trigger] pool.used_length_of(x) == old(pool).used_length_of(x) && pool.descriptor_of(x) == old(pool).descriptor_of(x),
            forall|x: int|
                old_count <= x < pool.block_count() ==> #[trigger] pool.used_length_of(x) == 0
                    && !pool.descriptor_of(x).spec_is_filed() && pool.block_bytes(x) == Seq::<
                    u8,
                >::new(old(pool).block_capacity as nat, |j: int| 0u8),
        decreases count - i,
    {
        let ghost p_pre = *pool;
        let ghost pre_bs = chain.view_blocks();
        let fresh = match pool.allocate_block() {
            Ok(b) => b,
            Err(e) => {
                proof {
                    assert(p_pre.budget == old(pool).budget - i);
                    assert(p_pre.budget >= count - i);
                    assert(false);
                }
                return Err(e);
            },
        };
        proof {
            assert forall|x: int|
                0 <= x < p_pre.block_count() implies pool.meta()[x] == p_pre.meta()[x]
                && pool.block_bytes(x) == p_pre.block_bytes(x) by {
                assert(pool.meta() == p_pre.meta().push(pool.meta()[fresh as int]));
                assert(pool.payload@ == p_pre.payload@.push(pool.payload@[fresh as int]));
            }
        }
        let ghost p_alloc = *pool;
        if chain.blocks.len() > 0 {
            let tail = chain.blocks[chain.blocks.len() - 1];
            pool.set_next(tail, Some(fresh));
        }
        chain.blocks.push(fresh);
        proof {
            let bs = chain.view_blocks();
            let ghost tail_idx = pre_bs.len() - 1;
            assert(bs =~= old_bs + Seq::new(
                (i + 1) as nat,
                |k: int| (old_count + k) as usize,
            ));
            // the fresh block is new, so the walk stays duplicate-free
            assert forall|k: int| 0 <= k < pre_bs.len() implies #[trigger] pre_bs[k]
                != fresh by {
                assert(pre_bs[k] < p_pre.block_count());
            }
            assert(bs.no_duplicates());
            // the tail's rewritten link, everything else untouched
            assert forall|x: int|
                0 <= x < p_pre.block_count() && (pre_bs.len() == 0 || x != pre_bs[tail_idx])
                implies pool.meta()[x] == p_pre.meta()[x] by {}
            assert forall|k: int|
                0 <= k < bs.len() implies #[trigger] pool.next_of(bs[k] as int) == (if k + 1
                < bs.len() {
                Some(bs[k + 1])
            } else {
                None::<usize>
            }) by {
                if k < pre_bs.len() - 1 {
                    assert(bs[k] == pre_bs[k]);
                    assert(pre_bs[k] != pre_bs[tail_idx]);
                    assert(p_pre.next_of(pre_bs[k] as int) == Some(pre_bs[k + 1]));
                    assert(pool.meta()[bs[k] as int] == p_pre.meta()[bs[k] as int]);
                } else if k == pre_bs.len() - 1 {
                    assert(bs[k] == pre_bs[k]);
                } else {
                    assert(bs[k] == fresh);
                    if pre_bs.len() > 0 {
                        assert(fresh != pre_bs[tail_idx]);
                        assert(pool.meta()[fresh as int] == p_alloc.meta()[fresh as int]);
                    }
                }
            }
            // frames against the loop entry and the fresh-block shape
            assert forall|x: int|
                0 <= x < old_count && (old_bs.len() == 0 || x != old_bs.last()) implies pool
                .meta()[x] == old(pool).meta()[x] by {
                if pre_bs.len() > 0 && x != pre_bs[tail_idx] {
                    assert(pool.meta()[x] == p_pre.meta()[x]);
                } else {
                }
            }
            assert forall|x: int|
                0 <= x < old_count implies #[trigger] pool.used_length_of(x) == old(pool).used_length_of(x) && pool.descriptor_of(x) == old(pool).descriptor_of(x) by {
                assert(p_pre.used_length_of(x) == old(pool).used_length_of(x));
                assert(p_pre.descriptor_of(x) == old(pool).descriptor_of(x));
                assert(p_alloc.meta()[x] == p_pre.meta()[x]);
            }
            assert forall|x: int|
                old_count <= x < pool.block_count() implies #[trigger] pool.used_length_of(x)
                == 0 && !pool.descriptor_of(x).spec_is_filed() && pool.block_bytes(x) == Seq::<
                u8,
            >::new(old(pool).block_capacity as nat, |j: int| 0u8) by {
                if x < p_pre.block_count() {
                    assert(p_pre.used_length_of(x) == 0);
                    assert(!p_pre.descriptor_of(x).spec_is_filed());
                    assert(p_alloc.meta()[x] == p_pre.meta()[x]);
                    assert(p_alloc.block_bytes(x) == p_pre.block_bytes(x));
                } else {
                    assert(p_alloc.meta()[x] == p_alloc.meta()[fresh as int]);
                }
            }
        }
        i = i + 1;
    }
    proof {
        if chain.view_blocks().len() > 0 {
            assert(chain_wf(*pool, *chain));
        }
    }
    Ok(())
}


/// How many fresh blocks a grow request must append: none while the
/// chain's free capacity covers the request, else enough blocks for the
/// uncovered remainder.
pub open spec fn spec_grow_blocks(pool: CtoPool, c: Chain, additional: int) -> int {
    let free = chain_capacity(pool, c) - chain_content(pool, c).len();
    if additional <= free {
        0
    } else {
        spec_blocks_needed(additional - free, pool.block_capacity as int)
    }
}

/// The allocator for one capacity class: the pool the class's blocks live
/// in, and the bag its free chains are filed in.
pub struct BlockAllocator {
    pub pool: CtoPool,
    pub bag: BlockBag,
}

impl BlockAllocator {
    /// Allocator well-formedness: pool and bag are sound, and even the
    /// longest fileable chain stays byte-addressable.
    pub open spec fn wf(self) -> bool {
        &&& self.pool.wf()
        &&& self.bag.wf(self.pool)
        &&& MAXIMUM_CHAIN_LENGTH as int * self.pool.block_capacity <= usize::MAX
    }

    /// A fresh allocator for one capacity class over an empty pool.
    pub fn new(block_capacity: usize, budget_in_blocks: usize, stripe_count: usize, epoch: u64)
        -> (r: Self)
        requires
            block_capacity >= 1,
            MAXIMUM_CHAIN_LENGTH as int * block_capacity <= usize::MAX,
            1 <= stripe_count <= 64,
        ensures
            r.wf(),
            r.pool.block_capacity == block_capacity,
            r.pool.budget == budget_in_blocks,
            r.pool.block_count() == 0,
            r.pool.epoch == epoch,
            r.bag.stripe_count() == stripe_count,
            r.bag.bag_blocks() == Multiset::<usize>::empty(),
    {
        BlockAllocator {
            pool: CtoPool::new(block_capacity, budget_in_blocks, epoch),
            bag: BlockBag::new(stripe_count),
        }
    }

    /// Returns a chain able to hold at least `logical_size` bytes, drawn
    /// first from the caller's bag stripe and grown or freshly allocated
    /// from the pool only as needed; an empty stripe never makes the
    /// allocator search another stripe. The chain comes fully reset, its
    /// blocks filed nowhere in the bag, and every block the bag loses is
    /// in the returned chain: block ownership is conserved. Fails with
    /// `CapacityExceeded` when the request exceeds the class's maximum
    /// chain, and with `OutOfSpace` only when the pool cannot supply the
    /// missing blocks.
    pub fn acquire_chain(&mut self, logical_size: usize, stripe_key: usize) -> (r: Result<
        Chain,
        PmdkError,
    >)
        requires
            old(self).wf(),
        ensures
            final(self).wf(),
            final(self).pool.block_capacity == old(self).pool.block_capacity,
            final(self).pool.epoch == old(self).pool.epoch,
            final(self).bag.stripe_count() == old(self).bag.stripe_count(),
            r == Err::<Chain, PmdkError>(PmdkError::CapacityExceeded) <==> spec_blocks_needed(
                logical_size as int,
                old(self).pool.block_capacity as int,
            ) > MAXIMUM_CHAIN_LENGTH,
            r == Err::<Chain, PmdkError>(PmdkError::OutOfSpace) ==> old(self).pool.budget
                < spec_blocks_needed(logical_size as int, old(self).pool.block_capacity as int),
            spec_blocks_needed(logical_size as int, old(self).pool.block_capacity as int)
                <= MAXIMUM_CHAIN_LENGTH && old(self).pool.budget >= spec_blocks_needed(
                logical_size as int,
                old(self).pool.block_capacity as int,
            ) ==> r is Ok,
            r is Err ==> final(self).bag.bag_blocks() == old(self).bag.bag_blocks() && final(self).pool.block_count() == old(self).pool.block_count() && final(self).pool.budget == old(self).pool.budget,
            r matches Ok(c) ==> {
                &&& chain_wf(final(self).pool, c)
                &&& chain_filled(final(self).pool, c)
                &&& chain_content(final(self).pool, c).len() == 0
                &&& chain_capacity(final(self).pool, c) >= logical_size
                &&& 1 <= c.view_blocks().len() <= MAXIMUM_CHAIN_LENGTH
                &&& forall|b: usize|
                    c.view_blocks().to_multiset().count(b) > 0 ==> #[trigger] final(self).bag.bag_blocks().count(b) == 0
                &&& forall|b: usize|
                    (b as int) < old(self).pool.block_count() ==> #[trigger] old(self).bag.bag_blocks().count(b) == final(self).bag.bag_blocks().count(b)
                        + c.view_blocks().to_multiset().count(b)
                &&& final(self).pool.block_count() >= old(self).pool.block_count()
                &&& (final(self).pool.block_count() == old(self).pool.block_count() ==> old(self).bag.bag_blocks() == final(self).bag.bag_blocks().add(
                    c.view_blocks().to_multiset(),
                ))
                // stripe affinity: the chain is drawn from the keyed
                // stripe's most recently filed chain, extended only by
                // fresh blocks; an empty keyed stripe leaves the whole
                // bag untouched and every block comes fresh
                &&& (old(self).bag.stripes@[stripe_key as int % old(self).bag.stripe_count()]@.len()
                    == 0 ==> {
                    &&& forall|t: int|
                        0 <= t < old(self).bag.stripe_count() ==> (#[trigger] final(self).bag.stripes@[t])@ == old(self).bag.stripes@[t]@
                    &&& forall|k: int|
                        0 <= k < c.view_blocks().len() ==> (#[trigger] c.view_blocks()[k]) as int
                            >= old(self).pool.block_count()
                })
                &&& (old(self).bag.stripes@[stripe_key as int % old(self).bag.stripe_count()]@.len()
                    > 0 ==> {
                    let s = stripe_key as int % old(self).bag.stripe_count();
                    let top = old(self).bag.stripes@[s]@.last();
                    &&& final(self).bag.stripes@[s]@ == old(self).bag.stripes@[s]@.drop_last()
                    &&& forall|t: int|
                        0 <= t < old(self).bag.stripe_count() && t != s ==> (#[trigger] final(self).bag.stripes@[t])@ == old(self).bag.stripes@[t]@
                    &&& c.view_blocks().len() >= top.view_blocks().len()
                    &&& c.view_blocks().subrange(0, top.view_blocks().len() as int)
                        == top.view_blocks()
                    &&& forall|k: int|
                        top.view_blocks().len() <= k < c.view_blocks().len() ==> (
                        #[trigger] c.view_blocks()[k]) as int >= old(self).pool.block_count()
                })
            },
    {
        broadcast use vstd::multiset::group_multiset_axioms;
        broadcast use vstd::seq_lib::group_to_multiset_ensures;

        let cap = self.pool.block_capacity;
        let needed = blocks_needed(logical_size, cap);
        if needed > MAXIMUM_CHAIN_LENGTH as usize {
            return Err(PmdkError::CapacityExceeded);
        }
        proof {
            assert(needed * cap <= MAXIMUM_CHAIN_LENGTH as int * cap) by (nonlinear_arith)
                requires
                    needed <= MAXIMUM_CHAIN_LENGTH as int,
                    cap >= 0,
            ;
        }
        let ghost old_alloc = *self;
        let popped = self.bag.try_acquire(&mut self.pool, stripe_key);
        match popped {
            None => {
                let mut fresh_chain = Chain { blocks: Vec::new() };
                let outcome = allocate_linked_blocks(&mut self.pool, &mut fresh_chain, needed);
                match outcome {
                    Err(e) => Err(e),
                    Ok(()) => {
                        proof {
                            let bs = fresh_chain.view_blocks();
                            assert(bs =~= Seq::new(
                                needed as nat,
                                |i: int| (old_alloc.pool.block_count() + i) as usize,
                            ));
                            assert forall|k: int|
                                0 <= k < bs.len() implies self.pool.used_length_of(
                                #[trigger] bs[k] as int,
                            ) == 0 && old_alloc.pool.block_count() <= bs[k] by {
                                assert(bs[k] == (old_alloc.pool.block_count() + k) as usize);
                            }
                            lemma_content_from_empty(self.pool, bs, 0);
                            lemma_bag_wf_frame(old_alloc.pool, self.pool, self.bag);
                            assert forall|b: usize|
                                bs.to_multiset().count(b) > 0 implies #[trigger] self
                                .bag.bag_blocks().count(b) == 0 by {
                                assert(bs.contains(b));
                                let k = choose|k: int| 0 <= k < bs.len() && bs[k] == b;
                                assert(b as int >= old_alloc.pool.block_count());
                                if self.bag.bag_blocks().count(b) > 0 {
                                    assert((b as int) < old_alloc.pool.block_count());
                                }
                            }
                            assert(chain_capacity(self.pool, fresh_chain) >= logical_size);
                        }
                        Ok(fresh_chain)
                    },
                }
            },
            Some(popped_chain) => {
                let ghost mid = *self;
                let len0 = popped_chain.length();
                if len0 >= needed {
                    proof {
                        lemma_content_from_empty(self.pool, popped_chain.view_blocks(), 0);
                        assert(len0 * cap >= needed * cap) by (nonlinear_arith)
                            requires
                                len0 >= needed,
                                cap >= 0,
                        ;
                    }
                    return Ok(popped_chain);
                }
                let missing = needed - len0;
                if self.pool.budget < missing {
                    // refile the popped chain before reporting exhaustion
                    let stripe_count = self.bag.stripes.len();
                    self.bag.release(&mut self.pool, popped_chain, stripe_key % stripe_count);
                    proof {
                        assert(old_alloc.bag.bag_blocks() =~= self.bag.bag_blocks());
                    }
                    return Err(PmdkError::OutOfSpace);
                }
                let mut grown = popped_chain;
                let ghost popped_bs = grown.view_blocks();
                let outcome = allocate_linked_blocks(&mut self.pool, &mut grown, missing);
                match outcome {
                    Err(e) => {
                        proof {
                            assert(false);
                        }
                        Err(e)
                    },
                    Ok(()) => {
                        proof {
                            let bs = grown.view_blocks();
                            vstd::seq_lib::lemma_multiset_commutative(
                                popped_bs,
                                Seq::new(
                                    missing as nat,
                                    |i: int| (mid.pool.block_count() + i) as usize,
                                ),
                            );
                            assert forall|k: int|
                                0 <= k < bs.len() implies self.pool.used_length_of(
                                #[trigger] bs[k] as int,
                            ) == 0 by {
                                if k < popped_bs.len() {
                                    assert(bs[k] == popped_bs[k]);
                                    assert(mid.pool.used_length_of(popped_bs[k] as int) == 0);
                                }
                            }
                            lemma_content_from_empty(self.pool, bs, 0);
                            assert forall|x: usize|
                                mid.bag.bag_blocks().count(x) > 0 implies #[trigger] self
                                .pool.next_of(x as int) == mid.pool.next_of(x as int)
                                && self.pool.used_length_of(x as int) == mid.pool.used_length_of(
                                x as int,
                            ) && self.pool.descriptor_of(x as int) == mid.pool.descriptor_of(
                                x as int,
                            ) by {
                                assert((x as int) < mid.pool.block_count());
                                assert(popped_bs.to_multiset().count(x) == 0);
                                if popped_bs.len() > 0 {
                                    assert(popped_bs.contains(popped_bs.last()));
                                    assert(x != popped_bs.last());
                                }
                                assert(self.pool.meta()[x as int] == mid.pool.meta()[x as int]);
                            }
                            lemma_bag_wf_frame(mid.pool, self.pool, self.bag);
                            assert forall|b: usize|
                                bs.to_multiset().count(b) > 0 implies #[trigger] self
                                .bag.bag_blocks().count(b) == 0 by {
                                if popped_bs.to_multiset().count(b) > 0 {
                                } else {
                                    assert(Seq::new(
                                        missing as nat,
                                        |i: int| (mid.pool.block_count() + i) as usize,
                                    ).to_multiset().count(b) > 0);
                                    assert(Seq::new(
                                        missing as nat,
                                        |i: int| (mid.pool.block_count() + i) as usize,
                                    ).contains(b));
                                    assert(b as int >= mid.pool.block_count());
                                    if self.bag.bag_blocks().count(b) > 0 {
                                        assert((b as int) < mid.pool.block_count());
                                    }
                                }
                            }
                            assert forall|b: usize|
                                (b as int) < old_alloc.pool.block_count() implies #[trigger] old_alloc
                                .bag.bag_blocks().count(b) == self.bag.bag_blocks().count(b)
                                + bs.to_multiset().count(b) by {
                                assert(old_alloc.bag.bag_blocks().count(b)
                                    == mid.bag.bag_blocks().count(b)
                                    + popped_bs.to_multiset().count(b));
                                if Seq::new(
                                    missing as nat,
                                    |i: int| (mid.pool.block_count() + i) as usize,
                                ).to_multiset().count(b) > 0 {
                                    assert(Seq::new(
                                        missing as nat,
                                        |i: int| (mid.pool.block_count() + i) as usize,
                                    ).contains(b));
                                }
                            }
                            assert(chain_capacity(self.pool, grown) >= logical_size);
                        }
                        Ok(grown)
                    },
                }
            },
        }
    }

    /// Appends fresh blocks to the chain's tail so that at least
    /// `additional_bytes` more bytes fit beyond what the chain already
    /// holds. Growth never moves already-written bytes: the chain's
    /// content is untouched and existing blocks keep their place. Fails
    /// with `CapacityExceeded`, changing nothing, when the grown chain
    /// would pass the class's maximum length; fails with `OutOfSpace`,
    /// changing nothing, when the pool cannot supply the missing blocks.
    pub fn grow(&mut self, chain: &mut Chain, additional_bytes: usize) -> (r: Result<
        (),
        PmdkError,
    >)
        requires
            old(self).wf(),
            chain_wf(old(self).pool, *old(chain)),
            chain_filled(old(self).pool, *old(chain)),
            old(chain).view_blocks().len() <= MAXIMUM_CHAIN_LENGTH,
            forall|b: usize|
                old(chain).view_blocks().to_multiset().count(b) > 0 ==> #[trigger] old(
                    self,
                ).bag.bag_blocks().count(b) == 0,
        ensures
            final(self).wf(),
            final(self).bag == old(self).bag,
            final(self).pool.block_capacity == old(self).pool.block_capacity,
            final(self).pool.epoch == old(self).pool.epoch,
            chain_wf(final(self).pool, *final(chain)),
            chain_filled(final(self).pool, *final(chain)),
            chain_content(final(self).pool, *final(chain)) == chain_content(
                old(self).pool,
                *old(chain),
            ),
            r is Err ==> *final(self) == *old(self) && *final(chain) == *old(chain),
            r == Err::<(), PmdkError>(PmdkError::CapacityExceeded) <==> old(
                chain,
            ).view_blocks().len() + spec_grow_blocks(
                old(self).pool,
                *old(chain),
                additional_bytes as int,
            ) > MAXIMUM_CHAIN_LENGTH,
            old(chain).view_blocks().len() + spec_grow_blocks(
                old(self).pool,
                *old(chain),
                additional_bytes as int,
            ) <= MAXIMUM_CHAIN_LENGTH ==> (r == Err::<(), PmdkError>(PmdkError::OutOfSpace)
                <==> old(self).pool.budget < spec_grow_blocks(
                old(self).pool,
                *old(chain),
                additional_bytes as int,
            )),
            r is Ok ==> {
                &&& final(chain).view_blocks() == old(chain).view_blocks() + Seq::new(
                    spec_grow_blocks(
                        old(self).pool,
                        *old(chain),
                        additional_bytes as int,
                    ) as nat,
                    |i: int| (old(self).pool.block_count() + i) as usize,
                )
                &&& chain_capacity(final(self).pool, *final(chain)) - chain_content(
                    final(self).pool,
                    *final(chain),
                ).len() >= additional_bytes
                &&& forall|b: usize|
                    final(chain).view_blocks().to_multiset().count(b) > 0
                        ==> #[trigger] final(self).bag.bag_blocks().count(b) == 0
                &&& forall|x: int|
                    0 <= x < old(self).pool.block_count() && !old(chain).block_set().contains(
                        x as usize,
                    ) ==> final(self).pool.block_bytes(x) == old(self).pool.block_bytes(x)
                        && final(self).pool.meta()[x] == old(self).pool.meta()[x]
            },
    {
        broadcast use vstd::multiset::group_multiset_axioms;
        broadcast use vstd::seq_lib::group_to_multiset_ensures;

        let cap = self.pool.block_capacity;
        let n_blocks = chain.length();
        let total = n_blocks * cap;
        let l = chain_used_length(&self.pool, chain);
        let free = total - l;
        if additional_bytes <= free {
            proof {
                assert(chain.view_blocks() =~= chain.view_blocks() + Seq::new(
                    0,
                    |i: int| (old(self).pool.block_count() + i) as usize,
                ));
            }
            return Ok(());
        }
        let missing = blocks_needed(additional_bytes - free, cap);
        if missing > MAXIMUM_CHAIN_LENGTH as usize
            || n_blocks > MAXIMUM_CHAIN_LENGTH as usize - missing {
            return Err(PmdkError::CapacityExceeded);
        }
        if self.pool.budget < missing {
            return Err(PmdkError::OutOfSpace);
        }
        proof {
            assert((n_blocks + missing) * cap <= MAXIMUM_CHAIN_LENGTH as int * cap)
                by (nonlinear_arith)
                requires
                    n_blocks + missing <= MAXIMUM_CHAIN_LENGTH as int,
                    cap >= 0,
            ;
        }
        let ghost old_alloc = *self;
        let ghost old_bs = chain.view_blocks();
        let outcome = allocate_linked_blocks(&mut self.pool, chain, missing);
        match outcome {
            Err(e) => {
                proof {
                    assert(false);
                }
                Err(e)
            },
            Ok(()) => {
                proof {
                    let bs = chain.view_blocks();
                    let ext = Seq::new(
                        missing as nat,
                        |i: int| (old_alloc.pool.block_count() + i) as usize,
                    );
                    vstd::seq_lib::lemma_multiset_commutative(old_bs, ext);
                    // the old blocks kept their payload and used lengths
                    assert forall|k: int|
                        0 <= k < old_bs.len() implies self.pool.used_bytes(
                        #[trigger] old_bs[k] as int,
                    ) == old_alloc.pool.used_bytes(old_bs[k] as int) by {
                        assert(self.pool.used_length_of(old_bs[k] as int)
                            == old_alloc.pool.used_length_of(old_bs[k] as int));
                        assert(self.pool.block_bytes(old_bs[k] as int)
                            == old_alloc.pool.block_bytes(old_bs[k] as int));
                    }
                    assert forall|k: int|
                        0 <= k < ext.len() implies self.pool.used_length_of(
                        #[trigger] ext[k] as int,
                    ) == 0 by {
                        assert(ext[k] == (old_alloc.pool.block_count() + k) as usize);
                    }
                    lemma_content_extend(old_alloc.pool, self.pool, old_bs, ext, 0);
                    assert(chain_content(self.pool, *chain) == chain_content(
                        old_alloc.pool,
                        *old(chain),
                    ));
                    // the grown chain keeps the packed used shape
                    assert forall|i: int, j: int|
                        0 <= i < j < bs.len() && self.pool.used_length_of(
                            #[trigger] bs[j] as int,
                        ) > 0 implies self.pool.used_length_of(#[trigger] bs[i] as int)
                        == self.pool.block_capacity by {
                        if j < old_bs.len() {
                            assert(bs[j] == old_bs[j]);
                            assert(bs[i] == old_bs[i]);
                            assert(old_alloc.pool.used_length_of(old_bs[j] as int) > 0);
                            assert(old_alloc.pool.used_length_of(old_bs[i] as int)
                                == old_alloc.pool.block_capacity);
                        } else {
                            assert(bs[j] == ext[j - old_bs.len()]);
                            assert(self.pool.used_length_of(bs[j] as int) == 0);
                        }
                    }
                    // the bag is untouched and agrees on every filed block
                    assert forall|x: usize|
                        old_alloc.bag.bag_blocks().count(x) > 0 implies #[trigger] self
                        .pool.next_of(x as int) == old_alloc.pool.next_of(x as int)
                        && self.pool.used_length_of(x as int) == old_alloc.pool.used_length_of(
                        x as int,
                    ) && self.pool.descriptor_of(x as int) == old_alloc.pool.descriptor_of(
                        x as int,
                    ) by {
                        assert((x as int) < old_alloc.pool.block_count());
                        assert(old_bs.to_multiset().count(x) == 0);
                        if old_bs.len() > 0 {
                            assert(old_bs.contains(old_bs.last()));
                            assert(x != old_bs.last());
                        }
                        assert(self.pool.meta()[x as int] == old_alloc.pool.meta()[x as int]);
                    }
                    lemma_bag_wf_frame(old_alloc.pool, self.pool, self.bag);
                    // none of the grown chain's blocks is filed
                    assert forall|b: usize|
                        bs.to_multiset().count(b) > 0 implies #[trigger] self
                        .bag.bag_blocks().count(b) == 0 by {
                        if old_bs.to_multiset().count(b) > 0 {
                        } else {
                            assert(ext.to_multiset().count(b) > 0);
                            assert(ext.contains(b));
                            let k = choose|k: int| 0 <= k < ext.len() && ext[k] == b;
                            assert(b as int >= old_alloc.pool.block_count());
                            if self.bag.bag_blocks().count(b) > 0 {
                                assert((b as int) < old_alloc.pool.block_count());
                            }
                        }
                    }
                    // the free capacity now covers the request
                    assert(chain_capacity(self.pool, *chain) - chain_content(
                        self.pool,
                        *chain,
                    ).len() >= additional_bytes) by (nonlinear_arith)
                        requires
                            chain_capacity(self.pool, *chain) == (old_bs.len() + missing)
                                * self.pool.block_capacity,
                            chain_content(self.pool, *chain).len() == l,
                            old_bs.len() * self.pool.block_capacity == total,
                            missing * self.pool.block_capacity >= additional_bytes - free,
                            free == total - l,
                            additional_bytes > free,
                            l <= total,
                            self.pool.block_capacity >= 1,
                    ;
                    // blocks outside the chain kept payload and metadata
                    assert forall|x: int|
                        0 <= x < old_alloc.pool.block_count() && !old(
                            chain,
                        ).block_set().contains(x as usize) implies self.pool.block_bytes(x)
                        == old_alloc.pool.block_bytes(x) && self.pool.meta()[x]
                        == old_alloc.pool.meta()[x] by {
                        if old_bs.len() > 0 {
                            assert(old_bs.contains(old_bs.last()));
                            assert(x != old_bs.last());
                        }
                    }
                }
                Ok(())
            },
        }
    }

    /// Returns all of a chain's blocks to the bag stripe picked by the
    /// caller's key: invalidates the chain's used-length metadata, then
    /// files the chain whole. The bag's blocks grow by exactly the
    /// chain's blocks.
    pub fn release_chain(&mut self, chain: Chain, stripe_key: usize)
        requires
            old(self).wf(),
            chain_wf(old(self).pool, chain),
            1 <= chain.view_blocks().len() <= MAXIMUM_CHAIN_LENGTH,
            forall|b: usize|
                chain.view_blocks().to_multiset().count(b) > 0 ==> #[trigger] old(
                    self,
                ).bag.bag_blocks().count(b) == 0,
        ensures
            final(self).wf(),
            final(self).pool.block_capacity == old(self).pool.block_capacity,
            final(self).pool.epoch == old(self).pool.epoch,
            final(self).pool.block_count() == old(self).pool.block_count(),
            final(self).pool.budget == old(self).pool.budget,
            final(self).bag.stripe_count() == old(self).bag.stripe_count(),
            final(self).bag.bag_blocks() == old(self).bag.bag_blocks().add(
                chain.view_blocks().to_multiset(),
            ),
            chain_content(final(self).pool, chain).len() == 0,
    {
        broadcast use vstd::multiset::group_multiset_axioms;
        broadcast use vstd::seq_lib::group_to_multiset_ensures;

        let ghost old_alloc = *self;
        let ghost bs = chain.view_blocks();
        // invalidate the used-length metadata of every block of the chain
        let n = chain.length();
        let mut i: usize = 0;
        while i < n
            invariant
                old_alloc.wf(),
                chain_wf(old_alloc.pool, chain),
                bs == chain.view_blocks(),
                n == bs.len(),
                i <= n,
                forall|b: usize|
                    bs.to_multiset().count(b) > 0 ==> #[trigger] old_alloc.bag.bag_blocks().count(
                        b,
                    ) == 0,
                self.bag == old_alloc.bag,
                self.pool.wf(),
                self.pool.block_capacity == old_alloc.pool.block_capacity,
                self.pool.epoch == old_alloc.pool.epoch,
                self.pool.budget == old_alloc.pool.budget,
                self.pool.block_count() == old_alloc.pool.block_count(),
                self.pool.payload@ == old_alloc.pool.payload@,
                forall|k: int|
                    0 <= k < i ==> self.pool.used_length_of(#[trigger] bs[k] as int) == 0,
                forall|x: int|
                    0 <= x < old_alloc.pool.block_count() && !bs.contains(x as usize)
                        ==> self.pool.meta()[x] == old_alloc.pool.meta()[x],
                forall|x: int|
                    0 <= x < old_alloc.pool.block_count() ==> #[trigger] self.pool.next_of(x)
                        == old_alloc.pool.next_of(x) && self.pool.descriptor_of(x)
                        == old_alloc.pool.descriptor_of(x),
            decreases n - i,
        {
            let b = chain.blocks[i];
            let ghost p_pre = self.pool;
            self.pool.set_used_length(b, 0);
            proof {
                assert(bs.contains(bs[i as int]));
                assert forall|k: int|
                    0 <= k < i + 1 implies self.pool.used_length_of(#[trigger] bs[k] as int)
                    == 0 by {
                    if k < i {
                        assert(bs[k] != bs[i as int]);
                        assert(self.pool.meta()[bs[k] as int] == p_pre.meta()[bs[k] as int]);
                        assert(p_pre.used_length_of(bs[k] as int) == 0);
                    }
                }
                assert forall|x: int|
                    0 <= x < old_alloc.pool.block_count() && !bs.contains(x as usize) implies self
                    .pool.meta()[x] == old_alloc.pool.meta()[x] by {
                    assert(x != bs[i as int]);
                    assert(self.pool.meta()[x] == p_pre.meta()[x]);
                }
                assert forall|x: int|
                    0 <= x < old_alloc.pool.block_count() implies #[trigger] self.pool.next_of(
                    x,
                ) == old_alloc.pool.next_of(x) && self.pool.descriptor_of(x)
                    == old_alloc.pool.descriptor_of(x) by {
                    if x != bs[i as int] {
                        assert(self.pool.meta()[x] == p_pre.meta()[x]);
                    }
                    assert(p_pre.next_of(x) == old_alloc.pool.next_of(x));
                    assert(p_pre.descriptor_of(x) == old_alloc.pool.descriptor_of(x));
                }
            }
            i = i + 1;
        }
        proof {
            // the chain is still well formed and the bag still sound
            assert forall|k: int|
                0 <= k < bs.len() implies #[trigger] self.pool.next_of(bs[k] as int) == (if k + 1
                < bs.len() {
                Some(bs[k + 1])
            } else {
                None::<usize>
            }) by {
                assert(old_alloc.pool.next_of(bs[k] as int) == (if k + 1 < bs.len() {
                    Some(bs[k + 1])
                } else {
                    None::<usize>
                }));
            }
            assert forall|x: usize|
                old_alloc.bag.bag_blocks().count(x) > 0 implies #[trigger] self.pool.next_of(
                x as int,
            ) == old_alloc.pool.next_of(x as int) && self.pool.used_length_of(x as int)
                == old_alloc.pool.used_length_of(x as int) && self.pool.descriptor_of(x as int)
                == old_alloc.pool.descriptor_of(x as int) by {
                assert((x as int) < old_alloc.pool.block_count());
                assert(bs.to_multiset().count(x) == 0);
                assert(!bs.contains(x));
                assert(self.pool.meta()[x as int] == old_alloc.pool.meta()[x as int]);
            }
            lemma_bag_wf_frame(old_alloc.pool, self.pool, self.bag);
            assert(chain_wf(self.pool, chain));
            assert(self.pool.block_count() == old_alloc.pool.block_count());
        }
        let stripe_count = self.bag.stripes.len();
        let stripe = stripe_key % stripe_count;
        let ghost p_zeroed = self.pool;
        let ghost chain_snap = chain;
        self.bag.release(&mut self.pool, chain, stripe);
        proof {
            assert forall|k: int|
                0 <= k < bs.len() implies self.pool.used_length_of(#[trigger] bs[k] as int)
                == 0 by {
                assert(chain_wf(p_zeroed, chain_snap));
                assert(p_zeroed.block_count() == old_alloc.pool.block_count());
                assert(bs[k] < p_zeroed.block_count());
                assert(self.pool.next_of(bs[k] as int) == p_zeroed.next_of(bs[k] as int));
                assert(self.pool.used_length_of(bs[k] as int) == p_zeroed.used_length_of(
                    bs[k] as int,
                ));
                assert(p_zeroed.used_length_of(bs[k] as int) == 0);
            }
            lemma_content_from_empty(self.pool, bs, 0);
        }
    }

    /// An allocator over a pool opened from its durable image, with a
    /// freshly rebuilt (empty) bag: the transient free-list mirror starts
    /// empty on every open and fills as chains are released.
    pub fn from_pool(pool: CtoPool, stripe_count: usize) -> (r: Self)
        requires
            pool.wf(),
            MAXIMUM_CHAIN_LENGTH as int * pool.block_capacity <= usize::MAX,
            1 <= stripe_count <= 64,
        ensures
            r.wf(),
            r.pool == pool,
            r.bag.stripe_count() == stripe_count,
            r.bag.bag_blocks() == Multiset::<usize>::empty(),
    {
        BlockAllocator { pool, bag: BlockBag::new(stripe_count) }
    }
}

} // verus!
