//! The block bag: a stripe-sharded free list of chains for one capacity
//! class.
//!
//! Stripes spread contention: a caller-supplied key (say, a thread index)
//! picks the stripe, and an empty stripe means "fall back to fresh
//! allocation", never "search the other stripes". Every filed chain
//! carries, on its head block, the packed length-and-stripe descriptor
//! that names where it is filed and how long it is, updated together with
//! the filing itself. No block is ever filed in two places: the multiset
//! of all filed blocks never counts a block twice, and acquire and release
//! move whole chains, conserving that multiset exactly.

use vstd::prelude::*;
use vstd::multiset::Multiset;
use crate::block::{Chain, CtoPool};
use crate::chain::chain_wf;
use crate::descriptor::{ChainLengthAndBagStripeIndex, MAXIMUM_BAG_STRIPE_INDEX,
    MAXIMUM_CHAIN_LENGTH};

verus! {

/// A bag: one free-list stack of chains per stripe.
pub struct BlockBag {
    pub stripes: Vec<Vec<Chain>>,
}

/// Every block owned by the chains of `chains`, with multiplicity.
pub open spec fn chains_blocks(chains: Seq<Chain>) -> Multiset<usize>
    decreases chains.len(),
{
    if chains.len() == 0 {
        Multiset::empty()
    } else {
        chains_blocks(chains.drop_last()).add(chains.last().view_blocks().to_multiset())
    }
}

/// Every block filed in stripes `i ..`, with multiplicity.
pub open spec fn bag_blocks_from(stripes: Seq<Vec<Chain>>, i: int) -> Multiset<usize>
    decreases stripes.len() - i,
{
    if i < 0 || i >= stripes.len() {
        Multiset::empty()
    } else {
        chains_blocks(stripes[i]@).add(bag_blocks_from(stripes, i + 1))
    }
}

/// Filing one more chain onto a stack of chains adds exactly its blocks.
pub proof fn lemma_chains_blocks_push(chains: Seq<Chain>, c: Chain)
    ensures
        chains_blocks(chains.push(c)) == chains_blocks(chains).add(
            c.view_blocks().to_multiset(),
        ),
{
    assert(chains.push(c).drop_last() =~= chains);
    assert(chains.push(c).last() == c);
}

/// A chain on the stack contributes all its blocks to the stack's blocks.
pub proof fn lemma_chains_blocks_member(chains: Seq<Chain>, j: int, b: usize)
    requires
        0 <= j < chains.len(),
    ensures
        chains_blocks(chains).count(b) >= chains[j].view_blocks().to_multiset().count(b),
    decreases chains.len(),
{
    broadcast use vstd::multiset::group_multiset_axioms;

    if j == chains.len() - 1 {
        assert(chains.last() == chains[j]);
    } else {
        lemma_chains_blocks_member(chains.drop_last(), j, b);
        assert(chains.drop_last()[j] == chains[j]);
    }
}

/// A stripe's chains contribute all their blocks to the bag's blocks.
pub proof fn lemma_bag_blocks_member(stripes: Seq<Vec<Chain>>, i: int, s: int, b: usize)
    requires
        0 <= i <= s < stripes.len(),
    ensures
        bag_blocks_from(stripes, i).count(b) >= chains_blocks(stripes[s]@).count(b),
    decreases stripes.len() - i,
{
    broadcast use vstd::multiset::group_multiset_axioms;

    if i < s {
        lemma_bag_blocks_member(stripes, i + 1, s, b);
    }
}

/// Exchanging the chains of one stripe exchanges exactly their blocks:
/// the blocks filed elsewhere are untouched.
pub proof fn lemma_bag_blocks_one_stripe_changed(
    s1: Seq<Vec<Chain>>,
    s2: Seq<Vec<Chain>>,
    s: int,
    i: int,
)
    requires
        s1.len() == s2.len(),
        0 <= s < s1.len(),
        0 <= i <= s1.len(),
        forall|j: int| 0 <= j < s1.len() && j != s ==> (#[trigger] s2[j])@ == s1[j]@,
    ensures
        i <= s ==> bag_blocks_from(s2, i).add(chains_blocks(s1[s]@)) == bag_blocks_from(
            s1,
            i,
        ).add(chains_blocks(s2[s]@)),
        i > s ==> bag_blocks_from(s2, i) == bag_blocks_from(s1, i),
    decreases s1.len() - i,
{
    broadcast use vstd::multiset::group_multiset_axioms;

    if i < s1.len() {
        lemma_bag_blocks_one_stripe_changed(s1, s2, s, i + 1);
        assert(bag_blocks_from(s1, i) == chains_blocks(s1[i]@).add(bag_blocks_from(s1, i + 1)));
        assert(bag_blocks_from(s2, i) == chains_blocks(s2[i]@).add(bag_blocks_from(s2, i + 1)));
        if i == s {
            assert(bag_blocks_from(s2, i).add(chains_blocks(s1[s]@)) =~= bag_blocks_from(
                s1,
                i,
            ).add(chains_blocks(s2[s]@)));
        } else if i < s {
            assert(s2[i]@ == s1[i]@);
            let lhs = bag_blocks_from(s2, i).add(chains_blocks(s1[s]@));
            let rhs = bag_blocks_from(s1, i).add(chains_blocks(s2[s]@));
            assert forall|x: usize| lhs.count(x) == rhs.count(x) by {
                assert(bag_blocks_from(s2, i + 1).add(chains_blocks(s1[s]@)).count(x)
                    == bag_blocks_from(s1, i + 1).add(chains_blocks(s2[s]@)).count(x));
            }
            assert(lhs =~= rhs);
        } else {
            assert(s2[i]@ == s1[i]@);
            assert(bag_blocks_from(s2, i) =~= bag_blocks_from(s1, i));
        }
    }
}

impl BlockBag {
    /// How many stripes the bag was configured with.
    pub open spec fn stripe_count(self) -> int {
        self.stripes@.len() as int
    }

    /// Every block filed anywhere in the bag, with multiplicity.
    pub open spec fn bag_blocks(self) -> Multiset<usize> {
        bag_blocks_from(self.stripes@, 0)
    }

    /// The chain at position `j` of stripe `s` is soundly filed: well
    /// formed, length within the packed range, fully reset (no used
    /// bytes), and its head's descriptor names this stripe and its length.
    pub open spec fn filed_chain_ok(self, pool: CtoPool, s: int, j: int) -> bool {
        let c = self.stripes@[s]@[j];
        let bs = c.view_blocks();
        &&& chain_wf(pool, c)
        &&& 1 <= bs.len() <= MAXIMUM_CHAIN_LENGTH
        &&& forall|k: int|
            0 <= k < bs.len() ==> pool.used_length_of(#[trigger] bs[k] as int) == 0
        &&& pool.descriptor_of(bs[0] as int).spec_chain_length() == bs.len()
        &&& pool.descriptor_of(bs[0] as int).spec_bag_stripe_index() == s
    }

    /// Bag well-formedness over a pool: a supported stripe count, every
    /// filed chain sound, and no block filed twice.
    pub open spec fn wf(self, pool: CtoPool) -> bool {
        &&& 1 <= self.stripe_count() <= MAXIMUM_BAG_STRIPE_INDEX + 1
        &&& forall|s: int, j: int|
            0 <= s < self.stripe_count() && 0 <= j < self.stripes@[s]@.len()
                ==> self.filed_chain_ok(pool, s, j)
        &&& forall|b: usize| #[trigger] self.bag_blocks().count(b) <= 1
        &&& forall|b: usize| #[trigger] self.bag_blocks().count(b) > 0 ==> b < pool.block_count()
    }

    /// An empty bag with `stripe_count` stripes.
    pub fn new(stripe_count: usize) -> (r: Self)
        requires
            1 <= stripe_count <= MAXIMUM_BAG_STRIPE_INDEX + 1,
        ensures
            forall|pool: CtoPool| r.wf(pool),
            r.stripe_count() == stripe_count,
            r.bag_blocks() == Multiset::<usize>::empty(),
            forall|s: int| 0 <= s < stripe_count ==> (#[trigger] r.stripes@[s])@.len() == 0,
    {
        let mut stripes: Vec<Vec<Chain>> = Vec::new();
        let mut i: usize = 0;
        while i < stripe_count
            invariant
                i <= stripe_count,
                stripes@.len() == i,
                forall|s: int| 0 <= s < i ==> (#[trigger] stripes@[s])@.len() == 0,
            decreases stripe_count - i,
        {
            stripes.push(Vec::new());
            i = i + 1;
        }
        let r = BlockBag { stripes };
        proof {
            lemma_bag_blocks_empty(r.stripes@, 0);
        }
        r
    }

    /// The lock-free fast path of an acquire: pops the stripe's most
    /// recently filed chain, or reports the stripe empty — the caller
    /// must then fall back to fresh allocation, not search other stripes.
    /// The popped chain's descriptor is cleared, it leaves the bag whole,
    /// and nothing else moves: the bag's blocks lose exactly the chain's
    /// blocks, which were filed nowhere else.
    pub fn try_acquire(&mut self, pool: &mut CtoPool, stripe_key: usize) -> (r: Option<Chain>)
        requires
            old(self).wf(*old(pool)),
            old(pool).wf(),
        ensures
            final(self).wf(*final(pool)),
            final(pool).wf(),
            final(self).stripe_count() == old(self).stripe_count(),
            final(pool).block_capacity == old(pool).block_capacity,
            final(pool).budget == old(pool).budget,
            final(pool).epoch == old(pool).epoch,
            final(pool).block_count() == old(pool).block_count(),
            final(pool).payload@ == old(pool).payload@,
            r is None <==> old(self).stripes@[stripe_key as int % old(self).stripe_count()]@.len()
                == 0,
            r is None ==> *final(self) == *old(self) && *final(pool) == *old(pool),
            r matches Some(c) ==> {
                let s = stripe_key as int % old(self).stripe_count();
                &&& c == old(self).stripes@[s]@.last()
                &&& chain_wf(*final(pool), c)
                &&& 1 <= c.view_blocks().len() <= MAXIMUM_CHAIN_LENGTH
                &&& forall|k: int|
                    0 <= k < c.view_blocks().len() ==> final(pool).used_length_of(
                        #[trigger] c.view_blocks()[k] as int,
                    ) == 0
                &&& !final(pool).descriptor_of(c.view_blocks()[0] as int).spec_is_filed()
                &&& final(self).stripes@[s]@ == old(self).stripes@[s]@.drop_last()
                &&& forall|t: int|
                    0 <= t < old(self).stripe_count() && t != s ==> (#[trigger] final(self).stripes@[t])@ == old(self).stripes@[t]@
                &&& old(self).bag_blocks() == final(self).bag_blocks().add(
                    c.view_blocks().to_multiset(),
                )
                &&& forall|b: usize|
                    c.view_blocks().to_multiset().count(b) > 0 ==> #[trigger] final(self).bag_blocks().count(b) == 0
                &&& forall|b: int|
                    0 <= b < old(pool).block_count() && b != c.view_blocks()[0]
                        ==> final(pool).meta()[b] == old(pool).meta()[b]
                &&& forall|b: int|
                    0 <= b < old(pool).block_count() ==> #[trigger] final(pool).next_of(b)
                        == old(pool).next_of(b) && final(pool).used_length_of(b) == old(
                        pool,
                    ).used_length_of(b)
            },
    {
        broadcast use vstd::seq_lib::group_to_multiset_ensures;
        broadcast use vstd::multiset::group_multiset_axioms;

        let stripe_count = self.stripes.len();
        let stripe = stripe_key % stripe_count;
        let ghost s = stripe as int;
        let ghost old_bag = *self;
        if self.stripes[stripe].len() == 0 {
            return None;
        }
        let stripe_list = &mut self.stripes[stripe];
        let ghost old_stripe_chains = stripe_list@;
        let popped = stripe_list.pop();
        match popped {
            None => {
                proof {
                    assert(old_stripe_chains.len() > 0);
                    assert(false);
                }
                None
            },
            Some(c) => {
                proof {
                    assert(old_bag.filed_chain_ok(
                        *old(pool),
                        s,
                        old_stripe_chains.len() - 1,
                    ));
                    assert(old_stripe_chains[old_stripe_chains.len() - 1]
                        == old_stripe_chains.last());
                    assert(chains_blocks(old_stripe_chains) == chains_blocks(
                        old_stripe_chains.drop_last(),
                    ).add(c.view_blocks().to_multiset()));
                    assert(old_bag.stripes@[s]@ == old_stripe_chains);
                    assert(self.stripes@[s]@ =~= old_stripe_chains.drop_last());
                    assert(self.stripes@.len() == old_bag.stripes@.len());
                    assert forall|j: int|
                        0 <= j < old_bag.stripes@.len() && j != s implies (#[trigger] self
                        .stripes@[j])@ == old_bag.stripes@[j]@ by {
                        assert(self.stripes@[j] == old_bag.stripes@[j]);
                    }
                    lemma_bag_blocks_one_stripe_changed(
                        old_bag.stripes@,
                        self.stripes@,
                        s,
                        0,
                    );
                    assert(bag_blocks_from(self.stripes@, 0).add(chains_blocks(
                        old_bag.stripes@[s]@,
                    )) == bag_blocks_from(old_bag.stripes@, 0).add(chains_blocks(
                        self.stripes@[s]@,
                    )));
                    assert(self.bag_blocks().add(chains_blocks(old_stripe_chains))
                        == old_bag.bag_blocks().add(chains_blocks(self.stripes@[s]@)));
                    // the popped blocks are in the old bag once, so they are
                    // filed nowhere else
                    assert forall|b: usize|
                        c.view_blocks().to_multiset().count(b) > 0 implies #[trigger] self
                        .bag_blocks().count(b) == 0 by {
                        assert(old_bag.bag_blocks().count(b) <= 1);
                        assert(self.bag_blocks().add(chains_blocks(old_stripe_chains)).count(
                            b,
                        ) == old_bag.bag_blocks().add(chains_blocks(self.stripes@[s]@)).count(
                            b,
                        ));
                        assert(chains_blocks(self.stripes@[s]@).add(
                            c.view_blocks().to_multiset(),
                        ).count(b) == chains_blocks(old_stripe_chains).count(b));
                        assert(old_bag.bag_blocks().count(b) == self.bag_blocks().count(b)
                            + c.view_blocks().to_multiset().count(b));
                    }
                    assert forall|b: usize|
                        old_bag.bag_blocks().count(b) == self.bag_blocks().add(
                            c.view_blocks().to_multiset(),
                        ).count(b) by {
                        assert(self.bag_blocks().add(chains_blocks(old_stripe_chains)).count(
                            b,
                        ) == old_bag.bag_blocks().add(chains_blocks(self.stripes@[s]@)).count(
                            b,
                        ));
                        assert(chains_blocks(self.stripes@[s]@).add(
                            c.view_blocks().to_multiset(),
                        ).count(b) == chains_blocks(old_stripe_chains).count(b));
                    }
                    assert(old_bag.bag_blocks() =~= self.bag_blocks().add(
                        c.view_blocks().to_multiset(),
                    ));
                }
                let head = c.blocks[0];
                pool.set_descriptor(head, ChainLengthAndBagStripeIndex::unfiled());
                proof {
                    assert forall|x: int|
                        0 <= x < pool.block_count() implies #[trigger] pool.next_of(x) == old(
                        pool,
                    ).next_of(x) && pool.used_length_of(x) == old(pool).used_length_of(x) by {
                        if x != head {
                            assert(pool.meta()[x] == old(pool).meta()[x]);
                        }
                    }
                    lemma_filed_state_frame(*old(pool), *pool, c);
                    // every chain still filed keeps a sound descriptor: its
                    // head is filed, so it is not the popped head
                    let new_bag = *self;
                    assert forall|s2: int, j2: int|
                        0 <= s2 < new_bag.stripe_count() && 0 <= j2
                            < new_bag.stripes@[s2]@.len() implies new_bag.filed_chain_ok(
                        *pool,
                        s2,
                        j2,
                    ) by {
                        let c2 = new_bag.stripes@[s2]@[j2];
                        if s2 == s {
                            assert(new_bag.stripes@[s2]@ =~= old_stripe_chains.drop_last());
                            assert(old_bag.stripes@[s2]@[j2] == c2);
                            assert(old_bag.filed_chain_ok(*old(pool), s2, j2));
                        } else {
                            assert(old_bag.stripes@[s2]@ == new_bag.stripes@[s2]@);
                            assert(old_bag.filed_chain_ok(*old(pool), s2, j2));
                        }
                        lemma_filed_state_frame(*old(pool), *pool, c2);
                        // c2's blocks are all still filed, so none is the
                        // popped chain's head
                        assert forall|k: int|
                            0 <= k < c2.view_blocks().len() implies #[trigger] c2.view_blocks()[k]
                            != head by {
                            let b = c2.view_blocks()[k];
                            assert(c2.view_blocks().to_multiset().count(b) > 0);
                            lemma_chains_blocks_member(new_bag.stripes@[s2]@, j2, b);
                            lemma_bag_blocks_member(new_bag.stripes@, 0, s2, b);
                            assert(new_bag.bag_blocks().count(b) > 0);
                            assert(c.view_blocks().to_multiset().count(head) > 0);
                        }
                        assert(c2.view_blocks()[0] != head);
                        assert(pool.descriptor_of(c2.view_blocks()[0] as int) == old(pool).descriptor_of(c2.view_blocks()[0] as int));
                    }
                    assert forall|b: usize| #[trigger] self.bag_blocks().count(b) <= 1 by {
                        assert(old_bag.bag_blocks().count(b) <= 1);
                        assert(self.bag_blocks().add(c.view_blocks().to_multiset()).count(b)
                            == old_bag.bag_blocks().count(b));
                    }
                    assert forall|b: usize|
                        #[trigger] self.bag_blocks().count(b) > 0 implies b
                        < pool.block_count() by {
                        assert(self.bag_blocks().add(c.view_blocks().to_multiset()).count(b)
                            == old_bag.bag_blocks().count(b));
                        assert(old_bag.bag_blocks().count(b) > 0);
                    }
                    assert(self.wf(*pool));
                }
                Some(c)
            },
        }
    }

    /// Files a chain onto the named stripe: writes the packed descriptor
    /// on the chain's head — length and stripe together, so no torn pair
    /// can be seen — and pushes the chain. The chain must be reset and
    /// own blocks filed nowhere in the bag; the bag's blocks grow by
    /// exactly the chain's blocks.
    pub fn release(&mut self, pool: &mut CtoPool, chain: Chain, bag_stripe_index: usize)
        requires
            old(self).wf(*old(pool)),
            old(pool).wf(),
            bag_stripe_index < old(self).stripe_count(),
            chain_wf(*old(pool), chain),
            1 <= chain.view_blocks().len() <= MAXIMUM_CHAIN_LENGTH,
            forall|k: int|
                0 <= k < chain.view_blocks().len() ==> old(pool).used_length_of(
                    #[trigger] chain.view_blocks()[k] as int,
                ) == 0,
            forall|b: usize|
                chain.view_blocks().to_multiset().count(b) > 0 ==> #[trigger] old(self).bag_blocks().count(b) == 0,
        ensures
            final(self).wf(*final(pool)),
            final(pool).wf(),
            final(self).stripe_count() == old(self).stripe_count(),
            final(pool).block_capacity == old(pool).block_capacity,
            final(pool).budget == old(pool).budget,
            final(pool).epoch == old(pool).epoch,
            final(pool).block_count() == old(pool).block_count(),
            final(pool).payload@ == old(pool).payload@,
            final(self).stripes@[bag_stripe_index as int]@ == old(self).stripes@[bag_stripe_index as int]@.push(chain),
            forall|t: int|
                0 <= t < old(self).stripe_count() && t != bag_stripe_index ==> (#[trigger] final(self).stripes@[t])@ == old(self).stripes@[t]@,
            final(self).bag_blocks() == old(self).bag_blocks().add(
                chain.view_blocks().to_multiset(),
            ),
            forall|b: int|
                0 <= b < old(pool).block_count() && b != chain.view_blocks()[0]
                    ==> final(pool).meta()[b] == old(pool).meta()[b],
            forall|b: int|
                0 <= b < old(pool).block_count() ==> #[trigger] final(pool).next_of(b) == old(
                    pool,
                ).next_of(b) && final(pool).used_length_of(b) == old(pool).used_length_of(b),
    {
        broadcast use vstd::seq_lib::group_to_multiset_ensures;
        broadcast use vstd::multiset::group_multiset_axioms;

        let ghost old_bag = *self;
        let chain_length = chain.length();
        assert(chain_length <= MAXIMUM_CHAIN_LENGTH);
        let head = chain.blocks[0];
        let descriptor = ChainLengthAndBagStripeIndex::new(
            chain_length as u16,
            bag_stripe_index as u16,
        );
        pool.set_descriptor(head, descriptor);
        let ghost s = bag_stripe_index as int;
        let stripe_list = &mut self.stripes[bag_stripe_index];
        let ghost old_stripe_chains = stripe_list@;
        stripe_list.push(chain);
        proof {
            let ghost filed = chain.view_blocks().to_multiset();
            assert(old_bag.stripes@[s]@ == old_stripe_chains);
            assert(self.stripes@[s]@ == old_stripe_chains.push(chain));
            assert(self.stripes@.len() == old_bag.stripes@.len());
            assert forall|j: int|
                0 <= j < old_bag.stripes@.len() && j != s implies (#[trigger] self.stripes@[j])@
                == old_bag.stripes@[j]@ by {
                assert(self.stripes@[j] == old_bag.stripes@[j]);
            }
            lemma_chains_blocks_push(old_stripe_chains, chain);
            lemma_bag_blocks_one_stripe_changed(old_bag.stripes@, self.stripes@, s, 0);
            assert(bag_blocks_from(self.stripes@, 0).add(chains_blocks(
                old_bag.stripes@[s]@,
            )) == bag_blocks_from(old_bag.stripes@, 0).add(chains_blocks(
                self.stripes@[s]@,
            )));
            assert forall|b: usize|
                self.bag_blocks().count(b) == old_bag.bag_blocks().add(filed).count(b) by {
                assert(self.bag_blocks().add(chains_blocks(old_stripe_chains)).count(b)
                    == old_bag.bag_blocks().add(chains_blocks(self.stripes@[s]@)).count(b));
                assert(chains_blocks(old_stripe_chains).add(filed).count(b)
                    == chains_blocks(self.stripes@[s]@).count(b));
            }
            assert(self.bag_blocks() =~= old_bag.bag_blocks().add(
                chain.view_blocks().to_multiset(),
            ));
            // links and used lengths were untouched by the descriptor write
            assert forall|x: int|
                0 <= x < pool.block_count() implies #[trigger] pool.next_of(x) == old(
                pool,
            ).next_of(x) && pool.used_length_of(x) == old(pool).used_length_of(x) by {
                if x != head {
                    assert(pool.meta()[x] == old(pool).meta()[x]);
                }
            }
            lemma_filed_state_frame(*old(pool), *pool, chain);
            // every previously filed chain is unchanged and its head is not
            // the newly filed chain's head, so its descriptor stands
            let new_bag = *self;
            assert forall|s2: int, j2: int|
                0 <= s2 < new_bag.stripe_count() && 0 <= j2
                    < new_bag.stripes@[s2]@.len() implies new_bag.filed_chain_ok(
                *pool,
                s2,
                j2,
            ) by {
                if s2 == s && j2 == new_bag.stripes@[s2]@.len() - 1 {
                    assert(new_bag.stripes@[s2]@[j2] == chain);
                    assert(pool.descriptor_of(chain.view_blocks()[0] as int) == descriptor);
                } else {
                    let c2 = new_bag.stripes@[s2]@[j2];
                    assert(old_bag.stripes@[s2]@[j2] == c2);
                    assert(old_bag.filed_chain_ok(*old(pool), s2, j2));
                    lemma_filed_state_frame(*old(pool), *pool, c2);
                    assert forall|k: int|
                        0 <= k < c2.view_blocks().len() implies #[trigger] c2.view_blocks()[k]
                        != head by {
                        let b = c2.view_blocks()[k];
                        assert(c2.view_blocks().to_multiset().count(b) > 0);
                        lemma_chains_blocks_member(old_bag.stripes@[s2]@, j2, b);
                        lemma_bag_blocks_member(old_bag.stripes@, 0, s2, b);
                        assert(old_bag.bag_blocks().count(b) > 0);
                        assert(chain.view_blocks().to_multiset().count(head) > 0);
                    }
                    assert(c2.view_blocks()[0] != head);
                    assert(pool.descriptor_of(c2.view_blocks()[0] as int) == old(pool).descriptor_of(c2.view_blocks()[0] as int));
                }
            }
            // the new blocks arrive with multiplicity one
            assert forall|b: usize| #[trigger] self.bag_blocks().count(b) <= 1 by {
                assert(self.bag_blocks().count(b) == old_bag.bag_blocks().count(b)
                    + chain.view_blocks().to_multiset().count(b));
                if chain.view_blocks().to_multiset().count(b) > 0 {
                    assert(old_bag.bag_blocks().count(b) == 0);
                    chain.view_blocks().lemma_multiset_has_no_duplicates();
                }
            }
            assert forall|b: usize|
                #[trigger] self.bag_blocks().count(b) > 0 implies b < pool.block_count() by {
                assert(self.bag_blocks().count(b) == old_bag.bag_blocks().count(b)
                    + chain.view_blocks().to_multiset().count(b));
                if old_bag.bag_blocks().count(b) > 0 {
                } else {
                    assert(chain.view_blocks().to_multiset().count(b) > 0);
                    assert(chain.view_blocks().contains(b));
                }
            }
        }
    }
}

/// A bag whose stripes are all empty files no blocks at all.
pub proof fn lemma_bag_blocks_empty(stripes: Seq<Vec<Chain>>, i: int)
    requires
        forall|s: int| 0 <= s < stripes.len() ==> (#[trigger] stripes[s])@.len() == 0,
    ensures
        bag_blocks_from(stripes, i) == Multiset::<usize>::empty(),
    decreases stripes.len() - i,
{
    if 0 <= i < stripes.len() {
        lemma_bag_blocks_empty(stripes, i + 1);
        assert(bag_blocks_from(stripes, i) =~= Multiset::<usize>::empty());
    }
}



/// A filed chain's soundness conditions carry over to a pool state that
/// agrees on every link, every used length, and the chain's own head
/// descriptor.
pub proof fn lemma_filed_state_frame(p1: CtoPool, p2: CtoPool, c: Chain)
    requires
        p2.block_count() == p1.block_count(),
        p2.block_capacity == p1.block_capacity,
        forall|x: int| 0 <= x < p1.block_count() ==> #[trigger] p2.next_of(x) == p1.next_of(x),
        forall|x: int|
            0 <= x < p1.block_count() ==> #[trigger] p2.used_length_of(x) == p1.used_length_of(x),
        chain_wf(p1, c),
        forall|k: int|
            0 <= k < c.view_blocks().len() ==> p1.used_length_of(
                #[trigger] c.view_blocks()[k] as int,
            ) == 0,
    ensures
        chain_wf(p2, c),
        forall|k: int|
            0 <= k < c.view_blocks().len() ==> p2.used_length_of(
                #[trigger] c.view_blocks()[k] as int,
            ) == 0,
{
    let bs = c.view_blocks();
    assert forall|i: int|
        0 <= i < bs.len() implies #[trigger] p2.next_of(bs[i] as int) == (if i + 1 < bs.len() {
        Some(bs[i + 1])
    } else {
        None::<usize>
    }) by {
        assert(p1.next_of(bs[i] as int) == (if i + 1 < bs.len() {
            Some(bs[i + 1])
        } else {
            None::<usize>
        }));
    }
    assert forall|k: int|
        0 <= k < bs.len() implies p2.used_length_of(#[trigger] bs[k] as int) == 0 by {
        assert(p1.used_length_of(bs[k] as int) == 0);
    }
}


/// Bag well-formedness carries over to a pool state that agrees with the
/// old one on every filed block's link, used length, and descriptor —
/// whatever happened to blocks the bag does not hold.
pub proof fn lemma_bag_wf_frame(p1: CtoPool, p2: CtoPool, bag: BlockBag)
    requires
        bag.wf(p1),
        p2.block_capacity == p1.block_capacity,
        p2.block_count() >= p1.block_count(),
        forall|x: usize|
            bag.bag_blocks().count(x) > 0 ==> #[trigger] p2.next_of(x as int) == p1.next_of(
                x as int,
            ) && p2.used_length_of(x as int) == p1.used_length_of(x as int) && p2.descriptor_of(
                x as int,
            ) == p1.descriptor_of(x as int),
    ensures
        bag.wf(p2),
{
    broadcast use vstd::seq_lib::group_to_multiset_ensures;
    broadcast use vstd::multiset::group_multiset_axioms;

    assert forall|s: int, j: int|
        0 <= s < bag.stripe_count() && 0 <= j < bag.stripes@[s]@.len() implies bag.filed_chain_ok(
        p2,
        s,
        j,
    ) by {
        assert(bag.filed_chain_ok(p1, s, j));
        let c = bag.stripes@[s]@[j];
        let bs = c.view_blocks();
        assert forall|k: int| 0 <= k < bs.len() implies bag.bag_blocks().count(
            #[trigger] bs[k],
        ) > 0 by {
            assert(bs.to_multiset().count(bs[k]) > 0);
            lemma_chains_blocks_member(bag.stripes@[s]@, j, bs[k]);
            lemma_bag_blocks_member(bag.stripes@, 0, s, bs[k]);
        }
        assert forall|i: int|
            0 <= i < bs.len() implies #[trigger] p2.next_of(bs[i] as int) == (if i + 1
            < bs.len() {
            Some(bs[i + 1])
        } else {
            None::<usize>
        }) by {
            assert(bag.bag_blocks().count(bs[i]) > 0);
            assert(p1.next_of(bs[i] as int) == (if i + 1 < bs.len() {
                Some(bs[i + 1])
            } else {
                None::<usize>
            }));
        }
        assert forall|k: int|
            0 <= k < bs.len() implies p2.used_length_of(#[trigger] bs[k] as int) == 0 by {
            assert(bag.bag_blocks().count(bs[k]) > 0);
            assert(p2.next_of(bs[k] as int) == p1.next_of(bs[k] as int));
            assert(p1.used_length_of(bs[k] as int) == 0);
        }
        assert(bag.bag_blocks().count(bs[0]) > 0);
        assert(p2.next_of(bs[0] as int) == p1.next_of(bs[0] as int));
        assert(p2.descriptor_of(bs[0] as int) == p1.descriptor_of(bs[0] as int));
    }
    assert forall|b: usize|
        #[trigger] bag.bag_blocks().count(b) > 0 implies b < p2.block_count() by {
        assert(b < p1.block_count());
    }
}


/// No block is ever filed in two places at once: a well-formed bag
/// counts every block at most once across all stripes and all chains,
/// so a chain leaving one stripe can never still be linked under
/// another, and the blocks a bag holds plus the blocks held by live
/// chains are conserved by the acquire and release operations above.
pub proof fn lemma_no_block_filed_twice(bag: BlockBag, pool: CtoPool, b: usize)
    requires
        bag.wf(pool),
    ensures
        bag.bag_blocks().count(b) <= 1,
{
}

} // verus!
