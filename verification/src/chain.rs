//! Chain well-formedness, chain contents, and writing into a chain.
//!
//! A chain's logical byte-span is the concatenation of the used prefixes of
//! its blocks. Writers append at the write frontier: every block before the
//! frontier is fully used, every block after it is untouched, so only the
//! final written block may be partially used.

use vstd::prelude::*;
use crate::block::{Chain, CtoPool};
use crate::descriptor::MAXIMUM_CHAIN_LENGTH;
use crate::errors::PmdkError;

verus! {

/// A chain is well formed over a pool when it is non-empty, owns distinct
/// in-range blocks whose persisted next-links mirror the walk order, and
/// its total capacity is addressable.
pub open spec fn chain_wf(pool: CtoPool, chain: Chain) -> bool {
    let bs = chain.view_blocks();
    &&& bs.len() >= 1
    &&& bs.no_duplicates()
    &&& forall|i: int| 0 <= i < bs.len() ==> (#[trigger] bs[i]) < pool.block_count()
    &&& forall|i: int|
        0 <= i < bs.len() ==> #[trigger] pool.next_of(bs[i] as int) == (if i + 1 < bs.len() {
            Some(bs[i + 1])
        } else {
            None::<usize>
        })
    &&& bs.len() * pool.block_capacity <= usize::MAX
}

/// The used shape of a chain: bytes are packed from the front, so a block
/// with any used bytes behind it is fully used. Together with `chain_wf`
/// this means only the final written block is partial and everything after
/// the write frontier is untouched.
pub open spec fn chain_filled_seq(pool: CtoPool, bs: Seq<usize>) -> bool {
    forall|i: int, j: int|
        0 <= i < j < bs.len() && pool.used_length_of(#[trigger] bs[j] as int) > 0
            ==> pool.used_length_of(#[trigger] bs[i] as int) == pool.block_capacity
}

/// The used shape of a chain, over the chain itself.
pub open spec fn chain_filled(pool: CtoPool, chain: Chain) -> bool {
    chain_filled_seq(pool, chain.view_blocks())
}

/// The used bytes of blocks `bs[i ..]`, concatenated in walk order.
pub open spec fn chain_content_from(pool: CtoPool, bs: Seq<usize>, i: int) -> Seq<u8>
    decreases bs.len() - i,
{
    if i < 0 || i >= bs.len() {
        Seq::empty()
    } else {
        pool.used_bytes(bs[i] as int) + chain_content_from(pool, bs, i + 1)
    }
}

/// The logical byte-span a chain holds: every used byte, in walk order.
pub open spec fn chain_content(pool: CtoPool, chain: Chain) -> Seq<u8> {
    chain_content_from(pool, chain.view_blocks(), 0)
}

/// All payload bytes of blocks `bs[i ..]`, used or not, concatenated in
/// walk order: the raw byte-span the chain's capacity covers.
pub open spec fn chain_raw_from(pool: CtoPool, bs: Seq<usize>, i: int) -> Seq<u8>
    decreases bs.len() - i,
{
    if i < 0 || i >= bs.len() {
        Seq::empty()
    } else {
        pool.block_bytes(bs[i] as int) + chain_raw_from(pool, bs, i + 1)
    }
}

/// The raw byte-span of a whole chain.
pub open spec fn chain_raw(pool: CtoPool, chain: Chain) -> Seq<u8> {
    chain_raw_from(pool, chain.view_blocks(), 0)
}

/// Capacity of a chain in bytes: the sum of its blocks' capacities.
pub open spec fn chain_capacity(pool: CtoPool, chain: Chain) -> int {
    chain.view_blocks().len() * pool.block_capacity
}

/// The raw byte-span of `bs[i ..]` has one block capacity per block.
pub proof fn lemma_chain_raw_len(pool: CtoPool, bs: Seq<usize>, i: int)
    requires
        pool.wf(),
        0 <= i <= bs.len(),
        forall|k: int| 0 <= k < bs.len() ==> (#[trigger] bs[k]) < pool.block_count(),
    ensures
        chain_raw_from(pool, bs, i).len() == (bs.len() - i) * pool.block_capacity,
    decreases bs.len() - i,
{
    if i < bs.len() {
        lemma_chain_raw_len(pool, bs, i + 1);
        assert(pool.block_bytes(bs[i] as int).len() == pool.block_capacity);
        assert((bs.len() - i) * pool.block_capacity == pool.block_capacity + (bs.len() - i - 1)
            * pool.block_capacity) by (nonlinear_arith);
    } else {
        assert((bs.len() - i) * pool.block_capacity == 0) by (nonlinear_arith)
            requires
                i == bs.len(),
        ;
    }
}

/// Two pools agree on the content of `bs[i ..]` when they agree on the
/// used bytes of every one of those blocks.
pub proof fn lemma_content_from_frame(p1: CtoPool, p2: CtoPool, bs: Seq<usize>, i: int)
    requires
        forall|k: int| i <= k < bs.len() ==> p2.used_bytes(#[trigger] bs[k] as int) == p1.used_bytes(bs[k] as int),
    ensures
        chain_content_from(p2, bs, i) == chain_content_from(p1, bs, i),
    decreases bs.len() - i,
{
    if 0 <= i < bs.len() {
        lemma_content_from_frame(p1, p2, bs, i + 1);
    }
}

/// Untouched blocks contribute nothing: if every block of `bs[i ..]` has
/// used length zero, their concatenated content is empty.
pub proof fn lemma_content_from_empty(pool: CtoPool, bs: Seq<usize>, i: int)
    requires
        forall|k: int| i <= k < bs.len() ==> pool.used_length_of(#[trigger] bs[k] as int) == 0,
    ensures
        chain_content_from(pool, bs, i) == Seq::<u8>::empty(),
    decreases bs.len() - i,
{
    if 0 <= i < bs.len() {
        lemma_content_from_empty(pool, bs, i + 1);
        assert(pool.used_bytes(bs[i] as int) == Seq::<u8>::empty());
        assert(chain_content_from(pool, bs, i) =~= Seq::<u8>::empty());
    }
}

/// Growing the used prefix of the frontier block `bs[k]` by `seg` appends
/// `seg` to the chain's content, provided everything behind the frontier
/// is untouched and no other block of the chain changed.
pub proof fn lemma_content_append_at(
    p1: CtoPool,
    p2: CtoPool,
    bs: Seq<usize>,
    i: int,
    k: int,
    seg: Seq<u8>,
)
    requires
        0 <= i <= k < bs.len(),
        forall|j: int|
            i <= j < bs.len() && j != k ==> p2.used_bytes(#[trigger] bs[j] as int) == p1.used_bytes(
                bs[j] as int,
            ),
        p2.used_bytes(bs[k] as int) == p1.used_bytes(bs[k] as int) + seg,
        forall|j: int| k < j < bs.len() ==> p1.used_length_of(#[trigger] bs[j] as int) == 0,
    ensures
        chain_content_from(p2, bs, i) == chain_content_from(p1, bs, i) + seg,
    decreases k - i,
{
    if i == k {
        lemma_content_from_empty(p1, bs, k + 1);
        lemma_content_from_frame(p1, p2, bs, k + 1);
        assert(chain_content_from(p2, bs, i) =~= chain_content_from(p1, bs, i) + seg);
    } else {
        lemma_content_append_at(p1, p2, bs, i + 1, k, seg);
        assert(chain_content_from(p2, bs, i) =~= chain_content_from(p1, bs, i) + seg);
    }
}

/// How many logical bytes a chain holds. The walk stops adding full blocks
/// at the write frontier, so the sum never exceeds the chain's capacity.
pub fn chain_used_length(pool: &CtoPool, chain: &Chain) -> (r: usize)
    requires
        pool.wf(),
        chain_wf(*pool, *chain),
    ensures
        r == chain_content(*pool, *chain).len(),
        r <= chain_capacity(*pool, *chain),
{
    proof {
        lemma_content_len_bound(*pool, chain.view_blocks(), 0);
    }
    let ghost bs = chain.view_blocks();
    let n = chain.length();
    let mut acc: usize = 0;
    let mut i: usize = 0;
    while i < n
        invariant
            pool.wf(),
            chain_wf(*pool, *chain),
            bs == chain.view_blocks(),
            n == bs.len(),
            i <= n,
            acc + chain_content_from(*pool, bs, i as int).len() == chain_content_from(
                *pool,
                bs,
                0,
            ).len(),
            acc <= i * pool.block_capacity,
        decreases n - i,
    {
        let b = chain.blocks[i];
        let u = pool.get_used_length(b);
        proof {
            assert(pool.used_length_of(b as int) <= pool.block_capacity);
            assert(pool.block_bytes(b as int).len() == pool.block_capacity);
            assert(pool.used_bytes(b as int).len() == pool.used_length_of(b as int));
            assert(acc + u <= (i + 1) * pool.block_capacity) by (nonlinear_arith)
                requires
                    acc <= i * pool.block_capacity,
                    u <= pool.block_capacity,
                    i >= 0,
            ;
            assert((i + 1) * pool.block_capacity <= bs.len() * pool.block_capacity)
                by (nonlinear_arith)
                requires
                    i + 1 <= bs.len(),
                    pool.block_capacity >= 0,
            ;
        }
        acc = acc + u;
        i = i + 1;
    }
    proof {
        assert(acc <= n * pool.block_capacity) by (nonlinear_arith)
            requires
                acc <= n * pool.block_capacity,
        ;
    }
    acc
}

/// At a write frontier `f` — full blocks before it, `u` bytes used at it,
/// untouched blocks after it — the content length of `bs[i ..]` is exact.
pub proof fn lemma_content_len_at_frontier(pool: CtoPool, bs: Seq<usize>, i: int, f: int, u: int)
    requires
        pool.wf(),
        0 <= i <= bs.len(),
        i <= f <= bs.len(),
        forall|k: int| 0 <= k < bs.len() ==> (#[trigger] bs[k]) < pool.block_count(),
        forall|j: int| i <= j < f ==> pool.used_length_of(#[trigger] bs[j] as int)
            == pool.block_capacity,
        f < bs.len() ==> pool.used_length_of(bs[f] as int) == u,
        f == bs.len() ==> u == 0,
        forall|j: int| f < j < bs.len() ==> pool.used_length_of(#[trigger] bs[j] as int) == 0,
    ensures
        chain_content_from(pool, bs, i).len() == (f - i) * pool.block_capacity + u,
    decreases bs.len() - i,
{
    if i == f {
        if f == bs.len() {
            assert((f - i) * pool.block_capacity == 0) by (nonlinear_arith)
                requires
                    f == i,
            ;
        } else {
            lemma_content_from_empty(pool, bs, f + 1);
            assert(pool.block_bytes(bs[f] as int).len() == pool.block_capacity);
            assert(pool.used_bytes(bs[f] as int).len() == u);
            assert((f - i) * pool.block_capacity == 0) by (nonlinear_arith)
                requires
                    f == i,
            ;
        }
    } else {
        lemma_content_len_at_frontier(pool, bs, i + 1, f, u);
        assert(pool.block_bytes(bs[i] as int).len() == pool.block_capacity);
        assert(pool.used_bytes(bs[i] as int).len() == pool.block_capacity);
        assert((f - i) * pool.block_capacity == pool.block_capacity + (f - i - 1)
            * pool.block_capacity) by (nonlinear_arith);
    }
}

/// Copies `bytes` into the chain at its write frontier, filling the
/// partially used block first and then walking forward block by block.
/// Already-written bytes are never moved. Fails with `CapacityExceeded`,
/// and changes nothing, exactly when the bytes do not fit the capacity
/// the chain still has free.
pub fn append_to_chain(pool: &mut CtoPool, chain: &Chain, bytes: &[u8]) -> (r: Result<
    (),
    PmdkError,
>)
    requires
        old(pool).wf(),
        chain_wf(*old(pool), *chain),
        chain_filled(*old(pool), *chain),
    ensures
        final(pool).wf(),
        chain_wf(*final(pool), *chain),
        chain_filled(*final(pool), *chain),
        final(pool).block_capacity == old(pool).block_capacity,
        final(pool).budget == old(pool).budget,
        final(pool).epoch == old(pool).epoch,
        final(pool).block_count() == old(pool).block_count(),
        r is Ok <==> chain_content(*old(pool), *chain).len() + bytes@.len() <= chain_capacity(
            *old(pool),
            *chain,
        ),
        r is Err ==> *final(pool) == *old(pool) && r == Err::<(), PmdkError>(
            PmdkError::CapacityExceeded,
        ),
        r is Ok ==> chain_content(*final(pool), *chain) == chain_content(*old(pool), *chain)
            + bytes@,
        forall|b: int|
            0 <= b < old(pool).block_count() && !chain.block_set().contains(b as usize)
                ==> final(pool).block_bytes(b) == old(pool).block_bytes(b) && final(pool).meta()[b]
                == old(pool).meta()[b],
        forall|b: int|
            0 <= b < old(pool).block_count() ==> #[trigger] final(pool).next_of(b) == old(
                pool,
            ).next_of(b) && final(pool).descriptor_of(b) == old(pool).descriptor_of(b),
{
    let ghost bs = chain.view_blocks();
    let cap = pool.block_capacity;
    let n_blocks = chain.length();
    let total_capacity = n_blocks * cap;
    // find the write frontier: the first block that is not fully used
    let mut k: usize = 0;
    while k < n_blocks && pool.get_used_length(chain.blocks[k]) == cap
        invariant
            pool.wf(),
            chain_wf(*pool, *chain),
            bs == chain.view_blocks(),
            n_blocks == bs.len(),
            cap == pool.block_capacity,
            k <= n_blocks,
            forall|i: int|
                0 <= i < k ==> pool.used_length_of(#[trigger] bs[i] as int)
                    == pool.block_capacity,
        decreases n_blocks - k,
    {
        k = k + 1;
    }
    let mut u: usize = if k < n_blocks {
        pool.get_used_length(chain.blocks[k])
    } else {
        0
    };
    proof {
        assert forall|j: int|
            k < j < bs.len() implies pool.used_length_of(#[trigger] bs[j] as int) == 0 by {
            if pool.used_length_of(bs[j] as int) > 0 {
                assert(pool.used_length_of(bs[k as int] as int) == pool.block_capacity);
            }
        }
        lemma_content_len_at_frontier(*pool, bs, 0, k as int, u as int);
        assert(k * cap + u <= bs.len() * cap) by (nonlinear_arith)
            requires
                k < bs.len() && u <= cap || k == bs.len() && u == 0,
                cap >= 0,
        ;
    }
    let l = k * cap + u;
    if bytes.len() > total_capacity - l {
        return Err(PmdkError::CapacityExceeded);
    }
    let ghost old_content = chain_content(*old(pool), *chain);
    proof {
        assert(old_content =~= old_content + bytes@.subrange(0, 0));
        assert(bytes@.len() - 0 <= (n_blocks - k) * cap - u) by (nonlinear_arith)
            requires
                bytes@.len() + k * cap + u <= n_blocks * cap,
        ;
    }
    let mut consumed: usize = 0;
    while consumed < bytes.len()
        invariant
            old(pool).wf(),
            chain_wf(*old(pool), *chain),
            pool.wf(),
            chain_wf(*pool, *chain),
            bs == chain.view_blocks(),
            n_blocks == bs.len(),
            cap == pool.block_capacity,
            consumed <= bytes.len(),
            k <= n_blocks,
            k < n_blocks ==> u < cap,
            k == n_blocks ==> u == 0,
            bytes@.len() - consumed <= (n_blocks - k) * cap - u,
            forall|i: int|
                0 <= i < k ==> pool.used_length_of(#[trigger] bs[i] as int)
                    == pool.block_capacity,
            k < n_blocks ==> pool.used_length_of(bs[k as int] as int) == u,
            forall|j: int|
                k < j < bs.len() ==> pool.used_length_of(#[trigger] bs[j] as int) == 0,
            chain_content(*pool, *chain) == old_content + bytes@.subrange(0, consumed as int),
            old_content == chain_content(*old(pool), *chain),
            pool.block_capacity == old(pool).block_capacity,
            pool.budget == old(pool).budget,
            pool.epoch == old(pool).epoch,
            pool.block_count() == old(pool).block_count(),
            forall|b: int|
                0 <= b < old(pool).block_count() && !chain.block_set().contains(b as usize)
                    ==> pool.block_bytes(b) == old(pool).block_bytes(b) && pool.meta()[b] == old(
                    pool,
                ).meta()[b],
            forall|b: int|
                0 <= b < old(pool).block_count() ==> #[trigger] pool.next_of(b) == old(
                    pool,
                ).next_of(b) && pool.descriptor_of(b) == old(pool).descriptor_of(b),
        decreases bytes.len() - consumed,
    {
        proof {
            if k == n_blocks {
                assert((n_blocks - k) * cap - u == 0) by (nonlinear_arith)
                    requires
                        k == n_blocks,
                        u == 0,
                ;
            }
        }
        let b = chain.blocks[k];
        let room = cap - u;
        let remaining = bytes.len() - consumed;
        let w = if remaining < room {
            remaining
        } else {
            room
        };
        let ghost p_pre = *pool;
        pool.write_within_block(b, u, bytes, consumed, w);
        let ghost p_mid = *pool;
        pool.set_used_length(b, u + w);
        proof {
            let ghost seg = bytes@.subrange(consumed as int, consumed + w);
            assert(p_pre.block_bytes(b as int).len() == cap);
            // the used prefix of the frontier block grew by exactly `seg`
            assert(pool.used_bytes(b as int) =~= p_pre.used_bytes(b as int) + seg);
            // every other block of the chain kept its used bytes
            assert forall|j: int|
                0 <= j < bs.len() && j != k implies pool.used_bytes(#[trigger] bs[j] as int)
                == p_pre.used_bytes(bs[j] as int) by {
                assert(bs[j] != bs[k as int]);
                assert(pool.block_bytes(bs[j] as int) == p_pre.block_bytes(bs[j] as int));
                assert(pool.meta()[bs[j] as int] == p_pre.meta()[bs[j] as int]);
            }
            lemma_content_append_at(p_pre, *pool, bs, 0, k as int, seg);
            // links, descriptors, and foreign blocks are untouched
            assert forall|x: int|
                0 <= x < pool.block_count() implies #[trigger] pool.next_of(x) == p_pre.next_of(
                x,
            ) && pool.descriptor_of(x) == p_pre.descriptor_of(x) by {
                if x != b {
                    assert(pool.meta()[x] == p_mid.meta()[x]);
                    assert(p_mid.meta()[x] == p_pre.meta()[x]);
                }
            }
            assert forall|x: int|
                0 <= x < pool.block_count() implies #[trigger] pool.next_of(x) == old(
                pool,
            ).next_of(x) && pool.descriptor_of(x) == old(pool).descriptor_of(x) by {
                assert(p_pre.next_of(x) == old(pool).next_of(x));
                assert(p_pre.descriptor_of(x) == old(pool).descriptor_of(x));
            }
            assert forall|i: int|
                0 <= i < bs.len() implies #[trigger] pool.next_of(bs[i] as int) == (if i + 1
                < bs.len() {
                Some(bs[i + 1])
            } else {
                None::<usize>
            }) by {
                assert(p_pre.next_of(bs[i] as int) == (if i + 1 < bs.len() {
                    Some(bs[i + 1])
                } else {
                    None::<usize>
                }));
            }
            assert(bs.contains(b));
            assert(chain.block_set().contains(b));
            assert forall|x: int|
                0 <= x < old(pool).block_count() && !chain.block_set().contains(
                    x as usize,
                ) implies pool.block_bytes(x) == old(pool).block_bytes(x) && pool.meta()[x] == old(
                pool,
            ).meta()[x] by {
                assert(x != b);
                assert(pool.block_bytes(x) == p_mid.block_bytes(x));
                assert(p_mid.block_bytes(x) == p_pre.block_bytes(x));
                assert(pool.meta()[x] == p_mid.meta()[x]);
                assert(p_mid.meta()[x] == p_pre.meta()[x]);
                assert(p_pre.block_bytes(x) == old(pool).block_bytes(x));
                assert(p_pre.meta()[x] == old(pool).meta()[x]);
            }
            assert(chain_content(*pool, *chain) =~= old_content + bytes@.subrange(
                0,
                consumed + w,
            ));
            assert(bytes@.len() - (consumed + w) <= (if w == room {
                (n_blocks - (k + 1)) * cap - 0
            } else {
                (n_blocks - k) * cap - (u + w)
            })) by (nonlinear_arith)
                requires
                    bytes@.len() - consumed <= (n_blocks - k) * cap - u,
                    w == room || w == remaining,
                    remaining == bytes@.len() - consumed,
                    room == cap - u,
                    w >= 0,
            ;
        }
        consumed = consumed + w;
        if w == room {
            k = k + 1;
            u = 0;
        } else {
            u = u + w;
        }
    }
    proof {
        assert(bytes@.subrange(0, bytes@.len() as int) =~= bytes@);
        assert forall|i: int, j: int|
            0 <= i < j < bs.len() && pool.used_length_of(#[trigger] bs[j] as int) > 0 implies pool
            .used_length_of(#[trigger] bs[i] as int) == pool.block_capacity by {
            assert(j > k ==> pool.used_length_of(bs[j] as int) == 0);
        }
    }
    Ok(())
}

/// Under the packed used shape, the logical content of `bs[i ..]` is
/// exactly the first `content.len()` bytes of its raw byte-span: reading
/// back as many raw bytes as were written yields the written bytes.
pub proof fn lemma_content_is_raw_prefix(pool: CtoPool, bs: Seq<usize>, i: int)
    requires
        pool.wf(),
        0 <= i <= bs.len(),
        forall|k: int| 0 <= k < bs.len() ==> (#[trigger] bs[k]) < pool.block_count(),
        chain_filled_seq(pool, bs),
    ensures
        chain_content_from(pool, bs, i) == chain_raw_from(pool, bs, i).take(
            chain_content_from(pool, bs, i).len() as int,
        ),
    decreases bs.len() - i,
{
    if i < bs.len() {
        lemma_content_is_raw_prefix(pool, bs, i + 1);
        lemma_content_len_bound(pool, bs, i + 1);
        lemma_chain_raw_len(pool, bs, i + 1);
        assert(pool.block_bytes(bs[i] as int).len() == pool.block_capacity);
        if pool.used_length_of(bs[i] as int) == pool.block_capacity {
            assert(pool.used_bytes(bs[i] as int) =~= pool.block_bytes(bs[i] as int));
            assert(chain_content_from(pool, bs, i) =~= chain_raw_from(pool, bs, i).take(
                chain_content_from(pool, bs, i).len() as int,
            ));
        } else {
            // the first partial block ends the content: everything after is untouched
            assert forall|j: int|
                i < j < bs.len() implies pool.used_length_of(#[trigger] bs[j] as int) == 0 by {
                if pool.used_length_of(bs[j] as int) > 0 {
                    assert(pool.used_length_of(bs[i] as int) == pool.block_capacity);
                }
            }
            lemma_content_from_empty(pool, bs, i + 1);
            assert(chain_content_from(pool, bs, i) =~= pool.used_bytes(bs[i] as int));
            assert(chain_content_from(pool, bs, i) =~= chain_raw_from(pool, bs, i).take(
                chain_content_from(pool, bs, i).len() as int,
            ));
        }
    }
}

/// Appending untouched blocks to the tail of a chain leaves its logical
/// content exactly as it was: growth never moves already-written bytes.
pub proof fn lemma_content_extend(
    p1: CtoPool,
    p2: CtoPool,
    bs: Seq<usize>,
    ext: Seq<usize>,
    i: int,
)
    requires
        0 <= i <= bs.len(),
        forall|k: int|
            i <= k < bs.len() ==> p2.used_bytes(#[trigger] bs[k] as int) == p1.used_bytes(
                bs[k] as int,
            ),
        forall|k: int| 0 <= k < ext.len() ==> p2.used_length_of(#[trigger] ext[k] as int) == 0,
    ensures
        chain_content_from(p2, bs + ext, i) == chain_content_from(p1, bs, i),
    decreases bs.len() - i,
{
    if i < bs.len() {
        lemma_content_extend(p1, p2, bs, ext, i + 1);
        assert((bs + ext)[i] == bs[i]);
        assert(chain_content_from(p2, bs + ext, i) =~= chain_content_from(p1, bs, i));
    } else {
        assert forall|k: int|
            i <= k < (bs + ext).len() implies p2.used_length_of(
            #[trigger] (bs + ext)[k] as int,
        ) == 0 by {
            assert((bs + ext)[k] == ext[k - bs.len()]);
            assert(p2.used_length_of(ext[k - bs.len()] as int) == 0);
        }
        lemma_content_from_empty(p2, bs + ext, i);
        assert(chain_content_from(p1, bs, i) == Seq::<u8>::empty());
    }
}

/// The content of `bs[i ..]` is at most one block capacity per block.
pub proof fn lemma_content_len_bound(pool: CtoPool, bs: Seq<usize>, i: int)
    requires
        pool.wf(),
        0 <= i <= bs.len(),
        forall|k: int| 0 <= k < bs.len() ==> (#[trigger] bs[k]) < pool.block_count(),
    ensures
        chain_content_from(pool, bs, i).len() <= (bs.len() - i) * pool.block_capacity,
    decreases bs.len() - i,
{
    if i < bs.len() {
        lemma_content_len_bound(pool, bs, i + 1);
        assert(pool.block_bytes(bs[i] as int).len() == pool.block_capacity);
        assert(pool.used_length_of(bs[i] as int) <= pool.block_capacity);
        assert((bs.len() - i) * pool.block_capacity == pool.block_capacity + (bs.len() - i - 1)
            * pool.block_capacity) by (nonlinear_arith);
    }
}


/// The persisted next-links starting at block `b` form a sound walk of
/// exactly `count` blocks: every index in range, every link strictly
/// ascending (chains are built with ascending block numbers, so a cycle
/// or a crossed link betrays a damaged image), and the final link ending
/// the list.
pub open spec fn valid_walk_from(pool: CtoPool, b: int, count: int) -> bool
    decreases count,
{
    if count <= 0 {
        false
    } else if !(0 <= b < pool.block_count()) {
        false
    } else if count == 1 {
        pool.next_of(b) is None
    } else {
        match pool.next_of(b) {
            Some(next) => next > b && valid_walk_from(pool, next as int, count - 1),
            None => false,
        }
    }
}

/// A sound walk starts at an in-range block and owes at least one.
pub proof fn lemma_valid_walk_in_range(pool: CtoPool, b: int, count: int)
    requires
        valid_walk_from(pool, b, count),
    ensures
        0 <= b < pool.block_count(),
        count >= 1,
{
}

/// A block table whose entries are in range, strictly ascending, and
/// linked in order is a sound walk from any of its positions onwards.
pub proof fn lemma_table_is_valid_walk(pool: CtoPool, bs: Seq<usize>, i: int)
    requires
        0 <= i < bs.len(),
        forall|k: int| 0 <= k < bs.len() ==> (#[trigger] bs[k]) < pool.block_count(),
        forall|k: int| 0 <= k < bs.len() - 1 ==> (#[trigger] bs[k]) < bs[k + 1],
        forall|k: int|
            0 <= k < bs.len() ==> #[trigger] pool.next_of(bs[k] as int) == (if k + 1 < bs.len() {
                Some(bs[k + 1])
            } else {
                None::<usize>
            }),
    ensures
        valid_walk_from(pool, bs[i] as int, bs.len() - i),
    decreases bs.len() - i,
{
    if i + 1 < bs.len() {
        lemma_table_is_valid_walk(pool, bs, i + 1);
    }
}

/// Rebuilds a chain's transient block table after a reopen by walking
/// the persisted next-links from `head` for `length` blocks. It yields a
/// chain exactly when the persisted links form a sound walk of that
/// length within the class's maximum; anything else — an out-of-range or
/// descending link, a list ending early or late — betrays a damaged
/// image and yields nothing.
pub fn rebuild_chain(pool: &CtoPool, head: usize, length: usize) -> (r: Option<Chain>)
    requires
        pool.wf(),
        MAXIMUM_CHAIN_LENGTH as int * pool.block_capacity <= usize::MAX,
    ensures
        r is Some <==> 1 <= length <= MAXIMUM_CHAIN_LENGTH && valid_walk_from(
            *pool,
            head as int,
            length as int,
        ),
        r matches Some(c) ==> {
            &&& chain_wf(*pool, c)
            &&& c.view_blocks().len() == length
            &&& c.view_blocks()[0] == head
            &&& 1 <= length <= MAXIMUM_CHAIN_LENGTH
        },
{
    if length == 0 || length > MAXIMUM_CHAIN_LENGTH as usize {
        return None;
    }
    let block_count = pool.block_meta_data_items.items.len();
    if head >= block_count {
        // out of range: no walk of any positive length starts here
        proof {
            if valid_walk_from(*pool, head as int, length as int) {
                lemma_valid_walk_in_range(*pool, head as int, length as int);
            }
        }
        return None;
    }
    let mut blocks: Vec<usize> = Vec::new();
    let mut current = head;
    blocks.push(current);
    let mut i: usize = 1;
    while i < length
        invariant
            pool.wf(),
            block_count == pool.block_count(),
            head < block_count,
            1 <= i <= length,
            length <= MAXIMUM_CHAIN_LENGTH,
            blocks@.len() == i,
            blocks@[0] == head,
            current == blocks@[i - 1],
            current < block_count,
            forall|k: int| 0 <= k < i ==> (#[trigger] blocks@[k]) < pool.block_count(),
            forall|k: int| 0 <= k < i - 1 ==> (#[trigger] blocks@[k]) < blocks@[k + 1],
            forall|k: int|
                0 <= k < i - 1 ==> #[trigger] pool.next_of(blocks@[k] as int) == Some(
                    blocks@[k + 1],
                ),
            // a sound walk of the full length, if one exists, passes
            // through the cursor with this many blocks still owed
            valid_walk_from(*pool, head as int, length as int) ==> valid_walk_from(
                *pool,
                current as int,
                length - i + 1,
            ),
        decreases length - i,
    {
        let next = pool.get_next(current);
        match next {
            Some(b) => {
                if b >= block_count || b <= current {
                    // a sound walk would continue in range and ascending
                    proof {
                        if valid_walk_from(*pool, head as int, length as int) {
                            assert(valid_walk_from(*pool, current as int, length - i + 1));
                            assert(length - i + 1 >= 2);
                            assert(b > current && valid_walk_from(*pool, b as int, length - i));
                            lemma_valid_walk_in_range(*pool, b as int, length - i);
                        }
                    }
                    return None;
                }
                blocks.push(b);
                current = b;
            },
            None => {
                // a sound walk still owes blocks here
                proof {
                    if valid_walk_from(*pool, head as int, length as int) {
                        assert(valid_walk_from(*pool, current as int, length - i + 1));
                        assert(length - i + 1 >= 2);
                        assert(false);
                    }
                }
                return None;
            },
        }
        i = i + 1;
    }
    if pool.get_next(current).is_some() {
        // a sound walk ends its final block with no link
        proof {
            if valid_walk_from(*pool, head as int, length as int) {
                assert(valid_walk_from(*pool, current as int, 1));
                assert(pool.next_of(current as int) is None);
            }
        }
        return None;
    }
    let chain = Chain { blocks };
    proof {
        let bs = chain.view_blocks();
        assert forall|a: int, b: int| 0 <= a < b < bs.len() implies bs[a] != bs[b] by {
            lemma_ascending_distinct(bs, a, b);
        }
        assert(bs.no_duplicates());
        assert forall|k: int|
            0 <= k < bs.len() implies #[trigger] pool.next_of(bs[k] as int) == (if k + 1
            < bs.len() {
            Some(bs[k + 1])
        } else {
            None::<usize>
        }) by {}
        assert(bs.len() * pool.block_capacity <= MAXIMUM_CHAIN_LENGTH as int
            * pool.block_capacity) by (nonlinear_arith)
            requires
                bs.len() <= MAXIMUM_CHAIN_LENGTH as int,
                pool.block_capacity >= 0,
        ;
        lemma_table_is_valid_walk(*pool, bs, 0);
    }
    Some(chain)
}

/// In a strictly ascending index list, any two positions differ.
pub proof fn lemma_ascending_distinct(bs: Seq<usize>, a: int, b: int)
    requires
        0 <= a < b < bs.len(),
        forall|k: int| 0 <= k < bs.len() - 1 ==> (#[trigger] bs[k]) < bs[k + 1],
    ensures
        bs[a] < bs[b],
    decreases b - a,
{
    if a + 1 < b {
        lemma_ascending_distinct(bs, a + 1, b);
    }
}

} // verus!
