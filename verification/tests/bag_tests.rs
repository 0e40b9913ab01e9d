//! Bag acquire and release: stripe affinity, descriptor filing, and
//! conservation of block ownership.

use nvml::allocator::BlockAllocator;
use nvml::bag::BlockBag;
use nvml::block::CtoPool;
use nvml::chain::append_to_chain;
use nvml::descriptor::MAXIMUM_BAG_STRIPE_INDEX;

#[test]
fn empty_stripe_yields_none_not_an_error() {
    let mut pool = CtoPool::new(4, 8, 1);
    let mut bag = BlockBag::new(4);
    for stripe_key in 0..8usize {
        assert!(bag.try_acquire(&mut pool, stripe_key).is_none());
    }
}

#[test]
fn release_files_under_packed_descriptor() {
    let mut allocator = BlockAllocator::new(4, 16, 4, 1);
    let chain = allocator.acquire_chain(10, 2).unwrap();
    let head = chain.blocks[0];
    let length = chain.blocks.len() as u16;
    allocator.release_chain(chain, 2);
    let descriptor = allocator.pool.get_descriptor(head);
    assert!(descriptor.is_filed());
    assert_eq!(descriptor.chain_length(), length);
    assert_eq!(descriptor.bag_stripe_index(), 2);
}

#[test]
fn acquire_clears_descriptor_again() {
    let mut allocator = BlockAllocator::new(4, 16, 1, 1);
    let chain = allocator.acquire_chain(10, 0).unwrap();
    let head = chain.blocks[0];
    allocator.release_chain(chain, 0);
    let chain = allocator.acquire_chain(10, 0).unwrap();
    assert_eq!(chain.blocks[0], head);
    assert!(!allocator.pool.get_descriptor(head).is_filed());
}

#[test]
fn one_released_chain_serves_exactly_one_acquirer() {
    // a single-stripe bag: one release, then two acquires in turn — only
    // the first may observe a chain, the second observes empty
    let mut allocator = BlockAllocator::new(4, 16, 1, 1);
    let chain = allocator.acquire_chain(8, 0).unwrap();
    allocator.release_chain(chain, 0);

    let first = allocator.bag.try_acquire(&mut allocator.pool, 0);
    let second = allocator.bag.try_acquire(&mut allocator.pool, 0);
    assert!(first.is_some());
    assert!(second.is_none());
}

#[test]
fn stripes_have_affinity() {
    // releasing under stripe 1 leaves stripe 0 empty: an acquirer keyed
    // to stripe 0 must fall back to fresh allocation, never search
    let mut allocator = BlockAllocator::new(4, 32, 2, 1);
    let chain = allocator.acquire_chain(4, 1).unwrap();
    let released_head = chain.blocks[0];
    allocator.release_chain(chain, 1);

    let blocks_before = allocator.pool.block_meta_data_items.items.len();
    let fresh = allocator.acquire_chain(4, 0).unwrap();
    assert_ne!(fresh.blocks[0], released_head);
    let blocks_after = allocator.pool.block_meta_data_items.items.len();
    assert_eq!(blocks_after, blocks_before + 1);
}

#[test]
fn acquire_release_cycles_conserve_blocks() {
    let mut allocator = BlockAllocator::new(4, 64, 2, 1);
    // warm up: one chain of the working size per stripe
    let a = allocator.acquire_chain(10, 0).unwrap();
    let b = allocator.acquire_chain(10, 1).unwrap();
    let total = allocator.pool.block_meta_data_items.items.len();
    allocator.release_chain(a, 0);
    allocator.release_chain(b, 1);
    // cycles keyed like thread-index mod stripe-count
    for round in 0..6usize {
        let stripe_key = round % 2;
        let chain = allocator.acquire_chain(10, stripe_key).unwrap();
        // the total block count across stripes and live chains is constant
        assert_eq!(allocator.pool.block_meta_data_items.items.len(), total);
        allocator.release_chain(chain, stripe_key);
        assert_eq!(allocator.pool.block_meta_data_items.items.len(), total);
    }
}

#[test]
fn released_chain_comes_back_reset() {
    let mut allocator = BlockAllocator::new(4, 16, 1, 1);
    let chain = allocator.acquire_chain(8, 0).unwrap();
    append_to_chain(&mut allocator.pool, &chain, &[1, 2, 3, 4, 5]).unwrap();
    allocator.release_chain(chain, 0);
    let again = allocator.acquire_chain(8, 0).unwrap();
    // used-length metadata was invalidated on release
    assert_eq!(nvml::chain::chain_used_length(&allocator.pool, &again), 0);
}

#[test]
fn stripe_count_bound_matches_descriptor_range() {
    assert_eq!(MAXIMUM_BAG_STRIPE_INDEX, 63);
    let bag = BlockBag::new(64);
    assert_eq!(bag.stripes.len(), 64);
}
