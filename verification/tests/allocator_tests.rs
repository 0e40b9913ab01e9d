//! Allocation errors and fallbacks: capacity classes, exhaustion, and
//! growth limits.

use nvml::allocator::BlockAllocator;
use nvml::chain::append_to_chain;
use nvml::errors::PmdkError;

#[test]
fn oversized_request_is_capacity_exceeded() {
    let mut allocator = BlockAllocator::new(4, 16, 1, 1);
    // 1024 blocks would be needed: one past the class's maximum chain
    let outcome = allocator.acquire_chain(4 * 1024, 0);
    assert_eq!(outcome.err(), Some(PmdkError::CapacityExceeded));
    // the largest request the class can serve still succeeds when space allows
    let mut roomy = BlockAllocator::new(4, 1023, 1, 1);
    assert!(roomy.acquire_chain(4 * 1023, 0).is_ok());
}

#[test]
fn exhausted_pool_is_out_of_space() {
    let mut allocator = BlockAllocator::new(4, 2, 1, 1);
    let outcome = allocator.acquire_chain(12, 0);
    assert_eq!(outcome.err(), Some(PmdkError::OutOfSpace));
    // a request that fits the remaining budget still succeeds
    assert!(allocator.acquire_chain(8, 0).is_ok());
}

#[test]
fn acquire_prefers_the_bag_over_fresh_blocks() {
    let mut allocator = BlockAllocator::new(4, 16, 1, 1);
    let chain = allocator.acquire_chain(10, 0).unwrap();
    let blocks = chain.blocks.clone();
    allocator.release_chain(chain, 0);
    let budget_before = allocator.pool.budget;
    let again = allocator.acquire_chain(10, 0).unwrap();
    assert_eq!(again.blocks, blocks);
    assert_eq!(allocator.pool.budget, budget_before);
}

#[test]
fn acquire_grows_a_short_bagged_chain() {
    let mut allocator = BlockAllocator::new(4, 16, 1, 1);
    let short = allocator.acquire_chain(4, 0).unwrap();
    let head = short.blocks[0];
    allocator.release_chain(short, 0);
    // the stripe's chain has one block; three are needed
    let grown = allocator.acquire_chain(12, 0).unwrap();
    assert_eq!(grown.blocks.len(), 3);
    assert_eq!(grown.blocks[0], head);
}

#[test]
fn grow_past_class_maximum_is_capacity_exceeded() {
    let mut allocator = BlockAllocator::new(4, 2000, 1, 1);
    let mut chain = allocator.acquire_chain(4 * 1023, 0).unwrap();
    // fill the class's largest chain completely, then ask for more
    let full: Vec<u8> = vec![5; 4 * 1023];
    append_to_chain(&mut allocator.pool, &chain, &full).unwrap();
    let outcome = allocator.grow(&mut chain, 8);
    assert_eq!(outcome.err(), Some(PmdkError::CapacityExceeded));
    assert_eq!(chain.blocks.len(), 1023);
}

#[test]
fn grow_without_budget_is_out_of_space() {
    let mut allocator = BlockAllocator::new(4, 1, 1, 1);
    let mut chain = allocator.acquire_chain(4, 0).unwrap();
    append_to_chain(&mut allocator.pool, &chain, &[1, 2, 3, 4]).unwrap();
    let outcome = allocator.grow(&mut chain, 4);
    assert_eq!(outcome.err(), Some(PmdkError::OutOfSpace));
    // a grow the free capacity already covers asks the pool for nothing
    let mut fresh = BlockAllocator::new(4, 1, 1, 1);
    let mut chain = fresh.acquire_chain(4, 0).unwrap();
    assert!(fresh.grow(&mut chain, 4).is_ok());
}
