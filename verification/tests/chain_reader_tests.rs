//! Chain writing and restart-safe reading, including the round-trip and
//! boundary-crossing behaviour.

use nvml::allocator::BlockAllocator;
use nvml::chain::{append_to_chain, chain_used_length, rebuild_chain};
use nvml::pool::{CtoPoolPathExt, PoolDirectory};
use nvml::reader::RestartCopyFromAt;

#[test]
fn round_trip_one_call() {
    let mut allocator = BlockAllocator::new(4, 16, 1, 1);
    let chain = allocator.acquire_chain(10, 0).unwrap();
    assert_eq!(chain.blocks.len(), 3);
    let bytes: Vec<u8> = vec![1, 2, 3, 4, 5, 6, 7, 8, 9, 10];
    append_to_chain(&mut allocator.pool, &chain, &bytes).unwrap();
    assert_eq!(chain_used_length(&allocator.pool, &chain), 10);

    let mut reader = RestartCopyFromAt::new(&allocator.pool, &chain);
    let mut out: Vec<u8> = Vec::new();
    reader.copy_bytes_from_chains(&mut out, 10);
    assert_eq!(out, bytes);
}

#[test]
fn round_trip_any_partition() {
    let mut allocator = BlockAllocator::new(4, 16, 1, 1);
    let chain = allocator.acquire_chain(10, 0).unwrap();
    let bytes: Vec<u8> = vec![1, 2, 3, 4, 5, 6, 7, 8, 9, 10];
    append_to_chain(&mut allocator.pool, &chain, &bytes).unwrap();

    // one call for the whole length
    let mut whole: Vec<u8> = Vec::new();
    let mut reader = RestartCopyFromAt::new(&allocator.pool, &chain);
    reader.copy_bytes_from_chains(&mut whole, 10);

    // the same length split into successive calls, 3 + 4 + 2 + 1
    let mut parts: Vec<u8> = Vec::new();
    let mut resumable = RestartCopyFromAt::new(&allocator.pool, &chain);
    resumable.copy_bytes_from_chains(&mut parts, 3);
    resumable.copy_bytes_from_chains(&mut parts, 4);
    resumable.copy_bytes_from_chains(&mut parts, 2);
    resumable.copy_bytes_from_chains(&mut parts, 1);

    assert_eq!(whole, parts);
    assert_eq!(parts, bytes);
}

#[test]
fn round_trip_multiple_writes() {
    let mut allocator = BlockAllocator::new(4, 16, 1, 1);
    let chain = allocator.acquire_chain(10, 0).unwrap();
    append_to_chain(&mut allocator.pool, &chain, &[1, 2, 3]).unwrap();
    append_to_chain(&mut allocator.pool, &chain, &[4, 5, 6, 7]).unwrap();
    append_to_chain(&mut allocator.pool, &chain, &[8, 9, 10]).unwrap();
    assert_eq!(chain_used_length(&allocator.pool, &chain), 10);

    let mut out: Vec<u8> = Vec::new();
    let mut reader = RestartCopyFromAt::new(&allocator.pool, &chain);
    reader.copy_bytes_from_chains(&mut out, 10);
    assert_eq!(out, vec![1, 2, 3, 4, 5, 6, 7, 8, 9, 10]);
}

#[test]
fn boundary_crossing_byte_by_byte() {
    // exactly one block's capacity plus one byte
    let mut allocator = BlockAllocator::new(4, 16, 1, 1);
    let chain = allocator.acquire_chain(5, 0).unwrap();
    assert_eq!(chain.blocks.len(), 2);
    append_to_chain(&mut allocator.pool, &chain, &[11, 22, 33, 44, 55]).unwrap();

    let mut reader = RestartCopyFromAt::new(&allocator.pool, &chain);
    let mut out: Vec<u8> = Vec::new();
    for _ in 0..5 {
        // the cursor must never be parked at offset == capacity
        assert!(reader.offset < 4);
        reader.copy_bytes_from_chains(&mut out, 1);
    }
    assert_eq!(out, vec![11, 22, 33, 44, 55]);
    // after the fourth byte the cursor collapsed onto the next block
    assert!(reader.offset < 4);
}

#[test]
fn ten_bytes_in_four_byte_blocks_across_reopen() {
    // create a pool in a 4-byte-block class and write a 10-byte object
    let mut directory = PoolDirectory::new();
    let pool = directory.create_cto_pool("scenario", 16, 4).unwrap();
    let mut allocator = BlockAllocator::from_pool(pool, 1);
    let chain = allocator.acquire_chain(10, 0).unwrap();
    assert_eq!(chain.blocks.len(), 3);
    let head = chain.blocks[0];
    append_to_chain(&mut allocator.pool, &chain, &[1, 2, 3, 4, 5, 6, 7, 8, 9, 10]).unwrap();

    // close and reopen the pool, simulating a restart
    directory.close_cto_pool("scenario", allocator.pool);
    let reopened = directory.open_cto_pool("scenario").unwrap();
    let allocator = BlockAllocator::from_pool(reopened, 1);

    // reattach: rebuild the chain's transient table from persisted links
    let chain = rebuild_chain(&allocator.pool, head, 3).unwrap();

    // read back in two calls of length 6 and 4
    let mut reader = RestartCopyFromAt::new(&allocator.pool, &chain);
    let mut first: Vec<u8> = Vec::new();
    reader.copy_bytes_from_chains(&mut first, 6);
    let mut second: Vec<u8> = Vec::new();
    reader.copy_bytes_from_chains(&mut second, 4);
    assert_eq!(first, vec![1, 2, 3, 4, 5, 6]);
    assert_eq!(second, vec![7, 8, 9, 10]);
}

#[test]
fn append_fails_past_capacity() {
    let mut allocator = BlockAllocator::new(4, 16, 1, 1);
    let chain = allocator.acquire_chain(8, 0).unwrap();
    assert_eq!(chain.blocks.len(), 2);
    let too_much: Vec<u8> = vec![0; 9];
    let outcome = append_to_chain(&mut allocator.pool, &chain, &too_much);
    assert_eq!(outcome, Err(nvml::errors::PmdkError::CapacityExceeded));
    // the failed append changed nothing
    assert_eq!(chain_used_length(&allocator.pool, &chain), 0);
    append_to_chain(&mut allocator.pool, &chain, &[7; 8]).unwrap();
    assert_eq!(chain_used_length(&allocator.pool, &chain), 8);
}

#[test]
fn grow_keeps_written_bytes() {
    let mut allocator = BlockAllocator::new(4, 16, 1, 1);
    let mut chain = allocator.acquire_chain(4, 0).unwrap();
    assert_eq!(chain.blocks.len(), 1);
    append_to_chain(&mut allocator.pool, &chain, &[9, 8, 7]).unwrap();

    allocator.grow(&mut chain, 6).unwrap();
    assert!(chain.blocks.len() >= 2);
    assert_eq!(chain_used_length(&allocator.pool, &chain), 3);

    append_to_chain(&mut allocator.pool, &chain, &[6, 5, 4, 3, 2, 1]).unwrap();
    let mut out: Vec<u8> = Vec::new();
    let mut reader = RestartCopyFromAt::new(&allocator.pool, &chain);
    reader.copy_bytes_from_chains(&mut out, 9);
    assert_eq!(out, vec![9, 8, 7, 6, 5, 4, 3, 2, 1]);
}

#[test]
fn rebuild_rejects_wrong_length() {
    let mut allocator = BlockAllocator::new(4, 16, 1, 1);
    let chain = allocator.acquire_chain(10, 0).unwrap();
    let head = chain.blocks[0];
    assert!(rebuild_chain(&allocator.pool, head, 2).is_none());
    assert!(rebuild_chain(&allocator.pool, head, 4).is_none());
    assert!(rebuild_chain(&allocator.pool, head, 0).is_none());
    assert!(rebuild_chain(&allocator.pool, head, 3).is_some());
}
