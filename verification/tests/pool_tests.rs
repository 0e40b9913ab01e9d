//! Pool lifecycle over the persistent medium, descriptor packing, the
//! object layer, and raw-result decoding.

use nvml::descriptor::{AtomicChainLengthAndBagStripeIndex, ChainLengthAndBagStripeIndex};
use nvml::errors::{
    decode_append_result, decode_consistency_check_result, decode_open_result, AppendError,
    GenericError, PmdkError, ENOSPC, EROFS,
};
use nvml::object::{
    foo, ObjectPoolDirectory, Persistable, PersistentMemoryObjectPoolPathExt, PersistentObject,
    PersistentObjectPool,
};
use nvml::pool::{CtoPoolPathExt, PoolDirectory};

#[test]
fn pack_unpack_is_identity_across_the_range() {
    for chain_length in [0u16, 1, 2, 63, 64, 512, 1022, 1023] {
        for stripe in [0u16, 1, 31, 62, 63] {
            let packed = ChainLengthAndBagStripeIndex::new(chain_length, stripe);
            assert_eq!(packed.chain_length(), chain_length);
            assert_eq!(packed.bag_stripe_index(), stripe);
        }
    }
    // decode then encode gives back the word, over the whole word range
    for word in 0..=u16::MAX {
        let d = ChainLengthAndBagStripeIndex(word);
        let repacked = ChainLengthAndBagStripeIndex::new(d.chain_length(), d.bag_stripe_index());
        assert_eq!(repacked.0, word);
    }
}

#[test]
fn atomic_descriptor_reads_what_was_stored() {
    let mut word = AtomicChainLengthAndBagStripeIndex::new_unfiled();
    assert!(!word.get().is_filed());
    word.set(ChainLengthAndBagStripeIndex::new(3, 1));
    let read = word.get();
    assert_eq!(read.chain_length(), 3);
    assert_eq!(read.bag_stripe_index(), 1);
    assert!(read.is_filed());
}

#[test]
fn create_open_check_lifecycle() {
    let mut directory = PoolDirectory::new();
    assert_eq!(
        directory.open_cto_pool("absent").err(),
        Some(PmdkError::PoolDoesNotExist)
    );
    assert_eq!(
        directory.validate_cto_pool_is_consistent("absent").err(),
        Some(PmdkError::PoolDoesNotExist)
    );

    let pool = directory.create_cto_pool("alpha", 8, 4).unwrap();
    assert_eq!(pool.block_capacity, 4);
    assert_eq!(pool.budget, 8);
    assert_eq!(
        directory.create_cto_pool("alpha", 8, 4).err(),
        Some(PmdkError::PoolAlreadyExists)
    );
    assert_eq!(
        directory.create_cto_pool("beta", 8, 0).err(),
        Some(PmdkError::PoolSizeTooSmall)
    );
    assert_eq!(directory.validate_cto_pool_is_consistent("alpha"), Ok(true));
}

#[test]
fn reopen_hands_back_durable_state_under_fresh_epoch() {
    let mut directory = PoolDirectory::new();
    let mut pool = directory.create_cto_pool("gamma", 8, 4).unwrap();
    let first_epoch = pool.epoch;
    let block = pool.allocate_block().unwrap();
    pool.write_within_block(block, 0, &[1, 2, 3, 4], 0, 4);
    pool.set_used_length(block, 4);
    directory.close_cto_pool("gamma", pool);

    let reopened = directory.open_cto_pool("gamma").unwrap();
    assert_ne!(reopened.epoch, first_epoch);
    // epochs are issued in order, starting from the store's first token
    assert_eq!(first_epoch, 1);
    assert_eq!(reopened.epoch, 2);
    assert_eq!(reopened.block_meta_data_items.items.len(), 1);
    assert_eq!(reopened.get_used_length(block), 4);
    assert_eq!(reopened.read_byte(block, 2), 3);
    assert_eq!(reopened.budget, 7);
}

#[test]
fn object_pool_allocates_and_constructs_once() {
    let mut pool = PersistentObjectPool::new(11, 4, 1);
    let object = PersistentObject::<foo>::allocate_uninitialized_and_construct(&mut pool, 200)
        .unwrap();
    assert_eq!(object.get().address, 200);
    assert!(!object.is_null());
    assert_eq!(pool.remaining_space, 3);
}

#[test]
fn object_pool_exhaustion_surfaces_enospc() {
    let mut pool = PersistentObjectPool::new(11, 1, 1);
    let first = PersistentObject::<foo>::allocate_uninitialized_and_construct(&mut pool, 1);
    assert!(first.is_ok());
    let second = PersistentObject::<foo>::allocate_uninitialized_and_construct(&mut pool, 2);
    let error = second.err().unwrap();
    assert_eq!(error.os_error_number, ENOSPC);
    // freeing hands the bytes back
    first.unwrap().free(&mut pool);
    assert_eq!(pool.remaining_space, 1);
}

#[test]
fn object_handles_compare_by_identity() {
    let mut pool = PersistentObjectPool::new(11, 8, 1);
    let a = PersistentObject::<foo>::allocate_uninitialized_and_construct(&mut pool, 1).unwrap();
    let b = PersistentObject::<foo>::allocate_uninitialized_and_construct(&mut pool, 1).unwrap();
    assert!(a.equals(&a));
    assert!(!a.equals(&b));
}

#[test]
fn persistable_reports_size_and_type_number() {
    assert_eq!(foo::size(), 1);
    assert_eq!(foo::type_number(), 2);
    let value = foo::initialize(9);
    assert_eq!(value.address, 9);
}

#[test]
fn object_pool_directory_lifecycle() {
    let mut directory = ObjectPoolDirectory::new();
    assert!(directory.openPersistentMemoryObjectPool(Some("none")).is_err());
    let pool = directory
        .createPersistentMemoryObjectPool(Some("objects"), 64)
        .unwrap();
    assert_eq!(pool.remaining_space, 64);
    assert_eq!(pool.epoch, 1);
    assert!(directory
        .createPersistentMemoryObjectPool(Some("objects"), 64)
        .is_err());
    assert_eq!(
        directory.validatePersistentMemoryObjectPoolIsConsistent(Some("objects")),
        Ok(true)
    );
    // the unnamed pool is its own key
    assert!(directory.openPersistentMemoryObjectPool(None).is_err());
    let unnamed = directory.createPersistentMemoryObjectPool(None, 16).unwrap();
    assert_eq!(unnamed.remaining_space, 16);
    assert!(directory.openPersistentMemoryObjectPool(None).is_ok());
}

#[test]
fn consistency_check_decoding() {
    assert_eq!(decode_consistency_check_result(1, 0, "pmemobj_check"), Ok(false));
    assert_eq!(decode_consistency_check_result(0, 0, "pmemobj_check"), Ok(true));
    let failed = decode_consistency_check_result(-1, 5, "pmemobj_check");
    let error = failed.err().unwrap();
    assert_eq!(error.os_error_number, 5);
    assert_eq!(error.function_name, "pmemobj_check");
}

#[test]
fn open_result_decoding() {
    assert!(decode_open_result(false, 0, "pmemcto_open").is_ok());
    let error = decode_open_result(true, 2, "pmemcto_open").err().unwrap();
    assert_eq!(error.os_error_number, 2);
}

#[test]
fn append_result_decoding() {
    assert_eq!(decode_append_result(0, 0), Ok(()));
    assert_eq!(decode_append_result(-1, ENOSPC), Err(AppendError::OutOfSpace));
    assert_eq!(decode_append_result(-1, EROFS), Err(AppendError::ReadOnly));
}

#[test]
fn generic_error_carries_its_origin() {
    let error = GenericError::new(5, "pmemobj_alloc");
    assert_eq!(error.os_error_number, 5);
    assert_eq!(error.function_name, "pmemobj_alloc");
    assert_eq!(PmdkError::OutOfSpace.describe(), "out of space");
    assert_eq!(PmdkError::CapacityExceeded.describe(), "capacity exceeded");
}
