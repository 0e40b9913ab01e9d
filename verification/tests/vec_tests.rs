//! The pool-backed vector: growth, shrinking, order-sensitive removal,
//! filtering, and deduplication.

use nvml::block::CtoPool;
use nvml::ctovec::CtoVec;
use nvml::reattach::{CtoPoolArc, CtoSafe};

fn sample_pool() -> CtoPool {
    CtoPool::new(4, 8, 1)
}

#[test]
fn new_is_empty_with_no_capacity() {
    let pool = sample_pool();
    let v: CtoVec<u32> = CtoVec::new(&pool);
    assert!(v.is_empty());
    assert_eq!(v.len(), 0);
    assert_eq!(v.capacity(), 0);
}

#[test]
fn with_capacity_reserves_up_front() {
    let pool = sample_pool();
    let v: CtoVec<u32> = CtoVec::with_capacity(12, &pool);
    assert!(v.is_empty());
    assert_eq!(v.capacity(), 12);
}

#[test]
fn push_pop_round_trip() {
    let pool = sample_pool();
    let mut v: CtoVec<u32> = CtoVec::new(&pool);
    v.push(1);
    v.push(2);
    v.push(3);
    assert_eq!(v.len(), 3);
    assert_eq!(v.as_slice(), &[1, 2, 3]);
    assert_eq!(v.pop(), Some(3));
    assert_eq!(v.pop(), Some(2));
    assert_eq!(v.pop(), Some(1));
    assert_eq!(v.pop(), None);
}

#[test]
fn reserve_never_shrinks() {
    let pool = sample_pool();
    let mut v: CtoVec<u32> = CtoVec::with_capacity(10, &pool);
    v.push(1);
    v.reserve(2);
    assert!(v.capacity() >= 10);
    v.reserve(100);
    assert!(v.capacity() >= 101);
}

#[test]
fn reserve_exact_and_shrink_to_fit() {
    let pool = sample_pool();
    let mut v: CtoVec<u32> = CtoVec::new(&pool);
    v.push(1);
    v.push(2);
    v.reserve_exact(5);
    assert_eq!(v.capacity(), 7);
    v.shrink_to_fit();
    assert_eq!(v.capacity(), 2);
}

#[test]
fn truncate_and_clear() {
    let pool = sample_pool();
    let mut v: CtoVec<u32> = CtoVec::new(&pool);
    for x in 0..5u32 {
        v.push(x);
    }
    v.truncate(3);
    assert_eq!(v.as_slice(), &[0, 1, 2]);
    v.truncate(10);
    assert_eq!(v.as_slice(), &[0, 1, 2]);
    let reserved = v.capacity();
    v.clear();
    assert!(v.is_empty());
    assert_eq!(v.capacity(), reserved);
}

#[test]
fn swap_remove_takes_last_into_hole() {
    let pool = sample_pool();
    let mut v: CtoVec<u32> = CtoVec::new(&pool);
    for x in [10, 20, 30, 40] {
        v.push(x);
    }
    assert_eq!(v.swap_remove(1), 20);
    assert_eq!(v.as_slice(), &[10, 40, 30]);
}

#[test]
fn as_mut_slice_writes_through() {
    let pool = sample_pool();
    let mut v: CtoVec<u32> = CtoVec::new(&pool);
    v.push(1);
    v.push(2);
    v.as_mut_slice()[0] = 9;
    assert_eq!(v.as_slice(), &[9, 2]);
}

#[test]
fn retain_keeps_exactly_the_approved() {
    let pool = sample_pool();
    let mut v: CtoVec<u32> = CtoVec::new(&pool);
    for x in [1, 2, 3, 4] {
        v.push(x);
    }
    v.retain(|x: &u32| *x % 2 == 0);
    assert_eq!(v.as_slice(), &[2, 4]);
}

#[test]
fn dedup_removes_consecutive_repeats() {
    let pool = sample_pool();
    let mut v: CtoVec<u32> = CtoVec::new(&pool);
    for x in [1, 2, 2, 3, 2] {
        v.push(x);
    }
    v.dedup();
    assert_eq!(v.as_slice(), &[1, 2, 3, 2]);
}

#[test]
fn dedup_by_key_removes_consecutive_same_key() {
    let pool = sample_pool();
    let mut v: CtoVec<u32> = CtoVec::new(&pool);
    for x in [10, 20, 21, 30, 20] {
        v.push(x);
    }
    v.dedup_by_key(|x: &u32| *x / 10);
    assert_eq!(v.as_slice(), &[10, 20, 30, 20]);
}

#[test]
fn remove_item_takes_first_match_only() {
    let pool = sample_pool();
    let mut v: CtoVec<u32> = CtoVec::new(&pool);
    for x in [1, 2, 3, 1] {
        v.push(x);
    }
    assert_eq!(v.remove_item(&1), Some(1));
    assert_eq!(v.as_slice(), &[2, 3, 1]);
    assert_eq!(v.remove_item(&9), None);
    assert_eq!(v.as_slice(), &[2, 3, 1]);
}

#[test]
fn vector_reattaches_binding_and_elements() {
    let pool = sample_pool();
    let mut v: CtoVec<u32> = CtoVec::new(&pool);
    v.push(4);
    v.push(5);
    let second_open = CtoPoolArc::new(7);
    v.cto_pool_opened(&second_open);
    assert_eq!(v.cto_pool_arc, second_open);
    assert_eq!(v.as_slice(), &[4, 5]);
}

#[test]
fn insert_and_remove_shift_elements() {
    let pool = sample_pool();
    let mut v: CtoVec<u32> = CtoVec::new(&pool);
    for x in [1, 2, 3] {
        v.push(x);
    }
    v.insert(1, 9);
    assert_eq!(v.as_slice(), &[1, 9, 2, 3]);
    assert_eq!(v.remove(2), 2);
    assert_eq!(v.as_slice(), &[1, 9, 3]);
}

#[test]
fn append_moves_everything_over() {
    let pool = sample_pool();
    let mut a: CtoVec<u32> = CtoVec::new(&pool);
    let mut b: CtoVec<u32> = CtoVec::new(&pool);
    for x in [1, 2, 3] {
        a.push(x);
    }
    for x in [4, 5, 6] {
        b.push(x);
    }
    a.append(&mut b);
    assert_eq!(a.as_slice(), &[1, 2, 3, 4, 5, 6]);
    assert!(b.is_empty());
}

#[test]
fn split_off_keeps_the_prefix() {
    let pool = sample_pool();
    let mut v: CtoVec<u32> = CtoVec::new(&pool);
    for x in [1, 2, 3] {
        v.push(x);
    }
    let tail = v.split_off(1);
    assert_eq!(v.as_slice(), &[1]);
    assert_eq!(tail.as_slice(), &[2, 3]);
}
