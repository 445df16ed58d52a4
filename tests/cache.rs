use std::hash::BuildHasher;

use shard_lru::access::Access;
use shard_lru::clock::{now_micros, to_micros};
use shard_lru::evictor::{Evictor, MAX_SLEEP};
use shard_lru::list::{List, Node};
use shard_lru::lru::{Lru, LruBuilder, MAX_ENTRIES};
use shard_lru::{key_to_hash32, shard_for_hash, shard_of, Error};

fn builder(max_entries: usize, max_old: Option<u64>) -> LruBuilder {
    LruBuilder { max_entries, max_memory: None, max_old, max_threads: 1 }
}

#[test]
fn latest_set_is_read_back() {
    let mut c: Lru<u64> = builder(100, None).build();
    assert_eq!(c.set_at(7, 1, 10), Ok(None));
    assert_eq!(c.set_at(8, 5, 11), Ok(None));
    assert_eq!(c.set_at(7, 2, 12), Ok(Some(1)));
    assert_eq!(c.set_at(7, 3, 13), Ok(Some(2)));
    assert_eq!(c.get_at(7, 14), Ok(Some(3)));
    assert_eq!(c.get_at(8, 15), Ok(Some(5)));
    assert_eq!(c.remove(7), Some(3));
    assert_eq!(c.get_at(7, 16), Ok(None));
    assert_eq!(c.cur_entries(), 1);
}

#[test]
fn surplus_entries_are_evicted_by_a_sweep() {
    let mut c: Lru<u64> = builder(10, None).build();
    for k in 0..25u64 {
        c.set_at(k, k * 2, k).unwrap();
    }
    assert_eq!(c.cur_entries(), 25);
    c.sweep(100, 0);
    assert_eq!(c.cur_entries(), 10);
    // the oldest fifteen go first
    for k in 0..15u64 {
        assert_eq!(c.get_at(k, 200), Ok(None));
    }
    for k in 15..25u64 {
        assert_eq!(c.get_at(k, 200), Ok(Some(k * 2)));
    }
    assert_eq!(c.stats().n_evicted, 15);
    assert_eq!(c.stats().n_removed, 15);
}

#[test]
fn skip_window_is_left_alone() {
    let mut c: Lru<u64> = builder(1, None).build();
    for k in 0..4u64 {
        c.set_at(k, k, k).unwrap();
    }
    c.sweep(10, 2);
    // three surplus entries, but only the two oldest lie outside the window
    assert_eq!(c.cur_entries(), 2);
    assert_eq!(c.get_at(0, 11), Ok(None));
    assert_eq!(c.get_at(1, 11), Ok(None));
    assert_eq!(c.get_at(2, 11), Ok(Some(2)));
    assert_eq!(c.get_at(3, 11), Ok(Some(3)));
}

#[test]
fn aged_entry_is_swept() {
    let mut c: Lru<u64> = builder(100, Some(50_000)).build();
    let t0: u64 = 1_000_000;
    c.set_at(1, 1, t0).unwrap();
    c.set_at(2, 2, t0 + 60_000).unwrap();
    c.sweep(t0 + 100_000, 0);
    assert_eq!(c.get_at(1, t0 + 100_001), Ok(None));
    assert_eq!(c.get_at(2, t0 + 100_001), Ok(Some(2)));
    let st = c.stats();
    assert_eq!((st.n_older, st.n_removed, st.n_evicted, st.n_deleted), (1, 1, 0, 0));
}

#[test]
fn tombstoned_record_counts_only_as_deleted() {
    let mut c: Lru<u64> = builder(100, None).build();
    c.set_at(1, 1, 0).unwrap();
    c.set_at(1, 2, 1).unwrap();
    c.sweep(2, 0);
    let st = c.stats();
    assert_eq!((st.n_deleted, st.n_older, st.n_evicted, st.n_removed), (1, 0, 0, 0));
    assert_eq!(c.num_records(), 1);
    assert_eq!(c.get_at(1, 3), Ok(Some(2)));
}

#[test]
fn entry_within_age_limit_stays() {
    let mut c: Lru<u64> = builder(100, Some(50_000)).build();
    c.set_at(1, 1, 1_000).unwrap();
    c.sweep(51_000, 0);
    assert_eq!(c.get_at(1, 51_001), Ok(Some(1)));
}

#[test]
fn superseded_records_are_reclaimed() {
    let mut c: Lru<u64> = builder(100, None).build();
    c.set_at(1, 1, 0).unwrap();
    for t in 1..=1000u64 {
        assert_eq!(c.get_at(1, t), Ok(Some(1)));
    }
    assert_eq!(c.num_records(), 1001);
    let before = c.stats().n_deleted;
    c.sweep(2000, 0);
    assert!(c.stats().n_deleted - before >= 999);
    assert_eq!(c.num_records(), 1);
    assert_eq!(c.get_at(1, 2001), Ok(Some(1)));
    assert_eq!(c.stats().n_gets, 1001);
}

#[test]
fn remove_of_absent_key_is_a_no_op() {
    let mut c: Lru<u64> = builder(100, None).build();
    c.set_at(1, 1, 0).unwrap();
    assert_eq!(c.remove(2), None);
    assert_eq!(c.cur_entries(), 1);
    assert_eq!(c.num_records(), 1);
    assert_eq!(c.get_at(1, 1), Ok(Some(1)));
}

#[test]
fn oldest_inserted_is_evicted_first() {
    let mut c: Lru<u64> = builder(2, None).build();
    c.set_at(0xA, 1, 1).unwrap();
    c.set_at(0xB, 2, 2).unwrap();
    c.set_at(0xC, 3, 3).unwrap();
    c.sweep(4, 0);
    assert_eq!(c.get_at(0xA, 5), Ok(None));
    assert_eq!(c.get_at(0xB, 5), Ok(Some(2)));
    assert_eq!(c.get_at(0xC, 5), Ok(Some(3)));
    let st = c.stats();
    assert_eq!((st.n_evicted, st.n_removed, st.n_deleted, st.n_older), (1, 1, 0, 0));
}

#[test]
fn repeated_gets_tombstone_all_but_one() {
    let mut c: Lru<u64> = builder(100, None).build();
    c.set(0xA, 1).unwrap();
    for _ in 0..1000 {
        assert_eq!(c.get(0xA), Ok(Some(1)));
    }
    let before = c.stats().n_deleted;
    c.evict(0).unwrap();
    assert_eq!(c.get(0xA), Ok(Some(1)));
    assert!(c.stats().n_deleted - before >= 999);
}

#[test]
fn expired_after_wait() {
    let mut c: Lru<u64> = builder(100, Some(50_000)).build();
    c.set_at(0xA, 1, 5_000_000).unwrap();
    c.sweep(5_100_000, 0);
    assert_eq!(c.get_at(0xA, 5_100_000), Ok(None));
}

#[test]
fn clock_reading_operations() {
    let mut c: Lru<String> = builder(100, None).build();
    assert_eq!(c.set(3, "x".to_string()), Ok(None));
    assert_eq!(c.set(3, "y".to_string()), Ok(Some("x".to_string())));
    assert_eq!(c.get(3), Ok(Some("y".to_string())));
    assert_eq!(c.get(4), Ok(None));
    assert_eq!(c.evict(0), Ok(()));
    assert_eq!(c.num_records(), 1);
    assert_eq!(c.stats().n_sets, 2);
}

#[test]
fn pause_follows_occupancy() {
    let ev = Evictor { max_entries: 100, max_memory: None, max_old: None };
    assert_eq!(ev.sleep_for(0, 0), Some(MAX_SLEEP));
    assert_eq!(ev.sleep_for(25, 0), Some(7_500));
    assert_eq!(ev.sleep_for(99, 0), Some(100));
    assert_eq!(ev.sleep_for(100, 0), None);
    assert_eq!(ev.sleep_for(250, 0), None);
    let ev = Evictor { max_entries: 100, max_memory: Some(1_000), max_old: None };
    assert_eq!(ev.sleep_for(10, 500), Some(5_000));
    assert_eq!(ev.sleep_for(60, 500), Some(4_000));
    assert_eq!(ev.sleep_for(10, 1_000), None);
    let ev = Evictor { max_entries: 0, max_memory: None, max_old: None };
    assert_eq!(ev.sleep_for(0, 0), None);
}

#[test]
fn eviction_budget_is_the_surplus() {
    let ev = Evictor { max_entries: 10, max_memory: None, max_old: None };
    assert_eq!(ev.num_evicts(3), 0);
    assert_eq!(ev.num_evicts(10), 0);
    assert_eq!(ev.num_evicts(17), 7);
}

#[test]
fn age_limit() {
    let ev = Evictor { max_entries: 10, max_memory: None, max_old: Some(50) };
    assert!(!ev.expired(100, 150));
    assert!(ev.expired(100, 151));
    assert!(!ev.expired(200, 100));
    let ev = Evictor { max_entries: 10, max_memory: None, max_old: None };
    assert!(!ev.expired(0, u64::MAX));
}

#[test]
fn hash_folding() {
    assert_eq!(key_to_hash32(0x1234_5678_9abc_def0), 0x8888_8888);
    assert_eq!(key_to_hash32(0), 0);
    assert_eq!(key_to_hash32(u64::MAX), 0);
    assert_eq!(key_to_hash32(0xffff_ffff), 0xffff_ffff);
    assert_eq!(shard_for_hash(0x1234_5678_9abc_def0, 16), 8);
}

#[test]
fn shard_routing_hashes_the_key() {
    let hb = std::hash::BuildHasherDefault::<std::collections::hash_map::DefaultHasher>::default();
    let mut differs = false;
    for key in 0..64u64 {
        let s = shard_of(key, 7);
        assert!(s < 7);
        assert_eq!(s, shard_for_hash(hb.hash_one(key), 7));
        if s != shard_for_hash(key, 7) {
            differs = true;
        }
    }
    assert!(differs);
}

#[test]
fn clock_reads_microseconds() {
    let t = now_micros().unwrap();
    // later than 2020-01-01
    assert!(t > 1_577_836_800_000_000);
    assert_eq!(to_micros(2, 5), Ok(2_000_005));
    assert_eq!(to_micros(u64::MAX / 1_000_000 + 1, 0), Err(Error::Fatal));
    assert_eq!(to_micros(u64::MAX / 1_000_000, 999_999), Err(Error::Fatal));
}

#[test]
fn list_records_and_tombstones() {
    let mut l = List::new();
    assert_eq!(l.prepend(10, 100), Ok(0));
    assert_eq!(l.prepend(11, 101), Ok(1));
    assert_eq!(l.prepend(10, 102), Ok(2));
    assert_eq!(l.len(), 3);
    assert_eq!(l.find(1), Some(1));
    assert_eq!(l.find(7), None);
    assert!(l.delete(1));
    assert!(!l.delete(9));
}

#[test]
fn node_operations() {
    let mut n = Node::new_node(3, 42, 1_000);
    assert!(!n.deleted);
    n.delete();
    assert!(n.deleted);
    n.delete();
    assert!(n.deleted);
    assert_eq!(n.unwrap(), (42, 1_000));
}

#[test]
fn access_chain() {
    match Access::<u64>::new_list() {
        Access::S { next } => assert!(matches!(*next, Access::N)),
        _ => panic!("not a sentinel"),
    }
    let mut head: Access<u64> = Access::new_list();
    head.prepend(Access::new(1, 10));
    head.prepend(Access::new(2, 20));
    let mut first = match head {
        Access::S { next } => next,
        _ => panic!("not a sentinel"),
    };
    match &*first {
        Access::T { key, born, deleted, .. } => assert_eq!((*key, *born, *deleted), (2, 20, false)),
        _ => panic!("not a record"),
    }
    first.delete();
    let second = first.take_next();
    match &*first {
        Access::T { deleted, next, .. } => {
            assert!(*deleted);
            assert!(next.is_none());
        }
        _ => panic!("not a record"),
    }
    match &*second {
        Access::T { key, .. } => assert_eq!(*key, 1),
        _ => panic!("not a record"),
    }
    first.set_next(second);
    match &*first {
        Access::T { next: Some(n), .. } => assert!(matches!(**n, Access::T { key: 1, .. })),
        _ => panic!("not linked"),
    }
}

#[test]
fn builder_defaults() {
    let b = LruBuilder::default();
    assert_eq!(b.max_entries, MAX_ENTRIES);
    assert_eq!(b.max_memory, None);
    assert_eq!(b.max_old, None);
    assert!(b.max_threads >= 1);
    let ev = builder(5, Some(9)).evictor();
    assert_eq!(ev, Evictor { max_entries: 5, max_memory: None, max_old: Some(9) });
    let c: Lru<u8> = builder(5, Some(9)).build();
    assert_eq!(c.evictor(), ev);
    assert_eq!(c.cur_entries(), 0);
    let st = c.stats();
    assert_eq!((st.n_gets, st.n_sets, st.n_evicted, st.n_deleted, st.n_older, st.n_removed), (0, 0, 0, 0, 0, 0));
    assert_eq!(c.num_records(), 0);
}
