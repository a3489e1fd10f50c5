use dashmap::mapref::{Ref, RefMut};
use dashmap::util::{route, shard_amount, shard_bits};
use dashmap::DashMap;

fn entry_count(map: &DashMap) -> usize {
    map.shards().iter().map(|lock| lock.read().len()).sum()
}

#[test]
fn hint_of_one_gives_eight_shards() {
    let map = DashMap::with_concurrency_hint(1);
    assert_eq!(map.shards().len(), 8);
    assert!(map.shards().len().is_power_of_two());
    assert!(map.shards().len() >= 1);
}

#[test]
fn hint_of_zero_gives_one_shard() {
    let map = DashMap::with_concurrency_hint(0);
    assert_eq!(map.shards().len(), 1);
    assert_eq!(map.determine_map(&12345).0, 0);
    assert_eq!(map.insert(12345, 1), None);
    assert_eq!(map.get(&12345).map(|entry| entry.value()), Some(1));
}

#[test]
fn shard_count_follows_the_hint() {
    for hint in 0..40usize {
        let map = DashMap::with_concurrency_hint(hint);
        assert_eq!(map.shards().len(), shard_amount(hint));
    }
}

#[test]
fn new_gives_a_power_of_two_of_shards() {
    let map = DashMap::new();
    assert!(map.shards().len().is_power_of_two());
    assert_eq!(map.shards().len(), shard_amount(num_cpus::get()));
}

#[test]
fn a_new_map_is_empty() {
    let map = DashMap::with_concurrency_hint(2);
    assert_eq!(entry_count(&map), 0);
    for lock in map.shards() {
        assert_eq!(lock.read().len(), 0);
    }
    assert_eq!(map.iter().next(), None);
    for key in 0..100u64 {
        assert_eq!(map.remove(&key), None);
        assert!(map.get(&key).is_none());
    }
    for lock in DashMap::new().shards() {
        assert!(lock.read().is_empty());
    }
    assert!(map.get(&0).is_none());
    assert_eq!(map.remove(&0), None);
}

#[test]
fn digest_is_the_fx_hash_of_the_key() {
    let map = DashMap::with_concurrency_hint(1);
    assert_eq!(map.determine_map(&1).1, 0x517c_c1b7_2722_0a95);
    assert_eq!(map.determine_map(&2).1, 0xa2f9_836e_4e44_152a);
    assert_eq!(map.determine_map(&0).1, 0);
    for key in 0..1000u64 {
        assert_eq!(map.determine_map(&key).1, fxhash::hash64(&key));
    }
}

#[test]
fn determine_map_routes_by_the_top_bits_of_the_digest() {
    let map = DashMap::with_concurrency_hint(1);
    assert_eq!(map.determine_map(&1), (2, 0x517c_c1b7_2722_0a95));
    assert_eq!(map.determine_map(&2), (5, 0xa2f9_836e_4e44_152a));
    let bits = shard_bits(map.shards().len());
    for key in 0..1000u64 {
        let (shard, digest) = map.determine_map(&key);
        assert_eq!(shard, route(digest, bits));
        assert_eq!(shard as u64, digest >> 61);
        assert!(shard < map.shards().len());
    }
}

#[test]
fn determine_map_is_stable() {
    let map = DashMap::with_concurrency_hint(4);
    for key in 0..500u64 {
        let first = map.determine_map(&key);
        map.insert(key, key);
        assert_eq!(map.determine_map(&key), first);
        map.remove(&key);
        assert_eq!(map.determine_map(&key), first);
    }
}

#[test]
fn insert_then_get_returns_the_value() {
    let map = DashMap::with_concurrency_hint(1);
    for key in 0..500u64 {
        assert_eq!(map.insert(key, key * 3 + 1), None);
        let entry = map.get(&key).unwrap();
        assert_eq!(entry.key(), key);
        assert_eq!(entry.value(), key * 3 + 1);
        assert_eq!(entry.pair(), (key, key * 3 + 1));
    }
    for key in 0..500u64 {
        assert_eq!(map.get(&key).unwrap().value(), key * 3 + 1);
    }
}

#[test]
fn insert_twice_returns_the_previous_value_and_keeps_one_entry() {
    let map = DashMap::with_concurrency_hint(1);
    assert_eq!(map.insert(7, 70), None);
    assert_eq!(entry_count(&map), 1);
    assert_eq!(map.insert(7, 71), Some(70));
    assert_eq!(entry_count(&map), 1);
    assert_eq!(map.get(&7).unwrap().value(), 71);
    assert_eq!(map.insert(7, 72), Some(71));
    assert_eq!(entry_count(&map), 1);
    let holders = map.shards().iter().filter(|lock| lock.read().contains_key(&7)).count();
    assert_eq!(holders, 1);
}

#[test]
fn an_entry_lives_in_the_shard_its_key_routes_to() {
    let map = DashMap::with_concurrency_hint(2);
    for key in 0..300u64 {
        map.insert(key, key);
    }
    for key in 0..300u64 {
        let (shard, _) = map.determine_map(&key);
        for (index, lock) in map.shards().iter().enumerate() {
            assert_eq!(lock.read().contains_key(&key), index == shard);
        }
    }
}

#[test]
fn remove_returns_the_entry_and_takes_it_out() {
    let map = DashMap::with_concurrency_hint(1);
    map.insert(1, 10);
    map.insert(2, 20);
    assert_eq!(map.remove(&1), Some((1, 10)));
    assert!(map.get(&1).is_none());
    assert_eq!(map.get(&2).unwrap().value(), 20);
    assert_eq!(entry_count(&map), 1);
    assert_eq!(map.remove(&1), None);
}

#[test]
fn remove_of_an_absent_key_changes_nothing() {
    let map = DashMap::with_concurrency_hint(1);
    for key in 0..50u64 {
        map.insert(key, key + 100);
    }
    assert_eq!(entry_count(&map), 50);
    assert_eq!(map.remove(&1000), None);
    assert_eq!(map.remove(&u64::MAX), None);
    assert_eq!(entry_count(&map), 50);
    for key in 0..50u64 {
        assert_eq!(map.get(&key).unwrap().value(), key + 100);
    }
}

#[test]
fn get_of_an_absent_key_is_none() {
    let map = DashMap::with_concurrency_hint(1);
    map.insert(5, 50);
    assert!(map.get(&6).is_none());
    assert!(map.get_mut(&6).is_none());
    map.remove(&5);
    assert!(map.get(&5).is_none());
    assert!(map.get_mut(&5).is_none());
}

#[test]
fn get_mut_changes_the_value_in_place() {
    let map = DashMap::with_concurrency_hint(1);
    map.insert(5, 50);
    map.insert(6, 60);
    {
        let mut entry = map.get_mut(&5).unwrap();
        assert_eq!(entry.key(), 5);
        assert_eq!(entry.value(), 50);
        assert_eq!(entry.pair(), (5, 50));
        assert_eq!(entry.set_value(51), 50);
        assert_eq!(entry.value(), 51);
        assert_eq!(entry.key(), 5);
        assert_eq!(entry.set_value(52), 51);
        assert_eq!(entry.pair(), (5, 52));
    }
    assert_eq!(map.get(&5).unwrap().value(), 52);
    assert_eq!(map.get(&6).unwrap().value(), 60);
    assert_eq!(entry_count(&map), 2);
}

#[test]
fn a_reference_is_released_when_dropped() {
    let map = DashMap::with_concurrency_hint(1);
    map.insert(9, 90);
    let shard = map.determine_map(&9).0;
    {
        let entry = map.get(&9).unwrap();
        assert_eq!(entry.value(), 90);
        assert!(map.shards()[shard].try_write().is_none());
    }
    assert!(map.shards()[shard].try_write().is_some());
    {
        let entry = map.get_mut(&9).unwrap();
        assert_eq!(entry.value(), 90);
        assert!(map.shards()[shard].try_read().is_none());
    }
    assert!(map.shards()[shard].try_write().is_some());
}

#[test]
fn a_failed_lookup_holds_no_lock() {
    let map = DashMap::with_concurrency_hint(1);
    let shard = map.determine_map(&9).0;
    let entry = map.get(&9);
    assert!(entry.is_none());
    assert!(map.shards()[shard].try_write().is_some());
    let entry = map.get_mut(&9);
    assert!(entry.is_none());
    assert!(map.shards()[shard].try_write().is_some());
}

#[test]
fn insert_and_remove_leave_no_lock_held() {
    let map = DashMap::with_concurrency_hint(1);
    map.insert(1, 1);
    map.remove(&1);
    map.remove(&2);
    for lock in map.shards() {
        assert!(lock.try_write().is_some());
    }
}

#[test]
fn extreme_keys_and_values() {
    let map = DashMap::with_concurrency_hint(1);
    assert_eq!(map.insert(0, u64::MAX), None);
    assert_eq!(map.insert(u64::MAX, 0), None);
    assert_eq!(map.get(&0).unwrap().value(), u64::MAX);
    assert_eq!(map.get(&u64::MAX).unwrap().value(), 0);
    assert_eq!(map.remove(&0), Some((0, u64::MAX)));
    assert_eq!(map.remove(&u64::MAX), Some((u64::MAX, 0)));
}

#[test]
fn default_is_a_working_map() {
    let map = DashMap::default();
    assert!(map.shards().len().is_power_of_two());
    assert_eq!(map.shards().len(), DashMap::new().shards().len());
    assert_eq!(map.insert(1, 2), None);
    assert_eq!(map.get(&1).unwrap().value(), 2);
}

#[test]
fn the_largest_shard_count_of_a_small_machine() {
    let map = DashMap::with_concurrency_hint(512);
    assert_eq!(map.shards().len(), 4096);
    for key in 0..5000u64 {
        map.insert(key, key);
    }
    assert_eq!(entry_count(&map), 5000);
    let used = map.shards().iter().filter(|lock| !lock.read().is_empty()).count();
    assert!(used > 1);
}

#[test]
fn a_reference_is_made_from_a_guard_that_holds_the_key() {
    let map = DashMap::with_concurrency_hint(1);
    map.insert(11, 110);
    let index = map.determine_map(&11).0;
    let entry = Ref::new(map.read_shard(index), 11).unwrap();
    assert_eq!(entry.pair(), (11, 110));
    drop(entry);
    assert!(Ref::new(map.read_shard(index), 12).is_none());
    assert!(map.shards()[index].try_write().is_some());
    let mut entry = RefMut::new(map.write_shard(index), 11).unwrap();
    assert_eq!(entry.set_value(111), 110);
    assert_eq!(entry.pair(), (11, 111));
    drop(entry);
    assert!(RefMut::new(map.write_shard(index), 12).is_none());
    assert!(map.shards()[index].try_write().is_some());
    assert_eq!(map.get(&11).unwrap().value(), 111);
}

#[test]
fn references_into_different_shards_coexist() {
    let map = DashMap::with_concurrency_hint(1);
    let first = 1u64;
    let home = map.determine_map(&first).0;
    let second = (2..1000u64).find(|key| map.determine_map(key).0 != home).unwrap();
    map.insert(first, 10);
    map.insert(second, 20);
    let mut one = map.get_mut(&first).unwrap();
    let mut two = map.get_mut(&second).unwrap();
    assert_eq!(one.set_value(11), 10);
    assert_eq!(two.set_value(21), 20);
    assert_eq!(one.value(), 11);
    assert_eq!(two.value(), 21);
}

#[test]
fn read_references_to_one_shard_coexist() {
    let map = DashMap::with_concurrency_hint(0);
    map.insert(1, 10);
    map.insert(2, 20);
    let one = map.get(&1).unwrap();
    let two = map.get(&2).unwrap();
    assert_eq!(one.value() + two.value(), 30);
}
