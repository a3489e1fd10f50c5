use dashmap::iter::{Iter, IterMut};
use dashmap::DashMap;

fn collect(map: &DashMap) -> Vec<(u64, u64)> {
    let mut iter = map.iter();
    let mut entries = Vec::new();
    while let Some(entry) = iter.next() {
        entries.push(entry);
    }
    entries
}

fn locked_shards(map: &DashMap) -> Vec<usize> {
    (0..map.shards().len()).filter(|&index| map.shards()[index].try_write().is_none()).collect()
}

#[test]
fn iteration_yields_each_of_three_entries_once() {
    let map = DashMap::with_concurrency_hint(1);
    map.insert(b'a' as u64, 1);
    map.insert(b'b' as u64, 2);
    map.insert(b'c' as u64, 3);
    let mut entries = collect(&map);
    assert_eq!(entries.len(), 3);
    entries.sort();
    assert_eq!(entries, vec![(b'a' as u64, 1), (b'b' as u64, 2), (b'c' as u64, 3)]);
}

#[test]
fn iteration_over_an_empty_map_yields_nothing() {
    let map = DashMap::with_concurrency_hint(1);
    let mut iter = map.iter();
    assert_eq!(iter.next(), None);
    assert_eq!(iter.next(), None);
    assert_eq!(iter.next(), None);
}

#[test]
fn iteration_over_a_single_shard_map() {
    let map = DashMap::with_concurrency_hint(0);
    for key in 0..20u64 {
        map.insert(key, key + 1);
    }
    let mut entries = collect(&map);
    entries.sort();
    let expected: Vec<(u64, u64)> = (0..20u64).map(|key| (key, key + 1)).collect();
    assert_eq!(entries, expected);
}

#[test]
fn iteration_yields_every_entry_exactly_once() {
    let map = DashMap::with_concurrency_hint(4);
    for key in 0..1000u64 {
        map.insert(key * 7919, key);
    }
    let mut entries = collect(&map);
    assert_eq!(entries.len(), 1000);
    entries.sort();
    let expected: Vec<(u64, u64)> = (0..1000u64).map(|key| (key * 7919, key)).collect();
    assert_eq!(entries, expected);
}

#[test]
fn iteration_sees_the_latest_value_of_a_key() {
    let map = DashMap::with_concurrency_hint(1);
    map.insert(1, 10);
    map.insert(1, 11);
    map.insert(2, 20);
    map.remove(&2);
    assert_eq!(collect(&map), vec![(1, 11)]);
}

#[test]
fn iteration_visits_shards_in_index_order() {
    let map = DashMap::with_concurrency_hint(2);
    for key in 0..400u64 {
        map.insert(key, key);
    }
    let shards: Vec<usize> =
        collect(&map).iter().map(|entry| map.determine_map(&entry.0).0).collect();
    assert_eq!(shards.len(), 400);
    for pair in shards.windows(2) {
        assert!(pair[0] <= pair[1]);
    }
}

#[test]
fn a_finished_pass_stays_finished() {
    let map = DashMap::with_concurrency_hint(1);
    map.insert(3, 30);
    let mut iter = map.iter();
    assert_eq!(iter.next(), Some((3, 30)));
    assert_eq!(iter.next(), None);
    map.insert(4, 40);
    assert_eq!(iter.next(), None);
}

#[test]
fn a_pass_starts_over_from_the_first_shard() {
    let map = DashMap::with_concurrency_hint(1);
    for key in 0..30u64 {
        map.insert(key, key);
    }
    let first = collect(&map);
    let second = collect(&map);
    assert_eq!(first, second);
}

#[test]
fn a_pass_holds_exactly_one_lock_at_a_time() {
    let map = DashMap::with_concurrency_hint(1);
    for key in 0..200u64 {
        map.insert(key, key);
    }
    let mut iter = map.iter();
    assert_eq!(locked_shards(&map), vec![0]);
    let mut seen = 0;
    while let Some(entry) = iter.next() {
        seen += 1;
        assert_eq!(locked_shards(&map), vec![map.determine_map(&entry.0).0]);
    }
    assert_eq!(seen, 200);
    assert_eq!(locked_shards(&map), Vec::<usize>::new());
}

#[test]
fn a_pass_over_an_empty_map_holds_the_first_shard_until_it_moves_on() {
    let map = DashMap::with_concurrency_hint(1);
    let mut iter = map.iter();
    assert_eq!(locked_shards(&map), vec![0]);
    assert_eq!(iter.next(), None);
    assert_eq!(locked_shards(&map), Vec::<usize>::new());
}

#[test]
fn a_dropped_pass_releases_its_lock() {
    let map = DashMap::with_concurrency_hint(1);
    map.insert(1, 1);
    {
        let _iter = map.iter();
        assert_eq!(locked_shards(&map).len(), 1);
    }
    assert_eq!(locked_shards(&map), Vec::<usize>::new());
    {
        let _iter = map.iter_mut();
        assert_eq!(locked_shards(&map).len(), 1);
    }
    assert_eq!(locked_shards(&map), Vec::<usize>::new());
}

#[test]
fn a_reading_pass_shares_its_shard_with_readers() {
    let map = DashMap::with_concurrency_hint(1);
    map.insert(1, 1);
    let mut iter = map.iter();
    assert_eq!(iter.next(), Some((1, 1)));
    let shard = map.determine_map(&1).0;
    assert!(map.shards()[shard].try_read().is_some());
    assert!(map.shards()[shard].try_write().is_none());
    assert_eq!(map.get(&1).unwrap().value(), 1);
}

#[test]
fn a_writing_pass_keeps_its_shard_to_itself() {
    let map = DashMap::with_concurrency_hint(1);
    map.insert(1, 1);
    let mut iter = map.iter_mut();
    assert_eq!(iter.next(), Some((1, 1)));
    let shard = map.determine_map(&1).0;
    assert!(map.shards()[shard].try_read().is_none());
    assert!(map.shards()[shard].try_write().is_none());
}

#[test]
fn a_pass_does_not_block_other_shards() {
    let map = DashMap::with_concurrency_hint(1);
    map.insert(1, 1);
    let held = map.determine_map(&1).0;
    let mut iter = map.iter_mut();
    assert_eq!(iter.next(), Some((1, 1)));
    let other = (0..1000u64).find(|key| map.determine_map(key).0 > held).unwrap();
    assert_eq!(map.insert(other, 5), None);
    assert_eq!(map.get(&other).unwrap().value(), 5);
    assert_eq!(iter.next(), Some((other, 5)));
    assert_eq!(iter.next(), None);
}

#[test]
fn a_pass_misses_what_is_added_to_a_shard_already_visited() {
    let map = DashMap::with_concurrency_hint(1);
    let late = (0..1000u64).find(|key| map.determine_map(key).0 == 7).unwrap();
    let early = (0..1000u64).find(|key| map.determine_map(key).0 == 0).unwrap();
    map.insert(late, 1);
    let mut iter = map.iter();
    assert_eq!(iter.next(), Some((late, 1)));
    map.insert(early, 2);
    assert_eq!(iter.next(), None);
    let mut all = collect(&map);
    all.sort();
    let mut expected = vec![(early, 2), (late, 1)];
    expected.sort();
    assert_eq!(all, expected);
}

#[test]
fn iter_mut_yields_every_entry_exactly_once() {
    let map = DashMap::with_concurrency_hint(2);
    for key in 0..300u64 {
        map.insert(key, key * 2);
    }
    let mut iter = map.iter_mut();
    let mut entries = Vec::new();
    while let Some(entry) = iter.next() {
        entries.push(entry);
    }
    entries.sort();
    let expected: Vec<(u64, u64)> = (0..300u64).map(|key| (key, key * 2)).collect();
    assert_eq!(entries, expected);
}

#[test]
fn iter_mut_changes_values_in_place() {
    let map = DashMap::with_concurrency_hint(1);
    for key in 0..100u64 {
        map.insert(key, key + 1);
    }
    let mut iter = map.iter_mut();
    let mut count = 0;
    while let Some((key, value)) = iter.next() {
        assert_eq!(value, key + 1);
        assert_eq!(iter.set_value(value * 2), Some(value));
        count += 1;
    }
    assert_eq!(count, 100);
    assert_eq!(iter.set_value(0), None);
    drop(iter);
    for key in 0..100u64 {
        assert_eq!(map.get(&key).unwrap().value(), (key + 1) * 2);
    }
    assert_eq!(collect(&map).len(), 100);
}

#[test]
fn iter_mut_set_value_touches_only_the_last_entry() {
    let map = DashMap::with_concurrency_hint(0);
    map.insert(1, 10);
    map.insert(2, 20);
    map.insert(3, 30);
    let mut iter = map.iter_mut();
    let first = iter.next().unwrap();
    let second = iter.next().unwrap();
    assert_eq!(iter.set_value(99), Some(second.1));
    assert_eq!(iter.set_value(100), Some(99));
    let third = iter.next().unwrap();
    assert_eq!(iter.next(), None);
    drop(iter);
    assert_eq!(map.get(&first.0).unwrap().value(), first.1);
    assert_eq!(map.get(&second.0).unwrap().value(), 100);
    assert_eq!(map.get(&third.0).unwrap().value(), third.1);
}

#[test]
fn iter_mut_set_value_before_the_first_entry_does_nothing() {
    let map = DashMap::with_concurrency_hint(1);
    map.insert(1, 10);
    let mut iter = map.iter_mut();
    assert_eq!(iter.set_value(5), None);
    assert_eq!(iter.next(), Some((1, 10)));
    assert_eq!(iter.set_value(5), Some(10));
    assert_eq!(iter.next(), None);
    assert_eq!(iter.set_value(6), None);
    drop(iter);
    assert_eq!(map.get(&1).unwrap().value(), 5);
}

#[test]
fn iter_and_iter_mut_are_made_by_new_as_well() {
    let map = DashMap::with_concurrency_hint(1);
    map.insert(8, 80);
    let mut reading = Iter::new(&map);
    assert_eq!(reading.next(), Some((8, 80)));
    assert_eq!(reading.next(), None);
    let mut writing = IterMut::new(&map);
    assert_eq!(writing.next(), Some((8, 80)));
    assert_eq!(writing.set_value(81), Some(80));
    assert_eq!(writing.next(), None);
    assert_eq!(map.get(&8).unwrap().value(), 81);
}
