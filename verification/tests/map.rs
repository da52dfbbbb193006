use awesome_sails::map::{is_valid_capacity, ShardedMap, ShardedMapError};

fn allocated(capacities: Vec<usize>) -> ShardedMap<u64, u64> {
    let mut map = ShardedMap::try_new(capacities).unwrap();
    while map.alloc_next_shard() {}
    map
}

#[test]
fn capacities_of_the_valid_class() {
    for c in [1usize, 2, 4, 8, 7, 14, 15, 28, 30, 31, 56, 0b111 << 21, 1 << 20] {
        assert!(is_valid_capacity(c), "{c} is a capacity");
    }
    for c in [0usize, 3, 5, 6, 9, 10, 11, 12, 13, 24, 0b1011, 0b11011, usize::MAX] {
        assert!(!is_valid_capacity(c), "{c} is no capacity");
    }
}

#[test]
fn construction_checks_every_capacity() {
    assert_eq!(
        ShardedMap::<u64, u64>::try_new(vec![0]).err(),
        Some(ShardedMapError::InvalidCapacity)
    );
    assert_eq!(
        ShardedMap::<u64, u64>::try_new(vec![7, 3]).err(),
        Some(ShardedMapError::InvalidCapacity)
    );
    assert!(ShardedMap::<u64, u64>::try_new(vec![7]).is_ok());
    assert!(ShardedMap::<u64, u64>::try_new(vec![]).is_ok());
}

#[test]
fn eighth_insert_into_seven_overflows() {
    let mut map = allocated(vec![7]);
    for k in 0..7u64 {
        assert!(map.try_insert(k, k * 10).is_ok());
    }
    assert_eq!(map.len(), 7);
    assert!(!map.has_space());
    assert_eq!(
        map.try_insert(7, 70).err(),
        Some(ShardedMapError::CapacityOverflow)
    );
    assert_eq!(map.len(), 7);
    assert!(map.get(&7).is_none());
    // A key that is there can still be set.
    let (_, previous) = map.try_insert(3, 33).unwrap();
    assert_eq!(previous, Some(30));
    assert_eq!(map.get(&3).map(|(_, v)| *v), Some(33));
}

#[test]
fn nothing_fits_before_allocation() {
    let mut map: ShardedMap<u64, u64> = ShardedMap::try_new(vec![7]).unwrap();
    assert_eq!(map.capacity(), 0);
    assert_eq!(map.max_capacity(), 7);
    assert!(!map.has_space());
    assert_eq!(map.has_space_err(), Err(ShardedMapError::CapacityOverflow));
    assert_eq!(
        map.try_insert(1, 1).err(),
        Some(ShardedMapError::CapacityOverflow)
    );
    assert!(!map.alloc_next_shard());
    assert_eq!(map.capacity(), 7);
    assert_eq!(map.has_space_err(), Ok(()));
    assert!(map.try_insert(1, 1).is_ok());
}

#[test]
fn shards_are_allocated_one_by_one_largest_first() {
    let mut map: ShardedMap<u64, u64> = ShardedMap::try_new(vec![7, 28, 14]).unwrap();
    assert_eq!(map.max_capacity(), 49);
    assert_eq!(map.capacity(), 0);
    assert!(map.alloc_next_shard());
    assert_eq!(map.capacity(), 28);
    assert!(map.alloc_next_shard());
    assert_eq!(map.capacity(), 42);
    assert!(!map.alloc_next_shard());
    assert_eq!(map.capacity(), 49);
    assert!(!map.alloc_next_shard());
    assert_eq!(map.capacity(), 49);
    assert_eq!(map.space(), 49);
}

#[test]
fn appended_shard_waits_for_allocation() {
    let mut map = allocated(vec![1]);
    assert_eq!(
        map.try_append_shard(6),
        Err(ShardedMapError::InvalidCapacity)
    );
    assert_eq!(map.max_capacity(), 1);
    assert_eq!(map.try_append_shard(2), Ok(()));
    assert_eq!(map.max_capacity(), 3);
    assert_eq!(map.capacity(), 1);
    assert!(map.try_insert(1, 1).is_ok());
    assert_eq!(
        map.try_insert(2, 2).err(),
        Some(ShardedMapError::CapacityOverflow)
    );
    assert!(!map.alloc_next_shard());
    assert_eq!(map.capacity(), 3);
    let (idx, previous) = map.try_insert(2, 2).unwrap();
    assert_eq!(idx.position(), 1);
    assert_eq!(previous, None);
}

#[test]
fn entries_go_to_the_first_shard_with_room() {
    let mut map = allocated(vec![2, 1]);
    assert_eq!(map.try_insert_new(10, 1).unwrap().position(), 0);
    assert_eq!(map.try_insert_new(11, 2).unwrap().position(), 0);
    assert_eq!(map.try_insert_new(12, 3).unwrap().position(), 1);
    assert_eq!(
        map.try_insert_new(13, 4).err(),
        Some(ShardedMapError::CapacityOverflow)
    );
    // Room that opens in the first shard is used first.
    let (idx, value) = map.remove(&10).unwrap();
    assert_eq!((idx.position(), value), (0, 1));
    assert_eq!(map.try_insert_new(13, 4).unwrap().position(), 0);
    assert_eq!(map.len(), 3);
    assert_eq!(map.space(), 0);
}

#[test]
fn lookups_name_the_shard() {
    let mut map = allocated(vec![1, 1]);
    map.try_insert(5, 50).unwrap();
    map.try_insert(6, 60).unwrap();
    let (idx, value) = map.get(&6).unwrap();
    assert_eq!((idx.position(), *value), (1, 60));
    let again = idx.cloned();
    assert_eq!(map.get_at(idx, &6), Some(&60));
    assert_eq!(map.get_at(again, &5), None);
    assert!(map.get(&7).is_none());
}

#[test]
fn writing_through_a_lookup_changes_the_entry() {
    let mut map = allocated(vec![2, 1]);
    map.try_insert(5, 50).unwrap();
    map.try_insert(6, 60).unwrap();
    map.try_insert(7, 70).unwrap();
    {
        let (idx, slot) = map.get_mut(&7).unwrap();
        assert_eq!(idx.position(), 1);
        assert_eq!(*slot, 70);
        *slot = 71;
    }
    assert_eq!(map.get(&7).map(|(_, v)| *v), Some(71));
    let (idx, _) = map.get(&5).unwrap();
    *map.get_mut_at(idx, &5).unwrap() += 1;
    assert_eq!(map.get(&5).map(|(_, v)| *v), Some(51));
    assert_eq!(map.get(&6).map(|(_, v)| *v), Some(60));
    assert!(map.get_mut(&8).is_none());
    let (idx, _) = map.get(&5).unwrap();
    assert!(map.get_mut_at(idx, &7).is_none());
    assert_eq!(map.len(), 3);
}

#[test]
fn removal_at_a_shard_frees_its_room() {
    let mut map = allocated(vec![1, 1]);
    map.try_insert(5, 50).unwrap();
    map.try_insert(6, 60).unwrap();
    let (idx, _) = map.get(&6).unwrap();
    let again = idx.cloned();
    let at = idx.cloned();
    assert_eq!(map.remove_at(idx, &5), None);
    assert_eq!(map.remove_at(again, &6), Some(60));
    assert_eq!(map.len(), 1);
    assert_eq!(map.try_insert_new_at(at, 9, 90), Ok(()));
    let (idx, _) = map.get(&9).unwrap();
    assert_eq!(idx.position(), 1);
    assert_eq!(
        map.try_insert_new_at(idx, 10, 100),
        Err(ShardedMapError::CapacityOverflow)
    );
    assert!(map.remove(&10).is_none());
}

#[test]
fn clearing_keeps_the_shards() {
    let mut map = allocated(vec![2, 1]);
    assert!(map.is_empty());
    map.try_insert(5, 50).unwrap();
    map.try_insert(6, 60).unwrap();
    map.try_insert(7, 70).unwrap();
    assert!(!map.is_empty());
    map.clear_shards();
    assert!(map.is_empty());
    assert_eq!(map.len(), 0);
    assert_eq!(map.capacity(), 3);
    assert_eq!(map.max_capacity(), 3);
    assert!(map.get(&5).is_none());
    assert!(map.try_insert(8, 80).is_ok());
}

#[test]
fn map_error_texts() {
    assert_eq!(ShardedMapError::CapacityOverflow.message(), "capacity overflow");
    assert_eq!(ShardedMapError::InvalidCapacity.message(), "invalid capacity");
}

#[test]
fn enumeration_lists_every_entry_once() {
    let mut map = allocated(vec![2, 1]);
    assert_eq!(map.entries(), vec![]);
    map.try_insert(7, 70).unwrap();
    map.try_insert(5, 50).unwrap();
    map.try_insert(6, 60).unwrap();
    let mut entries = map.entries();
    assert_eq!(entries.len(), map.len());
    entries.sort();
    assert_eq!(entries, vec![(5, 50), (6, 60), (7, 70)]);
    map.remove(&5);
    let mut entries = map.entries();
    entries.sort();
    assert_eq!(entries, vec![(6, 60), (7, 70)]);
}
