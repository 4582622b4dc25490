use sui_hooks::object::{order_ids, IdOrder, ObjectId};
use sui_hooks::object_map::ObjectMap;
use std::collections::BTreeMap;

fn id(first: u8, last: u8) -> ObjectId {
    let mut id = [0u8; 32];
    id[0] = first;
    id[31] = last;
    id
}

fn listing(map: &ObjectMap<u32>) -> Vec<(ObjectId, u32)> {
    (0..map.len()).map(|i| *map.entry(i)).collect()
}

#[test]
fn ids_are_ordered_byte_by_byte() {
    assert_eq!(order_ids(&id(1, 9), &id(2, 0)), IdOrder::Less);
    assert_eq!(order_ids(&id(2, 0), &id(1, 9)), IdOrder::Greater);
    assert_eq!(order_ids(&id(2, 3), &id(2, 4)), IdOrder::Less);
    assert_eq!(order_ids(&id(2, 4), &id(2, 4)), IdOrder::Equal);
}

#[test]
fn the_map_behaves_as_a_sorted_map() {
    let mut map: ObjectMap<u32> = ObjectMap::new();
    let mut expected: BTreeMap<ObjectId, u32> = BTreeMap::new();
    assert!(map.is_empty());
    let mut seed: u32 = 1;
    for value in 0..500u32 {
        seed = seed.wrapping_mul(1664525).wrapping_add(1013904223);
        let key = id((seed >> 28) as u8, (seed >> 20) as u8 % 16);
        map.insert(key, value);
        expected.insert(key, value);
    }
    let sorted: Vec<(ObjectId, u32)> = expected.iter().map(|(k, v)| (*k, *v)).collect();
    assert_eq!(listing(&map), sorted);
    for first in 0..16 {
        for last in 0..17 {
            assert_eq!(map.get(&id(first, last)), expected.get(&id(first, last)));
        }
    }
}

#[test]
fn a_second_value_takes_the_place_of_the_first() {
    let mut map: ObjectMap<u32> = ObjectMap::new();
    map.insert(id(1, 1), 5);
    map.insert(id(1, 1), 6);
    assert_eq!(map.len(), 1);
    assert_eq!(map.get(&id(1, 1)), Some(&6));
    assert_eq!(map.get(&id(1, 2)), None);
}

#[test]
fn the_order_of_insertion_does_not_show() {
    let mut one: ObjectMap<u32> = ObjectMap::new();
    let mut other: ObjectMap<u32> = ObjectMap::new();
    for n in [3u8, 1, 2] {
        one.insert(id(n, 0), n as u32);
    }
    for n in [2u8, 3, 1] {
        other.insert(id(n, 0), n as u32);
    }
    assert_eq!(listing(&one), listing(&other));
    assert_eq!(listing(&one), vec![(id(1, 0), 1), (id(2, 0), 2), (id(3, 0), 3)]);
}
