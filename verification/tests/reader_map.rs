use reader_map::bag::{Order, ValueBag};
use reader_map::epoch::ReaderState;
use reader_map::handles::{from_operations, new, with_order};
use reader_map::inner::InnerMap;
use reader_map::model::{Bound, Operation};
use std::collections::BTreeMap;

fn bag_of(bag: Option<Option<&ValueBag>>) -> Option<Vec<i64>> {
    bag.expect("the map is gone").map(|b| b.to_vec())
}

#[test]
fn insert_then_publish_scenario() {
    // Values are numbers here: each letter stands by its code.
    let (a, b, x) = ('a' as i64, 'b' as i64, 'x' as i64);
    let (mut w, r) = new();
    w.insert(1, a);
    w.insert(1, b);
    w.insert(2, x);
    assert_eq!(r.len(&w), 0);
    assert!(w.publish());
    assert_eq!(bag_of(r.get(&w, 1)), Some(vec![a, b]));
    assert_eq!(bag_of(r.get(&w, 2)), Some(vec![x]));
    assert_eq!(r.len(&w), 2);

    w.remove_value(1, a);
    assert_eq!(bag_of(r.get(&w, 1)), Some(vec![a, b]));
    assert_eq!(
        w.pending_view().and_then(|map| map.get(1)).map(|bag| bag.to_vec()),
        Some(vec![b])
    );
    assert!(w.publish());
    assert_eq!(bag_of(r.get(&w, 1)), Some(vec![b]));
}

#[test]
fn nothing_is_visible_before_publish() {
    let (mut w, r) = new();
    w.insert(5, 50);
    w.publish();
    w.insert(5, 51);
    w.insert(6, 60);
    w.remove_entry(5);
    assert_eq!(bag_of(r.get(&w, 5)), Some(vec![50]));
    assert_eq!(bag_of(r.get(&w, 6)), None);
    assert!(!r.contains_key(&w, 6));
    assert_eq!(r.len(&w), 1);
    assert_eq!(w.unpublished_len(), 3);
    w.publish();
    assert_eq!(bag_of(r.get(&w, 5)), None);
    assert_eq!(bag_of(r.get(&w, 6)), Some(vec![60]));
    assert_eq!(w.unpublished_len(), 0);
}

#[test]
fn duplicate_values_are_separate_entries() {
    let (mut w, r) = new();
    w.insert(7, 3);
    w.insert(7, 3);
    w.remove_value(7, 3);
    w.publish();
    assert_eq!(bag_of(r.get(&w, 7)), Some(vec![3]));
    assert!(r.contains_key(&w, 7));
}

#[test]
fn removing_the_last_value_keeps_the_key() {
    let (mut w, r) = new();
    w.insert(4, 9);
    w.remove_value(4, 9);
    w.publish();
    assert_eq!(bag_of(r.get(&w, 4)), Some(vec![]));
    assert_eq!(bag_of(r.get(&w, 5)), None);
    assert_eq!(r.len(&w), 1);
}

#[test]
fn remove_value_of_absent_key_creates_nothing() {
    let (mut w, r) = new();
    w.remove_value(4, 9);
    w.publish();
    assert_eq!(bag_of(r.get(&w, 4)), None);
    assert_eq!(r.len(&w), 0);
}

#[test]
fn remove_range_deletes_the_keys_inside() {
    let (mut w, r) = new();
    for k in 0..10 {
        w.insert(k, k * 100);
    }
    w.publish();
    w.remove_range(Bound::Included(2), Bound::Excluded(8));
    w.publish();
    let view = r.enter(&mut w).expect("the map is live");
    assert_eq!(view.keys(&w), Some(vec![0, 1, 8, 9]));
    assert_eq!(
        view.values(&w),
        Some(vec![vec![0], vec![100], vec![800], vec![900]])
    );
    view.leave(&mut w);
}

#[test]
fn remove_range_with_open_ends() {
    let (mut w, r) = new();
    for k in -3..4 {
        w.insert(k, 1);
    }
    w.remove_range(Bound::Unbounded, Bound::Included(-2));
    w.remove_range(Bound::Excluded(1), Bound::Unbounded);
    w.remove_range(Bound::Excluded(0), Bound::Excluded(1));
    w.remove_range(Bound::Included(5), Bound::Included(-5));
    w.publish();
    let view = r.enter(&mut w).unwrap();
    assert_eq!(view.keys(&w), Some(vec![-1, 0, 1]));
    assert_eq!(view.len(&w), Some(3));
}

#[test]
fn sorted_bags_keep_ascending_order() {
    let (mut w, r) = with_order(Order::Sorted);
    for v in [5, 1, 3, 1, 4] {
        w.insert(0, v);
    }
    w.remove_value(0, 3);
    w.publish();
    assert_eq!(bag_of(r.get(&w, 0)), Some(vec![1, 1, 4, 5]));
}

#[test]
fn insertion_order_bags_keep_arrival_order() {
    let mut bag = ValueBag::new(Order::Insertion);
    for v in [5, 1, 3, 1, 4] {
        bag.insert(v);
    }
    assert_eq!(bag.to_vec(), vec![5, 1, 3, 1, 4]);
    assert_eq!(bag.position(1), Some(1));
    assert!(bag.remove_value(1));
    assert_eq!(bag.to_vec(), vec![5, 3, 1, 4]);
    assert!(!bag.remove_value(7));
    assert!(bag.contains(4));
    assert!(!bag.contains(7));
    assert_eq!(bag.len(), 4);
    assert_eq!(bag.get(1), Some(3));
    assert_eq!(bag.get(4), None);
    assert!(!bag.is_empty());
    assert_eq!(bag.order(), Order::Insertion);
}

#[test]
fn inner_map_operations() {
    let mut map = InnerMap::new(Order::Insertion);
    assert!(map.is_empty());
    map.upsert_insert(3, 30);
    map.upsert_insert(1, 10);
    map.upsert_insert(2, 20);
    map.upsert_insert(1, 11);
    assert_eq!(map.keys(), vec![1, 2, 3]);
    assert_eq!(map.values(), vec![vec![10, 11], vec![20], vec![30]]);
    assert_eq!(map.len(), 3);
    assert!(map.remove_value(1, 10));
    assert!(!map.remove_value(1, 10));
    assert!(!map.remove_value(9, 10));
    map.remove_entry(2);
    map.remove_entry(2);
    assert!(map.contains_key(1));
    assert!(!map.contains_key(2));
    assert_eq!(map.get(1).map(|b| b.to_vec()), Some(vec![11]));
    assert!(map.get(2).is_none());
    map.apply(Operation::RemoveRange(Bound::Excluded(1), Bound::Unbounded));
    assert_eq!(map.keys(), vec![1]);
    assert_eq!(map.order(), Order::Insertion);
}

#[test]
fn a_scope_keeps_what_was_published_when_it_began() {
    let (mut w, r) = new();
    w.insert(1, 1);
    w.publish();
    let view = r.enter(&mut w).unwrap();
    assert_eq!(view.generation(), 1);
    w.insert(1, 2);
    w.insert(2, 2);
    assert!(w.publish());
    assert!(view.is_held(&w));
    assert_eq!(bag_of(view.get(&w, 1)), Some(vec![1]));
    assert_eq!(view.contains_key(&w, 2), Some(false));
    assert_eq!(view.len(&w), Some(1));
    assert_eq!(bag_of(r.get(&w, 1)), Some(vec![1, 2]));
    view.leave(&mut w);
}

#[test]
fn publish_is_put_off_while_a_reader_stays_in_an_old_scope() {
    let (mut w, r) = new();
    let second = r.duplicate(&mut w);
    w.insert(1, 1);
    w.publish();
    let old_view = r.enter(&mut w).unwrap();
    w.insert(1, 2);
    assert!(w.publish());
    w.insert(1, 3);
    assert!(!w.publish());
    assert_eq!(w.generation(), 2);
    assert_eq!(bag_of(old_view.get(&w, 1)), Some(vec![1]));
    assert_eq!(bag_of(second.get(&w, 1)), Some(vec![1, 2]));
    w.insert(1, 4);
    assert_eq!(w.unpublished_len(), 2);
    assert!(w.pending_view().is_none());
    old_view.leave(&mut w);
    assert_eq!(
        w.pending_view().and_then(|map| map.get(1)).map(|bag| bag.to_vec()),
        Some(vec![1, 2, 3, 4])
    );
    assert!(w.publish());
    assert_eq!(w.generation(), 3);
    assert_eq!(bag_of(second.get(&w, 1)), Some(vec![1, 2, 3, 4]));
    assert_eq!(bag_of(r.get(&w, 1)), Some(vec![1, 2, 3, 4]));
}

#[test]
fn entering_again_replaces_the_old_scope() {
    let (mut w, r) = new();
    let first = r.enter(&mut w).unwrap();
    w.insert(1, 1);
    w.publish();
    let second = r.enter(&mut w).unwrap();
    assert!(!first.is_held(&w));
    assert!(first.get(&w, 1).is_none());
    assert_eq!(first.len(&w), None);
    assert_eq!(first.keys(&w), None);
    assert_eq!(first.values(&w), None);
    assert_eq!(first.contains_key(&w, 1), None);
    assert!(second.is_held(&w));
    assert_eq!(second.keys(&w), Some(vec![1]));
    first.leave(&mut w);
    assert!(second.is_held(&w));
}

#[test]
fn released_handles_and_destroyed_maps_are_gone() {
    let (mut w, r) = new();
    let other = r.duplicate(&mut w);
    w.insert(1, 1);
    w.publish();
    assert!(other.can_read(&w));
    let view = other.enter(&mut w).unwrap();
    other.release(&mut w);
    assert!(!view.is_held(&w));
    assert!(r.can_read(&w));
    assert!(w.is_live());
    w.destroy();
    assert!(!w.is_live());
    assert!(r.get(&w, 1).is_none());
    assert!(r.enter(&mut w).is_none());
    assert_eq!(r.len(&w), 0);
    assert!(!r.contains_key(&w, 1));
}

#[test]
fn from_operations_publishes_the_replay() {
    let ops = vec![
        Operation::Insert(1, 1),
        Operation::Insert(2, 2),
        Operation::Insert(1, 3),
        Operation::RemoveValue(1, 1),
        Operation::RemoveEntry(2),
        Operation::Insert(4, 4),
        Operation::RemoveRange(Bound::Included(4), Bound::Included(4)),
    ];
    let (w, r) = from_operations(Order::Insertion, &ops);
    assert_eq!(w.generation(), 1);
    assert_eq!(r.len(&w), 1);
    assert_eq!(bag_of(r.get(&w, 1)), Some(vec![3]));
    assert_eq!(w.order(), Order::Insertion);
}

fn next(seed: &mut u64) -> u64 {
    *seed ^= *seed << 13;
    *seed ^= *seed >> 7;
    *seed ^= *seed << 17;
    *seed
}

fn in_range(lo: Bound, hi: Bound, k: i64) -> bool {
    let above = match lo {
        Bound::Included(a) => a <= k,
        Bound::Excluded(a) => a < k,
        Bound::Unbounded => true,
    };
    let below = match hi {
        Bound::Included(b) => k <= b,
        Bound::Excluded(b) => k < b,
        Bound::Unbounded => true,
    };
    above && below
}

fn bound(seed: &mut u64) -> Bound {
    let k = (next(seed) % 16) as i64 - 8;
    match next(seed) % 3 {
        0 => Bound::Included(k),
        1 => Bound::Excluded(k),
        _ => Bound::Unbounded,
    }
}

#[test]
fn readers_follow_a_reference_map_publish_by_publish() {
    let mut seed: u64 = 0x2545_F491_4F6C_DD1D;
    for _ in 0..50 {
        let (mut w, r) = new();
        let mut write_ref: BTreeMap<i64, Vec<i64>> = BTreeMap::new();
        let mut read_ref: BTreeMap<i64, Vec<i64>> = BTreeMap::new();
        for _ in 0..200 {
            let k = (next(&mut seed) % 16) as i64 - 8;
            let v = (next(&mut seed) % 4) as i64;
            match next(&mut seed) % 5 {
                0 | 1 => {
                    w.insert(k, v);
                    write_ref.entry(k).or_default().push(v);
                }
                2 => {
                    w.remove_entry(k);
                    write_ref.remove(&k);
                }
                3 => {
                    w.remove_value(k, v);
                    if let Some(values) = write_ref.get_mut(&k) {
                        if let Some(pos) = values.iter().position(|x| *x == v) {
                            values.remove(pos);
                        }
                    }
                }
                _ => {
                    if next(&mut seed) % 2 == 0 {
                        let (lo, hi) = (bound(&mut seed), bound(&mut seed));
                        w.remove_range(lo, hi);
                        write_ref.retain(|key, _| !in_range(lo, hi, *key));
                    } else {
                        assert!(w.publish());
                        read_ref = write_ref.clone();
                    }
                }
            }
            assert_eq!(r.len(&w), read_ref.len());
            let view = r.enter(&mut w).unwrap();
            let keys = view.keys(&w).unwrap();
            let values = view.values(&w).unwrap();
            assert_eq!(keys, read_ref.keys().copied().collect::<Vec<_>>());
            assert_eq!(values, read_ref.values().cloned().collect::<Vec<_>>());
            view.leave(&mut w);
        }
    }
}

#[test]
fn registry_states_follow_the_readers() {
    let (mut w, r) = new();
    let other = r.duplicate(&mut w);
    let view = other.enter(&mut w).unwrap();
    let mut registry = reader_map::epoch::EpochRegistry::new();
    let a = registry.register();
    let b = registry.register();
    assert_eq!((a, b), (0, 1));
    assert!(registry.enter(a, 4));
    assert!(registry.enter(b, 2));
    assert_eq!(registry.watermark(5), 2);
    assert_eq!(registry.state(b), ReaderState::Reading(2));
    registry.leave(b);
    assert_eq!(registry.state(b), ReaderState::Idle);
    assert_eq!(registry.watermark(5), 4);
    registry.deregister(a);
    assert_eq!(registry.state(a), ReaderState::Vacant);
    assert!(!registry.enter(a, 6));
    assert!(!registry.enter(9, 6));
    assert_eq!(registry.watermark(5), 5);
    assert_eq!(registry.state(9), ReaderState::Vacant);
    assert_eq!(registry.len(), 2);
    view.leave(&mut w);
}
