use reader_map::handles::{new, ReadHandle, WriteHandle};
use reader_map::model::Bound;
use std::collections::{BTreeMap, HashSet};

/// A small generator of numbers, the same on every run.
struct Gen(u64);

impl Gen {
    fn next(&mut self) -> u64 {
        self.0 ^= self.0 << 13;
        self.0 ^= self.0 >> 7;
        self.0 ^= self.0 << 17;
        self.0
    }

    fn below(&mut self, n: u64) -> u64 {
        self.next() % n
    }

    fn small(&mut self) -> i64 {
        self.below(256) as i64 - 128
    }

    fn keys(&mut self, most: u64) -> Vec<i64> {
        let len = self.below(most);
        (0..len).map(|_| self.small()).collect()
    }
}

fn set(items: &[i64]) -> HashSet<i64> {
    items.iter().copied().collect()
}

#[test]
fn contains() {
    let mut gen = Gen(0x9E37_79B9_7F4A_7C15);
    for _ in 0..100 {
        let insert = gen.keys(100);
        let (mut w, r) = new();
        for &key in &insert {
            w.insert(key, 0);
        }
        w.publish();

        assert!(insert.iter().all(|&key| r.get(&w, key).unwrap().is_some()));
    }
}

#[test]
fn contains_not() {
    let mut gen = Gen(0xD1B5_4A32_D192_ED03);
    for _ in 0..100 {
        let insert = gen.keys(100);
        let not = gen.keys(100);
        let (mut w, r) = new();
        for &key in &insert {
            w.insert(key, 0);
        }
        w.publish();

        let nots = &set(&not) - &set(&insert);
        assert!(nots.iter().all(|&key| r.get(&w, key).unwrap().is_none()));
    }
}

#[test]
fn insert_empty() {
    let mut gen = Gen(0x2545_F491_4F6C_DD1D);
    for _ in 0..100 {
        let insert = gen.keys(100);
        let remove = gen.keys(100);
        let (mut w, r) = new();
        for &key in &insert {
            w.insert(key, 0);
        }
        w.publish();
        for &key in &remove {
            w.remove_entry(key);
        }
        w.publish();
        let elements = &set(&insert) - &set(&remove);
        let view = r.enter(&mut w).unwrap();
        assert_eq!(r.len(&w), elements.len());
        assert_eq!(view.keys(&w).unwrap().len(), elements.len());
        assert!(elements.iter().all(|&k| r.get(&w, k).unwrap().is_some()));
        view.leave(&mut w);
    }
}

#[derive(Copy, Clone, Debug)]
enum Op {
    Add(i64, i64),
    Remove(i64),
    RemoveValue(i64, i64),
    RemoveRange(Bound, Bound),
    Refresh,
}

fn bound(gen: &mut Gen) -> Bound {
    match gen.below(3) {
        0 => Bound::Included(gen.small()),
        1 => Bound::Excluded(gen.small()),
        _ => Bound::Unbounded,
    }
}

fn arbitrary(gen: &mut Gen) -> Op {
    match gen.below(5) {
        0 => Op::Add(gen.small(), gen.small()),
        1 => Op::Remove(gen.small()),
        2 => Op::RemoveValue(gen.small(), gen.small()),
        3 => loop {
            let bounds = (bound(gen), bound(gen));
            match bounds {
                (Bound::Excluded(s), Bound::Excluded(e))
                | (Bound::Included(s), Bound::Excluded(e))
                | (Bound::Excluded(s), Bound::Included(e))
                    if s == e =>
                {
                    continue;
                }
                (
                    Bound::Included(s) | Bound::Excluded(s),
                    Bound::Included(e) | Bound::Excluded(e),
                ) if s > e => {
                    continue;
                }
                _ => return Op::RemoveRange(bounds.0, bounds.1),
            }
        },
        _ => Op::Refresh,
    }
}

fn inside(lo: Bound, hi: Bound, k: i64) -> bool {
    let above = match lo {
        Bound::Included(a) => a <= k,
        Bound::Excluded(a) => a < k,
        Bound::Unbounded => true,
    };
    let below = match hi {
        Bound::Included(b) => k <= b,
        Bound::Excluded(b) => k < b,
        Bound::Unbounded => true,
    };
    above && below
}

fn do_ops(
    ops: &[Op],
    reader_map: &mut WriteHandle,
    write_ref: &mut BTreeMap<i64, Vec<i64>>,
    read_ref: &mut BTreeMap<i64, Vec<i64>>,
) {
    for op in ops {
        match *op {
            Op::Add(k, v) => {
                reader_map.insert(k, v);
                write_ref.entry(k).or_default().push(v);
            }
            Op::Remove(k) => {
                reader_map.remove_entry(k);
                write_ref.remove(&k);
            }
            Op::RemoveValue(k, v) => {
                reader_map.remove_value(k, v);
                write_ref.get_mut(&k).and_then(|values| {
                    values
                        .iter_mut()
                        .position(|value| *value == v)
                        .map(|pos| values.swap_remove(pos))
                });
            }
            Op::RemoveRange(lo, hi) => {
                reader_map.remove_range(lo, hi);
                write_ref.retain(|k, _| !inside(lo, hi, *k));
            }
            Op::Refresh => {
                reader_map.publish();
                *read_ref = write_ref.clone();
            }
        }
    }
}

fn assert_maps_equivalent(a: &ReadHandle, w: &mut WriteHandle, b: &BTreeMap<i64, Vec<i64>>) -> bool {
    assert_eq!(a.len(w), b.len());
    let guard = if let Some(guard) = a.enter(w) {
        guard
    } else {
        // The map is gone, so all is well.
        return true;
    };
    for key in guard.keys(w).unwrap() {
        assert!(b.contains_key(&key), "b does not contain {:?}", key);
    }
    for key in b.keys() {
        assert!(a.get(w, *key).unwrap().is_some(), "a does not contain {:?}", key);
    }
    for key in guard.keys(w).unwrap() {
        let mut ev_map_values: Vec<i64> = guard.get(w, key).unwrap().unwrap().to_vec();
        ev_map_values.sort();
        let mut map_values = b[&key].clone();
        map_values.sort();
        assert_eq!(ev_map_values, map_values);
    }
    guard.leave(w);
    true
}

#[test]
fn operations_i8() {
    let mut gen = Gen(0x0123_4567_89AB_CDEF);
    for _ in 0..100 {
        let len = gen.below(1000);
        let ops: Vec<Op> = (0..len).map(|_| arbitrary(&mut gen)).collect();
        let (mut w, r) = new();
        let mut write_ref = BTreeMap::new();
        let mut read_ref = BTreeMap::new();
        do_ops(&ops, &mut w, &mut write_ref, &mut read_ref);
        assert_maps_equivalent(&r, &mut w, &read_ref);

        w.publish();
        assert!(assert_maps_equivalent(&r, &mut w, &write_ref));
    }
}

#[test]
fn keys_values() {
    let mut gen = Gen(0xFEDC_BA98_7654_3210);
    for _ in 0..50 {
        let len = gen.below(300);
        let ops: Vec<Op> = (0..len).map(|_| arbitrary(&mut gen)).collect();
        let (mut w, r) = new();
        let mut write_ref = BTreeMap::new();
        let mut read_ref = BTreeMap::new();
        do_ops(&ops, &mut w, &mut write_ref, &mut read_ref);

        if let Some(read_guard) = r.enter(&mut w) {
            let (mut w_visit, r_visit) = new();
            let keys = read_guard.keys(&w).unwrap();
            let values = read_guard.values(&w).unwrap();
            for (k, v_set) in keys.iter().zip(values.iter()) {
                let bag = read_guard.get(&w, *k).unwrap().unwrap();
                assert!(bag.to_vec().iter().all(|v| v_set.contains(v)));
                assert!(v_set.iter().all(|v| bag.contains(*v)));

                assert!(!r_visit.contains_key(&w_visit, *k));

                // An empty bag still needs its key: add a value and take it
                // away again, which leaves the bag.
                if v_set.is_empty() {
                    w_visit.insert(*k, 0);
                    w_visit.remove_value(*k, 0);
                } else {
                    for value in v_set {
                        w_visit.insert(*k, *value);
                    }
                }
                w_visit.publish();
            }
            assert_eq!(r_visit.len(&w_visit), read_ref.len());
            read_guard.leave(&mut w);
        }
    }
}
