use nohashmap::{NoHashMap, NoHashMapMultiVec, NoHashMapVecTuple};

fn sample_multivec() -> NoHashMapMultiVec<f64, &'static str> {
    let mut m = NoHashMapMultiVec::new();
    m.insert(0.1, "blue");
    m.insert(1.2, "green");
    m.insert(0.4, "red");
    m.insert(0.7, "yellow");
    m.insert(-2.3, "orange");
    m
}

fn sample_vectuple() -> NoHashMapVecTuple<f64, &'static str> {
    let mut m = NoHashMapVecTuple::new();
    m.insert(0.1, "blue");
    m.insert(1.2, "green");
    m.insert(0.4, "red");
    m.insert(0.7, "yellow");
    m.insert(-2.3, "orange");
    m
}

#[test]
fn test_scenario_insert() {
    let mv = sample_multivec();
    assert_eq!(mv.len(), 5);
    assert_eq!(mv.get(&0.4), Some(&"red"));
    let vt = sample_vectuple();
    assert_eq!(vt.len(), 5);
    assert_eq!(vt.get(&0.4), Some(&"red"));
}

#[test]
fn test_scenario_remove() {
    let mut mv = sample_multivec();
    assert_eq!(mv.remove(&0.4), Some("red"));
    assert_eq!(mv.len(), 4);
    assert_eq!(mv.get(&0.4), None);
    assert_eq!(mv.keys(), &vec![0.1, 1.2, 0.7, -2.3]);

    let mut vt = sample_vectuple();
    assert_eq!(vt.remove(&0.4), Some("red"));
    assert_eq!(vt.len(), 4);
    assert_eq!(vt.get(&0.4), None);
    let keys: Vec<f64> = vt.keys().into_iter().copied().collect();
    assert_eq!(keys, vec![0.1, 1.2, 0.7, -2.3]);
}

#[test]
fn test_scenario_swap_remove() {
    let mut mv = sample_multivec();
    assert_eq!(mv.swap_remove(&0.1), Some("blue"));
    assert_eq!(mv.len(), 4);
    assert_eq!(mv.get(&0.1), None);
    // The last entry moved into the vacated first slot.
    assert_eq!(mv.keys()[0], -2.3);
    assert_eq!(mv.values()[0], "orange");

    let mut vt = sample_vectuple();
    assert_eq!(vt.swap_remove(&0.1), Some("blue"));
    assert_eq!(vt.len(), 4);
    assert_eq!(vt.get(&0.1), None);
    assert_eq!(vt.iter()[0], (-2.3, "orange"));
}

#[test]
fn test_scenario_retain() {
    let mut mv = sample_multivec();
    mv.retain(|k, _| *k > 0.0);
    assert_eq!(mv.keys(), &vec![0.1, 1.2, 0.4, 0.7]);
    assert_eq!(mv.values(), &vec!["blue", "green", "red", "yellow"]);

    let mut vt = sample_vectuple();
    vt.retain(|k, _| *k > 0.0);
    let keys: Vec<f64> = vt.keys().into_iter().copied().collect();
    assert_eq!(keys, vec![0.1, 1.2, 0.4, 0.7]);
}

#[test]
fn test_scenario_with_capacity() {
    let mut mv: NoHashMapMultiVec<f64, &str> = NoHashMapMultiVec::with_capacity(10);
    mv.insert(0.1, "blue");
    mv.insert(1.2, "green");
    mv.insert(0.4, "red");
    assert!(mv.capacity() >= 10);

    let mut vt: NoHashMapVecTuple<f64, &str> = NoHashMapVecTuple::with_capacity(10);
    vt.insert(0.1, "blue");
    vt.insert(1.2, "green");
    vt.insert(0.4, "red");
    assert!(vt.capacity() >= 10);
}

#[test]
fn test_insert_updates_in_place() {
    let mut mv = NoHashMapMultiVec::new();
    mv.insert(7, "first");
    mv.insert(9, "second");
    mv.insert(7, "third");
    assert_eq!(mv.len(), 2);
    assert_eq!(mv.get(&7), Some(&"third"));
    assert_eq!(mv.keys(), &vec![7, 9]);

    let mut vt = NoHashMapVecTuple::new();
    vt.insert(7, "first");
    vt.insert(9, "second");
    vt.insert(7, "third");
    assert_eq!(vt.len(), 2);
    assert_eq!(vt.get(&7), Some(&"third"));
}

#[test]
fn test_insert_keeps_keys_unique() {
    let mut mv = NoHashMapMultiVec::new();
    for k in [1, 2, 1, 3, 2, 1] {
        mv.insert(k, k * 10);
    }
    assert_eq!(mv.len(), 3);
    assert_eq!(mv.keys(), &vec![1, 2, 3]);
}

#[test]
fn test_reserve_capacity() {
    let mut mv = NoHashMapMultiVec::new();
    mv.insert(1, 1);
    mv.insert(2, 2);
    mv.reserve(10);
    assert!(mv.capacity() >= mv.len() + 10);

    let mut vt = NoHashMapVecTuple::new();
    vt.insert(1, 1);
    vt.insert(2, 2);
    vt.reserve(10);
    assert!(vt.capacity() >= vt.len() + 10);
}

#[test]
fn test_try_reserve() {
    let mut mv = NoHashMapMultiVec::new();
    mv.insert(1, 2);
    assert!(mv.try_reserve(8).is_ok());
    assert!(mv.capacity() >= 9);
    assert!(mv.try_reserve(usize::MAX).is_err());
    assert_eq!(mv.get(&1), Some(&2));

    let mut vt = NoHashMapVecTuple::new();
    vt.insert(1, 2);
    assert!(vt.try_reserve(8).is_ok());
    assert!(vt.try_reserve(usize::MAX).is_err());
    assert_eq!(vt.get(&1), Some(&2));
}

#[test]
fn test_shrink() {
    let mut mv: NoHashMapMultiVec<u32, u32> = NoHashMapMultiVec::with_capacity(64);
    mv.insert(1, 2);
    mv.insert(3, 4);
    mv.shrink_to(8);
    assert!(mv.capacity() >= 8);
    assert_eq!(mv.get(&1), Some(&2));
    mv.shrink_to_fit();
    assert!(mv.capacity() >= mv.len());
    assert_eq!(mv.get(&3), Some(&4));

    let mut vt: NoHashMapVecTuple<u32, u32> = NoHashMapVecTuple::with_capacity(64);
    vt.insert(1, 2);
    vt.shrink_to_fit();
    assert!(vt.capacity() >= vt.len());
    assert_eq!(vt.get(&1), Some(&2));
}

#[test]
fn test_drain_totality() {
    let mut mv = sample_multivec();
    let (keys, values) = mv.drain();
    assert_eq!(keys, vec![0.1, 1.2, 0.4, 0.7, -2.3]);
    assert_eq!(values, vec!["blue", "green", "red", "yellow", "orange"]);
    assert!(mv.is_empty());

    let mut vt = sample_vectuple();
    let entries = vt.drain();
    assert_eq!(entries.len(), 5);
    assert_eq!(entries[0], (0.1, "blue"));
    assert_eq!(entries[4], (-2.3, "orange"));
    assert!(vt.is_empty());
}

#[test]
fn test_get_mut_on_absent_key() {
    let mut mv: NoHashMapMultiVec<u32, u32> = NoHashMapMultiVec::new();
    mv.insert(1, 2);
    assert!(mv.get_mut(&9).is_none());

    let mut vt: NoHashMapVecTuple<u32, u32> = NoHashMapVecTuple::new();
    vt.insert(1, 2);
    assert!(vt.get_mut(&9).is_none());
}

#[test]
fn test_layout_equivalence_differential() {
    // The same edit history applied to both layouts leaves the same entries.
    let mut mv: NoHashMapMultiVec<i64, i64> = NoHashMapMultiVec::new();
    let mut vt: NoHashMapVecTuple<i64, i64> = NoHashMapVecTuple::new();
    let inserts = [(4, 40), (2, 20), (9, 90), (4, 41), (7, 70), (1, 10)];
    for (k, v) in inserts {
        mv.insert(k, v);
        vt.insert(k, v);
    }
    mv.remove(&2);
    vt.remove(&2);
    mv.swap_remove(&4);
    vt.swap_remove(&4);
    mv.retain(|k, _| *k != 7);
    vt.retain(|k, _| *k != 7);

    let mv_pairs: Vec<(i64, i64)> = mv.iter().into_iter().map(|(k, v)| (*k, *v)).collect();
    let vt_pairs: Vec<(i64, i64)> = vt.iter().clone();
    assert_eq!(mv_pairs, vt_pairs);
    assert_eq!(mv_pairs, vec![(1, 10), (9, 90)]);
}

#[test]
fn test_debug_string() {
    let mut mv = NoHashMapMultiVec::new();
    assert_eq!(mv.debug_string(), "{}");
    mv.insert(1, 2);
    mv.insert(3, 4);
    assert_eq!(mv.debug_string(), "{1: 2, 3: 4}");

    let mut vt = NoHashMapVecTuple::new();
    vt.insert(1, 2);
    vt.insert(3, 4);
    assert_eq!(vt.debug_string(), "{1: 2, 3: 4}");
}

#[test]
fn test_default_alias() {
    let mut m: NoHashMap<f64, f64> = NoHashMap::new();
    m.insert(0.5, 1.5);
    assert_eq!(m.get(&0.5), Some(&1.5));
    assert_eq!(m.len(), 1);
}

#[test]
fn test_get_key_value_absent() {
    let mv: NoHashMapMultiVec<u8, u8> = NoHashMapMultiVec::new();
    assert_eq!(mv.get_key_value(&1), None);
    let vt: NoHashMapVecTuple<u8, u8> = NoHashMapVecTuple::new();
    assert_eq!(vt.get_key_value(&1), None);
}

#[test]
fn test_nan_key_is_never_found() {
    // A key that does not equal itself cannot be found again: the one
    // input family the round-trip law excludes.
    let mut mv = NoHashMapMultiVec::new();
    mv.insert(f64::NAN, 1);
    assert_eq!(mv.get(&f64::NAN), None);
    assert_eq!(mv.len(), 1);
}
