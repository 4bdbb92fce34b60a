use nohashmap::{NoHashMapMultiVec, NoHashMapVecTuple};
use std::collections::HashMap;

#[test]
fn it_works() {
    let mut nhm = NoHashMapMultiVec::new();
    println!("{:?}", nhm);
    nhm.insert(0.1, 0.1);
    println!("{:?}", nhm);
}

#[test]
fn test_insert_get() {
    let mut nhmmv = NoHashMapMultiVec::new();
    let mut nhmvt = NoHashMapVecTuple::new();
    nhmmv.insert(0, 1);
    nhmvt.insert(0, 1);
    assert_eq!(nhmmv.get(&0), Some(&1));
    assert_eq!(nhmvt.get(&0), Some(&1));
}

#[test]
fn test_get_mut() {
    let mut nhmmv = NoHashMapMultiVec::new();
    let mut nhmvt = NoHashMapVecTuple::new();
    nhmmv.insert(0, 1);
    nhmvt.insert(0, 1);
    *nhmmv.get_mut(&0).unwrap() = 3;
    assert_eq!(nhmmv.get(&0), Some(&3));
    *nhmvt.get_mut(&0).unwrap() = 3;
    assert_eq!(nhmvt.get(&0), Some(&3));
}

#[test]
fn test_get_key_value() {
    let mut nhmmv = NoHashMapMultiVec::new();
    let mut nhmvt = NoHashMapVecTuple::new();
    nhmmv.insert(0, 1);
    nhmvt.insert(0, 1);
    assert_eq!(nhmmv.get_key_value(&0), Some((&0, &1)));
    assert_eq!(nhmvt.get_key_value(&0), Some(&(0, 1)));
}

#[test]
fn test_remove() {
    let mut nhmmv = NoHashMapMultiVec::new();
    let mut nhmvt = NoHashMapVecTuple::new();
    nhmmv.insert(0, 1);
    nhmvt.insert(0, 1);
    nhmmv.remove(&0);
    nhmvt.remove(&0);
    assert_eq!(nhmmv.get(&0), None);
    assert_eq!(nhmvt.get(&0), None);
}

#[test]
fn test_swap_remove() {
    let mut nhmmv = NoHashMapMultiVec::new();
    let mut nhmvt = NoHashMapVecTuple::new();
    nhmmv.insert(0, 1);
    nhmvt.insert(0, 1);
    nhmmv.swap_remove(&0);
    nhmvt.swap_remove(&0);
    assert_eq!(nhmmv.get(&0), None);
    assert_eq!(nhmvt.get(&0), None);
}

#[test]
fn test_float() {
    let mut nhmmv = NoHashMapMultiVec::new();
    let mut nhmvt = NoHashMapVecTuple::new();

    for (k, v) in vec![(0.1, 1.2), (2.3, 3.4), (4.5, 5.6), (6.7, 7.8)].into_iter() {
        nhmmv.insert(k, v);
        nhmvt.insert(k, v);
    }

    let mv_pairs: Vec<(f64, f64)> = nhmmv.iter().into_iter().map(|(k, v)| (*k, *v)).collect();
    let vt_pairs: Vec<(f64, f64)> = nhmvt.iter().clone();
    assert_eq!(mv_pairs, vt_pairs);
}

#[test]
fn test_iter() {
    let hm: HashMap<usize, usize> = HashMap::from_iter(vec![(0, 1), (2, 3), (4, 5), (6, 7)]);
    let mut nhmmv = NoHashMapMultiVec::new();
    let mut nhmvt = NoHashMapVecTuple::new();

    for (k, v) in vec![(0, 1), (2, 3), (4, 5), (6, 7)].into_iter() {
        nhmmv.insert(k, v);
        nhmvt.insert(k, v);
    }

    let mut hm_pairs: Vec<(usize, usize)> = hm.into_iter().collect();
    hm_pairs.sort();
    let mut mv_pairs: Vec<(usize, usize)> = nhmmv.iter().into_iter().map(|(k, v)| (*k, *v)).collect();
    mv_pairs.sort();
    let mut vt_pairs: Vec<(usize, usize)> = nhmvt.iter().clone();
    vt_pairs.sort();
    assert_eq!(hm_pairs, mv_pairs);
    assert_eq!(hm_pairs, vt_pairs);
}

#[test]
fn test_iter_mut() {
    let mut nhmmv = NoHashMapMultiVec::new();
    let mut nhmvt = NoHashMapVecTuple::new();

    for (k, v) in vec![(0, 1), (2, 3), (4, 5), (6, 7)].into_iter() {
        nhmmv.insert(k, v);
        nhmvt.insert(k, v);
    }

    let (ks, vs) = nhmmv.iter_mut();
    ks.iter_mut().for_each(|k| *k += 10);
    vs.iter_mut().for_each(|v| *v += 10);
    nhmvt.iter_mut().iter_mut().for_each(|(k, v)| {
        *k += 10;
        *v += 10
    });

    let mv_pairs: Vec<(usize, usize)> = nhmmv.iter().into_iter().map(|(k, v)| (*k, *v)).collect();
    let vt_pairs: Vec<(usize, usize)> = nhmvt.iter().clone();
    assert_eq!(mv_pairs, vt_pairs);
    assert!(nhmmv.values().iter().min().unwrap() > &10);
}

#[test]
fn test_len() {
    let mut nhmmv = NoHashMapMultiVec::new();
    let mut nhmvt = NoHashMapVecTuple::new();

    for (k, v) in vec![(0, 1), (2, 3), (4, 5), (6, 7)].into_iter() {
        nhmmv.insert(k, v);
        nhmvt.insert(k, v);
    }

    assert_eq!(nhmmv.len(), 4);
    assert_eq!(nhmvt.len(), 4);
}

#[test]
fn test_values() {
    let mut nhmmv = NoHashMapMultiVec::new();
    let mut nhmvt = NoHashMapVecTuple::new();
    let values = [1, 3, 5, 7];

    for (k, v) in vec![(0, 1), (2, 3), (4, 5), (6, 7)].into_iter() {
        nhmmv.insert(k, v);
        nhmvt.insert(k, v);
    }

    assert_eq!(nhmmv.values(), &values.to_vec());
    let vt_values: Vec<usize> = nhmvt.values().into_iter().copied().collect();
    assert_eq!(vt_values, values.to_vec());
}

#[test]
fn test_keys() {
    let mut nhmmv = NoHashMapMultiVec::new();
    let mut nhmvt = NoHashMapVecTuple::new();
    let keys = [0, 2, 4, 6];

    for (k, v) in vec![(0, 1), (2, 3), (4, 5), (6, 7)].into_iter() {
        nhmmv.insert(k, v);
        nhmvt.insert(k, v);
    }

    assert_eq!(nhmmv.keys(), &keys.to_vec());
    let vt_keys: Vec<usize> = nhmvt.keys().into_iter().copied().collect();
    assert_eq!(vt_keys, keys.to_vec());
}

#[test]
fn test_values_mut() {
    let mut nhmmv = NoHashMapMultiVec::new();
    let mut nhmvt = NoHashMapVecTuple::new();

    for (k, v) in vec![(0, 1), (2, 3), (4, 5), (6, 7)].into_iter() {
        nhmmv.insert(k, v);
        nhmvt.insert(k, v);
    }

    nhmmv.values_mut().iter_mut().for_each(|v| *v += 10);
    nhmvt.iter_mut().iter_mut().for_each(|(_, v)| *v += 10);

    let vt_values: Vec<usize> = nhmvt.values().into_iter().copied().collect();
    assert_eq!(nhmmv.values(), &vt_values);
}

#[test]
fn test_keys_mut() {
    let mut nhmmv = NoHashMapMultiVec::new();
    let mut nhmvt = NoHashMapVecTuple::new();

    for (k, v) in vec![(0, 1), (2, 3), (4, 5), (6, 7)].into_iter() {
        nhmmv.insert(k, v);
        nhmvt.insert(k, v);
    }

    nhmmv.keys_mut().iter_mut().for_each(|k| *k += 10);
    nhmvt.iter_mut().iter_mut().for_each(|(k, _)| *k += 10);

    let vt_keys: Vec<usize> = nhmvt.keys().into_iter().copied().collect();
    assert_eq!(nhmmv.keys(), &vt_keys);
}

#[test]
fn test_into_values() {
    let mut nhmmv = NoHashMapMultiVec::new();
    let mut nhmvt = NoHashMapVecTuple::new();
    let values = [1, 3, 5, 7];

    for (k, v) in vec![(0, 1), (2, 3), (4, 5), (6, 7)].into_iter() {
        nhmmv.insert(k, v);
        nhmvt.insert(k, v);
    }

    assert_eq!(nhmmv.into_values(), values.to_vec());
    assert_eq!(nhmvt.into_values(), values.to_vec());
}

#[test]
fn test_into_keys() {
    let mut nhmmv = NoHashMapMultiVec::new();
    let mut nhmvt = NoHashMapVecTuple::new();
    let keys = [0, 2, 4, 6];

    for (k, v) in vec![(0, 1), (2, 3), (4, 5), (6, 7)].into_iter() {
        nhmmv.insert(k, v);
        nhmvt.insert(k, v);
    }

    assert_eq!(nhmmv.into_keys(), keys.to_vec());
    assert_eq!(nhmvt.into_keys(), keys.to_vec());
}

#[test]
fn test_contains_key() {
    let mut nhmmv = NoHashMapMultiVec::new();
    let mut nhmvt = NoHashMapVecTuple::new();
    let keys = [0, 2, 4, 6];

    for (k, v) in vec![(0, 1), (2, 3), (4, 5), (6, 7)].into_iter() {
        nhmmv.insert(k, v);
        nhmvt.insert(k, v);
    }

    for k in keys.iter() {
        assert!(nhmmv.contains_key(k));
        assert!(nhmvt.contains_key(k));
    }
}

#[test]
fn test_is_empty() {
    let mut nhmmv = NoHashMapMultiVec::new();
    let mut nhmvt = NoHashMapVecTuple::new();

    assert!(nhmmv.is_empty());
    assert!(nhmvt.is_empty());

    for (k, v) in vec![(0, 1), (2, 3), (4, 5), (6, 7)].into_iter() {
        nhmmv.insert(k, v);
        nhmvt.insert(k, v);
    }

    assert!(!nhmmv.is_empty());
    assert!(!nhmvt.is_empty());
}

#[test]
fn test_capacity() {
    let mut nhmmv = NoHashMapMultiVec::new();
    let mut nhmvt = NoHashMapVecTuple::new();

    assert_eq!(nhmmv.capacity(), 0);
    assert_eq!(nhmvt.capacity(), 0);

    for (k, v) in vec![(0, 1), (2, 3), (4, 5), (6, 7)].into_iter() {
        nhmmv.insert(k, v);
        nhmvt.insert(k, v);
    }

    assert_eq!(nhmmv.capacity(), nhmvt.capacity());
}

#[test]
fn test_clear() {
    let mut nhmmv = NoHashMapMultiVec::new();
    let mut nhmvt = NoHashMapVecTuple::new();

    for (k, v) in vec![(0, 1), (2, 3), (4, 5), (6, 7)].into_iter() {
        nhmmv.insert(k, v);
        nhmvt.insert(k, v);
    }

    nhmmv.clear();
    nhmvt.clear();

    assert!(nhmmv.is_empty());
    assert!(nhmvt.is_empty());
}

#[test]
fn test_drain() {
    let hm: HashMap<usize, usize> = HashMap::from_iter(vec![(0, 1), (2, 3), (4, 5), (6, 7)]);
    let mut nhmmv: NoHashMapMultiVec<usize, usize> = NoHashMapMultiVec::new();
    let mut nhmvt = NoHashMapVecTuple::new();

    for (k, v) in vec![(0, 1), (2, 3), (4, 5), (6, 7)].into_iter() {
        nhmmv.insert(k, v);
        nhmvt.insert(k, v);
    }

    let mut hm_pairs: Vec<(usize, usize)> = hm.into_iter().collect();
    hm_pairs.sort();
    let (mv_keys, mv_values) = nhmmv.drain();
    let mut mv_pairs: Vec<(usize, usize)> = mv_keys.into_iter().zip(mv_values).collect();
    mv_pairs.sort();
    let mut vt_pairs = nhmvt.drain();
    vt_pairs.sort();
    assert_eq!(hm_pairs, mv_pairs);
    assert_eq!(hm_pairs, vt_pairs);

    assert!(nhmmv.is_empty());
    assert!(nhmvt.is_empty());
}
