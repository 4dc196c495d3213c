use smolset::{SetMode, SmolSet};

#[test]
fn test_uniqueness_duplicates() {
    let mut s = SmolSet::new(3);
    for x in [7u64, 8, 9, 10, 11] {
        assert!(s.insert(x));
    }
    for x in [7u64, 9, 11, 7, 8] {
        let before = s.len();
        assert_eq!(s.insert(x), false);
        assert_eq!(s.len(), before);
    }
    assert_eq!(s.len(), 5);
}

#[test]
fn test_promotion() {
    let mut s = SmolSet::new(2);
    assert_eq!(s.mode(), SetMode::Stack);
    s.insert(1);
    s.insert(2);
    assert_eq!(s.mode(), SetMode::Stack);
    s.insert(3);
    assert_eq!(s.mode(), SetMode::Heap);
    assert_eq!(s.len(), 3);
    assert!(s.contains(1));
    assert!(s.contains(2));
    assert!(s.contains(3));

    assert!(s.remove(1));
    assert!(s.remove(2));
    assert_eq!(s.len(), 1);
    assert_eq!(s.mode(), SetMode::Heap);

    s.clear();
    assert_eq!(s.len(), 0);
    assert_eq!(s.mode(), SetMode::Heap);
}

#[test]
fn test_round_trip_membership() {
    let mut s = SmolSet::new(4);
    assert!(s.insert(42));
    assert!(s.contains(42));
    assert!(s.remove(42));
    assert!(!s.contains(42));

    let before = s.len();
    assert_eq!(s.remove(42), false);
    assert_eq!(s.len(), before);
}

#[test]
fn test_take_reinsert() {
    let mut s = SmolSet::new(4);
    s.insert(5);
    s.insert(6);
    assert_eq!(s.take(5), Some(5));
    assert!(!s.contains(5));
    assert_eq!(s.take(5), None);
    assert!(s.insert(5));
    assert!(s.contains(5));
    assert!(s.contains(6));
    assert_eq!(s.len(), 2);
}

#[test]
fn test_get() {
    let mut s = SmolSet::new(2);
    s.insert(3);
    assert_eq!(s.get(3), Some(3));
    assert_eq!(s.get(4), None);
    s.insert(4);
    s.insert(5);
    assert_eq!(s.mode(), SetMode::Heap);
    assert_eq!(s.get(5), Some(5));
    assert_eq!(s.get(6), None);
}

#[test]
fn test_drain_exhaustive_stack() {
    let mut s = SmolSet::new(8);
    for x in [4u64, 2, 9] {
        s.insert(x);
    }
    let mut it = s.drain();
    let mut got: Vec<u64> = Vec::new();
    while let Some(x) = it.next() {
        got.push(x);
    }
    assert_eq!(got.len(), 3);
    for x in [4u64, 2, 9] {
        assert!(got.contains(&x));
    }
    assert_eq!(s.len(), 0);
    assert!(s.is_empty());
    assert_eq!(s.mode(), SetMode::Stack);
    assert_eq!(it.next(), None);
}

#[test]
fn test_drain_exhaustive_heap() {
    let mut s = SmolSet::from_vec(2, vec![1, 2, 3, 4, 5]);
    assert_eq!(s.mode(), SetMode::Heap);
    let mut it = s.drain();
    let mut got: Vec<u64> = Vec::new();
    while let Some(x) = it.next() {
        got.push(x);
    }
    assert_eq!(got.len(), 5);
    for x in 1u64..=5 {
        assert!(got.contains(&x));
    }
    got.sort();
    got.dedup();
    assert_eq!(got.len(), 5);
    assert_eq!(s.len(), 0);
    assert_eq!(s.mode(), SetMode::Heap);
}

#[test]
fn test_retain() {
    let mut s = SmolSet::from_vec(10, vec![1, 2, 3, 4, 5, 6]);
    s.retain(|x| x % 2 == 0);
    assert_eq!(s.len(), 3);
    assert!(s.contains(2));
    assert!(s.contains(4));
    assert!(s.contains(6));
    assert!(!s.contains(1));
    assert_eq!(s.mode(), SetMode::Stack);

    let mut h = SmolSet::from_vec(2, vec![1, 2, 3, 4, 5, 6]);
    assert_eq!(h.mode(), SetMode::Heap);
    h.retain(|x| x > 4);
    assert_eq!(h.len(), 2);
    assert!(h.contains(5));
    assert!(h.contains(6));
    assert_eq!(h.mode(), SetMode::Heap);
}

#[test]
fn test_from_vec_promotion_rule() {
    let stays = SmolSet::from_vec(2, vec![1, 1, 1, 1, 2, 2]);
    assert_eq!(stays.len(), 2);
    assert_eq!(stays.mode(), SetMode::Stack);

    let promoted = SmolSet::from_vec(2, vec![1, 2, 3]);
    assert_eq!(promoted.len(), 3);
    assert_eq!(promoted.mode(), SetMode::Heap);
}

#[test]
fn test_eq_unequal_sets() {
    let a = SmolSet::from_vec(4, vec![1, 2]);
    let b = SmolSet::from_vec(4, vec![1, 3]);
    let c = SmolSet::from_vec(4, vec![1, 2, 3]);
    assert!(a != b);
    assert!(a != c);

    let heap_a = SmolSet::from_vec(1, vec![1, 2]);
    assert_eq!(heap_a.mode(), SetMode::Heap);
    assert!(heap_a == a);
    assert!(heap_a != b);
}

#[test]
fn test_debug_forms() {
    let empty = SmolSet::new(4);
    assert_eq!(&empty.debug_string(), "[]");

    let mut one = SmolSet::new(4);
    one.insert(7);
    assert_eq!(&one.debug_string(), "[7]");

    let mut big = SmolSet::new(4);
    big.insert(123);
    big.insert(0);
    big.insert(40);
    assert_eq!(&big.debug_string(), "[123, 0, 40]");
}

#[test]
fn test_empty_and_zero_capacity() {
    let mut s = SmolSet::new(0);
    assert!(s.is_empty());
    assert_eq!(s.mode(), SetMode::Stack);
    assert!(s.insert(1));
    assert_eq!(s.mode(), SetMode::Heap);
    assert_eq!(s.len(), 1);
    assert!(s.contains(1));
}

#[test]
fn test_union_cross_representation() {
    let a = SmolSet::from_vec(1, vec![1, 2, 3, 4]);
    assert_eq!(a.mode(), SetMode::Heap);
    let b = SmolSet::from_vec(10, vec![3, 4, 5, 6]);
    assert_eq!(b.mode(), SetMode::Stack);

    let mut it = a.union(&b);
    let mut got: Vec<u64> = Vec::new();
    while let Some(x) = it.next() {
        got.push(x);
    }
    got.sort();
    assert_eq!(got, vec![1, 2, 3, 4, 5, 6]);

    let mut it2 = b.intersection(&a);
    let mut got2: Vec<u64> = Vec::new();
    while let Some(x) = it2.next() {
        got2.push(x);
    }
    got2.sort();
    assert_eq!(got2, vec![3, 4]);
}

#[test]
fn test_iter_insertion_order_inline() {
    let mut s = SmolSet::new(8);
    s.insert(3);
    s.insert(1);
    s.insert(2);
    let mut it = s.iter();
    let mut got: Vec<u64> = Vec::new();
    while let Some(x) = it.next() {
        got.push(x);
    }
    assert_eq!(got, vec![3, 1, 2]);
}
