use smolset::{SetMode, SmolSet, SmolSetIter, SmallDrain};

fn iter_to_vec(mut it: SmolSetIter) -> Vec<u64> {
    let mut out: Vec<u64> = Vec::new();
    while let Some(x) = it.next() {
        out.push(x);
    }
    out
}

fn drain_to_vec(mut it: SmallDrain) -> Vec<u64> {
    let mut out: Vec<u64> = Vec::new();
    while let Some(x) = it.next() {
        out.push(x);
    }
    out
}

#[test]
fn test_basic_set() {
    let mut s = SmolSet::new(2);
    assert_eq!(s.insert(1), true);
    assert_eq!(s.insert(2), true);
    assert_eq!(s.insert(2), false);
    assert_eq!(s.insert(3), true);
    assert_eq!(s.insert(2), false);
    assert_eq!(s.insert(3), false);
    assert!(s.contains(1));
    assert!(s.contains(2));
    assert!(s.contains(3));
    assert!(!s.contains(4));
    let expected = vec![1, 2, 3];
    assert_eq!(s.len(), expected.len());
    assert!(iter_to_vec(s.iter()).iter().all(|x| expected.contains(x)));
    s.clear();
    assert!(!s.contains(1));
}

#[test]
fn test_remove() {
    let mut s = SmolSet::new(2);
    assert_eq!(s.insert(1), true);
    assert_eq!(s.insert(2), true);
    assert_eq!(s.len(), 2);
    assert!(s.contains(1));
    assert_eq!(s.remove(1), true);
    assert_eq!(s.remove(1), false);
    assert_eq!(s.len(), 1);
    assert!(!s.contains(1));
    assert_eq!(s.insert(1), true);
    let expected = vec![1, 2, 3];
    assert_eq!(s.len(), 2);
    assert!(iter_to_vec(s.iter()).iter().all(|x| expected.contains(x)));
}

#[test]
fn test_clone() {
    let mut s = SmolSet::new(2);
    s.insert(1);
    s.insert(2);
    let c = s.clone();
    assert!(c.contains(1));
    assert!(c.contains(2));
    assert!(!c.contains(3));
}

#[test]
fn test_debug_small() {
    let mut s = SmolSet::new(2);
    s.insert(1);
    s.insert(2);
    let buf = s.debug_string();
    assert_eq!(&buf, "[1, 2]");
}

#[test]
fn test_from_iter() {
    let s = SmolSet::from_vec(4, vec![1, 2, 3, 4]);
    assert_eq!(s.len(), 4);
}

#[test]
fn test_replace() {
    let mut lhs = SmolSet::new(4);
    lhs.insert(10);
    lhs.insert(11);

    assert_eq!(lhs.replace(10), Some(10));
    assert!(lhs.contains(10));
    assert_eq!(lhs.len(), 2);

    assert_eq!(lhs.replace(12), None);
    assert!(lhs.contains(12));
    assert_eq!(lhs.len(), 3);
}

#[test]
fn test_eq_both_stack() {
    let mut lhs = SmolSet::new(4);
    lhs.insert(1);
    lhs.insert(2);

    let mut rhs = SmolSet::new(4);
    rhs.insert(1);
    rhs.insert(2);

    assert!(lhs == rhs);
}

#[test]
fn test_eq_both_heap() {
    let expected = (0..100).collect::<Vec<u64>>();
    let lhs = SmolSet::from_vec(4, expected.clone());
    let rhs = SmolSet::from_vec(4, expected.clone());

    assert!(lhs == rhs);
}

#[test]
fn test_eq_stack_heap() {
    let expected = (0..5).collect::<Vec<u64>>();
    let mut lhs = SmolSet::from_vec(10, expected.clone());
    let rhs = SmolSet::from_vec(10, expected.clone());

    (100..200).for_each(|x| assert!(lhs.insert(x)));
    (100..200).for_each(|x| assert!(lhs.remove(x)));

    assert_eq!(lhs.mode(), SetMode::Heap);
    assert_eq!(rhs.mode(), SetMode::Stack);

    assert!(lhs == rhs);
}

#[test]
fn test_intersection() {
    let mut lhs = SmolSet::new(4);
    lhs.insert(1);
    lhs.insert(3);
    lhs.insert(5);
    lhs.insert(4);
    lhs.insert(8);
    lhs.insert(10);

    let mut rhs = SmolSet::new(4);
    rhs.insert(4);
    rhs.insert(8);
    rhs.insert(10);

    let mut it = lhs.intersection(&rhs);
    let mut all_even = true;
    while let Some(x) = it.next() {
        all_even = all_even && x % 2 == 0;
    }
    assert!(all_even);
}

#[test]
fn test_union() {
    let mut lhs = SmolSet::new(4);
    lhs.insert(1);
    lhs.insert(2);
    lhs.insert(3);
    lhs.insert(4);

    let mut rhs = SmolSet::new(4);
    rhs.insert(3);
    rhs.insert(4);
    rhs.insert(5);
    rhs.insert(6);

    let mut union = Vec::new();
    let mut it = lhs.union(&rhs);
    while let Some(x) = it.next() {
        union.push(x);
    }
    let expected = vec![1, 2, 3, 4, 5, 6];
    assert_eq!(union.len(), expected.len());
    assert!(expected.iter().all(|x| union.contains(x)));
}

#[test]
fn test_difference() {
    let mut lhs = SmolSet::new(4);
    lhs.insert(1);
    lhs.insert(2);
    lhs.insert(3);
    lhs.insert(4);

    let mut rhs = SmolSet::new(4);
    rhs.insert(3);
    rhs.insert(4);
    rhs.insert(5);
    rhs.insert(6);

    let mut diff = Vec::new();
    let mut it = lhs.difference(&rhs);
    while let Some(x) = it.next() {
        diff.push(x);
    }
    let expected = vec![1, 2];
    assert_eq!(diff.len(), expected.len());
    assert!(expected.iter().all(|x| diff.contains(x)));
}

#[test]
fn test_symmetric_difference() {
    let mut lhs = SmolSet::new(4);
    lhs.insert(1);
    lhs.insert(2);
    lhs.insert(3);
    lhs.insert(4);

    let mut rhs = SmolSet::new(4);
    rhs.insert(3);
    rhs.insert(4);
    rhs.insert(5);
    rhs.insert(6);

    let mut sym = Vec::new();
    let mut it = lhs.symmetric_difference(&rhs);
    while let Some(x) = it.next() {
        sym.push(x);
    }
    let expected = vec![1, 2, 5, 6];
    assert_eq!(sym.len(), expected.len());
    assert!(expected.iter().all(|x| sym.contains(x)));
}
