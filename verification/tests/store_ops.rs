use cap_registry::store::Store;

#[test]
fn store_keeps_one_value_per_key() {
    let mut s: Store<u64> = Store::new();
    s.insert(1, 10);
    s.insert(2, 20);
    s.insert(1, 11);

    assert_eq!(s.len(), 2);
    assert!(s.contains_key(1));
    assert!(!s.contains_key(3));
    assert_eq!(s.keys(), vec![1, 2]);
    assert_eq!(*s.get_mut(1).unwrap(), 11);
    assert_eq!(*s.get_mut(2).unwrap(), 20);
}

#[test]
fn store_removal_and_merge() {
    let mut a: Store<u64> = Store::new();
    a.insert(1, 10);
    a.insert(2, 20);
    assert!(a.remove(1));
    assert!(!a.remove(1));
    assert_eq!(a.keys(), vec![2]);

    let mut b: Store<u64> = Store::new();
    b.insert(2, 200);
    b.insert(3, 300);
    a.merge(b);

    assert_eq!(a.len(), 2);
    assert_eq!(*a.get_mut(2).unwrap(), 200);
    assert_eq!(*a.get_mut(3).unwrap(), 300);
}

#[test]
fn store_mutable_pairs_reach_every_value() {
    let mut s: Store<u64> = Store::new();
    s.insert(5, 50);
    s.insert(6, 60);

    let mut pairs = s.pairs_mut();
    assert_eq!(pairs.len(), 2);
    for (key, value) in pairs.iter_mut() {
        **value += *key;
    }
    drop(pairs);

    assert_eq!(*s.get_mut(5).unwrap(), 55);
    assert_eq!(*s.get_mut(6).unwrap(), 66);
}
