use std::sync::Arc;

use cap_registry::declare::Declared;
use cap_registry::extensions::{Extension, Extensions};

type Counter = Declared<1, u64>;
type Gauge = Declared<2, u64>;
type Speed = Declared<3, String>;
type Peers = Declared<4, u32>;
type Latency = Declared<5, u32>;
type Guarded = Declared<6, Arc<u32>>;

#[test]
fn merge_prefers_the_merged_in_registry() {
    let mut a = Extensions::new();
    a.register(Counter::new(1));

    let mut b = Extensions::new();
    b.register(Counter::new(2));
    b.register(Gauge::new(5));

    a.merge(b);

    assert_eq!(a.len(), 2);
    assert_eq!(a.extension_mut::<Counter>().unwrap().value, 2);
    assert_eq!(a.extension_mut::<Gauge>().unwrap().value, 5);
}

#[test]
fn merge_all_applies_left_to_right() {
    let mut a = Extensions::new();
    a.register(Counter::new(1));

    let mut b = Extensions::new();
    b.register(Counter::new(2));
    let mut c = Extensions::new();
    c.register(Counter::new(3));
    c.register(Gauge::new(4));

    a.merge_all(vec![b, c]);

    assert_eq!(a.len(), 2);
    assert_eq!(a.extension_mut::<Counter>().unwrap().value, 3);
    assert_eq!(a.extension_mut::<Gauge>().unwrap().value, 4);
}

#[test]
fn merge_with_empty_changes_nothing() {
    let mut a = Extensions::new();
    a.register(Counter::new(7));
    a.merge(Extensions::new());
    assert_eq!(a.len(), 1);
    assert_eq!(a.extension_mut::<Counter>().unwrap().value, 7);

    let mut empty = Extensions::new();
    empty.merge(a);
    assert_eq!(empty.len(), 1);
    assert_eq!(empty.extension_mut::<Counter>().unwrap().value, 7);
}

#[test]
fn iteration_yields_each_entry_once() {
    let mut exts = Extensions::new();
    exts.register(Counter::new(1));
    exts.register(Gauge::new(2));
    exts.register(Peers::new(3));

    let mut pairs = exts.iter_mut();
    assert_eq!(pairs.len(), 3);
    let mut keys: Vec<u64> = pairs.iter().map(|p| p.0).collect();
    keys.sort();
    assert_eq!(keys, vec![Counter::key(), Gauge::key(), Peers::key()]);

    // The pairs borrow the stored instances themselves: writing through
    // one is visible in the registry afterwards.
    for (key, erased) in pairs.iter_mut() {
        if *key == Gauge::key() {
            erased.downcast_mut::<Gauge>().unwrap().value = 20;
        }
    }
    drop(pairs);
    assert_eq!(exts.extension_mut::<Gauge>().unwrap().value, 20);
}

#[test]
fn iteration_of_empty_registry_is_empty() {
    let mut exts = Extensions::new();
    assert!(exts.iter_mut().is_empty());
    assert_eq!(exts.len(), 0);
}

#[test]
fn overwritten_instance_is_dropped_exactly_once() {
    let probe = Arc::new(0u32);
    let mut exts = Extensions::new();
    exts.register(Guarded::new(Arc::clone(&probe)));
    assert_eq!(Arc::strong_count(&probe), 2);

    exts.register(Guarded::new(Arc::new(1u32)));
    assert_eq!(Arc::strong_count(&probe), 1);
}

#[test]
fn deregistered_instance_is_dropped() {
    let probe = Arc::new(0u32);
    let mut exts = Extensions::new();
    exts.register(Guarded::new(Arc::clone(&probe)));
    assert_eq!(Arc::strong_count(&probe), 2);

    assert!(exts.deregister(Guarded::key()));
    assert_eq!(Arc::strong_count(&probe), 1);
}

#[test]
fn host_session_round_trip() {
    let mut exts = Extensions::new();
    exts.register(Speed::new(String::from("bps")));
    exts.register(Peers::new(4));

    assert_eq!(exts.extension_mut::<Speed>().unwrap().value, "bps");
    assert!(exts.extension_mut::<Latency>().is_none());

    assert!(exts.deregister(Peers::key()));
    assert!(exts.extension_mut::<Peers>().is_none());

    let pairs = exts.iter_mut();
    assert_eq!(pairs.len(), 1);
    assert_eq!(pairs[0].0, Speed::key());
}
