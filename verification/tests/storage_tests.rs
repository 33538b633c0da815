use cosmwasm_simulate::storage::{
    MockStorage, Order, StoreError, StoreEvent, GAS_COST_LAST_ITERATION, GAS_COST_RANGE,
};

#[test]
fn set_then_get_sees_the_value() {
    let mut s = MockStorage::new();
    let gas_set = s.set(b"key", b"value");
    assert_eq!(gas_set, 8);
    let (v, gas_get) = s.get(b"key");
    assert_eq!(v, Some(b"value".to_vec()));
    assert_eq!(gas_get, 3);
}

#[test]
fn set_then_remove_then_get_sees_nothing() {
    let mut s = MockStorage::new();
    s.set(b"key", b"value");
    let gas_rm = s.remove(b"key");
    assert_eq!(gas_rm, 3);
    let (v, _) = s.get(b"key");
    assert_eq!(v, None);
}

#[test]
fn overwriting_keeps_one_entry() {
    let mut s = MockStorage::new();
    s.set(b"k", b"one");
    s.set(b"k", b"two");
    let (v, _) = s.get(b"k");
    assert_eq!(v, Some(b"two".to_vec()));
}

#[test]
fn ascending_scan_returns_sorted_keys() {
    let mut s = MockStorage::new();
    s.set(b"b", b"2");
    s.set(b"a", b"1");
    s.set(b"c", b"3");
    let (id, gas) = s.scan(None, None, Order::Ascending);
    assert_eq!(gas, GAS_COST_RANGE);
    let (items, _) = s.all(id);
    let keys: Vec<Vec<u8>> = items.unwrap().into_iter().map(|p| p.0).collect();
    assert_eq!(keys, vec![b"a".to_vec(), b"b".to_vec(), b"c".to_vec()]);
}

#[test]
fn descending_scan_returns_reversed_keys() {
    let mut s = MockStorage::new();
    s.set(b"b", b"2");
    s.set(b"a", b"1");
    s.set(b"c", b"3");
    let (id, _) = s.scan(None, None, Order::Descending);
    let (items, _) = s.all(id);
    let keys: Vec<Vec<u8>> = items.unwrap().into_iter().map(|p| p.0).collect();
    assert_eq!(keys, vec![b"c".to_vec(), b"b".to_vec(), b"a".to_vec()]);
}

#[test]
fn inverted_range_scan_is_immediately_exhausted() {
    let mut s = MockStorage::new();
    s.set(b"a", b"1");
    s.set(b"b", b"2");
    let (id, _) = s.scan(Some(b"zz"), Some(b"a"), Order::Ascending);
    let (r, gas) = s.next(id);
    assert_eq!(r.unwrap(), None);
    assert_eq!(gas, GAS_COST_LAST_ITERATION);
}

#[test]
fn bounded_scan_is_half_open() {
    let mut s = MockStorage::new();
    s.set(b"a", b"1");
    s.set(b"b", b"2");
    s.set(b"c", b"3");
    let (id, _) = s.scan(Some(b"a"), Some(b"c"), Order::Ascending);
    let (items, _) = s.all(id);
    let keys: Vec<Vec<u8>> = items.unwrap().into_iter().map(|p| p.0).collect();
    assert_eq!(keys, vec![b"a".to_vec(), b"b".to_vec()]);
}

#[test]
fn next_walks_items_then_reports_exhaustion() {
    let mut s = MockStorage::new();
    s.set(b"k1", b"vv1");
    let (id, _) = s.scan(None, None, Order::Ascending);
    let (r, gas) = s.next(id);
    assert_eq!(r.unwrap(), Some((b"k1".to_vec(), b"vv1".to_vec())));
    assert_eq!(gas, 5);
    let (r2, gas2) = s.next(id);
    assert_eq!(r2.unwrap(), None);
    assert_eq!(gas2, GAS_COST_LAST_ITERATION);
    let (r3, gas3) = s.next(id);
    assert_eq!(r3.unwrap(), None);
    assert_eq!(gas3, GAS_COST_LAST_ITERATION);
}

#[test]
fn unknown_iterator_id_is_an_error() {
    let mut s = MockStorage::new();
    let (r, gas) = s.next(41);
    assert!(matches!(r, Err(StoreError::IteratorNotFound)));
    assert_eq!(gas, 0);
}

#[test]
fn scans_snapshot_at_creation_time() {
    let mut s = MockStorage::new();
    s.set(b"a", b"1");
    let (id, _) = s.scan(None, None, Order::Ascending);
    s.remove(b"a");
    s.set(b"b", b"2");
    let (items, _) = s.all(id);
    let keys: Vec<Vec<u8>> = items.unwrap().into_iter().map(|p| p.0).collect();
    assert_eq!(keys, vec![b"a".to_vec()]);
}

#[test]
fn iterator_ids_are_unique_and_increasing() {
    let mut s = MockStorage::new();
    let (id1, _) = s.scan(None, None, Order::Ascending);
    let (id2, _) = s.scan(None, None, Order::Ascending);
    assert_eq!(id1, 1);
    assert_eq!(id2, 2);
    s.clear_iterators();
    let (id3, _) = s.scan(None, None, Order::Ascending);
    assert_eq!(id3, 3);
    let (r, _) = s.next(id1);
    assert!(matches!(r, Err(StoreError::IteratorNotFound)));
}

#[test]
fn writes_notify_the_observer_queue() {
    let mut s = MockStorage::new();
    s.set(b"k", b"v");
    s.remove(b"k");
    let events = s.take_events();
    assert_eq!(events.len(), 2);
    assert!(matches!(&events[0], StoreEvent::Insert { key, value } if key == b"k" && value == b"v"));
    assert!(matches!(&events[1], StoreEvent::Remove { key } if key == b"k"));
    assert_eq!(s.take_events().len(), 0);
}

#[test]
fn copied_contents_survive_without_iterators() {
    let mut s = MockStorage::new();
    s.set(b"a", b"1");
    let (_id, _) = s.scan(None, None, Order::Ascending);
    let mut c = s.copy_contents();
    let (v, _) = c.get(b"a");
    assert_eq!(v, Some(b"1".to_vec()));
    let (r, _) = c.next(1);
    assert!(matches!(r, Err(StoreError::IteratorNotFound)));
}

#[test]
fn the_empty_key_sorts_first_and_round_trips() {
    let mut s = MockStorage::new();
    s.set(b"x", b"1");
    s.set(b"", b"empty");
    let (v, gas) = s.get(b"");
    assert_eq!(v, Some(b"empty".to_vec()));
    assert_eq!(gas, 0);
    let (id, _) = s.scan(None, None, Order::Ascending);
    let (items, _) = s.all(id);
    let keys: Vec<Vec<u8>> = items.unwrap().into_iter().map(|p| p.0).collect();
    assert_eq!(keys, vec![b"".to_vec(), b"x".to_vec()]);
}

#[test]
fn prefixed_keys_order_lexicographically() {
    let mut s = MockStorage::new();
    s.set(b"ab", b"2");
    s.set(b"a", b"1");
    s.set(b"abc", b"3");
    let (id, _) = s.scan(None, None, Order::Ascending);
    let (items, _) = s.all(id);
    let keys: Vec<Vec<u8>> = items.unwrap().into_iter().map(|p| p.0).collect();
    assert_eq!(keys, vec![b"a".to_vec(), b"ab".to_vec(), b"abc".to_vec()]);
}
