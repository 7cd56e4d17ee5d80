use chord_dht::store::KeyValue;
use chord_dht::store::KeyValueStore;

#[test]
fn new_store_is_empty() {
    let store = KeyValueStore::new();
    assert_eq!(store.len(), 0);
    assert_eq!(store.get(1), None);
    assert_eq!(store.holder(1), None);
    assert!(store.entries().is_empty());
}

#[test]
fn put_then_get_returns_the_value() {
    let mut store = KeyValueStore::new();
    store.put(7, "seven".to_string(), 3);
    assert_eq!(store.get(7), Some("seven".to_string()));
    assert_eq!(store.holder(7), Some(3));
    assert_eq!(store.len(), 1);
    assert_eq!(store.get(8), None);
}

#[test]
fn put_replaces_the_value_and_the_holder_of_a_key() {
    let mut store = KeyValueStore::new();
    store.put(7, "seven".to_string(), 3);
    store.put(9, "nine".to_string(), 3);
    store.put(7, "sieben".to_string(), 4);
    assert_eq!(store.get(7), Some("sieben".to_string()));
    assert_eq!(store.holder(7), Some(4));
    assert_eq!(store.get(9), Some("nine".to_string()));
    assert_eq!(store.len(), 2);
}

#[test]
fn delete_removes_only_the_key_named() {
    let mut store = KeyValueStore::new();
    store.put(1, "a".to_string(), 1);
    store.put(2, "b".to_string(), 1);
    store.put(3, "c".to_string(), 1);
    store.delete(2);
    assert_eq!(store.get(2), None);
    assert_eq!(store.get(1), Some("a".to_string()));
    assert_eq!(store.get(3), Some("c".to_string()));
    assert_eq!(store.len(), 2);
}

#[test]
fn delete_of_a_missing_key_changes_nothing() {
    let mut store = KeyValueStore::new();
    store.put(1, "a".to_string(), 1);
    store.delete(5);
    assert_eq!(store.len(), 1);
    assert_eq!(store.get(1), Some("a".to_string()));
}

#[test]
fn entries_lists_each_record_once() {
    let mut store = KeyValueStore::new();
    store.put(1, "a".to_string(), 1);
    store.put(2, "b".to_string(), 1);
    store.put(1, "z".to_string(), 1);
    let entries = store.entries();
    assert_eq!(
        entries,
        vec![
            KeyValue { key: 1, value: "z".to_string() },
            KeyValue { key: 2, value: "b".to_string() },
        ]
    );
}

#[test]
fn negative_and_extreme_keys_are_kept_apart() {
    let mut store = KeyValueStore::new();
    store.put(i32::MIN, "low".to_string(), 0);
    store.put(i32::MAX, "high".to_string(), 0);
    store.put(-1, "minus".to_string(), 0);
    assert_eq!(store.get(i32::MIN), Some("low".to_string()));
    assert_eq!(store.get(i32::MAX), Some("high".to_string()));
    assert_eq!(store.get(-1), Some("minus".to_string()));
    assert_eq!(store.get(0), None);
}

#[test]
fn entries_keep_the_order_of_first_storing_across_deletes() {
    let mut store = KeyValueStore::new();
    store.put(5, "e".to_string(), 1);
    store.put(3, "c".to_string(), 1);
    store.put(9, "i".to_string(), 1);
    store.delete(3);
    store.put(3, "again".to_string(), 1);
    store.put(5, "E".to_string(), 1);
    assert_eq!(
        store.entries(),
        vec![
            KeyValue { key: 5, value: "E".to_string() },
            KeyValue { key: 9, value: "i".to_string() },
            KeyValue { key: 3, value: "again".to_string() },
        ]
    );
}
