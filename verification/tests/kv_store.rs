use rust_from_python::kv_store::KvStore;

fn fresh(path: &str) -> KvStore {
    let (store, skipped) = KvStore::open(path, None);
    assert!(skipped.is_empty());
    store
}

fn reopen(store: &KvStore, path: &str) -> KvStore {
    let text = store.to_text();
    let (again, skipped) = KvStore::open(path, Some(&text));
    assert!(skipped.is_empty());
    again
}

#[test]
fn test_open_new_store() {
    let store = fresh("/tmp/kv_open_new.kv");
    assert!(store.is_empty());
    assert_eq!(store.len(), 0);
}

#[test]
fn test_set_and_get() {
    let mut store = fresh("/tmp/kv_set_get.kv");
    store.set("hello".into(), "world".into()).unwrap();
    assert_eq!(store.get("hello"), Some(&"world".to_string()));
    assert_eq!(store.get("nonexistent"), None);
    store.set("hello".into(), "rust".into()).unwrap();
    assert_eq!(store.get("hello"), Some(&"rust".to_string()));
}

#[test]
fn test_remove() {
    let mut store = fresh("/tmp/kv_remove.kv");
    store.set("a".into(), "1".into()).unwrap();
    store.set("b".into(), "2".into()).unwrap();
    let removed = store.remove("a").unwrap();
    assert_eq!(removed, Some("1".to_string()));
    assert_eq!(store.get("a"), None);
    assert_eq!(store.len(), 1);
    let removed = store.remove("nonexistent").unwrap();
    assert_eq!(removed, None);
}

#[test]
fn test_list_sorted() {
    let mut store = fresh("/tmp/kv_list.kv");
    store.set("z".into(), "last".into()).unwrap();
    store.set("a".into(), "first".into()).unwrap();
    store.set("m".into(), "middle".into()).unwrap();
    let entries = store.list();
    assert_eq!(entries.len(), 3);
    assert_eq!(entries[0].0, "a");
    assert_eq!(entries[1].0, "m");
    assert_eq!(entries[2].0, "z");
}

#[test]
fn kv_test_save_and_load() {
    let path = "/tmp/kv_save_load.kv";
    let mut store = fresh(path);
    store.set("name".into(), "Alice".into()).unwrap();
    store.set("age".into(), "30".into()).unwrap();
    let store = reopen(&store, path);
    assert_eq!(store.len(), 2);
    assert_eq!(store.get("name"), Some(&"Alice".to_string()));
    assert_eq!(store.get("age"), Some(&"30".to_string()));
}

#[test]
fn test_load_malformed_lines() {
    let content = "valid_key|valid_value\nbad_line_no_pipe\n\nanother|good\n";
    let (store, skipped) = KvStore::open("/tmp/kv_malformed.kv", Some(content));
    assert_eq!(store.len(), 2);
    assert_eq!(store.get("valid_key"), Some(&"valid_value".to_string()));
    assert_eq!(store.get("another"), Some(&"good".to_string()));
    assert_eq!(store.get("bad_line_no_pipe"), None);
    assert_eq!(skipped, vec![2]);
}

#[test]
fn test_empty_and_len() {
    let mut store = fresh("/tmp/kv_empty.kv");
    assert!(store.is_empty());
    assert_eq!(store.len(), 0);
    store.set("k".into(), "v".into()).unwrap();
    assert!(!store.is_empty());
    assert_eq!(store.len(), 1);
    store.remove("k").unwrap();
    assert!(store.is_empty());
}

#[test]
fn test_full_crud_workflow() {
    let mut store = fresh("/tmp/kv_crud.kv");
    assert!(store.is_empty());
    store.set("name".into(), "Alice".into()).unwrap();
    store.set("city".into(), "Beijing".into()).unwrap();
    store.set("language".into(), "Rust".into()).unwrap();
    assert_eq!(store.len(), 3);
    assert_eq!(store.get("name"), Some(&"Alice".to_string()));
    assert_eq!(store.get("city"), Some(&"Beijing".to_string()));
    assert_eq!(store.get("language"), Some(&"Rust".to_string()));
    assert_eq!(store.get("nonexistent"), None);
    store.set("city".into(), "Shanghai".into()).unwrap();
    assert_eq!(store.get("city"), Some(&"Shanghai".to_string()));
    assert_eq!(store.len(), 3);
    let removed = store.remove("language").unwrap();
    assert_eq!(removed, Some("Rust".to_string()));
    assert_eq!(store.get("language"), None);
    assert_eq!(store.len(), 2);
    let removed = store.remove("nonexistent").unwrap();
    assert_eq!(removed, None);
    assert_eq!(store.len(), 2);
}

#[test]
fn test_persistence_across_sessions() {
    let path = "/tmp/kv_persist.kv";
    let mut store = fresh(path);
    store.set("k1".into(), "v1".into()).unwrap();
    store.set("k2".into(), "v2".into()).unwrap();
    store.set("k3".into(), "v3".into()).unwrap();
    let store = reopen(&store, path);
    assert_eq!(store.len(), 3);
    assert_eq!(store.get("k1"), Some(&"v1".to_string()));
    assert_eq!(store.get("k2"), Some(&"v2".to_string()));
    assert_eq!(store.get("k3"), Some(&"v3".to_string()));
}

#[test]
fn test_unsaved_data_not_persisted() {
    let path = "/tmp/kv_unsaved.kv";
    let mut store = fresh(path);
    store.set("saved_key".into(), "saved_value".into()).unwrap();
    let saved = store.to_text();
    let (mut second, _) = KvStore::open(path, Some(&saved));
    second.set("unsaved_key".into(), "lost_value".into()).unwrap();
    assert_eq!(second.len(), 2);
    let (third, _) = KvStore::open(path, Some(&saved));
    assert_eq!(third.len(), 1);
    assert_eq!(third.get("saved_key"), Some(&"saved_value".to_string()));
    assert_eq!(third.get("unsaved_key"), None);
}

#[test]
fn test_open_nonexistent_file() {
    let store = fresh("/tmp/kv_nonexistent.kv");
    assert!(store.is_empty());
    assert_eq!(store.len(), 0);
    assert!(store.list().is_empty());
}

#[test]
fn test_open_empty_file() {
    let (store, skipped) = KvStore::open("/tmp/kv_empty_file.kv", Some(""));
    assert!(store.is_empty());
    assert_eq!(store.len(), 0);
    assert!(skipped.is_empty());
}

#[test]
fn test_load_file_with_malformed_lines() {
    let content = "\
good_key|good_value
bad_line_without_pipe

another_good|another_value
   trailing_spaces_line
mixed|value|with|pipes
";
    let (store, skipped) = KvStore::open("/tmp/kv_malformed2.kv", Some(content));
    assert_eq!(store.get("good_key"), Some(&"good_value".to_string()));
    assert_eq!(store.get("another_good"), Some(&"another_value".to_string()));
    assert_eq!(store.get("mixed"), Some(&"value|with|pipes".to_string()));
    assert_eq!(store.get("bad_line_without_pipe"), None);
    assert_eq!(skipped, vec![2, 5]);
}

#[test]
fn test_list_returns_sorted_by_key() {
    let mut store = fresh("/tmp/kv_list_sorted.kv");
    store.set("zebra".into(), "z".into()).unwrap();
    store.set("apple".into(), "a".into()).unwrap();
    store.set("monkey".into(), "m".into()).unwrap();
    store.set("1numeric".into(), "n".into()).unwrap();
    store.set("Apple_caps".into(), "ac".into()).unwrap();
    let entries = store.list();
    assert_eq!(entries.len(), 5);
    let keys: Vec<&String> = entries.iter().map(|(k, _)| *k).collect();
    assert!(keys.windows(2).all(|w| w[0] <= w[1]), "keys not ascending: {keys:?}");
    assert_eq!(keys[0], "1numeric");
    assert_eq!(keys[1], "Apple_caps");
    assert_eq!(keys[2], "apple");
    assert_eq!(keys[3], "monkey");
    assert_eq!(keys[4], "zebra");
}

#[test]
fn test_values_with_spaces() {
    let path = "/tmp/kv_spaces.kv";
    let mut store = fresh(path);
    store.set("greeting".into(), "hello world".into()).unwrap();
    store.set("quote".into(), "to be or not to be".into()).unwrap();
    assert_eq!(store.get("greeting"), Some(&"hello world".to_string()));
    assert_eq!(store.get("quote"), Some(&"to be or not to be".to_string()));
    let store2 = reopen(&store, path);
    assert_eq!(store2.get("greeting"), Some(&"hello world".to_string()));
    assert_eq!(store2.get("quote"), Some(&"to be or not to be".to_string()));
}

#[test]
fn test_update_and_persist() {
    let path = "/tmp/kv_update_persist.kv";
    let mut store = fresh(path);
    store.set("version".into(), "1".into()).unwrap();
    let mut store = reopen(&store, path);
    assert_eq!(store.get("version"), Some(&"1".to_string()));
    store.set("version".into(), "2".into()).unwrap();
    let store = reopen(&store, path);
    assert_eq!(store.get("version"), Some(&"2".to_string()));
}

#[test]
fn kv_test_bulk_operations() {
    let path = "/tmp/kv_bulk.kv";
    let mut store = fresh(path);
    let count = 500;
    for i in 0..count {
        store.set(format!("key_{i:04}"), format!("value_{i}")).unwrap();
    }
    assert_eq!(store.len(), count);
    assert_eq!(store.get("key_0000"), Some(&"value_0".to_string()));
    assert_eq!(store.get("key_0100"), Some(&"value_100".to_string()));
    assert_eq!(store.get("key_0499"), Some(&"value_499".to_string()));
    assert_eq!(store.list().len(), count);
    let store2 = reopen(&store, path);
    assert_eq!(store2.len(), count);
    assert_eq!(store2.get("key_0000"), Some(&"value_0".to_string()));
    assert_eq!(store2.get("key_0499"), Some(&"value_499".to_string()));
}

#[test]
fn kv_saved_text_is_sorted_records() {
    let mut store = fresh("/tmp/kv_text.kv");
    store.set("b".into(), "2".into()).unwrap();
    store.set("a".into(), "x|y".into()).unwrap();
    assert_eq!(store.to_text(), "a|x|y\nb|2\n");
}

#[test]
fn kv_load_trims_and_later_line_wins() {
    let content = "  k | v  \r\nk|second\n\t\nlone\r\n|empty-key\nlast|";
    let (store, skipped) = KvStore::open("/tmp/kv_trim.kv", Some(content));
    assert_eq!(store.get("k "), Some(&" v".to_string()));
    assert_eq!(store.get("k"), Some(&"second".to_string()));
    assert_eq!(store.get(""), Some(&"empty-key".to_string()));
    assert_eq!(store.get("last"), Some(&"".to_string()));
    assert_eq!(store.len(), 4);
    assert_eq!(skipped, vec![4]);
}

#[test]
fn kv_load_replaces_previous_contents() {
    let mut store = fresh("/tmp/kv_replace.kv");
    store.set("old".into(), "1".into()).unwrap();
    let skipped = store.load("new|2\n");
    assert!(skipped.is_empty());
    assert_eq!(store.get("old"), None);
    assert_eq!(store.get("new"), Some(&"2".to_string()));
}
