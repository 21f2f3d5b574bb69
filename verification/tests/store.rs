use kvs::store::KvStore;

#[test]
fn set_then_get_returns_value() {
    let mut store = KvStore::new();
    store.set(String::from("foo"), String::from("bar"));
    assert_eq!(store.get(String::from("foo")), Some(String::from("bar")));
}

#[test]
fn get_before_any_set_is_absent() {
    let store = KvStore::new();
    assert_eq!(store.get(String::from("foo")), None);
}

#[test]
fn get_of_other_key_is_absent() {
    let mut store = KvStore::new();
    store.set(String::from("key1"), String::from("value1"));
    assert_eq!(store.get(String::from("key2")), None);
}

#[test]
fn second_set_overwrites_and_reports_previous() {
    let mut store = KvStore::new();
    let first = store.set(String::from("k"), String::from("v1"));
    assert_eq!(first, None);
    let second = store.set(String::from("k"), String::from("v2"));
    assert_eq!(second, Some(String::from("v1")));
    assert_eq!(store.get(String::from("k")), Some(String::from("v2")));
}

#[test]
fn remove_after_set_reports_value_and_leaves_key_absent() {
    let mut store = KvStore::new();
    store.set(String::from("k"), String::from("v"));
    let removed = store.remove(String::from("k"));
    assert_eq!(removed, Some(String::from("v")));
    assert_eq!(store.get(String::from("k")), None);
}

#[test]
fn remove_of_key_never_set_is_absent_and_changes_nothing() {
    let mut store = KvStore::new();
    store.set(String::from("a"), String::from("1"));
    store.set(String::from("b"), String::from("2"));
    let removed = store.remove(String::from("zzz"));
    assert_eq!(removed, None);
    assert_eq!(store.get(String::from("a")), Some(String::from("1")));
    assert_eq!(store.get(String::from("b")), Some(String::from("2")));
}

#[test]
fn get_is_idempotent_without_mutation() {
    let mut store = KvStore::new();
    store.set(String::from("k"), String::from("v"));
    let first = store.get(String::from("k"));
    let second = store.get(String::from("k"));
    assert_eq!(first, second);
    let missing_first = store.get(String::from("absent"));
    let missing_second = store.get(String::from("absent"));
    assert_eq!(missing_first, None);
    assert_eq!(missing_first, missing_second);
}

#[test]
fn empty_key_and_value_are_ordinary_strings() {
    let mut store = KvStore::new();
    assert_eq!(store.get(String::new()), None);
    store.set(String::new(), String::new());
    assert_eq!(store.get(String::new()), Some(String::new()));
    assert_eq!(store.remove(String::new()), Some(String::new()));
    assert_eq!(store.get(String::new()), None);
}

#[test]
fn default_store_is_empty() {
    let store = KvStore::default();
    assert_eq!(store.get(String::from("anything")), None);
}

#[test]
fn keys_are_independent() {
    let mut store = KvStore::new();
    store.set(String::from("x"), String::from("1"));
    store.set(String::from("y"), String::from("2"));
    store.remove(String::from("x"));
    assert_eq!(store.get(String::from("x")), None);
    assert_eq!(store.get(String::from("y")), Some(String::from("2")));
}
