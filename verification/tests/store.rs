use minicache::{Entry, Store};

#[test]
fn new_entry_has_flags_of_zero() {
    let entry = Entry::new(b"bar".to_vec());
    assert_eq!(entry.flags, 0);
    assert_eq!(entry.value, b"bar".to_vec());
}

#[test]
fn new_store_holds_nothing() {
    let store = Store::new();
    assert!(store.lookup(b"foo").is_none());
    assert!(store.lookup(b"").is_none());
    assert_eq!(store.locate(b"foo"), None);
}

#[test]
fn lookup_finds_what_insert_stored() {
    let mut store = Store::new();
    store.insert(b"foo".to_vec(), Entry { flags: 5, value: b"bar".to_vec() });
    let found = store.lookup(b"foo").unwrap();
    assert_eq!(found.flags, 5);
    assert_eq!(found.value, b"bar".to_vec());
    assert!(store.lookup(b"fo").is_none());
    assert!(store.lookup(b"fooo").is_none());
    assert!(store.lookup(b"bar").is_none());
}

#[test]
fn insert_replaces_the_entry_of_a_key() {
    let mut store = Store::new();
    store.insert(b"a".to_vec(), Entry { flags: 1, value: b"one".to_vec() });
    store.insert(b"b".to_vec(), Entry { flags: 2, value: b"two".to_vec() });
    store.insert(b"a".to_vec(), Entry { flags: 3, value: b"three".to_vec() });
    assert_eq!(store.lookup(b"a").unwrap().flags, 3);
    assert_eq!(store.lookup(b"a").unwrap().value, b"three".to_vec());
    assert_eq!(store.lookup(b"b").unwrap().flags, 2);
    assert_eq!(store.lookup(b"b").unwrap().value, b"two".to_vec());
}

#[test]
fn slots_keep_their_place() {
    let mut store = Store::new();
    store.insert(b"a".to_vec(), Entry::new(b"one".to_vec()));
    store.insert(b"b".to_vec(), Entry::new(b"two".to_vec()));
    let a = store.locate(b"a").unwrap();
    let b = store.locate(b"b").unwrap();
    assert_ne!(a, b);
    store.insert(b"a".to_vec(), Entry::new(b"uno".to_vec()));
    store.insert(b"c".to_vec(), Entry::new(b"three".to_vec()));
    assert_eq!(store.locate(b"a"), Some(a));
    assert_eq!(store.locate(b"b"), Some(b));
    assert_eq!(store.at(a).value, b"uno".to_vec());
    assert_eq!(store.at(b).value, b"two".to_vec());
    assert_eq!(store.locate(b"d"), None);
}

#[test]
fn keys_are_compared_byte_for_byte() {
    let mut store = Store::new();
    store.insert(b"key".to_vec(), Entry::new(b"1".to_vec()));
    store.insert(b"key ".to_vec(), Entry::new(b"2".to_vec()));
    store.insert(b"Key".to_vec(), Entry::new(b"3".to_vec()));
    store.insert(Vec::new(), Entry::new(b"4".to_vec()));
    assert_eq!(store.lookup(b"key").unwrap().value, b"1".to_vec());
    assert_eq!(store.lookup(b"key ").unwrap().value, b"2".to_vec());
    assert_eq!(store.lookup(b"Key").unwrap().value, b"3".to_vec());
    assert_eq!(store.lookup(b"").unwrap().value, b"4".to_vec());
    assert!(store.lookup(b"ke").is_none());
}
