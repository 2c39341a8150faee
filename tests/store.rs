use redis_lite::store::Store;

#[test]
fn get_returns_what_set_stored() {
    let mut s = Store::new();
    s.set_at(b"foo".to_vec(), b"bar".to_vec(), None, 1_000);
    assert_eq!(s.get(&b"foo".to_vec(), 1_000), Some(b"bar".to_vec()));
    assert_eq!(s.get(&b"foo".to_vec(), 1_100), Some(b"bar".to_vec()));
    assert_eq!(s.get(&b"nope".to_vec(), 1_100), None);
}

#[test]
fn set_replaces_the_value() {
    let mut s = Store::new();
    s.set(b"k".to_vec(), b"1".to_vec(), None);
    s.set(b"k".to_vec(), b"2".to_vec(), None);
    assert_eq!(s.get(&b"k".to_vec(), 0), Some(b"2".to_vec()));
}

#[test]
fn other_keys_do_not_disturb_a_key() {
    let mut s = Store::new();
    s.set_at(b"k".to_vec(), b"v".to_vec(), None, 0);
    s.set_at(b"j".to_vec(), b"w".to_vec(), Some(5), 0);
    s.purge(&b"j".to_vec(), 5);
    assert_eq!(s.get(&b"j".to_vec(), 1), None);
    assert_eq!(s.get(&b"k".to_vec(), 10), Some(b"v".to_vec()));
}

#[test]
fn expired_key_reads_as_null() {
    let mut s = Store::new();
    s.set_at(b"foo".to_vec(), b"bar".to_vec(), Some(100), 1_000);
    assert_eq!(s.get(&b"foo".to_vec(), 1_099), Some(b"bar".to_vec()));
    assert_eq!(s.get(&b"foo".to_vec(), 1_100), None);
    assert_eq!(s.get(&b"foo".to_vec(), 1_200), None);
}

#[test]
fn huge_lifetime_saturates() {
    let mut s = Store::new();
    s.set_at(b"k".to_vec(), b"v".to_vec(), Some(u64::MAX), 10);
    assert_eq!(s.get(&b"k".to_vec(), u64::MAX - 1), Some(b"v".to_vec()));
}

#[test]
fn purge_is_a_no_op_after_rewrite() {
    let mut s = Store::new();
    s.set(b"k".to_vec(), b"old".to_vec(), Some(100));
    s.set(b"k".to_vec(), b"new".to_vec(), Some(500));
    s.purge(&b"k".to_vec(), 100);
    assert_eq!(s.get(&b"k".to_vec(), 200), Some(b"new".to_vec()));
    s.purge(&b"k".to_vec(), 500);
    assert_eq!(s.get(&b"k".to_vec(), 200), None);
}
