use bitcask::error::Error;
use bitcask::memory::MemoryStore;

fn total(store: &MemoryStore) -> (u64, u64, u64) {
    let mut t = (0, 0, 0);
    for id in 0..store.file_count() as u64 {
        let s = store.get_stats().counts(id);
        t = (t.0 + s.live_keys(), t.1 + s.dead_keys(), t.2 + s.dead_bytes());
    }
    t
}

#[test]
fn a_store_in_memory_reads_its_writes() {
    let mut s = MemoryStore::new();
    assert_eq!(s.get(&b"a".to_vec()).unwrap(), None);
    s.set(1, b"a".to_vec(), b"1".to_vec()).unwrap();
    assert_eq!(s.get(&b"a".to_vec()).unwrap(), Some(b"1".to_vec()));
    s.set(2, b"b".to_vec(), b"2".to_vec()).unwrap();
    s.set(3, b"a".to_vec(), b"11".to_vec()).unwrap();
    assert_eq!(s.get(&b"a".to_vec()).unwrap(), Some(b"11".to_vec()));
    assert_eq!(s.get(&b"b".to_vec()).unwrap(), Some(b"2".to_vec()));
    assert_eq!(s.del(4, b"a".to_vec()).unwrap(), true);
    assert_eq!(s.get(&b"a".to_vec()).unwrap(), None);
    assert_eq!(s.del(5, b"a".to_vec()).unwrap(), false);
    s.set(6, b"a".to_vec(), b"again".to_vec()).unwrap();
    assert_eq!(s.get(&b"a".to_vec()).unwrap(), Some(b"again".to_vec()));
    assert_eq!(s.file_count(), 1);
}

#[test]
fn a_store_in_memory_is_the_same_after_reopening() {
    let mut s = MemoryStore::new();
    for k in 0..40u8 {
        s.set(k as i64, vec![k], vec![k, k]).unwrap();
    }
    for k in 0..40u8 {
        if k % 2 == 0 {
            assert!(s.del(100, vec![k]).unwrap());
        }
    }
    let before = total(&s);
    assert_eq!(before, (20, 40, 20 * 28 + 20 * 18));
    let mut s = s.reopen().unwrap();
    assert_eq!(s.file_count(), 2);
    assert_eq!(total(&s), before);
    for k in 0..40u8 {
        let expected = if k % 2 == 0 { None } else { Some(vec![k, k]) };
        assert_eq!(s.get(&vec![k]).unwrap(), expected);
    }
    s.set(200, vec![0], b"new".to_vec()).unwrap();
    let mut s = s.reopen().unwrap();
    assert_eq!(s.file_count(), 3);
    assert_eq!(s.get(&vec![0]).unwrap(), Some(b"new".to_vec()));
    assert_eq!(s.get(&vec![1]).unwrap(), Some(vec![1, 1]));
}

#[test]
fn a_store_in_memory_starts_a_new_file_past_the_threshold() {
    let mut s = MemoryStore::new();
    let value = vec![7u8; 1024 * 1024];
    for k in 0..20u8 {
        s.set(k as i64, vec![k], value.clone()).unwrap();
    }
    assert_eq!(s.file_count(), 2);
    assert_eq!(s.get_stats().counts(0).live_keys(), 16);
    assert_eq!(s.get_stats().counts(1).live_keys(), 4);
    for k in 0..20u8 {
        assert_eq!(s.get(&vec![k]).unwrap().map(|v| v.len()), Some(1024 * 1024));
    }
    s.set(99, vec![0], vec![1]).unwrap();
    assert_eq!(s.get(&vec![0]).unwrap(), Some(vec![1]));
    assert_eq!(s.get_stats().counts(0).live_keys(), 15);
    assert_eq!(s.get_stats().counts(0).dead_keys(), 1);
    assert_eq!(s.get_stats().counts(0).dead_bytes(), 1024 * 1024 + 26);
}

#[test]
fn a_closed_store_in_memory_refuses_and_opens_again() {
    let mut s = MemoryStore::new();
    s.set(1, b"k".to_vec(), b"v".to_vec()).unwrap();
    s.close();
    assert!(matches!(s.set(2, b"k".to_vec(), b"w".to_vec()), Err(Error::Closed)));
    assert!(matches!(s.get(&b"k".to_vec()), Err(Error::Closed)));
    assert!(matches!(s.del(3, b"k".to_vec()), Err(Error::Closed)));
    s.close();
    let mut s = s.reopen().unwrap();
    assert_eq!(s.get(&b"k".to_vec()).unwrap(), Some(b"v".to_vec()));
}
