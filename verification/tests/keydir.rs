use bitcask::context::{Context, KeyDir, KeyDirEntry};
use bitcask::index::{can_record_delete, can_record_put, record_delete, record_put};
use bitcask::log::StatsMap;

fn at(fileid: u64, len: u64, pos: u64) -> KeyDirEntry {
    KeyDirEntry { fileid, len, pos, tstamp: 1 }
}

fn counts(stats: &StatsMap, fileid: u64) -> (u64, u64, u64) {
    let s = stats.counts(fileid);
    (s.live_keys(), s.dead_keys(), s.dead_bytes())
}

#[test]
fn key_directory_maps_keys_to_entries() {
    let mut kd = KeyDir::new();
    assert_eq!(kd.get(&b"a".to_vec()), None);
    assert_eq!(kd.set(b"a".to_vec(), at(0, 20, 0)), None);
    assert_eq!(kd.set(b"b".to_vec(), at(0, 21, 20)), None);
    assert_eq!(kd.get(&b"a".to_vec()), Some(at(0, 20, 0)));
    assert_eq!(kd.set(b"a".to_vec(), at(1, 22, 5)), Some(at(0, 20, 0)));
    assert_eq!(kd.get(&b"a".to_vec()), Some(at(1, 22, 5)));
    assert_eq!(kd.get(&b"b".to_vec()), Some(at(0, 21, 20)));
    assert_eq!(kd.remove(&b"a".to_vec()), Some(at(1, 22, 5)));
    assert_eq!(kd.remove(&b"a".to_vec()), None);
    assert_eq!(kd.get(&b"a".to_vec()), None);
    assert_eq!(kd.get(&b"b".to_vec()), Some(at(0, 21, 20)));
}

#[test]
fn key_directory_tells_keys_apart_byte_by_byte() {
    let mut kd = KeyDir::new();
    kd.set(vec![], at(0, 1, 0));
    kd.set(vec![0], at(0, 2, 0));
    kd.set(vec![0, 0], at(0, 3, 0));
    assert_eq!(kd.get(&vec![]), Some(at(0, 1, 0)));
    assert_eq!(kd.get(&vec![0]), Some(at(0, 2, 0)));
    assert_eq!(kd.get(&vec![0, 0]), Some(at(0, 3, 0)));
    assert_eq!(kd.get(&vec![1]), None);
}

#[test]
fn context_closes_once_and_for_all() {
    let mut ctx = Context::new("dir".to_string(), KeyDir::new());
    assert_eq!(ctx.path(), "dir");
    assert!(!ctx.is_closed());
    assert_eq!(ctx.keydir_set(b"k".to_vec(), at(0, 1, 2)), None);
    ctx.close();
    assert!(ctx.is_closed());
    ctx.close();
    assert!(ctx.is_closed());
    assert_eq!(ctx.get_keydir().get(&b"k".to_vec()), Some(at(0, 1, 2)));
}

#[test]
fn a_put_counts_live_and_charges_the_previous_file() {
    let mut kd = KeyDir::new();
    let mut stats = StatsMap::new();
    assert!(record_put(&mut kd, &mut stats, b"k".to_vec(), at(0, 30, 0)));
    assert_eq!(counts(&stats, 0), (1, 0, 0));
    assert!(record_put(&mut kd, &mut stats, b"k".to_vec(), at(1, 40, 0)));
    assert_eq!(counts(&stats, 0), (0, 1, 30));
    assert_eq!(counts(&stats, 1), (1, 0, 0));
    assert!(record_put(&mut kd, &mut stats, b"k".to_vec(), at(1, 50, 40)));
    assert_eq!(counts(&stats, 1), (1, 1, 40));
    assert_eq!(kd.get(&b"k".to_vec()), Some(at(1, 50, 40)));
}

#[test]
fn a_delete_counts_the_tombstone_and_the_record_it_kills() {
    let mut kd = KeyDir::new();
    let mut stats = StatsMap::new();
    assert_eq!(record_delete(&mut kd, &mut stats, &b"k".to_vec(), 0, 18), Some(false));
    assert_eq!(counts(&stats, 0), (0, 1, 18));
    assert!(record_put(&mut kd, &mut stats, b"k".to_vec(), at(0, 30, 18)));
    assert_eq!(record_delete(&mut kd, &mut stats, &b"k".to_vec(), 1, 18), Some(true));
    assert_eq!(counts(&stats, 0), (0, 2, 48));
    assert_eq!(counts(&stats, 1), (0, 1, 18));
    assert_eq!(kd.get(&b"k".to_vec()), None);
}

#[test]
fn an_index_update_that_would_overflow_changes_nothing() {
    let mut kd = KeyDir::new();
    let mut stats = StatsMap::new();
    assert!(record_put(&mut kd, &mut stats, b"k".to_vec(), at(0, u64::MAX, 0)));
    assert!(record_put(&mut kd, &mut stats, b"k".to_vec(), at(0, 5, 0)));
    assert_eq!(counts(&stats, 0), (1, 1, u64::MAX));
    assert!(!can_record_put(&kd, &stats, &b"k".to_vec(), 3));
    assert!(!record_put(&mut kd, &mut stats, b"k".to_vec(), at(3, 1, 0)));
    assert_eq!(counts(&stats, 0), (1, 1, u64::MAX));
    assert_eq!(counts(&stats, 3), (0, 0, 0));
    assert_eq!(kd.get(&b"k".to_vec()), Some(at(0, 5, 0)));
    assert!(can_record_put(&kd, &stats, &b"other".to_vec(), 3));
    assert!(!can_record_delete(&kd, &stats, &b"k".to_vec(), 3, 1));
    assert_eq!(record_delete(&mut kd, &mut stats, &b"k".to_vec(), 3, 1), None);
    assert_eq!(kd.get(&b"k".to_vec()), Some(at(0, 5, 0)));
    assert!(!can_record_delete(&kd, &stats, &b"x".to_vec(), 0, 1));
    assert!(can_record_delete(&kd, &stats, &b"x".to_vec(), 0, 0));
}
