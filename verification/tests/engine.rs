use std::collections::HashMap;

use bitcask::context::{Context, KeyDir};
use bitcask::entry::{DataFileEntry, HintFileEntry};
use bitcask::error::Error;
use bitcask::handle::{Bitcask, Handle, KeyValueStorage, CONCURRENCY, READER_CACHE_SIZE};
use bitcask::log::{LogWriter, StatsMap};
use bitcask::logdir::LogDir;
use bitcask::reader::{Fetch, Reader};
use bitcask::recovery::{
    populate_keydir_with_datafile, populate_keydir_with_hintfile, rebuild_storage, HintProbe,
    LogFile, Recovery,
};
use bitcask::writer::{Writer, MAX_FILE_SIZE};

/// A store over files kept in memory.
struct Sim {
    files: HashMap<u64, Vec<u8>>,
    hints: HashMap<u64, Vec<u8>>,
    store: Option<Bitcask<u64>>,
    clock: i64,
}

impl Sim {
    fn new() -> Sim {
        let mut sim = Sim { files: HashMap::new(), hints: HashMap::new(), store: None, clock: 0 };
        sim.open().unwrap();
        sim
    }

    fn open(&mut self) -> Result<(), Error> {
        let mut ids: Vec<u64> = self.files.keys().copied().collect();
        ids.sort();
        let mut rec = Recovery::new();
        for id in ids {
            let probe = match self.hints.get(&id) {
                Some(bytes) => HintProbe::Found(bytes.clone()),
                None => HintProbe::NotFound,
            };
            if rec.probe(id, probe)? {
                rec.replay(id, self.files[&id].clone())?;
            }
        }
        let (keydir, stats, active) = rec.finish()?;
        assert!(self.files.insert(active, Vec::new()).is_none());
        self.store = Some(Bitcask::open("mem".to_string(), keydir, stats, active, active));
        Ok(())
    }

    /// Shuts the store down as a clean close does: an unused active file goes.
    fn shutdown(&mut self) {
        let mut store = self.store.take().unwrap();
        store.close();
        let h = store.get_handle();
        if h.active_file_is_unused() {
            let id = *h.active_file();
            self.files.remove(&id);
        }
    }

    fn handle(&mut self) -> &mut Handle<u64> {
        self.store.as_mut().unwrap().get_handle()
    }

    fn after_write(&mut self) {
        let h = self.store.as_mut().unwrap().get_handle();
        let bytes = h.flush();
        let active = *h.active_file();
        self.files.get_mut(&active).unwrap().extend(bytes);
        if let Some(next) = h.rotation_due().unwrap() {
            assert!(self.files.insert(next, Vec::new()).is_none());
            let retired = h.new_active_datafile(next, next);
            assert_eq!(*retired.get_ref(), active);
        }
    }

    fn set(&mut self, key: &[u8], value: &[u8]) -> Result<(), Error> {
        self.clock += 1;
        let t = self.clock;
        let r = self.handle().put(t, key.to_vec(), value.to_vec());
        self.after_write();
        r
    }

    fn del(&mut self, key: &[u8]) -> Result<bool, Error> {
        self.clock += 1;
        let t = self.clock;
        let r = self.handle().del_at(t, key.to_vec());
        self.after_write();
        r
    }

    fn get(&mut self, key: &[u8]) -> Result<Option<Vec<u8>>, Error> {
        let key = key.to_vec();
        for _ in 0..2 {
            match self.handle().get(&key)? {
                Fetch::Value(v) => return Ok(v),
                Fetch::Unmapped(fileid) => {
                    let mapped = self.files[&fileid].clone();
                    self.handle().load(fileid, mapped);
                }
            }
        }
        panic!("the mapping does not cover the record");
    }

    fn total(&mut self) -> (u64, u64, u64) {
        let ids: Vec<u64> = self.files.keys().copied().collect();
        let stats = self.handle().get_stats();
        let mut t = (0, 0, 0);
        for id in ids {
            let s = stats.counts(id);
            t = (t.0 + s.live_keys(), t.1 + s.dead_keys(), t.2 + s.dead_bytes());
        }
        t
    }
}

#[test]
fn set_get_del_in_an_empty_store() {
    let mut s = Sim::new();
    s.set(b"a", b"1").unwrap();
    assert_eq!(s.get(b"a").unwrap(), Some(b"1".to_vec()));
    assert_eq!(s.del(b"a").unwrap(), true);
    assert_eq!(s.get(b"a").unwrap(), None);
    assert_eq!(s.del(b"a").unwrap(), false);
}

#[test]
fn an_overwrite_survives_a_reopen() {
    let mut s = Sim::new();
    s.set(b"k", b"v1").unwrap();
    s.set(b"k", b"v2").unwrap();
    s.shutdown();
    s.open().unwrap();
    assert_eq!(s.get(b"k").unwrap(), Some(b"v2".to_vec()));
    let zero = s.handle().get_stats().get(0).unwrap();
    assert_eq!((zero.live_keys(), zero.dead_keys()), (1, 1));
    assert_eq!(zero.dead_bytes(), 28);
}

#[test]
fn many_records_spread_over_two_files() {
    let mut s = Sim::new();
    let value = vec![0xabu8; 10 * 1024];
    for i in 0..2000u32 {
        let mut v = value.clone();
        v[0] = (i % 251) as u8;
        s.set(format!("key-{i}").as_bytes(), &v).unwrap();
    }
    assert!(s.files.len() >= 2);
    assert!(s.files[&0].len() as u64 > MAX_FILE_SIZE);
    assert!(s.files[&0].len() as u64 <= MAX_FILE_SIZE + 10 * 1024 + 64);
    for i in 0..2000u32 {
        let got = s.get(format!("key-{i}").as_bytes()).unwrap().unwrap();
        assert_eq!(got.len(), 10 * 1024);
        assert_eq!(got[0], (i % 251) as u8);
        assert_eq!(got[1], 0xab);
    }
}

#[test]
fn a_closed_store_refuses_every_operation() {
    let mut s = Sim::new();
    s.set(b"k", b"v").unwrap();
    assert!(!s.handle().is_closed());
    s.handle().close();
    assert!(s.handle().is_closed());
    assert!(matches!(s.handle().put(1, b"k".to_vec(), b"w".to_vec()), Err(Error::Closed)));
    assert!(matches!(s.handle().set(b"k".to_vec(), b"w".to_vec()), Err(Error::Closed)));
    assert!(matches!(s.handle().get(&b"k".to_vec()), Err(Error::Closed)));
    assert!(matches!(s.handle().del_at(1, b"k".to_vec()), Err(Error::Closed)));
    assert!(matches!(s.handle().del(b"k".to_vec()), Err(Error::Closed)));
    assert!(matches!(s.handle().sync(), Err(Error::Closed)));
    assert!(s.handle().flush().is_empty());
    s.handle().close();
    assert!(s.handle().is_closed());
    assert!(matches!(s.handle().get(&b"k".to_vec()), Err(Error::Closed)));
}

#[test]
fn closing_the_store_closes_its_handle() {
    let mut store = Bitcask::open("d".to_string(), KeyDir::new(), StatsMap::new(), 0, ());
    assert!(store.get_handle().sync().is_ok());
    store.close();
    assert!(store.get_handle().is_closed());
    store.close();
    assert!(matches!(store.get_handle().sync(), Err(Error::Closed)));
}

#[test]
fn the_last_value_set_is_the_one_read() {
    let mut s = Sim::new();
    for round in 0..5u8 {
        for k in 0..20u8 {
            s.set(&[k], &[round, k]).unwrap();
        }
        for k in 0..20u8 {
            assert_eq!(s.get(&[k]).unwrap(), Some(vec![round, k]));
        }
    }
}

#[test]
fn a_deleted_key_comes_back_when_set_again() {
    let mut s = Sim::new();
    s.set(b"k", b"one").unwrap();
    assert!(s.del(b"k").unwrap());
    assert_eq!(s.get(b"k").unwrap(), None);
    s.set(b"k", b"two").unwrap();
    assert_eq!(s.get(b"k").unwrap(), Some(b"two".to_vec()));
}

#[test]
fn an_empty_value_is_a_value() {
    let mut s = Sim::new();
    s.set(b"k", b"").unwrap();
    assert_eq!(s.get(b"k").unwrap(), Some(Vec::new()));
    s.shutdown();
    s.open().unwrap();
    assert_eq!(s.get(b"k").unwrap(), Some(Vec::new()));
}

#[test]
fn a_reopened_store_serves_what_was_live() {
    let mut s = Sim::new();
    for k in 0..50u8 {
        s.set(&[k], &[k, k]).unwrap();
    }
    for k in 0..50u8 {
        if k % 3 == 0 {
            assert!(s.del(&[k]).unwrap());
        } else if k % 3 == 1 {
            s.set(&[k], &[k, 0xff]).unwrap();
        }
    }
    let before = s.total();
    s.shutdown();
    s.open().unwrap();
    assert_eq!(s.total(), before);
    for k in 0..50u8 {
        let expected = match k % 3 {
            0 => None,
            1 => Some(vec![k, 0xff]),
            _ => Some(vec![k, k]),
        };
        assert_eq!(s.get(&[k]).unwrap(), expected);
    }
}

#[test]
fn a_store_that_was_not_closed_is_recovered_too() {
    let mut s = Sim::new();
    s.set(b"a", b"1").unwrap();
    s.set(b"b", b"2").unwrap();
    s.store = None;
    s.open().unwrap();
    assert_eq!(s.get(b"a").unwrap(), Some(b"1".to_vec()));
    assert_eq!(s.get(b"b").unwrap(), Some(b"2".to_vec()));
    assert_eq!(*s.handle().sync().unwrap(), 1);
}

#[test]
fn an_unused_active_file_goes_at_shutdown() {
    let mut s = Sim::new();
    s.set(b"a", b"1").unwrap();
    s.shutdown();
    assert_eq!(s.files.len(), 1);
    s.open().unwrap();
    assert_eq!(s.files.len(), 2);
    s.shutdown();
    assert_eq!(s.files.len(), 1);
    s.open().unwrap();
    assert_eq!(*s.handle().active_file(), 1);
    assert_eq!(s.handle().active_fileid(), 1);
}

#[test]
fn statistics_count_sets_and_overwrites() {
    let mut s = Sim::new();
    let n = 12u8;
    for k in 0..n {
        s.set(&[k], &vec![0u8; k as usize]).unwrap();
    }
    assert_eq!(s.total(), (12, 0, 0));
    let mut dead_bytes = 0u64;
    for k in 0..5u8 {
        s.set(&[k], b"again").unwrap();
        dead_bytes += 8 + 8 + 1 + 1 + 8 + k as u64;
    }
    assert_eq!(s.total(), (12, 5, dead_bytes));
    s.set(&[0], b"x").unwrap();
    dead_bytes += 8 + 8 + 1 + 1 + 8 + 5;
    assert_eq!(s.total(), (12, 6, dead_bytes));
}

#[test]
fn recovery_prefers_the_hint_file() {
    let mut s = Sim::new();
    s.set(b"a", b"1").unwrap();
    s.set(b"b", b"22").unwrap();
    s.set(b"a", b"333").unwrap();
    s.shutdown();
    let b_at = 27u64;
    let a_at = 27 + 28;
    let mut hint = HintFileEntry { tstamp: 2, len: 28, pos: b_at, key: b"b".to_vec() }
        .encode()
        .unwrap();
    hint.extend(
        HintFileEntry { tstamp: 3, len: 29, pos: a_at, key: b"a".to_vec() }.encode().unwrap(),
    );
    s.hints.insert(0, hint);
    s.open().unwrap();
    assert_eq!(s.get(b"a").unwrap(), Some(b"333".to_vec()));
    assert_eq!(s.get(b"b").unwrap(), Some(b"22".to_vec()));
    let zero = s.handle().get_stats().get(0).unwrap();
    assert_eq!((zero.live_keys(), zero.dead_keys(), zero.dead_bytes()), (2, 0, 0));
}

#[test]
fn recovery_without_files_starts_at_file_zero() {
    let (keydir, stats, active) = Recovery::new().finish().unwrap();
    assert_eq!(active, 0);
    assert!(keydir.get(&b"k".to_vec()).is_none());
    assert!(stats.get(0).is_none());
}

#[test]
fn recovery_continues_after_the_largest_file_id() {
    let mut rec = Recovery::new();
    assert_eq!(rec.probe(3, HintProbe::NotFound).unwrap(), true);
    rec.replay(3, Vec::new()).unwrap();
    assert_eq!(rec.probe(9, HintProbe::Found(Vec::new())).unwrap(), false);
    assert_eq!(rec.probe(5, HintProbe::NotFound).unwrap(), true);
    let (_, _, active) = rec.finish().unwrap();
    assert_eq!(active, 10);
}

#[test]
fn recovery_fails_after_the_largest_possible_file_id() {
    let mut rec = Recovery::new();
    assert!(rec.probe(u64::MAX, HintProbe::NotFound).unwrap());
    assert!(matches!(rec.finish(), Err(Error::Overflow)));
}

#[test]
fn recovery_hands_on_a_failed_hint_probe() {
    let mut rec = Recovery::new();
    let denied = std::io::Error::new(std::io::ErrorKind::PermissionDenied, "denied");
    match rec.probe(0, HintProbe::Failed(denied)) {
        Err(Error::Io(e)) => assert_eq!(e.kind(), std::io::ErrorKind::PermissionDenied),
        other => panic!("unexpected {:?}", other),
    }
}

#[test]
fn recovery_fails_on_a_torn_data_file() {
    let mut file = DataFileEntry { tstamp: 1, key: b"a".to_vec(), value: Some(b"1".to_vec()) }
        .encode()
        .unwrap();
    file.extend_from_slice(&[0, 0, 0]);
    let mut rec = Recovery::new();
    assert!(rec.probe(0, HintProbe::NotFound).unwrap());
    assert!(matches!(rec.replay(0, file), Err(Error::Serialization(_))));
}

#[test]
fn recovery_fails_on_a_torn_hint_file() {
    let mut rec = Recovery::new();
    assert!(matches!(
        rec.probe(0, HintProbe::Found(vec![1, 2, 3])),
        Err(Error::Serialization(_))
    ));
}

#[test]
fn recovery_fails_when_hint_lengths_overflow_the_counters() {
    let mut hint = Vec::new();
    for t in 0..3 {
        hint.extend(
            HintFileEntry { tstamp: t, len: u64::MAX, pos: 0, key: b"k".to_vec() }
                .encode()
                .unwrap(),
        );
    }
    let mut kd = KeyDir::new();
    let mut stats = StatsMap::new();
    let r = populate_keydir_with_hintfile(4, hint, &mut kd, &mut stats);
    assert!(matches!(r, Err(Error::Overflow)));
    let four = stats.get(4).unwrap();
    assert_eq!((four.live_keys(), four.dead_keys(), four.dead_bytes()), (1, 1, u64::MAX));
}

#[test]
fn a_data_file_is_replayed_record_by_record() {
    let recs = [
        DataFileEntry { tstamp: 1, key: b"a".to_vec(), value: Some(b"1".to_vec()) },
        DataFileEntry { tstamp: 2, key: b"b".to_vec(), value: Some(b"2".to_vec()) },
        DataFileEntry { tstamp: 3, key: b"a".to_vec(), value: None },
        DataFileEntry { tstamp: 4, key: b"c".to_vec(), value: None },
        DataFileEntry { tstamp: 5, key: b"b".to_vec(), value: Some(b"22".to_vec()) },
    ];
    let mut file = Vec::new();
    for r in recs.iter() {
        file.extend(r.encode().unwrap());
    }
    let mut kd = KeyDir::new();
    let mut stats = StatsMap::new();
    populate_keydir_with_datafile(6, file, &mut kd, &mut stats).unwrap();
    assert!(kd.get(&b"a".to_vec()).is_none());
    assert!(kd.get(&b"c".to_vec()).is_none());
    let b = kd.get(&b"b".to_vec()).unwrap();
    assert_eq!((b.fileid, b.len, b.pos, b.tstamp), (6, 28, 27 + 27 + 18 + 18, 5));
    let six = stats.get(6).unwrap();
    assert_eq!(six.live_keys(), 1);
    assert_eq!(six.dead_keys(), 4);
    assert_eq!(six.dead_bytes(), 18 + 27 + 18 + 27);
}

#[test]
fn set_and_del_take_their_time_from_the_clock() {
    let mut store = Bitcask::open("d".to_string(), KeyDir::new(), StatsMap::new(), 3, ());
    let h = store.get_handle();
    h.set(b"k".to_vec(), b"v".to_vec()).unwrap();
    let bytes = h.flush();
    let (entry, n) = DataFileEntry::decode(&bytes).unwrap();
    assert_eq!(n, bytes.len());
    assert_eq!(entry.key, b"k".to_vec());
    assert_eq!(entry.value, Some(b"v".to_vec()));
    assert!(entry.tstamp > 1_600_000_000_000_000_000);
    assert_eq!(h.del(b"k".to_vec()).unwrap(), true);
    assert_eq!(h.del(b"k".to_vec()).unwrap(), false);
    let bytes = h.flush();
    assert_eq!(bytes.len(), 36);
    let (tomb, _) = DataFileEntry::decode(&bytes).unwrap();
    assert_eq!(tomb.value, None);
    assert!(tomb.tstamp >= entry.tstamp);
}

#[test]
fn a_write_past_the_largest_offset_changes_nothing() {
    let ctx = Context::new("d".to_string(), KeyDir::new());
    let writer = Writer::new(LogWriter::new((), u64::MAX - 10), StatsMap::new(), 0, 0);
    let mut h = Handle::new(ctx, writer, Reader::new(LogDir::new(1)));
    assert!(matches!(h.put(1, b"k".to_vec(), b"v".to_vec()), Err(Error::Overflow)));
    assert!(matches!(h.del_at(1, b"k".to_vec()), Err(Error::Overflow)));
    assert!(h.flush().is_empty());
    assert!(h.get_stats().get(0).is_none());
    assert!(matches!(h.get(&b"k".to_vec()), Ok(Fetch::Value(None))));
    assert!(h.active_file_is_unused());
}

#[test]
fn rotation_is_due_after_the_size_threshold() {
    let mut store = Bitcask::open("d".to_string(), KeyDir::new(), StatsMap::new(), 7, 'a');
    let h = store.get_handle();
    assert_eq!(h.rotation_due().unwrap(), None);
    let big = vec![0u8; MAX_FILE_SIZE as usize - 26];
    h.put(1, b"k".to_vec(), big).unwrap();
    assert_eq!(h.rotation_due().unwrap(), None);
    h.put(2, b"j".to_vec(), Vec::new()).unwrap();
    assert_eq!(h.rotation_due().unwrap(), Some(8));
    let retired = h.new_active_datafile(8, 'b');
    assert_eq!(*retired.get_ref(), 'a');
    assert_eq!(retired.pos(), MAX_FILE_SIZE + 26);
    assert_eq!(*h.sync().unwrap(), 'b');
    assert_eq!(h.rotation_due().unwrap(), None);
    assert!(h.active_file_is_unused());
    h.put(3, b"k".to_vec(), b"v".to_vec()).unwrap();
    let seven = h.get_stats().get(7).unwrap();
    assert_eq!((seven.live_keys(), seven.dead_keys()), (1, 1));
    assert_eq!(seven.dead_bytes(), MAX_FILE_SIZE);
    let eight = h.get_stats().get(8).unwrap();
    assert_eq!((eight.live_keys(), eight.dead_keys(), eight.dead_bytes()), (1, 0, 0));
}

#[test]
fn rotation_fails_after_the_largest_file_id() {
    let mut store = Bitcask::open("d".to_string(), KeyDir::new(), StatsMap::new(), u64::MAX, ());
    let h = store.get_handle();
    h.put(1, b"k".to_vec(), vec![0u8; MAX_FILE_SIZE as usize]).unwrap();
    assert!(matches!(h.rotation_due(), Err(Error::Overflow)));
}

#[test]
fn a_lookup_names_the_file_to_map() {
    let mut store = Bitcask::open("d".to_string(), KeyDir::new(), StatsMap::new(), 5, ());
    let h = store.get_handle();
    h.put(1, b"k".to_vec(), b"v".to_vec()).unwrap();
    let file = h.flush();
    assert!(matches!(h.get(&b"k".to_vec()), Ok(Fetch::Unmapped(5))));
    h.load(5, Vec::new());
    assert!(matches!(h.get(&b"k".to_vec()), Ok(Fetch::Unmapped(5))));
    h.load(5, file.clone());
    match h.get(&b"k".to_vec()) {
        Ok(Fetch::Value(v)) => assert_eq!(v, Some(b"v".to_vec())),
        other => panic!("unexpected {:?}", other),
    }
    let mut broken = file;
    broken[17] = 9;
    h.load(5, broken);
    assert!(matches!(h.get(&b"k".to_vec()), Err(Error::Serialization(_))));
}

fn set_then_delete<S: KeyValueStorage>(store: &mut S) -> (bool, bool) {
    store.set(b"k".to_vec(), b"v".to_vec()).unwrap();
    let first = store.del(b"k".to_vec()).unwrap();
    let second = store.del(b"k".to_vec()).unwrap();
    assert!(matches!(store.get(b"k".to_vec()), Ok(Fetch::Value(None))));
    (first, second)
}

#[test]
fn a_handle_is_a_key_value_storage() {
    let mut store = Bitcask::open("d".to_string(), KeyDir::new(), StatsMap::new(), 0, ());
    assert_eq!(set_then_delete(store.get_handle()), (true, false));
    store.close();
    assert!(matches!(
        KeyValueStorage::set(store.get_handle(), b"k".to_vec(), b"v".to_vec()),
        Err(Error::Closed)
    ));
    assert!(matches!(
        KeyValueStorage::get(store.get_handle(), b"k".to_vec()),
        Err(Error::Closed)
    ));
    assert!(matches!(
        KeyValueStorage::del(store.get_handle(), b"k".to_vec()),
        Err(Error::Closed)
    ));
}

#[test]
fn a_write_in_two_steps_shows_the_record_after_the_second() {
    let mut ctx = Context::new("d".to_string(), KeyDir::new());
    let mut writer = Writer::new(LogWriter::new((), 0), StatsMap::new(), 2, 0);
    let (entry, key) =
        bitcask::handle::write(&ctx, &mut writer, 9, b"k".to_vec(), Some(b"v".to_vec())).unwrap();
    assert_eq!((entry.fileid, entry.pos, entry.len, entry.tstamp), (2, 0, 27, 9));
    assert_eq!(key, b"k".to_vec());
    assert!(ctx.get_keydir().get(&key).is_none());
    let two = writer.get_stats().get(2).unwrap();
    assert_eq!((two.live_keys(), two.dead_keys(), two.dead_bytes()), (1, 0, 0));
    assert_eq!(writer.written_bytes(), 27);
    let bytes = writer.flush();
    assert_eq!(
        bytes,
        DataFileEntry { tstamp: 9, key: b"k".to_vec(), value: Some(b"v".to_vec()) }
            .encode()
            .unwrap()
    );
    assert!(writer.record_put(&mut ctx, key.clone(), entry));
    assert_eq!(ctx.get_keydir().get(&key), Some(entry));
    let two = writer.get_stats().get(2).unwrap();
    assert_eq!((two.live_keys(), two.dead_keys(), two.dead_bytes()), (1, 0, 0));

    let (tomb, key) = bitcask::handle::write(&ctx, &mut writer, 10, key, None).unwrap();
    assert_eq!((tomb.fileid, tomb.pos, tomb.len), (2, 27, 18));
    assert_eq!(ctx.get_keydir().get(&key), Some(entry));
    let two = writer.get_stats().get(2).unwrap();
    assert_eq!((two.live_keys(), two.dead_keys(), two.dead_bytes()), (1, 1, 18));
    assert_eq!(writer.record_delete(&mut ctx, &key), Some(true));
    assert!(ctx.get_keydir().get(&key).is_none());
    let two = writer.get_stats().get(2).unwrap();
    assert_eq!((two.live_keys(), two.dead_keys(), two.dead_bytes()), (0, 2, 45));
    assert_eq!(writer.record_delete(&mut ctx, &key), Some(false));
}

#[test]
fn a_bare_write_counts_the_record_and_leaves_the_key_directory() {
    let mut writer = Writer::new(LogWriter::new((), 5), StatsMap::new(), 1, 0);
    let (entry, _) = writer.write(3, b"key".to_vec(), Some(Vec::new())).unwrap();
    assert_eq!((entry.fileid, entry.pos, entry.len, entry.tstamp), (1, 5, 28, 3));
    let (tomb, _) = writer.write(4, b"key".to_vec(), None).unwrap();
    assert_eq!((tomb.fileid, tomb.pos, tomb.len, tomb.tstamp), (1, 33, 20, 4));
    let one = writer.get_stats().get(1).unwrap();
    assert_eq!((one.live_keys(), one.dead_keys(), one.dead_bytes()), (1, 1, 20));
    assert_eq!(writer.written_bytes(), 48);
    assert_eq!(writer.flush().len(), 48);
}

#[test]
fn a_write_with_the_clock_asks_the_gate_first() {
    let mut ctx = Context::new("d".to_string(), KeyDir::new());
    let mut writer = Writer::new(LogWriter::new((), 0), StatsMap::new(), 0, 0);
    let (entry, key) =
        bitcask::handle::write_now(&ctx, &mut writer, b"k".to_vec(), Some(b"v".to_vec())).unwrap();
    assert!(entry.tstamp > 1_600_000_000_000_000_000);
    assert_eq!((entry.fileid, entry.pos, entry.len), (0, 0, 27));
    assert!(writer.record_put(&mut ctx, key, entry));
    ctx.close();
    assert!(matches!(
        bitcask::handle::write_now(&ctx, &mut writer, b"k".to_vec(), None),
        Err(Error::Closed)
    ));
    assert_eq!(writer.written_bytes(), 27);
}

#[test]
fn the_first_step_of_a_write_fails_on_a_closed_or_full_store() {
    let mut ctx = Context::new("d".to_string(), KeyDir::new());
    let mut writer = Writer::new(LogWriter::new((), 0), StatsMap::new(), 0, u64::MAX - 20);
    assert!(writer.can_record(&ctx, &b"k".to_vec(), &Some(Vec::new())));
    assert!(matches!(
        bitcask::handle::write(&ctx, &mut writer, 1, b"k".to_vec(), Some(b"v".to_vec())),
        Err(Error::Overflow)
    ));
    assert!(writer.flush().is_empty());
    assert_eq!(writer.written_bytes(), u64::MAX - 20);
    assert!(bitcask::handle::write(&ctx, &mut writer, 1, b"k".to_vec(), None).is_ok());
    ctx.close();
    assert!(matches!(
        bitcask::handle::write(&ctx, &mut writer, 1, b"k".to_vec(), None),
        Err(Error::Closed)
    ));
}

fn data_file(fileid: u64, records: &[(i64, &[u8], Option<&[u8]>)]) -> LogFile {
    let mut data = Vec::new();
    for (tstamp, key, value) in records {
        let entry = DataFileEntry {
            tstamp: *tstamp,
            key: key.to_vec(),
            value: value.map(|v| v.to_vec()),
        };
        data.extend(entry.encode().unwrap());
    }
    LogFile { fileid, hint: HintProbe::NotFound, data }
}

#[test]
fn storage_is_rebuilt_from_file_images() {
    let files = vec![
        data_file(0, &[(1, b"a", Some(b"1")), (2, b"b", Some(b"2"))]),
        data_file(3, &[(3, b"a", Some(b"11")), (4, b"b", None)]),
        data_file(4, &[]),
    ];
    let (keydir, stats, active) = rebuild_storage(files).unwrap();
    assert_eq!(active, 5);
    let a = keydir.get(&b"a".to_vec()).unwrap();
    assert_eq!((a.fileid, a.pos, a.len, a.tstamp), (3, 0, 28, 3));
    assert!(keydir.get(&b"b".to_vec()).is_none());
    let zero = stats.get(0).unwrap();
    assert_eq!((zero.live_keys(), zero.dead_keys(), zero.dead_bytes()), (0, 2, 54));
    let three = stats.get(3).unwrap();
    assert_eq!((three.live_keys(), three.dead_keys(), three.dead_bytes()), (1, 1, 18));
    assert!(stats.get(4).is_none());
}

#[test]
fn storage_is_rebuilt_from_a_hint_file_where_there_is_one() {
    let mut file = data_file(7, &[(1, b"a", Some(b"1"))]);
    file.hint = HintProbe::Found(
        HintFileEntry { tstamp: 1, len: 27, pos: 0, key: b"z".to_vec() }.encode().unwrap(),
    );
    let (keydir, _, active) = rebuild_storage(vec![file]).unwrap();
    assert_eq!(active, 8);
    assert!(keydir.get(&b"a".to_vec()).is_none());
    assert_eq!(keydir.get(&b"z".to_vec()).unwrap().fileid, 7);
}

#[test]
fn rebuilding_storage_fails_as_its_files_do() {
    assert_eq!(rebuild_storage(Vec::new()).unwrap().2, 0);
    let mut torn = data_file(0, &[(1, b"a", Some(b"1"))]);
    torn.data.pop();
    assert!(matches!(
        rebuild_storage(vec![data_file(1, &[]), torn]),
        Err(Error::Serialization(_))
    ));
    let mut unreadable = data_file(2, &[]);
    unreadable.hint =
        HintProbe::Failed(std::io::Error::new(std::io::ErrorKind::PermissionDenied, "denied"));
    assert!(matches!(rebuild_storage(vec![unreadable]), Err(Error::Io(_))));
    assert!(matches!(rebuild_storage(vec![data_file(u64::MAX, &[])]), Err(Error::Overflow)));
}

#[test]
fn a_store_rebuilt_from_its_files_serves_what_was_live() {
    let mut s = Sim::new();
    s.set(b"a", b"1").unwrap();
    s.set(b"b", b"2").unwrap();
    s.del(b"a").unwrap();
    s.set(b"c", b"3").unwrap();
    let mut ids: Vec<u64> = s.files.keys().copied().collect();
    ids.sort();
    let files = ids
        .iter()
        .map(|id| LogFile { fileid: *id, hint: HintProbe::NotFound, data: s.files[id].clone() })
        .collect();
    let (keydir, stats, active) = rebuild_storage(files).unwrap();
    assert_eq!(active, 1);
    let mut store = Bitcask::open("mem".to_string(), keydir, stats, active, ());
    let h = store.get_handle();
    assert!(matches!(h.get(&b"a".to_vec()), Ok(Fetch::Value(None))));
    assert!(matches!(h.get(&b"b".to_vec()), Ok(Fetch::Unmapped(0))));
    h.load(0, s.files[&0].clone());
    for (key, value) in [(b"b", b"2"), (b"c", b"3")] {
        match h.get(&key.to_vec()) {
            Ok(Fetch::Value(v)) => assert_eq!(v, Some(value.to_vec())),
            other => panic!("unexpected {:?}", other),
        }
    }
}

#[test]
fn the_store_is_made_for_four_readers_of_sixteen_files() {
    assert_eq!(CONCURRENCY, 4);
    assert_eq!(READER_CACHE_SIZE, 16);
    assert_eq!(MAX_FILE_SIZE, 16 * 1024 * 1024);
}
