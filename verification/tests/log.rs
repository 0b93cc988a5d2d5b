use bitcask::bufio::{BufReaderWithPos, BufWriterWithPos};
use bitcask::entry::{DataFileEntry, HintFileEntry};
use bitcask::error::Error;
use bitcask::log::{LogIndex, LogIterator, LogReader, LogStatistics, LogWriter, StatsMap};
use bitcask::logdir::{Cached, LogDir};

fn entry(tstamp: i64, key: &[u8], value: Option<&[u8]>) -> DataFileEntry {
    DataFileEntry { tstamp, key: key.to_vec(), value: value.map(|v| v.to_vec()) }
}

#[test]
fn statistics_count_live_and_dead_records() {
    let mut s = LogStatistics::new();
    assert!(s.can_add_live());
    s.add_live();
    s.add_live();
    s.add_dead(7);
    assert!(s.can_overwrite(10));
    s.overwrite(10);
    assert_eq!(s.live_keys(), 1);
    assert_eq!(s.dead_keys(), 2);
    assert_eq!(s.dead_bytes(), 17);
}

#[test]
fn statistics_of_an_empty_file_cannot_be_overwritten() {
    let s = LogStatistics::new();
    assert!(!s.can_overwrite(1));
    assert!(s.can_add_dead(u64::MAX));
    assert!(s.can_add_live());
}

#[test]
fn statistics_refuse_dead_bytes_past_the_range() {
    let mut s = LogStatistics::new();
    s.add_dead(u64::MAX);
    assert!(!s.can_add_dead(1));
    assert!(s.can_add_dead(0));
    assert_eq!(s.dead_bytes(), u64::MAX);
}

#[test]
fn fragmentation_is_dead_over_all() {
    let mut s = LogStatistics::new();
    assert_eq!(s.fragmentation(), (0, 1));
    s.add_live();
    s.add_live();
    s.add_live();
    assert_eq!(s.fragmentation(), (0, 1));
    s.overwrite(5);
    assert_eq!(s.fragmentation(), (1, 3));
}

#[test]
fn stats_map_keeps_one_entry_per_file() {
    let mut t = StatsMap::new();
    assert!(t.get(3).is_none());
    assert_eq!(t.counts(3).live_keys(), 0);
    assert!(t.add_live(3));
    assert!(t.add_live(3));
    assert!(t.add_dead(4, 20));
    assert!(t.overwrite(3, 11));
    assert!(!t.overwrite(9, 1));
    assert!(t.get(9).is_none());
    let three = t.get(3).unwrap();
    assert_eq!((three.live_keys(), three.dead_keys(), three.dead_bytes()), (1, 1, 11));
    let four = t.get(4).unwrap();
    assert_eq!((four.live_keys(), four.dead_keys(), four.dead_bytes()), (0, 1, 20));
}

#[test]
fn data_record_is_encoded_field_by_field() {
    let bytes = entry(1, b"ab", Some(b"xyz")).encode().unwrap();
    let expected: Vec<u8> = vec![
        1, 0, 0, 0, 0, 0, 0, 0, // tstamp
        2, 0, 0, 0, 0, 0, 0, 0, b'a', b'b', // key
        1, // value present
        3, 0, 0, 0, 0, 0, 0, 0, b'x', b'y', b'z',
    ];
    assert_eq!(bytes, expected);
}

#[test]
fn tombstone_is_encoded_with_a_zero_tag() {
    let bytes = entry(-1, b"k", None).encode().unwrap();
    let expected: Vec<u8> = vec![
        255, 255, 255, 255, 255, 255, 255, 255, 1, 0, 0, 0, 0, 0, 0, 0, b'k', 0,
    ];
    assert_eq!(bytes, expected);
}

#[test]
fn hint_record_is_encoded_field_by_field() {
    let h = HintFileEntry { tstamp: 258, len: 30, pos: 4096, key: b"key".to_vec() };
    let bytes = h.encode().unwrap();
    let expected: Vec<u8> = vec![
        2, 1, 0, 0, 0, 0, 0, 0, // tstamp
        30, 0, 0, 0, 0, 0, 0, 0, // len
        0, 16, 0, 0, 0, 0, 0, 0, // pos
        3, 0, 0, 0, 0, 0, 0, 0, b'k', b'e', b'y',
    ];
    assert_eq!(bytes, expected);
}

#[test]
fn data_record_round_trips_and_reports_its_length() {
    let e = entry(i64::MIN, b"", Some(b""));
    let mut bytes = e.encode().unwrap();
    assert_eq!(bytes.len(), 25);
    bytes.extend_from_slice(&[9, 9, 9]);
    let (back, n) = DataFileEntry::decode(&bytes).unwrap();
    assert_eq!(back, e);
    assert_eq!(n, 25);
}

#[test]
fn hint_record_round_trips_and_reports_its_length() {
    let h = HintFileEntry { tstamp: 7, len: u64::MAX, pos: 0, key: vec![0, 255] };
    let mut bytes = h.encode().unwrap();
    bytes.push(1);
    let (back, n) = HintFileEntry::decode(&bytes).unwrap();
    assert_eq!(back, h);
    assert_eq!(n, 34);
}

#[test]
fn decoding_fails_on_a_short_record() {
    let bytes = entry(5, b"key", Some(b"value")).encode().unwrap();
    for cut in 0..bytes.len() {
        assert!(matches!(
            DataFileEntry::decode(&bytes[..cut]),
            Err(Error::Serialization(_))
        ));
    }
    assert!(DataFileEntry::decode(&bytes).is_ok());
}

#[test]
fn decoding_fails_on_an_unknown_value_tag() {
    let mut bytes = entry(5, b"key", None).encode().unwrap();
    let last = bytes.len() - 1;
    bytes[last] = 2;
    assert!(matches!(DataFileEntry::decode(&bytes), Err(Error::Serialization(_))));
}

#[test]
fn decoding_a_hint_fails_on_a_short_record() {
    let bytes = HintFileEntry { tstamp: 1, len: 2, pos: 3, key: b"k".to_vec() }.encode().unwrap();
    assert!(matches!(
        HintFileEntry::decode(&bytes[..bytes.len() - 1]),
        Err(Error::Serialization(_))
    ));
}

#[test]
fn positioned_writer_counts_accepted_bytes() {
    let mut w = BufWriterWithPos::new("file", 100);
    assert_eq!(w.pos(), 100);
    assert_eq!(*w.get_ref(), "file");
    assert_eq!(w.write(b"hello"), 5);
    assert_eq!(w.write(b""), 0);
    assert_eq!(w.write(b"!!"), 2);
    assert_eq!(w.pos(), 107);
    assert_eq!(w.flush(), b"hello!!".to_vec());
    assert_eq!(w.pos(), 107);
    assert_eq!(w.flush(), Vec::<u8>::new());
}

#[test]
fn positioned_writer_hands_out_its_buffer_before_a_seek() {
    let mut w = BufWriterWithPos::new((), 0);
    w.write(b"abc");
    assert_eq!(w.seek(10), b"abc".to_vec());
    assert_eq!(w.pos(), 10);
    w.write(b"d");
    assert_eq!(w.pos(), 11);
    assert_eq!(w.flush(), b"d".to_vec());
}

#[test]
fn positioned_reader_advances_by_what_it_delivers() {
    let mut r = BufReaderWithPos::new(b"0123456789".to_vec());
    assert_eq!(r.pos(), 0);
    assert_eq!(r.len(), 10);
    assert_eq!(r.read(4), b"0123".to_vec());
    assert_eq!(r.pos(), 4);
    assert_eq!(r.peek(), &b"456789"[..]);
    assert_eq!(r.read(100), b"456789".to_vec());
    assert_eq!(r.pos(), 10);
    assert_eq!(r.read(1), Vec::<u8>::new());
    assert_eq!(r.seek(8), 8);
    assert_eq!(r.read(5), b"89".to_vec());
    assert_eq!(r.seek(50), 50);
    assert_eq!(r.read(5), Vec::<u8>::new());
    assert_eq!(r.pos(), 50);
    assert_eq!(r.peek(), &b""[..]);
}

#[test]
fn log_writer_reports_position_and_length() {
    let mut w = LogWriter::new((), 40);
    let a = entry(1, b"a", Some(b"1"));
    let b = entry(2, b"bb", None);
    let ia = w.append(&a).unwrap();
    let ib = w.append(&b).unwrap();
    assert_eq!(ia, LogIndex { pos: 40, len: 27 });
    assert_eq!(ib, LogIndex { pos: 67, len: 19 });
    assert_eq!(w.pos(), 86);
    let mut expected = a.encode().unwrap();
    expected.extend(b.encode().unwrap());
    assert_eq!(w.flush(), expected);
}

#[test]
fn log_writer_refuses_a_record_past_the_largest_offset() {
    let mut w = LogWriter::new((), u64::MAX - 26);
    assert!(matches!(w.append(&entry(1, b"a", Some(b"1"))), Err(Error::Overflow)));
    assert_eq!(w.pos(), u64::MAX - 26);
    assert_eq!(w.flush(), Vec::<u8>::new());
    let mut w = LogWriter::new((), u64::MAX - 27);
    assert_eq!(
        w.append(&entry(1, b"a", Some(b"1"))).unwrap(),
        LogIndex { pos: u64::MAX - 27, len: 27 }
    );
    assert_eq!(w.pos(), u64::MAX);
}

#[test]
fn log_reader_decodes_a_record_at_its_range() {
    let a = entry(1, b"a", Some(b"1"));
    let b = entry(2, b"bb", Some(b"22"));
    let mut file = a.encode().unwrap();
    let pos = file.len() as u64;
    let enc = b.encode().unwrap();
    let len = enc.len() as u64;
    file.extend(enc.clone());
    let r = LogReader::new(file);
    assert!(r.covers(len, pos));
    assert!(!r.covers(len + 1, pos));
    assert!(!r.covers(1, u64::MAX));
    assert_eq!(r.at(len, pos).unwrap(), b);
    assert_eq!(r.at(pos, 0).unwrap(), a);
    assert!(matches!(r.at(len - 1, pos), Err(Error::Serialization(_))));
    let mut dst = vec![7u8];
    assert_eq!(r.copy_raw(len, pos, &mut dst), len);
    assert_eq!(&dst[1..], &enc[..]);
}

#[test]
fn log_reader_sees_a_grown_file_after_remap() {
    let a = entry(1, b"a", Some(b"1"));
    let file = a.encode().unwrap();
    let mut r = LogReader::new(Vec::new());
    assert!(!r.covers(27, 0));
    r.remap(file);
    assert!(r.covers(27, 0));
    assert_eq!(r.at(27, 0).unwrap(), a);
}

#[test]
fn log_iterator_yields_records_with_positions() {
    let a = entry(1, b"a", Some(b"1"));
    let b = entry(2, b"bb", None);
    let mut file = a.encode().unwrap();
    file.extend(b.encode().unwrap());
    let mut it = LogIterator::new(file);
    assert_eq!(it.next_data().unwrap(), Some((LogIndex { pos: 0, len: 27 }, a)));
    assert_eq!(it.next_data().unwrap(), Some((LogIndex { pos: 27, len: 19 }, b)));
    assert_eq!(it.next_data().unwrap(), None);
    assert_eq!(it.next_data().unwrap(), None);
}

#[test]
fn log_iterator_fails_on_a_torn_record() {
    let a = entry(1, b"a", Some(b"1"));
    let mut file = a.encode().unwrap();
    file.extend_from_slice(&[1, 2, 3]);
    let mut it = LogIterator::new(file);
    assert!(it.next_data().unwrap().is_some());
    assert!(matches!(it.next_data(), Err(Error::Serialization(_))));
    assert!(matches!(it.next_data(), Err(Error::Serialization(_))));
}

#[test]
fn log_iterator_yields_hint_records() {
    let h = HintFileEntry { tstamp: 1, len: 27, pos: 0, key: b"a".to_vec() };
    let g = HintFileEntry { tstamp: 2, len: 30, pos: 27, key: b"bcd".to_vec() };
    let mut file = h.encode().unwrap();
    file.extend(g.encode().unwrap());
    let mut it = LogIterator::new(file);
    assert_eq!(it.next_hint().unwrap(), Some((LogIndex { pos: 0, len: 33 }, h)));
    assert_eq!(it.next_hint().unwrap(), Some((LogIndex { pos: 33, len: 35 }, g)));
    assert_eq!(it.next_hint().unwrap(), None);
}

#[test]
fn log_dir_misses_until_the_file_is_loaded() {
    let a = entry(1, b"a", Some(b"1"));
    let mut dir = LogDir::new(2);
    assert!(matches!(dir.read(0, 27, 0), Ok(Cached::Miss)));
    dir.load(0, a.encode().unwrap());
    match dir.read(0, 27, 0) {
        Ok(Cached::Hit(e)) => assert_eq!(e, a),
        other => panic!("unexpected {:?}", other),
    }
    assert!(matches!(dir.read(0, 27, 1), Ok(Cached::Miss)));
    assert!(matches!(dir.read(0, 26, 0), Err(Error::Serialization(_))));
}

#[test]
fn log_dir_drops_the_file_used_longest_ago() {
    let a = entry(1, b"a", Some(b"1")).encode().unwrap();
    let mut dir = LogDir::new(2);
    dir.load(1, a.clone());
    dir.load(2, a.clone());
    assert!(matches!(dir.read(1, 27, 0), Ok(Cached::Hit(_))));
    dir.load(3, a.clone());
    assert!(matches!(dir.read(2, 27, 0), Ok(Cached::Miss)));
    assert!(matches!(dir.read(1, 27, 0), Ok(Cached::Hit(_))));
    assert!(matches!(dir.read(3, 27, 0), Ok(Cached::Hit(_))));
}

#[test]
fn log_dir_replaces_the_mapping_of_a_loaded_file() {
    let a = entry(1, b"a", Some(b"1")).encode().unwrap();
    let mut dir = LogDir::new(2);
    dir.load(1, Vec::new());
    dir.load(2, a.clone());
    dir.load(1, a.clone());
    assert!(matches!(dir.read(2, 27, 0), Ok(Cached::Hit(_))));
    assert!(matches!(dir.read(1, 27, 0), Ok(Cached::Hit(_))));
}

#[test]
fn log_dir_copies_raw_bytes() {
    let a = entry(1, b"a", Some(b"1")).encode().unwrap();
    let mut dir = LogDir::new(1);
    let mut dst = Vec::new();
    assert!(matches!(dir.copy(5, 27, 0, &mut dst), Cached::Miss));
    assert!(dst.is_empty());
    dir.load(5, a.clone());
    assert!(matches!(dir.copy(5, 10, 17, &mut dst), Cached::Hit(10)));
    assert_eq!(dst, a[17..27].to_vec());
    assert!(matches!(dir.copy(5, 11, 17, &mut dst), Cached::Miss));
}
