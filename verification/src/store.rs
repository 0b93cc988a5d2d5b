//! The store as a mathematical value, and what each operation makes of it.
//!
//! The contracts of the writer and of the handle are stated over this
//! model, and so are the laws of the store.

use vstd::prelude::*;

use crate::context::KeyDirEntry;
use crate::entry::{data_len, data_record, encode_data, DataRecord};
use crate::index::{index_delete, index_delete_fits, index_put, index_put_fits, Index};
use crate::log::{stats_add_dead, stats_add_live, Counts};
use crate::recovery::entry_at;

verus! {

/// What the writer and the shared context of a store hold.
pub struct Store {
    /// The key directory and the statistics.
    pub index: Index,
    /// The id of the active data file.
    pub active_fileid: u64,
    /// The offset at which the next record will begin in the active file.
    pub pos: u64,
    /// The number of bytes written to the active file by this writer.
    pub written_bytes: u64,
    /// The encoded records that wait to be appended to the active file.
    pub buffered: Seq<u8>,
    /// Whether the store has been closed.
    pub closed: bool,
}

/// The record that a `put` of `value` for `key` at `tstamp` appends.
pub open spec fn put_record(tstamp: i64, key: Seq<u8>, value: Seq<u8>) -> DataRecord {
    data_record(tstamp, key, Some(value))
}

/// The tombstone that a `delete` of `key` at `tstamp` appends.
pub open spec fn tombstone(tstamp: i64, key: Seq<u8>) -> DataRecord {
    data_record(tstamp, key, None)
}

/// The store after `rec` was appended to the active file, whatever the
/// record does to the index.
pub open spec fn store_append(s: Store, rec: DataRecord) -> Store {
    Store {
        pos: (s.pos + data_len(rec)) as u64,
        written_bytes: (s.written_bytes + data_len(rec)) as u64,
        buffered: s.buffered + encode_data(rec),
        ..s
    }
}

/// The statistics of `s` after `rec` was counted in the active file.
pub open spec fn count(s: Store, rec: DataRecord) -> Map<u64, Counts> {
    match rec.value {
        Some(_) => stats_add_live(s.index.stats, s.active_fileid),
        None => stats_add_dead(s.index.stats, s.active_fileid, data_len(rec)),
    }
}

/// The store after the first step of a write of `rec`: the record is
/// appended to the active file and counted there; the key directory stays.
pub open spec fn store_write(s: Store, rec: DataRecord) -> Store {
    Store {
        index: Index { keydir: s.index.keydir, stats: count(s, rec) },
        ..store_append(s, rec)
    }
}

/// The key-directory entry of a record that is appended to `s` next.
pub open spec fn next_entry(s: Store, rec: DataRecord) -> KeyDirEntry {
    entry_at(s.active_fileid, data_len(rec) as u64, s.pos, rec.tstamp)
}

/// Whether a record can be appended to `s` next: it ends at an offset in
/// the range of `u64`, and so does the count of the bytes written.
pub open spec fn append_fits(s: Store, rec: DataRecord) -> bool {
    &&& s.pos + data_len(rec) <= u64::MAX
    &&& s.written_bytes + data_len(rec) <= u64::MAX
}

/// Whether `store_put` has room: the record can be appended, and every
/// counter it changes stays in range.
pub open spec fn store_put_fits(s: Store, tstamp: i64, key: Seq<u8>, value: Seq<u8>) -> bool {
    &&& append_fits(s, put_record(tstamp, key, value))
    &&& index_put_fits(s.index, key, s.active_fileid)
}

/// The store after `value` was written for `key` at `tstamp`: the record
/// is appended to the active file, counted as live there, `key` points to
/// it, and the record that `key` pointed to before is dead.
pub open spec fn store_put(s: Store, tstamp: i64, key: Seq<u8>, value: Seq<u8>) -> Store {
    let rec = put_record(tstamp, key, value);
    Store { index: index_put(s.index, key, next_entry(s, rec)), ..store_append(s, rec) }
}

/// Whether `store_delete` has room: the tombstone can be appended, and
/// every counter it changes stays in range.
pub open spec fn store_delete_fits(s: Store, tstamp: i64, key: Seq<u8>) -> bool {
    &&& append_fits(s, tombstone(tstamp, key))
    &&& index_delete_fits(
        s.index,
        key,
        s.active_fileid,
        data_len(tombstone(tstamp, key)) as u64,
    )
}

/// The store after `key` was deleted at `tstamp`: a tombstone is appended
/// to the active file and counted as dead there, `key` is gone from the key
/// directory, and the record that `key` pointed to is dead.
pub open spec fn store_delete(s: Store, tstamp: i64, key: Seq<u8>) -> Store {
    let rec = tombstone(tstamp, key);
    Store {
        index: index_delete(s.index, key, s.active_fileid, data_len(rec) as u64),
        ..store_append(s, rec)
    }
}

/// The store with the index `index` in place of its own.
pub open spec fn store_with_index(s: Store, index: Index) -> Store {
    Store { index, ..s }
}

/// Whether the index of `s` has room for a record of `key` that is written
/// to the active file next: every counter that the record changes stays in
/// range. A record without a value is a tombstone.
pub open spec fn index_room(s: Store, key: Seq<u8>, value: Option<Seq<u8>>) -> bool {
    match value {
        Some(_) => index_put_fits(s.index, key, s.active_fileid),
        None => 17 + key.len() <= u64::MAX && index_delete_fits(
            s.index,
            key,
            s.active_fileid,
            (17 + key.len()) as u64,
        ),
    }
}

/// Whether `s` has room for the record `rec`: the record can be appended,
/// and the index has room for it.
pub open spec fn write_fits(s: Store, rec: DataRecord) -> bool {
    &&& append_fits(s, rec)
    &&& index_room(s, rec.key, rec.value)
}

/// The store after its buffer was handed out.
pub open spec fn store_flush(s: Store) -> Store {
    Store { buffered: Seq::empty(), ..s }
}

/// The store after the empty data file `fileid` became the active file.
pub open spec fn store_rotate(s: Store, fileid: u64) -> Store {
    Store { active_fileid: fileid, pos: 0, written_bytes: 0, buffered: Seq::empty(), ..s }
}

/// The store after it was closed.
pub open spec fn store_close(s: Store) -> Store {
    Store { closed: true, ..s }
}

} // verus!
