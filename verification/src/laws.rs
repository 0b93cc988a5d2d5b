//! Laws of the store, proved over its model.
//!
//! The files of a store are modelled as a map from file ids to bytes. The
//! laws say what a lookup finds after writes and deletes, that recovery
//! rebuilds what the writer held, and what the statistics count.

use vstd::prelude::*;

use crate::context::{lookup, KeyDirEntry};
use crate::entry::{
    data_encodable, data_len, decode_data, decode_hint, encode_data, encode_hint,
    hint_encodable, hint_len, hint_record, lemma_decode_data_extend, lemma_decode_data_inverse,
    lemma_decode_data_prefix, lemma_decode_hint_extend, lemma_decode_hint_inverse,
    lemma_decode_hint_prefix, DataRecord, HintRecord,
};
use crate::entry::option_view;
use crate::error::Error;
use crate::handle::{lookup_outcome, Handle};
use crate::index::{index_delete, index_empty, index_put, Index};
use crate::logdir::{find, lemma_find_bounds, mapping_of, store, touch, LogDir};
use crate::reader::Fetch;
use crate::log::{counts_of, record_at, record_range, Counts};
use crate::reader::value_at;
use crate::recovery::{
    apply_data, apply_data_fits, apply_hint, apply_hint_fits, rebuild, replay_data,
    replay_hint, LogFile, Rebuilt, ReplayEnd,
};
use crate::store::{
    next_entry, put_record, store_close, store_delete, store_delete_fits, store_flush,
    store_put, store_put_fits, store_rotate, tombstone, Store,
};
use crate::utils::ascending;
use crate::writer::MAX_FILE_SIZE;

verus! {

/// Replaying a data file from an offset at a record boundary is not
/// disturbed by a record appended to the file: the replay of the longer
/// file goes through the same indexes and then through the new record.
proof fn lemma_replay_data_step(ix: Index, fileid: u64, file: Seq<u8>, pos: int, rec: DataRecord)
    requires
        0 <= pos <= file.len(),
        data_encodable(rec),
        file.len() + data_len(rec) <= u64::MAX,
        replay_data(ix, fileid, file, pos).1 is Complete,
        apply_data_fits(
            replay_data(ix, fileid, file, pos).0,
            fileid,
            data_len(rec) as u64,
            file.len() as u64,
            rec,
        ),
    ensures
        replay_data(ix, fileid, file + encode_data(rec), pos) == (
            apply_data(
                replay_data(ix, fileid, file, pos).0,
                fileid,
                data_len(rec) as u64,
                file.len() as u64,
                rec,
            ),
            ReplayEnd::Complete,
        ),
    decreases file.len() - pos,
{
    let enc = encode_data(rec);
    let longer = file + enc;
    lemma_decode_data_prefix(rec, Seq::empty());
    assert(enc + Seq::<u8>::empty() =~= enc);
    if pos == file.len() {
        assert(longer.skip(pos) =~= enc);
        let after = apply_data(ix, fileid, data_len(rec) as u64, file.len() as u64, rec);
        assert(replay_data(after, fileid, longer, pos + data_len(rec)) == (
            after,
            ReplayEnd::Complete,
        ));
    } else {
        let rest = file.skip(pos);
        assert(longer.skip(pos) =~= rest + enc);
        lemma_decode_data_extend(rest, enc);
        lemma_decode_data_inverse(rest);
        let (r, n) = decode_data(rest)->Some_0;
        let next = apply_data(ix, fileid, n as u64, pos as u64, r);
        lemma_replay_data_step(next, fileid, file, pos + n, rec);
    }
}

/// Replaying a hint file from an offset at a record boundary is not
/// disturbed by a record appended to the file.
proof fn lemma_replay_hint_step(ix: Index, fileid: u64, file: Seq<u8>, pos: int, rec: HintRecord)
    requires
        0 <= pos <= file.len(),
        hint_encodable(rec),
        replay_hint(ix, fileid, file, pos).1 is Complete,
        apply_hint_fits(replay_hint(ix, fileid, file, pos).0, fileid, rec),
    ensures
        replay_hint(ix, fileid, file + encode_hint(rec), pos) == (
            apply_hint(replay_hint(ix, fileid, file, pos).0, fileid, rec),
            ReplayEnd::Complete,
        ),
    decreases file.len() - pos,
{
    let enc = encode_hint(rec);
    let longer = file + enc;
    lemma_decode_hint_prefix(rec, Seq::empty());
    assert(enc + Seq::<u8>::empty() =~= enc);
    if pos == file.len() {
        assert(longer.skip(pos) =~= enc);
        let after = apply_hint(ix, fileid, rec);
        assert(replay_hint(after, fileid, longer, pos + hint_len(rec)) == (
            after,
            ReplayEnd::Complete,
        ));
    } else {
        let rest = file.skip(pos);
        assert(longer.skip(pos) =~= rest + enc);
        lemma_decode_hint_extend(rest, enc);
        lemma_decode_hint_inverse(rest);
        let (r, n) = decode_hint(rest)->Some_0;
        let next = apply_hint(ix, fileid, r);
        lemma_replay_hint_step(next, fileid, file, pos + n, rec);
    }
}

/// Recovery reads back what was appended: where the replay of a data file
/// is complete, the replay of the file with one more record appended gives
/// the index that the record makes of the earlier one.
pub proof fn law_replay_data_append(ix: Index, fileid: u64, file: Seq<u8>, rec: DataRecord)
    requires
        data_encodable(rec),
        file.len() + data_len(rec) <= u64::MAX,
        replay_data(ix, fileid, file, 0).1 is Complete,
        apply_data_fits(
            replay_data(ix, fileid, file, 0).0,
            fileid,
            data_len(rec) as u64,
            file.len() as u64,
            rec,
        ),
    ensures
        replay_data(ix, fileid, file + encode_data(rec), 0) == (
            apply_data(
                replay_data(ix, fileid, file, 0).0,
                fileid,
                data_len(rec) as u64,
                file.len() as u64,
                rec,
            ),
            ReplayEnd::Complete,
        ),
{
    lemma_replay_data_step(ix, fileid, file, 0, rec);
}

/// Recovery reads back what was appended to a hint file: where the replay
/// of a hint file is complete, the replay of the file with one more record
/// appended gives the index that the record makes of the earlier one.
pub proof fn law_replay_hint_append(ix: Index, fileid: u64, file: Seq<u8>, rec: HintRecord)
    requires
        hint_encodable(rec),
        replay_hint(ix, fileid, file, 0).1 is Complete,
        apply_hint_fits(replay_hint(ix, fileid, file, 0).0, fileid, rec),
    ensures
        replay_hint(ix, fileid, file + encode_hint(rec), 0) == (
            apply_hint(replay_hint(ix, fileid, file, 0).0, fileid, rec),
            ReplayEnd::Complete,
        ),
{
    lemma_replay_hint_step(ix, fileid, file, 0, rec);
}

/// A hint record stands for the data record it points to: replaying the
/// hint record of a record with a value gives the same index as replaying
/// the record itself.
pub proof fn law_hint_stands_for_data(ix: Index, fileid: u64, len: u64, pos: u64, rec: DataRecord)
    requires
        rec.value is Some,
    ensures
        apply_hint(ix, fileid, hint_record(rec.tstamp, len, pos, rec.key)) == apply_data(
            ix,
            fileid,
            len,
            pos,
            rec,
        ),
        apply_hint_fits(ix, fileid, hint_record(rec.tstamp, len, pos, rec.key))
            == apply_data_fits(ix, fileid, len, pos, rec),
{
}

/// The bytes of a data file that holds the records `recs` in this order.
pub open spec fn data_image(recs: Seq<DataRecord>) -> Seq<u8>
    decreases recs.len(),
{
    if recs.len() == 0 {
        Seq::empty()
    } else {
        data_image(recs.drop_last()) + encode_data(recs.last())
    }
}

/// The bytes of the hint file of a data file that holds the records `recs`:
/// one hint record for each of them, in the same order, with the place of
/// the record in the data file.
pub open spec fn hint_image(recs: Seq<DataRecord>) -> Seq<u8>
    decreases recs.len(),
{
    if recs.len() == 0 {
        Seq::empty()
    } else {
        hint_image(recs.drop_last()) + encode_hint(
            hint_record(
                recs.last().tstamp,
                data_len(recs.last()) as u64,
                data_image(recs.drop_last()).len() as u64,
                recs.last().key,
            ),
        )
    }
}

/// Whether the records `recs` can be written to the data file `fileid` and
/// be replayed from there into `ix`: each has a value and byte strings
/// short enough to be encoded, the file stays within the largest offset, and
/// the counters stay in range.
pub open spec fn replayable(ix: Index, fileid: u64, recs: Seq<DataRecord>) -> bool
    decreases recs.len(),
{
    recs.len() == 0 || {
        &&& replayable(ix, fileid, recs.drop_last())
        &&& recs.last().value is Some
        &&& data_encodable(recs.last())
        &&& data_image(recs).len() <= u64::MAX
        &&& apply_data_fits(
            replay_data(ix, fileid, data_image(recs.drop_last()), 0).0,
            fileid,
            data_len(recs.last()) as u64,
            data_image(recs.drop_last()).len() as u64,
            recs.last(),
        )
    }
}

/// Persistence round-trip through a hint file. Recovery rebuilds the same
/// index from the hint file of a data file as from the data file itself.
pub proof fn law_hint_file_rebuilds_the_same(ix: Index, fileid: u64, recs: Seq<DataRecord>)
    requires
        replayable(ix, fileid, recs),
    ensures
        replay_data(ix, fileid, data_image(recs), 0).1 is Complete,
        replay_hint(ix, fileid, hint_image(recs), 0) == replay_data(
            ix,
            fileid,
            data_image(recs),
            0,
        ),
    decreases recs.len(),
{
    if recs.len() > 0 {
        let front = recs.drop_last();
        let rec = recs.last();
        law_hint_file_rebuilds_the_same(ix, fileid, front);
        let file = data_image(front);
        lemma_decode_data_prefix(rec, Seq::empty());
        let len = data_len(rec) as u64;
        let pos = file.len() as u64;
        let hint = hint_record(rec.tstamp, len, pos, rec.key);
        law_replay_data_append(ix, fileid, file, rec);
        law_hint_stands_for_data(replay_data(ix, fileid, file, 0).0, fileid, len, pos, rec);
        law_replay_hint_append(ix, fileid, hint_image(front), hint);
    }
}

/// The bytes of the data file `fileid` in `disk`: none where `disk` has no
/// such file.
pub open spec fn file_of(disk: Map<u64, Seq<u8>>, fileid: u64) -> Seq<u8> {
    if disk.contains_key(fileid) {
        disk[fileid]
    } else {
        Seq::empty()
    }
}

/// The files after `bytes` were appended to the data file `fileid`.
pub open spec fn disk_append(
    disk: Map<u64, Seq<u8>>,
    fileid: u64,
    bytes: Seq<u8>,
) -> Map<u64, Seq<u8>> {
    disk.insert(fileid, file_of(disk, fileid) + bytes)
}

/// Whether the record in the range of `len` bytes at `pos` of `file` is a
/// record of `key` with the value `value`.
pub open spec fn holds(file: Seq<u8>, len: u64, pos: u64, key: Seq<u8>, value: Seq<u8>) -> bool {
    &&& record_at(file, len, pos) matches Some(rec)
    &&& rec.key == key
    &&& rec.value == Some(value)
}

/// The key directory serves `contents` from `disk`: it holds the keys of
/// `contents`, and each of them points to a byte range inside its data file
/// that decodes to a record of that key with the value of the key.
pub open spec fn serves(
    keydir: Map<Seq<u8>, KeyDirEntry>,
    disk: Map<u64, Seq<u8>>,
    contents: Map<Seq<u8>, Seq<u8>>,
) -> bool {
    &&& forall|k: Seq<u8>| keydir.contains_key(k) <==> contents.contains_key(k)
    &&& forall|k: Seq<u8>| #[trigger]
        keydir.contains_key(k) ==> holds(
            file_of(disk, keydir[k].fileid),
            keydir[k].len,
            keydir[k].pos,
            k,
            contents[k],
        )
}

/// The writer and the files are in step: nothing waits in the buffer, and
/// the active data file ends where the writer will put the next record.
pub open spec fn in_step(s: Store, disk: Map<u64, Seq<u8>>) -> bool {
    &&& s.buffered.len() == 0
    &&& file_of(disk, s.active_fileid).len() == s.pos
}

/// A record that lies in a file is read the same way after the file has
/// grown.
pub proof fn lemma_value_at_extend(file: Seq<u8>, more: Seq<u8>, len: u64, pos: u64)
    requires
        record_at(file, len, pos) is Some,
    ensures
        record_at(file + more, len, pos) == record_at(file, len, pos),
        value_at(file + more, len, pos) == value_at(file, len, pos),
{
    assert(record_range(file + more, len, pos) =~= record_range(file, len, pos));
}

/// A record is read back from the place at which it was appended.
pub proof fn lemma_value_at_appended(file: Seq<u8>, rec: DataRecord)
    requires
        data_encodable(rec),
        file.len() + data_len(rec) <= u64::MAX,
    ensures
        record_at(file + encode_data(rec), data_len(rec) as u64, file.len() as u64) == Some(rec),
{
    lemma_decode_data_prefix(rec, Seq::empty());
    let enc = encode_data(rec);
    assert(enc + Seq::<u8>::empty() =~= enc);
    assert(record_range(file + enc, data_len(rec) as u64, file.len() as u64) =~= enc);
}

/// Read-your-writes, for one write. Where the key directory serves
/// `contents` and the writer is in step with the files, then after a write
/// of `value` for `key`, and after the record was appended to the active
/// file, the key directory serves `contents` with `value` for `key`: the
/// key points to a record that holds `value`, and every other key has the
/// value it had.
pub proof fn law_put_serves(
    s: Store,
    disk: Map<u64, Seq<u8>>,
    contents: Map<Seq<u8>, Seq<u8>>,
    tstamp: i64,
    key: Seq<u8>,
    value: Seq<u8>,
)
    requires
        serves(s.index.keydir, disk, contents),
        in_step(s, disk),
        store_put_fits(s, tstamp, key, value),
    ensures
        serves(
            store_put(s, tstamp, key, value).index.keydir,
            disk_append(disk, s.active_fileid, store_put(s, tstamp, key, value).buffered),
            contents.insert(key, value),
        ),
        in_step(
            store_flush(store_put(s, tstamp, key, value)),
            disk_append(disk, s.active_fileid, store_put(s, tstamp, key, value).buffered),
        ),
{
    let rec = put_record(tstamp, key, value);
    let after = store_put(s, tstamp, key, value);
    let file = file_of(disk, s.active_fileid);
    assert(after.buffered =~= encode_data(rec));
    let disk2 = disk_append(disk, s.active_fileid, after.buffered);
    lemma_value_at_appended(file, rec);
    lemma_decode_data_prefix(rec, Seq::empty());
    let kd2 = after.index.keydir;
    let contents2 = contents.insert(key, value);
    assert forall|k: Seq<u8>| #[trigger] kd2.contains_key(k) implies holds(
        file_of(disk2, kd2[k].fileid),
        kd2[k].len,
        kd2[k].pos,
        k,
        contents2[k],
    ) by {
        if k != key {
            let e = s.index.keydir[k];
            assert(s.index.keydir.contains_key(k));
            if e.fileid == s.active_fileid {
                lemma_value_at_extend(file, after.buffered, e.len, e.pos);
            }
        }
    }
}

/// Delete hides. Where the key directory serves `contents` and the writer
/// is in step with the files, then after a delete of `key`, and after the
/// tombstone was appended to the active file, the key directory serves
/// `contents` without `key`: the key directory does not hold `key`, and
/// every other key has the value it had.
pub proof fn law_delete_serves(
    s: Store,
    disk: Map<u64, Seq<u8>>,
    contents: Map<Seq<u8>, Seq<u8>>,
    tstamp: i64,
    key: Seq<u8>,
)
    requires
        serves(s.index.keydir, disk, contents),
        in_step(s, disk),
        store_delete_fits(s, tstamp, key),
    ensures
        lookup(store_delete(s, tstamp, key).index.keydir, key) is None,
        serves(
            store_delete(s, tstamp, key).index.keydir,
            disk_append(disk, s.active_fileid, store_delete(s, tstamp, key).buffered),
            contents.remove(key),
        ),
        in_step(
            store_flush(store_delete(s, tstamp, key)),
            disk_append(disk, s.active_fileid, store_delete(s, tstamp, key).buffered),
        ),
{
    let rec = tombstone(tstamp, key);
    let after = store_delete(s, tstamp, key);
    let file = file_of(disk, s.active_fileid);
    assert(after.buffered =~= encode_data(rec));
    let disk2 = disk_append(disk, s.active_fileid, after.buffered);
    lemma_decode_data_prefix(rec, Seq::empty());
    let kd2 = after.index.keydir;
    let contents2 = contents.remove(key);
    assert forall|k: Seq<u8>| #[trigger] kd2.contains_key(k) implies holds(
        file_of(disk2, kd2[k].fileid),
        kd2[k].len,
        kd2[k].pos,
        k,
        contents2[k],
    ) by {
        let e = s.index.keydir[k];
        assert(s.index.keydir.contains_key(k));
        if e.fileid == s.active_fileid {
            lemma_value_at_extend(file, after.buffered, e.len, e.pos);
        }
    }
}

/// Rotation keeps every record readable. Where the key directory serves
/// `contents`, it still does after an empty data file became the active
/// file, and the writer is in step with the files.
pub proof fn law_rotate_serves(
    s: Store,
    disk: Map<u64, Seq<u8>>,
    contents: Map<Seq<u8>, Seq<u8>>,
    fileid: u64,
)
    requires
        serves(s.index.keydir, disk, contents),
        file_of(disk, fileid).len() == 0,
    ensures
        serves(
            store_rotate(s, fileid).index.keydir,
            disk.insert(fileid, Seq::empty()),
            contents,
        ),
        in_step(store_rotate(s, fileid), disk.insert(fileid, Seq::empty())),
{
    let disk2 = disk.insert(fileid, Seq::<u8>::empty());
    let kd = s.index.keydir;
    assert forall|k: Seq<u8>| #[trigger] kd.contains_key(k) implies holds(
        file_of(disk2, kd[k].fileid),
        kd[k].len,
        kd[k].pos,
        k,
        contents[k],
    ) by {
        if kd[k].fileid == fileid {
            assert(file_of(disk, fileid) =~= Seq::<u8>::empty());
        }
    }
}

/// The index of `s` is what recovery rebuilds from the active data file,
/// whose bytes are `file`, when it starts from the index `base` that the
/// store held when that file was created.
pub open spec fn rebuilds(s: Store, base: Index, file: Seq<u8>) -> bool {
    &&& file.len() == s.pos
    &&& replay_data(base, s.active_fileid, file, 0) == (s.index, ReplayEnd::Complete)
}

/// Persistence round-trip, for one write. Where recovery rebuilds the index
/// of the store from the active data file, it still does after a write
/// whose record was appended to that file: a store that is opened again
/// holds the keys, the positions and the statistics that the writer held.
pub proof fn law_put_is_recovered(
    s: Store,
    base: Index,
    file: Seq<u8>,
    tstamp: i64,
    key: Seq<u8>,
    value: Seq<u8>,
)
    requires
        rebuilds(s, base, file),
        store_put_fits(s, tstamp, key, value),
    ensures
        rebuilds(
            store_put(s, tstamp, key, value),
            base,
            file + encode_data(put_record(tstamp, key, value)),
        ),
{
    let rec = put_record(tstamp, key, value);
    law_replay_data_append(base, s.active_fileid, file, rec);
    lemma_decode_data_prefix(rec, Seq::empty());
}

/// Persistence round-trip, for one delete. Where recovery rebuilds the
/// index of the store from the active data file, it still does after a
/// delete whose tombstone was appended to that file.
pub proof fn law_delete_is_recovered(
    s: Store,
    base: Index,
    file: Seq<u8>,
    tstamp: i64,
    key: Seq<u8>,
)
    requires
        rebuilds(s, base, file),
        store_delete_fits(s, tstamp, key),
    ensures
        rebuilds(
            store_delete(s, tstamp, key),
            base,
            file + encode_data(tombstone(tstamp, key)),
        ),
{
    let rec = tombstone(tstamp, key);
    law_replay_data_append(base, s.active_fileid, file, rec);
    lemma_decode_data_prefix(rec, Seq::empty());
}

/// Persistence round-trip across a rotation. Recovery rebuilds the index of
/// a store from its new, empty active file when it starts from the index
/// that the store held at the rotation.
pub proof fn law_rotation_is_recovered(s: Store, fileid: u64)
    ensures
        rebuilds(store_rotate(s, fileid), s.index, Seq::empty()),
{
}

/// An operation of a user of the store.
pub enum Op {
    /// Write `value` for `key` at the time `tstamp`.
    Write { tstamp: i64, key: Seq<u8>, value: Seq<u8> },
    /// Delete `key` at the time `tstamp`.
    Delete { tstamp: i64, key: Seq<u8> },
}

/// A store with its files: what the writer and the context hold, the bytes
/// of each data file, the ids of the data files in the order of their
/// creation, and the value that each live key was given last.
pub struct World {
    pub store: Store,
    pub disk: Map<u64, Seq<u8>>,
    pub ids: Seq<u64>,
    pub contents: Map<Seq<u8>, Seq<u8>>,
}

/// An empty store with its first, empty data file.
pub open spec fn world_new() -> World {
    World {
        store: Store {
            index: index_empty(),
            active_fileid: 0,
            pos: 0,
            written_bytes: 0,
            buffered: Seq::empty(),
            closed: false,
        },
        disk: Map::empty().insert(0u64, Seq::empty()),
        ids: seq![0u64],
        contents: Map::empty(),
    }
}

/// The world after `op`, before any rotation. The record of the operation
/// is appended to the active file. An operation on a closed store, or one
/// for which the store has no room, fails and changes nothing.
pub open spec fn world_apply(w: World, op: Op) -> World {
    match op {
        Op::Write { tstamp, key, value } => if !w.store.closed && store_put_fits(
            w.store,
            tstamp,
            key,
            value,
        ) {
            World {
                store: store_flush(store_put(w.store, tstamp, key, value)),
                disk: disk_append(
                    w.disk,
                    w.store.active_fileid,
                    store_put(w.store, tstamp, key, value).buffered,
                ),
                contents: w.contents.insert(key, value),
                ..w
            }
        } else {
            w
        },
        Op::Delete { tstamp, key } => if !w.store.closed && store_delete_fits(w.store, tstamp, key) {
            World {
                store: store_flush(store_delete(w.store, tstamp, key)),
                disk: disk_append(
                    w.disk,
                    w.store.active_fileid,
                    store_delete(w.store, tstamp, key).buffered,
                ),
                contents: w.contents.remove(key),
                ..w
            }
        } else {
            w
        },
    }
}

/// The world after the active file was replaced, where it was due: more
/// than `MAX_FILE_SIZE` bytes were written to it and a next file id exists.
pub open spec fn world_rotate(w: World) -> World {
    if w.store.written_bytes > MAX_FILE_SIZE && w.store.active_fileid < u64::MAX {
        let next = (w.store.active_fileid + 1) as u64;
        World {
            store: store_rotate(w.store, next),
            disk: w.disk.insert(next, Seq::empty()),
            ids: w.ids.push(next),
            ..w
        }
    } else {
        w
    }
}

/// The world after `op` and the rotation that follows it where one is due.
pub open spec fn world_step(w: World, op: Op) -> World {
    world_rotate(world_apply(w, op))
}

/// The world after the operations `ops`, one after the other.
pub open spec fn world_run(w: World, ops: Seq<Op>) -> World
    decreases ops.len(),
{
    if ops.len() == 0 {
        w
    } else {
        world_step(world_run(w, ops.drop_last()), ops.last())
    }
}

/// What recovery rebuilds from the data files `ids` of `disk`, replayed in
/// this order from an empty index, and how the replay ends.
pub open spec fn recover(disk: Map<u64, Seq<u8>>, ids: Seq<u64>) -> (Index, ReplayEnd)
    decreases ids.len(),
{
    if ids.len() == 0 {
        (index_empty(), ReplayEnd::Complete)
    } else {
        let before = recover(disk, ids.drop_last());
        if before.1 is Complete {
            replay_data(before.0, ids.last(), file_of(disk, ids.last()), 0)
        } else {
            before
        }
    }
}

/// The world after the store was shut down and opened again: the index is
/// what recovery rebuilds from the data files, and a new, empty data file
/// with the next id is the active file.
pub open spec fn world_reopen(w: World) -> World {
    let next = (w.ids.last() + 1) as u64;
    World {
        store: Store {
            index: recover(w.disk, w.ids).0,
            active_fileid: next,
            pos: 0,
            written_bytes: 0,
            buffered: Seq::empty(),
            closed: false,
        },
        disk: w.disk.insert(next, Seq::empty()),
        ids: w.ids.push(next),
        contents: w.contents,
    }
}

/// The store and its files agree: the data files are those of `ids`, in
/// ascending order, and the last of them is the active file; the writer is
/// in step with the files; the key directory serves the value that each
/// live key was given last; and recovery rebuilds the index of the store
/// from the files.
pub open spec fn world_wf(w: World) -> bool {
    &&& w.ids.len() > 0
    &&& ascending(w.ids)
    &&& w.ids.last() == w.store.active_fileid
    &&& forall|f: u64| w.disk.contains_key(f) <==> w.ids.contains(f)
    &&& in_step(w.store, w.disk)
    &&& serves(w.store.index.keydir, w.disk, w.contents)
    &&& recover(w.disk, w.ids) == (w.store.index, ReplayEnd::Complete)
}

/// Recovery depends on the bytes of the files it replays only.
proof fn lemma_recover_agrees(disk: Map<u64, Seq<u8>>, other: Map<u64, Seq<u8>>, ids: Seq<u64>)
    requires
        forall|i: int| 0 <= i < ids.len() ==> file_of(disk, #[trigger] ids[i]) == file_of(other, ids[i]),
    ensures
        recover(disk, ids) == recover(other, ids),
    decreases ids.len(),
{
    if ids.len() > 0 {
        let front = ids.drop_last();
        assert forall|i: int| 0 <= i < front.len() implies file_of(disk, #[trigger] front[i])
            == file_of(other, front[i]) by {
            assert(front[i] == ids[i]);
        }
        lemma_recover_agrees(disk, other, front);
        assert(ids.last() == ids[ids.len() - 1]);
    }
}

/// Recovery after a record was appended to the last file: the index that
/// the record makes of the one rebuilt before.
proof fn lemma_recover_append(w: World, rec: DataRecord)
    requires
        world_wf(w),
        data_encodable(rec),
        w.store.pos + data_len(rec) <= u64::MAX,
        apply_data_fits(w.store.index, w.store.active_fileid, data_len(rec) as u64, w.store.pos, rec),
    ensures
        recover(disk_append(w.disk, w.store.active_fileid, encode_data(rec)), w.ids) == (
            apply_data(w.store.index, w.store.active_fileid, data_len(rec) as u64, w.store.pos, rec),
            ReplayEnd::Complete,
        ),
{
    let active = w.store.active_fileid;
    let file = file_of(w.disk, active);
    let disk2 = disk_append(w.disk, active, encode_data(rec));
    let front = w.ids.drop_last();
    assert forall|i: int| 0 <= i < front.len() implies file_of(w.disk, #[trigger] front[i])
        == file_of(disk2, front[i]) by {
        assert(front[i] == w.ids[i]);
        assert(w.ids[i] < w.ids[w.ids.len() - 1]);
    }
    lemma_recover_agrees(w.disk, disk2, front);
    let base = recover(w.disk, front);
    assert(base.1 is Complete);
    law_replay_data_append(base.0, active, file, rec);
    assert(file_of(disk2, active) == file + encode_data(rec));
}

/// The file ids stay the ids of the files when bytes are appended to the
/// active file.
proof fn lemma_append_keeps_ids(w: World, bytes: Seq<u8>)
    requires
        world_wf(w),
    ensures
        forall|f: u64|
            disk_append(w.disk, w.store.active_fileid, bytes).contains_key(f) <==> w.ids.contains(
                f,
            ),
{
    assert(w.ids[w.ids.len() - 1] == w.store.active_fileid);
}

/// An empty store with its first data file is well formed.
pub proof fn law_new_world_wf()
    ensures
        world_wf(world_new()),
{
    let w = world_new();
    assert(w.ids.drop_last() =~= Seq::<u64>::empty());
    assert(recover(w.disk, w.ids.drop_last()) == (index_empty(), ReplayEnd::Complete));
    assert forall|f: u64| w.disk.contains_key(f) <==> w.ids.contains(f) by {
        if w.disk.contains_key(f) {
            assert(w.ids[0] == f);
        }
    }
}

/// Every operation keeps the store and its files in agreement.
pub proof fn law_apply_keeps_wf(w: World, op: Op)
    requires
        world_wf(w),
    ensures
        world_wf(world_apply(w, op)),
{
    let s = w.store;
    match op {
        Op::Write { tstamp, key, value } => {
            if !s.closed && store_put_fits(s, tstamp, key, value) {
                let rec = put_record(tstamp, key, value);
                let after = store_put(s, tstamp, key, value);
                assert(after.buffered =~= encode_data(rec));
                law_put_serves(s, w.disk, w.contents, tstamp, key, value);
                lemma_recover_append(w, rec);
                lemma_append_keeps_ids(w, after.buffered);
            }
        },
        Op::Delete { tstamp, key } => {
            if !s.closed && store_delete_fits(s, tstamp, key) {
                let rec = tombstone(tstamp, key);
                let after = store_delete(s, tstamp, key);
                assert(after.buffered =~= encode_data(rec));
                law_delete_serves(s, w.disk, w.contents, tstamp, key);
                lemma_recover_append(w, rec);
                lemma_append_keeps_ids(w, after.buffered);
            }
        },
    }
}

/// A new, empty data file with the next id keeps the store and its files
/// in agreement, whatever index the store holds for them.
proof fn lemma_next_file_keeps_wf(w: World, next: u64)
    requires
        world_wf(w),
        next == w.store.active_fileid + 1,
    ensures
        world_wf(
            World {
                store: store_rotate(w.store, next),
                disk: w.disk.insert(next, Seq::empty()),
                ids: w.ids.push(next),
                ..w
            },
        ),
{
    let w2 = World {
        store: store_rotate(w.store, next),
        disk: w.disk.insert(next, Seq::empty()),
        ids: w.ids.push(next),
        ..w
    };
    assert(!w.ids.contains(next)) by {
        if w.ids.contains(next) {
            let i = choose|i: int| 0 <= i < w.ids.len() && w.ids[i] == next;
            if i < w.ids.len() - 1 {
                assert(w.ids[i] < w.ids[w.ids.len() - 1]);
            }
        }
    }
    assert(!w.disk.contains_key(next));
    law_rotate_serves(w.store, w.disk, w.contents, next);
    assert(w2.ids.drop_last() =~= w.ids);
    assert forall|i: int| 0 <= i < w.ids.len() implies file_of(w.disk, #[trigger] w.ids[i])
        == file_of(w2.disk, w.ids[i]) by {
        assert(w.ids.contains(w.ids[i]));
    }
    lemma_recover_agrees(w.disk, w2.disk, w.ids);
    assert forall|f: u64| w2.disk.contains_key(f) <==> w2.ids.contains(f) by {
        if w2.ids.contains(f) {
            let i = choose|i: int| 0 <= i < w2.ids.len() && w2.ids[i] == f;
            if i < w.ids.len() {
                assert(w.ids[i] == f);
                assert(w.ids.contains(f));
            }
        }
        if w.ids.contains(f) {
            let i = choose|i: int| 0 <= i < w.ids.len() && w.ids[i] == f;
            assert(w2.ids[i] == f);
        }
        if f == next {
            assert(w2.ids[w.ids.len() as int] == f);
        }
    }
    assert forall|i: int, j: int| 0 <= i < j < w2.ids.len() implies w2.ids[i] < w2.ids[j] by {
        if j == w.ids.len() {
            if i < w.ids.len() - 1 {
                assert(w.ids[i] < w.ids[w.ids.len() - 1]);
            }
        }
    }
}

/// File rotation. Once more than `MAX_FILE_SIZE` bytes were written to the
/// active file, a new data file with the next id is the active file, the
/// earlier files are still there, and every record stays readable through
/// the key directory.
pub proof fn law_rotate_keeps_wf(w: World)
    requires
        world_wf(w),
    ensures
        world_wf(world_rotate(w)),
        w.store.written_bytes > MAX_FILE_SIZE && w.store.active_fileid < u64::MAX ==> {
            &&& world_rotate(w).store.active_fileid == w.store.active_fileid + 1
            &&& world_rotate(w).disk.contains_key(w.store.active_fileid)
            &&& world_rotate(w).disk.contains_key(world_rotate(w).store.active_fileid)
            &&& world_rotate(w).ids.len() >= 2
        },
        world_rotate(w).store.active_fileid < u64::MAX ==> world_rotate(w).store.written_bytes
            <= MAX_FILE_SIZE,
{
    if w.store.written_bytes > MAX_FILE_SIZE && w.store.active_fileid < u64::MAX {
        let next = (w.store.active_fileid + 1) as u64;
        lemma_next_file_keeps_wf(w, next);
        assert(w.ids[w.ids.len() - 1] == w.store.active_fileid);
        assert(w.ids.contains(w.store.active_fileid));
    }
}

/// Every sequence of operations keeps the store and its files in
/// agreement: after any writes and deletes, each live key points to a record
/// that holds the value the key was given last, a deleted key is not in the
/// key directory, and recovery rebuilds the index of the store from the
/// files.
pub proof fn law_run_keeps_wf(w: World, ops: Seq<Op>)
    requires
        world_wf(w),
    ensures
        world_wf(world_run(w, ops)),
    decreases ops.len(),
{
    if ops.len() > 0 {
        law_run_keeps_wf(w, ops.drop_last());
        let before = world_run(w, ops.drop_last());
        law_apply_keeps_wf(before, ops.last());
        law_rotate_keeps_wf(world_apply(before, ops.last()));
    }
}

/// Read-your-writes. After any sequence of operations that ends with a
/// successful write of `value` for `key`, the key directory points `key` to a
/// record in a data file that holds `value`.
pub proof fn law_read_your_writes(w: World, ops: Seq<Op>, tstamp: i64, key: Seq<u8>, value: Seq<u8>)
    requires
        world_wf(w),
        !world_run(w, ops).store.closed,
        store_put_fits(world_run(w, ops).store, tstamp, key, value),
    ensures
        ({
            let after = world_step(world_run(w, ops), Op::Write { tstamp, key, value });
            &&& lookup(after.store.index.keydir, key) matches Some(e)
            &&& holds(file_of(after.disk, e.fileid), e.len, e.pos, key, value)
            &&& value_at(file_of(after.disk, e.fileid), e.len, e.pos) == Some(Some(value))
        }),
{
    let before = world_run(w, ops);
    law_run_keeps_wf(w, ops);
    let op = Op::Write { tstamp, key, value };
    law_apply_keeps_wf(before, op);
    law_rotate_keeps_wf(world_apply(before, op));
    let after = world_step(before, op);
    assert(after.contents.contains_key(key));
    assert(after.store.index.keydir.contains_key(key));
}

/// Delete hides. After any sequence of operations that ends with a
/// successful delete of `key`, the key directory does not hold `key`; a
/// write of `value` for `key` after that makes it visible again.
pub proof fn law_delete_hides(w: World, ops: Seq<Op>, tstamp: i64, key: Seq<u8>, value: Seq<u8>)
    requires
        world_wf(w),
        !world_run(w, ops).store.closed,
        store_delete_fits(world_run(w, ops).store, tstamp, key),
    ensures
        lookup(
            world_step(world_run(w, ops), Op::Delete { tstamp, key }).store.index.keydir,
            key,
        ) is None,
        ({
            let deleted = world_step(world_run(w, ops), Op::Delete { tstamp, key });
            let again = world_step(deleted, Op::Write { tstamp, key, value });
            store_put_fits(deleted.store, tstamp, key, value) ==> {
                &&& lookup(again.store.index.keydir, key) matches Some(e)
                &&& value_at(file_of(again.disk, e.fileid), e.len, e.pos) == Some(Some(value))
            }
        }),
{
    let before = world_run(w, ops);
    law_run_keeps_wf(w, ops);
    let op = Op::Delete { tstamp, key };
    law_apply_keeps_wf(before, op);
    law_rotate_keeps_wf(world_apply(before, op));
    let deleted = world_step(before, op);
    assert(!deleted.contents.contains_key(key));
    let set = Op::Write { tstamp, key, value };
    if store_put_fits(deleted.store, tstamp, key, value) {
        law_apply_keeps_wf(deleted, set);
        law_rotate_keeps_wf(world_apply(deleted, set));
        let again = world_step(deleted, set);
        assert(again.contents.contains_key(key));
        assert(again.store.index.keydir.contains_key(key));
    }
}

/// Persistence and crash round-trip. After any sequence of operations
/// whose records reached the files, a store that is opened again, whether
/// it was closed before or not, holds the key directory and the statistics
/// that it held, and serves the same value for every live key.
pub proof fn law_reopen_restores(w: World, ops: Seq<Op>)
    requires
        world_wf(w),
        world_run(w, ops).store.active_fileid < u64::MAX,
    ensures
        world_reopen(world_run(w, ops)).store.index == world_run(w, ops).store.index,
        world_reopen(world_run(w, ops)).contents == world_run(w, ops).contents,
        world_wf(world_reopen(world_run(w, ops))),
{
    let before = world_run(w, ops);
    law_run_keeps_wf(w, ops);
    let next = (before.store.active_fileid + 1) as u64;
    lemma_next_file_keeps_wf(before, next);
    let reopened = world_reopen(before);
    let rotated = World {
        store: store_rotate(before.store, next),
        disk: before.disk.insert(next, Seq::empty()),
        ids: before.ids.push(next),
        ..before
    };
    assert(reopened.store.index == rotated.store.index);
    assert(reopened.disk == rotated.disk);
    assert(reopened.ids == rotated.ids);
}

/// The cache reflects the files: each mapping that it holds is how its
/// file began when it was mapped, and the file has only grown since.
pub open spec fn reflects(cache: Seq<(u64, Seq<u8>)>, disk: Map<u64, Seq<u8>>) -> bool {
    forall|i: int|
        0 <= i < cache.len() ==> (#[trigger] cache[i]).1.is_prefix_of(file_of(disk, cache[i].0))
}

/// The value that `contents` holds for `key`, if any.
pub open spec fn value_of(contents: Map<Seq<u8>, Seq<u8>>, key: Seq<u8>) -> Option<Seq<u8>> {
    if contents.contains_key(key) {
        Some(contents[key])
    } else {
        None
    }
}

/// A use of a cached file keeps the cache a reflection of the files.
proof fn lemma_touch_reflects(cache: Seq<(u64, Seq<u8>)>, disk: Map<u64, Seq<u8>>, fileid: u64)
    requires
        reflects(cache, disk),
    ensures
        reflects(touch(cache, fileid), disk),
{
    lemma_find_bounds(cache, fileid);
    match find(cache, fileid) {
        None => {},
        Some(i) => {
            let t = touch(cache, fileid);
            assert forall|j: int| 0 <= j < t.len() implies (#[trigger] t[j]).1.is_prefix_of(
                file_of(disk, t[j].0),
            ) by {
                if j == 0 {
                    assert(t[j] == cache[i]);
                } else if j - 1 < i {
                    assert(t[j] == cache[j - 1]);
                } else {
                    assert(t[j] == cache[j]);
                }
            }
        },
    }
}

/// A lookup reads the last value. Where the key directory serves
/// `contents` from the files and the cache reflects the files, a lookup on
/// an open store, whose result `r` and cache `after` are as `lookup_outcome`
/// says, never fails: it returns the value that `key` was given last, or no
/// value for a key that is not live, or it names the file of the key's
/// record, which the cache does not cover. The entry of a live key points
/// inside its file to a record of that key.
pub proof fn law_lookup_reads_last_value(
    keydir: Map<Seq<u8>, KeyDirEntry>,
    cache: LogDir,
    disk: Map<u64, Seq<u8>>,
    contents: Map<Seq<u8>, Seq<u8>>,
    key: Seq<u8>,
    r: Result<Fetch, Error>,
    after: Seq<(u64, Seq<u8>)>,
)
    requires
        serves(keydir, disk, contents),
        reflects(cache.entries(), disk),
        lookup_outcome(keydir, cache, key, r, after),
    ensures
        reflects(after, disk),
        match r {
            Ok(Fetch::Value(value)) => option_view(value) == value_of(contents, key),
            Ok(Fetch::Unmapped(fileid)) => keydir.contains_key(key) && fileid
                == keydir[key].fileid,
            Err(_) => false,
        },
        keydir.contains_key(key) ==> {
            &&& keydir[key].pos + keydir[key].len <= file_of(disk, keydir[key].fileid).len()
            &&& holds(
                file_of(disk, keydir[key].fileid),
                keydir[key].len,
                keydir[key].pos,
                key,
                contents[key],
            )
        },
{
    if keydir.contains_key(key) {
        let e = keydir[key];
        let file = file_of(disk, e.fileid);
        assert(holds(file, e.len, e.pos, key, contents[key]));
        lemma_touch_reflects(cache.entries(), disk, e.fileid);
        lemma_find_bounds(cache.entries(), e.fileid);
        match cache.covering(e.fileid, e.len, e.pos) {
            Some(mapped) => {
                let i = find(cache.entries(), e.fileid)->Some_0;
                assert(cache.entries()[i].1 == mapped);
                assert(mapped.is_prefix_of(file));
                assert(record_range(mapped, e.len, e.pos) =~= record_range(file, e.len, e.pos));
            },
            None => {},
        }
    }
}

/// The bytes of a file as it is now, stored in the cache, keep the cache a
/// reflection of the files.
pub proof fn lemma_store_reflects(
    before: Seq<(u64, Seq<u8>)>,
    capacity: nat,
    disk: Map<u64, Seq<u8>>,
    fileid: u64,
)
    requires
        reflects(before, disk),
    ensures
        reflects(store(before, capacity, fileid, file_of(disk, fileid)), disk),
        mapping_of(store(before, capacity, fileid, file_of(disk, fileid)), fileid) == Some(
            file_of(disk, fileid),
        ),
{
    let file = file_of(disk, fileid);
    let loaded = store(before, capacity, fileid, file);
    lemma_find_bounds(before, fileid);
    assert(loaded[0] == (fileid, file));
    assert(find(loaded, fileid) == Some(0int));
    assert forall|j: int| 0 <= j < loaded.len() implies (#[trigger] loaded[j]).1.is_prefix_of(
        file_of(disk, loaded[j].0),
    ) by {
        if j > 0 {
            match find(before, fileid) {
                Some(i) => {
                    if j - 1 < i {
                        assert(loaded[j] == before[j - 1]);
                    } else {
                        assert(loaded[j] == before[j]);
                    }
                },
                None => {
                    assert(loaded[j] == before[j - 1]);
                },
            }
        }
    }
}

/// One mapping decides. Where the cache reflects the files, it still does
/// after the bytes of a file as it is now were stored in it; and where the
/// key directory serves `contents`, a lookup of a live key whose record lies
/// in that file then returns the value of the key.
pub proof fn law_lookup_after_load(
    keydir: Map<Seq<u8>, KeyDirEntry>,
    before: Seq<(u64, Seq<u8>)>,
    cache: LogDir,
    disk: Map<u64, Seq<u8>>,
    contents: Map<Seq<u8>, Seq<u8>>,
    key: Seq<u8>,
    r: Result<Fetch, Error>,
    after: Seq<(u64, Seq<u8>)>,
)
    requires
        serves(keydir, disk, contents),
        reflects(before, disk),
        keydir.contains_key(key),
        cache.entries() == store(
            before,
            cache.capacity(),
            keydir[key].fileid,
            file_of(disk, keydir[key].fileid),
        ),
        lookup_outcome(keydir, cache, key, r, after),
    ensures
        reflects(cache.entries(), disk),
        r matches Ok(Fetch::Value(Some(value))) && value@ == contents[key],
{
    let e = keydir[key];
    let file = file_of(disk, e.fileid);
    lemma_store_reflects(before, cache.capacity(), disk, e.fileid);
    assert(holds(file, e.len, e.pos, key, contents[key]));
    law_lookup_reads_last_value(keydir, cache, disk, contents, key, r, after);
}

/// Files that grow keep the cache a reflection of them: a record appended
/// to a file, or a new, empty file, leaves every mapping a beginning of its
/// file.
pub proof fn law_growth_keeps_cache(
    cache: Seq<(u64, Seq<u8>)>,
    disk: Map<u64, Seq<u8>>,
    fileid: u64,
    bytes: Seq<u8>,
)
    requires
        reflects(cache, disk),
    ensures
        reflects(cache, disk_append(disk, fileid, bytes)),
        file_of(disk, fileid).len() == 0 ==> reflects(cache, disk.insert(fileid, Seq::empty())),
{
    let grown = disk_append(disk, fileid, bytes);
    assert forall|i: int| 0 <= i < cache.len() implies (#[trigger] cache[i]).1.is_prefix_of(
        file_of(grown, cache[i].0),
    ) by {
        assert(cache[i].1.is_prefix_of(file_of(disk, cache[i].0)));
    }
    if file_of(disk, fileid).len() == 0 {
        let fresh = disk.insert(fileid, Seq::<u8>::empty());
        assert forall|i: int| 0 <= i < cache.len() implies (#[trigger] cache[i]).1.is_prefix_of(
            file_of(fresh, cache[i].0),
        ) by {
            assert(cache[i].1.is_prefix_of(file_of(disk, cache[i].0)));
            if cache[i].0 == fileid {
                assert(file_of(disk, fileid) =~= Seq::<u8>::empty());
            }
        }
    }
}

/// The handle `h` runs the store of the world `w`: the world is well
/// formed, the handle holds its store, with nothing left in the buffer, and
/// the cache of the handle reflects its files.
pub open spec fn runs<W>(h: Handle<W>, w: World) -> bool {
    &&& world_wf(w)
    &&& h@ == w.store
    &&& reflects(h.cache().entries(), w.disk)
}

/// A new store runs the empty world: a handle as `Bitcask::open` returns
/// it for an empty key directory, empty statistics and the first data file,
/// with that file empty on disk.
pub proof fn law_new_store_runs<W>(h: Handle<W>)
    requires
        h@ == world_new().store,
        h.cache().entries().len() == 0,
    ensures
        runs(h, world_new()),
{
    law_new_world_wf();
}

/// Read-your-writes for a handle with its files. A handle runs a world;
/// `Handle::put` succeeds on it and `Handle::flush` hands out the record,
/// which the caller appends to the active file: then the handle runs the
/// world after that write, in which `key` has the value `value`.
pub proof fn law_put_runs<W>(
    before: Handle<W>,
    after: Handle<W>,
    w: World,
    tstamp: i64,
    key: Seq<u8>,
    value: Seq<u8>,
)
    requires
        runs(before, w),
        !before@.closed,
        store_put_fits(before@, tstamp, key, value),
        after@ == store_flush(store_put(before@, tstamp, key, value)),
        after.cache() == before.cache(),
    ensures
        runs(after, world_apply(w, Op::Write { tstamp, key, value })),
        world_apply(w, Op::Write { tstamp, key, value }).contents == w.contents.insert(key, value),
        lookup(after@.index.keydir, key) == Some(
            next_entry(before@, put_record(tstamp, key, value)),
        ),
        next_entry(before@, put_record(tstamp, key, value)).fileid == before@.active_fileid,
{
    let op = Op::Write { tstamp, key, value };
    law_apply_keeps_wf(w, op);
    law_growth_keeps_cache(
        before.cache().entries(),
        w.disk,
        w.store.active_fileid,
        store_put(w.store, tstamp, key, value).buffered,
    );
}

/// Delete hides for a handle with its files. A handle runs a world;
/// `Handle::del_at` succeeds on it and `Handle::flush` hands out the
/// tombstone, which the caller appends to the active file: then the handle
/// runs the world after that delete, in which `key` has no value.
pub proof fn law_delete_runs<W>(
    before: Handle<W>,
    after: Handle<W>,
    w: World,
    tstamp: i64,
    key: Seq<u8>,
)
    requires
        runs(before, w),
        !before@.closed,
        store_delete_fits(before@, tstamp, key),
        after@ == store_flush(store_delete(before@, tstamp, key)),
        after.cache() == before.cache(),
    ensures
        runs(after, world_apply(w, Op::Delete { tstamp, key })),
        world_apply(w, Op::Delete { tstamp, key }).contents == w.contents.remove(key),
{
    let op = Op::Delete { tstamp, key };
    law_apply_keeps_wf(w, op);
    law_growth_keeps_cache(
        before.cache().entries(),
        w.disk,
        w.store.active_fileid,
        store_delete(w.store, tstamp, key).buffered,
    );
}

/// Rotation for a handle with its files. A handle runs a world in which
/// more than `MAX_FILE_SIZE` bytes were written to the active file `a`;
/// `Handle::rotation_due` names the file `a + 1`, the caller creates it
/// empty, and `Handle::new_active_datafile` makes it the active file: then
/// the handle runs the world after the rotation, in which both files exist
/// and every key has the value it had.
pub proof fn law_rotation_runs<W>(before: Handle<W>, after: Handle<W>, w: World)
    requires
        runs(before, w),
        before@.written_bytes > MAX_FILE_SIZE,
        before@.active_fileid < u64::MAX,
        after@ == store_rotate(before@, (before@.active_fileid + 1) as u64),
        after.cache() == before.cache(),
    ensures
        runs(after, world_rotate(w)),
        world_rotate(w).contents == w.contents,
        world_rotate(w).disk.contains_key(before@.active_fileid),
        world_rotate(w).disk.contains_key(after@.active_fileid),
        file_of(world_rotate(w).disk, after@.active_fileid).len() == 0,
        after@.written_bytes == 0,
{
    law_rotate_keeps_wf(w);
    let next = (w.store.active_fileid + 1) as u64;
    assert(!w.disk.contains_key(next)) by {
        if w.ids.contains(next) {
            let i = choose|i: int| 0 <= i < w.ids.len() && w.ids[i] == next;
            if i < w.ids.len() - 1 {
                assert(w.ids[i] < w.ids[w.ids.len() - 1]);
            }
        }
    }
    law_growth_keeps_cache(before.cache().entries(), w.disk, next, Seq::empty());
}

/// A lookup through a handle with its files. A handle runs a world, and
/// `Handle::get` returned `r` and left the handle as `after`: then the
/// lookup did not fail; it returned the value that `key` was given last, or
/// no value for a key that was never set or was deleted since, or it named
/// the data file to map. The handle still runs the world.
pub proof fn law_get_runs<W>(
    before: Handle<W>,
    after: Handle<W>,
    w: World,
    key: Seq<u8>,
    r: Result<Fetch, Error>,
)
    requires
        runs(before, w),
        !before@.closed,
        after@ == before@,
        lookup_outcome(before@.index.keydir, before.cache(), key, r, after.cache().entries()),
    ensures
        runs(after, w),
        match r {
            Ok(Fetch::Value(value)) => option_view(value) == value_of(w.contents, key),
            Ok(Fetch::Unmapped(fileid)) => w.contents.contains_key(key) && w.disk.contains_key(
                fileid,
            ),
            Err(_) => false,
        },
{
    law_lookup_reads_last_value(
        w.store.index.keydir,
        before.cache(),
        w.disk,
        w.contents,
        key,
        r,
        after.cache().entries(),
    );
    if w.store.index.keydir.contains_key(key) {
        let e = w.store.index.keydir[key];
        assert(holds(file_of(w.disk, e.fileid), e.len, e.pos, key, w.contents[key]));
        if !w.disk.contains_key(e.fileid) {
            assert(file_of(w.disk, e.fileid).len() == 0);
            lemma_decode_data_inverse(record_range(file_of(w.disk, e.fileid), e.len, e.pos));
        }
    }
}

/// One mapping decides, for a handle with its files. A handle runs a
/// world; `Handle::get` named the file of a live key, the caller handed the
/// bytes of that file as it is to `Handle::load`, and `Handle::get` was
/// asked again: then it returned the value that `key` was given last.
pub proof fn law_load_then_get_runs<W>(
    before: Handle<W>,
    loaded: Handle<W>,
    after: Handle<W>,
    w: World,
    key: Seq<u8>,
    r: Result<Fetch, Error>,
)
    requires
        runs(before, w),
        !before@.closed,
        w.contents.contains_key(key),
        loaded@ == before@,
        loaded.cache().entries() == store(
            before.cache().entries(),
            loaded.cache().capacity(),
            w.store.index.keydir[key].fileid,
            file_of(w.disk, w.store.index.keydir[key].fileid),
        ),
        after@ == loaded@,
        lookup_outcome(loaded@.index.keydir, loaded.cache(), key, r, after.cache().entries()),
    ensures
        runs(loaded, w),
        runs(after, w),
        r matches Ok(Fetch::Value(Some(value))) && value@ == w.contents[key],
{
    law_lookup_after_load(
        w.store.index.keydir,
        before.cache().entries(),
        loaded.cache(),
        w.disk,
        w.contents,
        key,
        r,
        after.cache().entries(),
    );
    law_lookup_reads_last_value(
        w.store.index.keydir,
        loaded.cache(),
        w.disk,
        w.contents,
        key,
        r,
        after.cache().entries(),
    );
}

/// Persistence and crash round-trip for a handle with its files. A handle
/// ran a world; whether or not its store was closed, the data files hold
/// every record that was acknowledged. Recovery replays them in the order of
/// their ids, a new, empty data file with the next id is created, and
/// `Bitcask::open` returns a handle for what recovery rebuilt: then that
/// handle runs the world after the reopening, in which every key has the
/// value it had, and its active file id is one more than the last.
pub proof fn law_reopen_runs<W>(h: Handle<W>, w: World)
    requires
        world_wf(w),
        w.store.active_fileid < u64::MAX,
        h@ == world_reopen(w).store,
        h.cache().entries().len() == 0,
    ensures
        runs(h, world_reopen(w)),
        world_reopen(w).contents == w.contents,
        h@.index == w.store.index,
        h@.active_fileid == w.store.active_fileid + 1,
{
    law_run_keeps_wf(w, Seq::empty());
    law_reopen_restores(w, Seq::empty());
}

/// The files `files` are the data files `ids` of `disk`, in this order and
/// without hint files.
pub open spec fn images_of(files: Seq<LogFile>, disk: Map<u64, Seq<u8>>, ids: Seq<u64>) -> bool {
    &&& files.len() == ids.len()
    &&& forall|i: int|
        0 <= i < files.len() ==> {
            &&& (#[trigger] files[i]).fileid == ids[i]
            &&& files[i].hint is NotFound
            &&& files[i].data@ == file_of(disk, ids[i])
        }
}

/// Recovery from the images of data files is the replay of those files.
proof fn lemma_rebuild_is_recover(files: Seq<LogFile>, disk: Map<u64, Seq<u8>>, ids: Seq<u64>)
    requires
        images_of(files, disk, ids),
        ascending(ids),
        recover(disk, ids).1 is Complete,
    ensures
        rebuild(files).0 == recover(disk, ids).0,
        rebuild(files).2 is Done,
        rebuild(files).1 == if ids.len() > 0 {
            Some(ids.last())
        } else {
            None
        },
    decreases ids.len(),
{
    if ids.len() > 0 {
        let front_files = files.drop_last();
        let front_ids = ids.drop_last();
        assert forall|i: int| 0 <= i < front_files.len() implies {
            &&& (#[trigger] front_files[i]).fileid == front_ids[i]
            &&& front_files[i].hint is NotFound
            &&& front_files[i].data@ == file_of(disk, front_ids[i])
        } by {
            assert(front_files[i] == files[i]);
            assert(front_ids[i] == ids[i]);
        }
        assert forall|i: int, j: int| 0 <= i < j < front_ids.len() implies front_ids[i]
            < front_ids[j] by {
            assert(front_ids[i] == ids[i] && front_ids[j] == ids[j]);
        }
        lemma_rebuild_is_recover(front_files, disk, front_ids);
        assert(files.last() == files[files.len() - 1]);
        assert(ids.last() == ids[ids.len() - 1]);
        if front_ids.len() > 0 {
            assert(front_ids.last() == ids[ids.len() - 2]);
        }
    }
}

/// Persistence and crash round-trip for `rebuild_storage`. A world is well
/// formed, after any writes and deletes whose records reached its files,
/// whether or not its store was closed; `files` are the images of its data
/// files in the order of their ids. Then recovery from `files` ends well and
/// rebuilds the index that the store held: the same keys with the same
/// places, and the same statistics; and the largest id it saw is that of the
/// active file, so that the store is opened with the next id.
pub proof fn law_rebuild_restores(w: World, files: Seq<LogFile>)
    requires
        world_wf(w),
        images_of(files, w.disk, w.ids),
    ensures
        rebuild(files) == (w.store.index, Some(w.store.active_fileid), Rebuilt::Done),
        rebuild(files).0 == world_reopen(w).store.index,
{
    lemma_rebuild_is_recover(files, w.disk, w.ids);
}

/// The keys whose latest record lies in the data file `fileid`.
pub open spec fn live_in(keydir: Map<Seq<u8>, KeyDirEntry>, fileid: u64) -> Set<Seq<u8>> {
    keydir.dom().filter(|k: Seq<u8>| keydir[k].fileid == fileid)
}

/// The statistics count the key directory: the key directory holds
/// finitely many keys, and for each data file the number of live records
/// counted is the number of keys that point into that file.
pub open spec fn counted(ix: Index) -> bool {
    &&& ix.keydir.dom().finite()
    &&& forall|f: u64| #[trigger] counts_of(ix.stats, f).live_keys == live_in(ix.keydir, f).len()
}

/// The keys that point into one file are finitely many.
proof fn lemma_live_in_finite(keydir: Map<Seq<u8>, KeyDirEntry>, fileid: u64)
    requires
        keydir.dom().finite(),
    ensures
        live_in(keydir, fileid).finite(),
{
    keydir.dom().lemma_len_filter(|k: Seq<u8>| keydir[k].fileid == fileid);
}

/// An empty index counts its key directory.
pub proof fn law_empty_index_counted()
    ensures
        counted(index_empty()),
{
    let ix = index_empty();
    assert forall|f: u64| #[trigger]
        counts_of(ix.stats, f).live_keys == live_in(ix.keydir, f).len() by {
        assert(live_in(ix.keydir, f) =~= Set::<Seq<u8>>::empty());
    }
}

/// Live keys per file, after a write. Where the statistics count the key
/// directory, they still do after a record with a value: for every data
/// file, the live records counted are the keys that point into it.
pub proof fn law_put_keeps_counted(ix: Index, key: Seq<u8>, entry: KeyDirEntry)
    requires
        counted(ix),
    ensures
        counted(index_put(ix, key, entry)),
{
    let after = index_put(ix, key, entry);
    let prev = lookup(ix.keydir, key);
    assert forall|f: u64| #[trigger]
        counts_of(after.stats, f).live_keys == live_in(after.keydir, f).len() by {
        lemma_live_in_finite(ix.keydir, f);
        let old_set = live_in(ix.keydir, f);
        let new_set = live_in(after.keydir, f);
        assert(counts_of(ix.stats, f).live_keys == old_set.len());
        if f == entry.fileid {
            assert(new_set =~= old_set.insert(key));
        } else {
            assert(new_set =~= old_set.remove(key));
        }
        match prev {
            Some(p) => {
                assert(old_set.contains(key) == (p.fileid == f));
            },
            None => {
                assert(!old_set.contains(key));
            },
        }
    }
}

/// Dead records per file, after a write. A record with a value for a key
/// that pointed to a record before adds one dead record, with the length of
/// that record, to the file of that record; no other dead counter changes.
pub proof fn law_put_charges_previous(ix: Index, key: Seq<u8>, entry: KeyDirEntry, fileid: u64)
    ensures
        counts_of(index_put(ix, key, entry).stats, fileid).dead_keys == counts_of(
            ix.stats,
            fileid,
        ).dead_keys + match lookup(ix.keydir, key) {
            Some(p) if p.fileid == fileid => 1int,
            _ => 0int,
        },
        counts_of(index_put(ix, key, entry).stats, fileid).dead_bytes == counts_of(
            ix.stats,
            fileid,
        ).dead_bytes + match lookup(ix.keydir, key) {
            Some(p) if p.fileid == fileid => p.len as int,
            _ => 0int,
        },
{
}

/// Live keys per file, after a delete. Where the statistics count the key
/// directory, they still do after a tombstone.
pub proof fn law_delete_keeps_counted(ix: Index, key: Seq<u8>, fileid: u64, len: u64)
    requires
        counted(ix),
    ensures
        counted(index_delete(ix, key, fileid, len)),
{
    let after = index_delete(ix, key, fileid, len);
    let prev = lookup(ix.keydir, key);
    assert forall|f: u64| #[trigger]
        counts_of(after.stats, f).live_keys == live_in(after.keydir, f).len() by {
        lemma_live_in_finite(ix.keydir, f);
        let old_set = live_in(ix.keydir, f);
        let new_set = live_in(after.keydir, f);
        assert(counts_of(ix.stats, f).live_keys == old_set.len());
        assert(new_set =~= old_set.remove(key));
        match prev {
            Some(p) => {
                assert(old_set.contains(key) == (p.fileid == f));
            },
            None => {
                assert(!old_set.contains(key));
            },
        }
    }
}

/// Live keys per file, for a handle with its files. After any sequence of
/// operations on an empty store, for every data file the number of live
/// records counted is the number of keys that point into that file.
pub proof fn law_run_keeps_counted(w: World, ops: Seq<Op>)
    requires
        counted(w.store.index),
    ensures
        counted(world_run(w, ops).store.index),
    decreases ops.len(),
{
    if ops.len() > 0 {
        law_run_keeps_counted(w, ops.drop_last());
        let before = world_run(w, ops.drop_last());
        match ops.last() {
            Op::Write { tstamp, key, value } => {
                law_put_keeps_counted(
                    before.store.index,
                    key,
                    next_entry(before.store, put_record(tstamp, key, value)),
                );
            },
            Op::Delete { tstamp, key } => {
                law_delete_keeps_counted(
                    before.store.index,
                    key,
                    before.store.active_fileid,
                    data_len(tombstone(tstamp, key)) as u64,
                );
            },
        }
    }
}

/// The sum of two sets of counters.
pub open spec fn counts_sum(a: Counts, b: Counts) -> Counts {
    Counts {
        live_keys: a.live_keys + b.live_keys,
        dead_keys: a.dead_keys + b.dead_keys,
        dead_bytes: a.dead_bytes + b.dead_bytes,
    }
}

/// The counters of the data files with ids up to `n`, added up.
pub open spec fn total_upto(stats: Map<u64, Counts>, n: nat) -> Counts
    decreases n,
{
    if n == 0 {
        counts_of(stats, 0)
    } else {
        counts_sum(total_upto(stats, (n - 1) as nat), counts_of(stats, n as u64))
    }
}

/// The counters of all data files, added up.
pub open spec fn total(stats: Map<u64, Counts>) -> Counts {
    total_upto(stats, u64::MAX as nat)
}

/// New counters for one file change the sum by what they differ from the
/// old ones of that file.
proof fn lemma_total_insert(stats: Map<u64, Counts>, fileid: u64, c: Counts, n: nat)
    requires
        n <= u64::MAX,
    ensures
        total_upto(stats.insert(fileid, c), n) == if fileid <= n {
            Counts {
                live_keys: total_upto(stats, n).live_keys + c.live_keys - counts_of(
                    stats,
                    fileid,
                ).live_keys,
                dead_keys: total_upto(stats, n).dead_keys + c.dead_keys - counts_of(
                    stats,
                    fileid,
                ).dead_keys,
                dead_bytes: total_upto(stats, n).dead_bytes + c.dead_bytes - counts_of(
                    stats,
                    fileid,
                ).dead_bytes,
            }
        } else {
            total_upto(stats, n)
        },
    decreases n,
{
    if n > 0 {
        lemma_total_insert(stats, fileid, c, (n - 1) as nat);
    }
}

/// Statistics of a first write. A write for a key that is not live adds one
/// live record to the counters of all files and leaves the dead ones.
pub proof fn law_stats_first_write(ix: Index, key: Seq<u8>, entry: KeyDirEntry)
    requires
        !ix.keydir.contains_key(key),
    ensures
        total(index_put(ix, key, entry).stats) == total(ix.stats).add_live(),
{
    lemma_total_insert(
        ix.stats,
        entry.fileid,
        counts_of(ix.stats, entry.fileid).add_live(),
        u64::MAX as nat,
    );
}

/// Statistics of an overwrite. A write for a live key leaves the number of
/// live records of all files, adds one dead record, and adds the length of
/// the record that the key pointed to before to the dead bytes.
pub proof fn law_stats_overwrite(ix: Index, key: Seq<u8>, entry: KeyDirEntry)
    requires
        ix.keydir.contains_key(key),
    ensures
        total(index_put(ix, key, entry).stats) == (Counts {
            live_keys: total(ix.stats).live_keys,
            dead_keys: total(ix.stats).dead_keys + 1,
            dead_bytes: total(ix.stats).dead_bytes + ix.keydir[key].len,
        }),
{
    let prev = ix.keydir[key];
    let first = ix.stats.insert(entry.fileid, counts_of(ix.stats, entry.fileid).add_live());
    lemma_total_insert(
        ix.stats,
        entry.fileid,
        counts_of(ix.stats, entry.fileid).add_live(),
        u64::MAX as nat,
    );
    lemma_total_insert(
        first,
        prev.fileid,
        counts_of(first, prev.fileid).overwrite(prev.len as int),
        u64::MAX as nat,
    );
}

/// Statistics of a delete. The tombstone is one more dead record with its
/// bytes; where the key was live, its record is dead as well, and one live
/// record less is counted.
pub proof fn law_stats_delete(ix: Index, key: Seq<u8>, fileid: u64, len: u64)
    ensures
        total(index_delete(ix, key, fileid, len).stats) == if ix.keydir.contains_key(key) {
            Counts {
                live_keys: total(ix.stats).live_keys - 1,
                dead_keys: total(ix.stats).dead_keys + 2,
                dead_bytes: total(ix.stats).dead_bytes + len + ix.keydir[key].len,
            }
        } else {
            total(ix.stats).add_dead(len as int)
        },
{
    let first = ix.stats.insert(fileid, counts_of(ix.stats, fileid).add_dead(len as int));
    lemma_total_insert(
        ix.stats,
        fileid,
        counts_of(ix.stats, fileid).add_dead(len as int),
        u64::MAX as nat,
    );
    if ix.keydir.contains_key(key) {
        let prev = ix.keydir[key];
        lemma_total_insert(
            first,
            prev.fileid,
            counts_of(first, prev.fileid).overwrite(prev.len as int),
            u64::MAX as nat,
        );
    }
}

/// The key that `op` is about.
pub open spec fn op_key(op: Op) -> Seq<u8> {
    match op {
        Op::Write { key, .. } => key,
        Op::Delete { key, .. } => key,
    }
}

/// Whether `op` succeeds in `w`: the store is open and has room for it.
pub open spec fn op_fits(w: World, op: Op) -> bool {
    &&& !w.store.closed
    &&& match op {
        Op::Write { tstamp, key, value } => store_put_fits(w.store, tstamp, key, value),
        Op::Delete { tstamp, key } => store_delete_fits(w.store, tstamp, key),
    }
}

/// Whether each of `ops` succeeds when they are run from `w` one after the
/// other.
pub open spec fn all_fit(w: World, ops: Seq<Op>) -> bool
    decreases ops.len(),
{
    ops.len() == 0 || (all_fit(w, ops.drop_last()) && op_fits(
        world_run(w, ops.drop_last()),
        ops.last(),
    ))
}

/// The lengths, added up, of the records that the keys of `ops` point to at
/// the moment each of `ops` is run from `w`.
pub open spec fn overwritten_bytes(w: World, ops: Seq<Op>) -> int
    decreases ops.len(),
{
    if ops.len() == 0 {
        0
    } else {
        overwritten_bytes(w, ops.drop_last()) + match lookup(
            world_run(w, ops.drop_last()).store.index.keydir,
            op_key(ops.last()),
        ) {
            Some(e) => e.len as int,
            None => 0,
        }
    }
}

/// Whether `key` is the key of one of `ops`.
pub open spec fn among_keys(ops: Seq<Op>, key: Seq<u8>) -> bool {
    exists|i: int| 0 <= i < ops.len() && op_key(#[trigger] ops[i]) == key
}

/// Without files there is nothing to count.
proof fn lemma_total_empty(n: nat)
    ensures
        total_upto(Map::<u64, Counts>::empty(), n) == Counts::zero(),
    decreases n,
{
    if n > 0 {
        lemma_total_empty((n - 1) as nat);
    }
}

/// Writes of distinct keys to an empty store: each is counted as live,
/// none as dead, and the key directory holds exactly their keys.
proof fn lemma_first_writes(w: World, sets: Seq<Op>)
    requires
        w.store.index == index_empty(),
        forall|i: int| 0 <= i < sets.len() ==> #[trigger] sets[i] is Write,
        forall|i: int, j: int| 0 <= i < j < sets.len() ==> op_key(sets[i]) != op_key(sets[j]),
        all_fit(w, sets),
    ensures
        total(world_run(w, sets).store.index.stats) == (Counts {
            live_keys: sets.len() as int,
            dead_keys: 0,
            dead_bytes: 0,
        }),
        forall|k: Seq<u8>|
            world_run(w, sets).store.index.keydir.contains_key(k) <==> among_keys(sets, k),
    decreases sets.len(),
{
    if sets.len() == 0 {
        lemma_total_empty(u64::MAX as nat);
    } else {
        let front = sets.drop_last();
        let op = sets.last();
        lemma_first_writes(w, front);
        let before = world_run(w, front);
        let after = world_run(w, sets);
        let key = op_key(op);
        assert(!among_keys(front, key)) by {
            if among_keys(front, key) {
                let i = choose|i: int| 0 <= i < front.len() && op_key(#[trigger] front[i]) == key;
                assert(front[i] == sets[i]);
            }
        }
        match op {
            Op::Write { tstamp, key, value } => {
                let entry = next_entry(before.store, put_record(tstamp, key, value));
                law_stats_first_write(before.store.index, key, entry);
                assert(after.store.index == index_put(before.store.index, key, entry));
            },
            Op::Delete { .. } => {
                assert(sets[sets.len() - 1] is Write);
            },
        }
        assert forall|k: Seq<u8>| after.store.index.keydir.contains_key(k) <==> among_keys(
            sets,
            k,
        ) by {
            if among_keys(front, k) {
                let i = choose|i: int| 0 <= i < front.len() && op_key(#[trigger] front[i]) == k;
                assert(sets[i] == front[i]);
            }
            if among_keys(sets, k) && k != key {
                let i = choose|i: int| 0 <= i < sets.len() && op_key(#[trigger] sets[i]) == k;
                assert(front[i] == sets[i]);
            }
            if k == key {
                assert(op_key(sets[sets.len() - 1]) == key);
            }
        }
    }
}

/// Writes for live keys: each leaves the number of live records, counts
/// one more dead record, and adds the length of the record it replaces to
/// the dead bytes; the key directory keeps its keys.
proof fn lemma_overwrites(w: World, overwrites: Seq<Op>)
    requires
        forall|i: int| 0 <= i < overwrites.len() ==> #[trigger] overwrites[i] is Write,
        forall|i: int|
            0 <= i < overwrites.len() ==> w.store.index.keydir.contains_key(
                op_key(#[trigger] overwrites[i]),
            ),
        all_fit(w, overwrites),
    ensures
        total(world_run(w, overwrites).store.index.stats) == (Counts {
            live_keys: total(w.store.index.stats).live_keys,
            dead_keys: total(w.store.index.stats).dead_keys + overwrites.len(),
            dead_bytes: total(w.store.index.stats).dead_bytes + overwritten_bytes(w, overwrites),
        }),
        forall|k: Seq<u8>|
            world_run(w, overwrites).store.index.keydir.contains_key(k)
                <==> w.store.index.keydir.contains_key(k),
    decreases overwrites.len(),
{
    if overwrites.len() > 0 {
        let front = overwrites.drop_last();
        let op = overwrites.last();
        assert forall|i: int| 0 <= i < front.len() implies w.store.index.keydir.contains_key(
            op_key(#[trigger] front[i]),
        ) by {
            assert(front[i] == overwrites[i]);
        }
        assert forall|i: int| 0 <= i < front.len() implies #[trigger] front[i] is Write by {
            assert(front[i] == overwrites[i]);
        }
        lemma_overwrites(w, front);
        let before = world_run(w, front);
        let after = world_run(w, overwrites);
        assert(w.store.index.keydir.contains_key(op_key(overwrites[overwrites.len() - 1])));
        match op {
            Op::Write { tstamp, key, value } => {
                let entry = next_entry(before.store, put_record(tstamp, key, value));
                assert(before.store.index.keydir.contains_key(key));
                law_stats_overwrite(before.store.index, key, entry);
                assert(after.store.index == index_put(before.store.index, key, entry));
            },
            Op::Delete { .. } => {
                assert(overwrites[overwrites.len() - 1] is Write);
            },
        }
    }
}

/// Statistics. After writes of `sets.len()` distinct keys to an empty
/// store, followed by `overwrites.len()` further writes for keys among
/// them, all of them successful, the files count together as many live
/// records as there are keys, as many dead records as there were further
/// writes, and as dead bytes the lengths of the records that were
/// replaced.
pub proof fn law_statistics(w: World, sets: Seq<Op>, overwrites: Seq<Op>)
    requires
        w.store.index == index_empty(),
        forall|i: int| 0 <= i < sets.len() ==> #[trigger] sets[i] is Write,
        forall|i: int| 0 <= i < overwrites.len() ==> #[trigger] overwrites[i] is Write,
        forall|i: int, j: int| 0 <= i < j < sets.len() ==> op_key(sets[i]) != op_key(sets[j]),
        forall|i: int| 0 <= i < overwrites.len() ==> among_keys(sets, op_key(#[trigger] overwrites[i])),
        all_fit(w, sets),
        all_fit(world_run(w, sets), overwrites),
    ensures
        total(world_run(world_run(w, sets), overwrites).store.index.stats) == (Counts {
            live_keys: sets.len() as int,
            dead_keys: overwrites.len() as int,
            dead_bytes: overwritten_bytes(world_run(w, sets), overwrites),
        }),
{
    lemma_first_writes(w, sets);
    lemma_overwrites(world_run(w, sets), overwrites);
}

/// Closed gate. Closing a closed store changes nothing, and no operation
/// opens a store again.
pub proof fn law_closed_stays_closed(
    s: Store,
    tstamp: i64,
    key: Seq<u8>,
    value: Seq<u8>,
    fileid: u64,
)
    ensures
        store_close(s).closed,
        store_close(store_close(s)) == store_close(s),
        store_put(s, tstamp, key, value).closed == s.closed,
        store_delete(s, tstamp, key).closed == s.closed,
        store_flush(s).closed == s.closed,
        store_rotate(s, fileid).closed == s.closed,
{
}

} // verus!
