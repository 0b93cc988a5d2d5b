//! The single writer of a store: it appends records to the active data
//! file, counts them in the statistics, points the key directory to them,
//! and says when the active file is due to be replaced.

use vstd::prelude::*;

use crate::context::{lookup, Context, KeyDirEntry};
use crate::entry::{data_len, data_record, encode_data, option_view, DataFileEntry};
use crate::error::Error;
use crate::index::{charge_fits, index_install, index_remove, Index};
use crate::log::{counts_of, stats_add_dead, stats_add_live, Counts, LogWriter, StatsMap};
use crate::recovery::entry_at;
use crate::store::{
    index_room, store_delete, store_delete_fits, store_put, store_put_fits, store_with_index,
    Store,
};

verus! {

/// The number of bytes after which the active data file is replaced: once
/// more than this many bytes were written to it, the next record goes to a
/// new file.
pub const MAX_FILE_SIZE: u64 = 16777216;

/// The writer of a store. It holds the active data file as `W` and never
/// calls it: the records it encodes wait in a buffer until `flush` hands
/// them to the caller, who appends them to the file.
pub struct Writer<W> {
    writer: LogWriter<W>,
    stats: StatsMap,
    active_fileid: u64,
    written_bytes: u64,
}

/// Whether the statistics `stats` can count a record of `len` bytes in the
/// file `fileid`: as live where it has a value, as dead with its bytes where
/// it is a tombstone.
pub open spec fn can_count(
    stats: Map<u64, Counts>,
    fileid: u64,
    value: Option<Seq<u8>>,
    len: int,
) -> bool {
    match value {
        Some(_) => counts_of(stats, fileid).add_live().fits(),
        None => counts_of(stats, fileid).add_dead(len).fits(),
    }
}

/// The statistics `stats` after a record of `len` bytes was counted in the
/// file `fileid`.
pub open spec fn counted(
    stats: Map<u64, Counts>,
    fileid: u64,
    value: Option<Seq<u8>>,
    len: int,
) -> Map<u64, Counts> {
    match value {
        Some(_) => stats_add_live(stats, fileid),
        None => stats_add_dead(stats, fileid, len),
    }
}

/// The number of bytes that the record `(tstamp, key, value)` takes in a
/// data file.
pub open spec fn record_len(tstamp: i64, key: Seq<u8>, value: Option<Vec<u8>>) -> int {
    data_len(data_record(tstamp, key, option_view(value)))
}

impl<W> Writer<W> {
    /// The statistics of all data files.
    pub closed spec fn stats_view(&self) -> Map<u64, Counts> {
        self.stats@
    }

    /// The id of the active data file.
    pub closed spec fn spec_active_fileid(&self) -> u64 {
        self.active_fileid
    }

    /// The number of bytes written to the active data file by this writer.
    pub closed spec fn spec_written_bytes(&self) -> u64 {
        self.written_bytes
    }

    /// The offset at which the next record will begin in the active file.
    pub closed spec fn spec_pos(&self) -> u64 {
        self.writer.spec_pos()
    }

    /// The encoded records that have not been handed out yet.
    pub closed spec fn buffered(&self) -> Seq<u8> {
        self.writer.buffered()
    }

    /// The active data file.
    pub closed spec fn file(&self) -> W {
        self.writer.inner()
    }

    /// The store that this writer and the shared context `ctx` stand for.
    pub open spec fn store(&self, ctx: &Context) -> Store {
        Store {
            index: Index { keydir: ctx.keydir_view(), stats: self.stats_view() },
            active_fileid: self.spec_active_fileid(),
            pos: self.spec_pos(),
            written_bytes: self.spec_written_bytes(),
            buffered: self.buffered(),
            closed: ctx.spec_is_closed(),
        }
    }

    /// A writer that appends to the data file `active_fileid` through
    /// `writer`, with the statistics `stats`, after `written_bytes` bytes
    /// were written to that file.
    pub fn new(
        writer: LogWriter<W>,
        stats: StatsMap,
        active_fileid: u64,
        written_bytes: u64,
    ) -> (w: Self)
        ensures
            w.stats_view() == stats@,
            w.spec_active_fileid() == active_fileid,
            w.spec_written_bytes() == written_bytes,
            w.spec_pos() == writer.spec_pos(),
            w.buffered() == writer.buffered(),
            w.file() == writer.inner(),
    {
        Writer { writer, stats, active_fileid, written_bytes }
    }

    /// The id of the active data file.
    pub fn active_fileid(&self) -> (id: u64)
        ensures
            id == self.spec_active_fileid(),
    {
        self.active_fileid
    }

    /// The number of bytes written to the active data file by this writer.
    pub fn written_bytes(&self) -> (n: u64)
        ensures
            n == self.spec_written_bytes(),
    {
        self.written_bytes
    }

    /// The statistics of all data files.
    pub fn get_stats(&self) -> (stats: &StatsMap)
        ensures
            stats@ == self.stats_view(),
    {
        &self.stats
    }

    /// The active data file, for a request to make its contents durable.
    pub fn sync(&self) -> (file: &W)
        ensures
            *file == self.file(),
    {
        self.writer.get_ref()
    }

    /// Empties the buffer and returns what it held: the records that the
    /// caller has to append to the active data file before anything else is
    /// done with that file.
    pub fn flush(&mut self) -> (out: Vec<u8>)
        ensures
            out@ == old(self).buffered(),
            final(self).buffered() == Seq::<u8>::empty(),
            final(self).spec_pos() == old(self).spec_pos(),
            final(self).spec_written_bytes() == old(self).spec_written_bytes(),
            final(self).spec_active_fileid() == old(self).spec_active_fileid(),
            final(self).stats_view() == old(self).stats_view(),
            final(self).file() == old(self).file(),
    {
        self.writer.flush()
    }

    /// Whether the active data file is due to be replaced: more than
    /// `MAX_FILE_SIZE` bytes were written to it.
    pub fn needs_rotation(&self) -> (due: bool)
        ensures
            due == (self.spec_written_bytes() > MAX_FILE_SIZE),
    {
        self.written_bytes > MAX_FILE_SIZE
    }

    /// The id of the data file that replaces the active one: the next id.
    /// `None` exactly when the active file has the largest id.
    pub fn next_fileid(&self) -> (id: Option<u64>)
        ensures
            id == if self.spec_active_fileid() < u64::MAX {
                Some((self.spec_active_fileid() + 1) as u64)
            } else {
                None
            },
    {
        self.active_fileid.checked_add(1)
    }

    /// Makes the empty file `file` with id `fileid` the active data file
    /// and returns the writer of the file that was active until now, with
    /// whatever it still holds in its buffer. The statistics stay.
    pub fn new_active_datafile(&mut self, fileid: u64, file: W) -> (retired: LogWriter<W>)
        ensures
            final(self).spec_active_fileid() == fileid,
            final(self).spec_written_bytes() == 0,
            final(self).spec_pos() == 0,
            final(self).buffered() == Seq::<u8>::empty(),
            final(self).stats_view() == old(self).stats_view(),
            final(self).file() == file,
            retired.buffered() == old(self).buffered(),
            retired.spec_pos() == old(self).spec_pos(),
            retired.inner() == old(self).file(),
    {
        self.active_fileid = fileid;
        let mut writer = LogWriter::new(file, 0);
        std::mem::swap(&mut self.writer, &mut writer);
        self.written_bytes = 0;
        writer
    }

    /// Whether nothing was written to the active data file, so that the
    /// file holds no record of this writer and can be removed when the
    /// store shuts down.
    pub fn active_file_is_unused(&self) -> (unused: bool)
        ensures
            unused == (self.spec_written_bytes() == 0),
    {
        self.written_bytes == 0
    }

    /// Whether the index has room for a record of `key` that is written
    /// next, with the value `value` or, without one, as a tombstone.
    pub fn can_record(&self, ctx: &Context, key: &Vec<u8>, value: &Option<Vec<u8>>) -> (ok: bool)
        ensures
            ok == index_room(self.store(ctx), key@, option_view(*value)),
    {
        match value {
            Some(_) => ctx.can_put(&self.stats, key, self.active_fileid),
            None => {
                let n = key.len() as u64;
                n <= u64::MAX - 17 && ctx.can_delete(&self.stats, key, self.active_fileid, n + 17)
            },
        }
    }

    /// The first step of a write: encodes the record `(tstamp, key, value)`
    /// behind the records that wait in the buffer, counts it in the
    /// statistics of the active file, as live where it has a value and as
    /// dead with its bytes where it is a tombstone, and returns where it will
    /// lie in the active file, with the key. The key directory stays as it
    /// is, so that the caller can append the bytes to the file before
    /// `record_put` or `record_delete` makes the record known. Fails with
    /// `Error::Overflow`, and changes nothing, exactly when the record would
    /// end past the largest offset, or the count of the bytes written or a
    /// counter of the active file would leave the range of `u64`.
    pub fn write(
        &mut self,
        tstamp: i64,
        key: Vec<u8>,
        value: Option<Vec<u8>>,
    ) -> (r: Result<(KeyDirEntry, Vec<u8>), Error>)
        ensures
            final(self).file() == old(self).file(),
            final(self).spec_active_fileid() == old(self).spec_active_fileid(),
            match r {
                Ok((entry, k)) => {
                    &&& k@ == key@
                    &&& old(self).spec_pos() + record_len(tstamp, key@, value) <= u64::MAX
                    &&& old(self).spec_written_bytes() + record_len(tstamp, key@, value)
                        <= u64::MAX
                    &&& can_count(
                        old(self).stats_view(),
                        old(self).spec_active_fileid(),
                        option_view(value),
                        record_len(tstamp, key@, value),
                    )
                    &&& entry == entry_at(
                        old(self).spec_active_fileid(),
                        record_len(tstamp, key@, value) as u64,
                        old(self).spec_pos(),
                        tstamp,
                    )
                    &&& final(self).spec_pos() == old(self).spec_pos() + record_len(
                        tstamp,
                        key@,
                        value,
                    )
                    &&& final(self).spec_written_bytes() == old(self).spec_written_bytes()
                        + record_len(tstamp, key@, value)
                    &&& final(self).buffered() == old(self).buffered() + encode_data(
                        data_record(tstamp, key@, option_view(value)),
                    )
                    &&& final(self).stats_view() == counted(
                        old(self).stats_view(),
                        old(self).spec_active_fileid(),
                        option_view(value),
                        record_len(tstamp, key@, value),
                    )
                },
                Err(Error::Overflow) => {
                    &&& (old(self).spec_pos() + record_len(tstamp, key@, value) > u64::MAX
                        || old(self).spec_written_bytes() + record_len(tstamp, key@, value)
                        > u64::MAX || !can_count(
                        old(self).stats_view(),
                        old(self).spec_active_fileid(),
                        option_view(value),
                        record_len(tstamp, key@, value),
                    ))
                    &&& final(self).spec_pos() == old(self).spec_pos()
                    &&& final(self).spec_written_bytes() == old(self).spec_written_bytes()
                    &&& final(self).buffered() == old(self).buffered()
                    &&& final(self).stats_view() == old(self).stats_view()
                },
                Err(_) => false,
            },
    {
        let datafile_entry = DataFileEntry { tstamp, key, value };
        let counts = self.stats.counts(self.active_fileid);
        let room = match datafile_entry.encoded_len() {
            Some(len) => len <= u64::MAX - self.written_bytes && if datafile_entry.value.is_some() {
                counts.can_add_live()
            } else {
                counts.can_add_dead(len)
            },
            None => false,
        };
        if !room {
            return Err(Error::Overflow);
        }
        let index = match self.writer.append(&datafile_entry) {
            Ok(index) => index,
            Err(e) => {
                return Err(e);
            },
        };
        self.written_bytes = self.written_bytes + index.len;
        if datafile_entry.value.is_some() {
            self.stats.add_live(self.active_fileid);
        } else {
            self.stats.add_dead(self.active_fileid, index.len);
        }
        let keydir_entry = KeyDirEntry {
            fileid: self.active_fileid,
            len: index.len,
            pos: index.pos,
            tstamp,
        };
        Ok((keydir_entry, datafile_entry.key))
    }

    /// The second step of a write with a value, for a record that `write`
    /// has counted: points `key` to `entry`, and counts the record that `key`
    /// pointed to before as dead in its own file. When a counter would leave
    /// the range of `u64`, nothing changes and the result is `false`.
    pub fn record_put(&mut self, ctx: &mut Context, key: Vec<u8>, entry: KeyDirEntry) -> (ok: bool)
        ensures
            final(self).file() == old(self).file(),
            final(ctx).spec_path() == old(ctx).spec_path(),
            ok == charge_fits(old(self).stats_view(), lookup(old(ctx).keydir_view(), key@)),
            ok ==> final(self).store(final(ctx)) == store_with_index(
                old(self).store(old(ctx)),
                index_install(old(self).store(old(ctx)).index, key@, entry),
            ),
            !ok ==> final(self).store(final(ctx)) == old(self).store(old(ctx)),
    {
        ctx.install(&mut self.stats, key, entry)
    }

    /// The second step of a delete, for a tombstone that `write` has
    /// counted: takes `key` out of the key directory, and counts the record
    /// that `key` pointed to as dead in its own file. Returns whether `key`
    /// was live. When a counter would leave the range of `u64`, nothing
    /// changes and the result is `None`.
    pub fn record_delete(&mut self, ctx: &mut Context, key: &Vec<u8>) -> (r: Option<bool>)
        ensures
            final(self).file() == old(self).file(),
            final(ctx).spec_path() == old(ctx).spec_path(),
            r is Some == charge_fits(old(self).stats_view(), lookup(old(ctx).keydir_view(), key@)),
            r matches Some(was_live) ==> {
                &&& was_live == old(ctx).keydir_view().contains_key(key@)
                &&& final(self).store(final(ctx)) == store_with_index(
                    old(self).store(old(ctx)),
                    index_remove(old(self).store(old(ctx)).index, key@),
                )
            },
            r is None ==> final(self).store(final(ctx)) == old(self).store(old(ctx)),
    {
        ctx.remove(&mut self.stats, key)
    }

    /// Writes `value` for `key` in one go: `write`, then `record_put`. The
    /// record is only in the buffer when the key directory points to it: a
    /// caller that has to see the bytes in the file first takes the two
    /// steps itself. Appends the record to the active file,
    /// counts it as live there, points `key` to it, and counts the record
    /// that `key` pointed to before as dead in its own file. Fails with
    /// `Error::Overflow`, and changes nothing, exactly when the record would
    /// end past the largest offset or a counter would leave the range of
    /// `u64`.
    pub fn put(
        &mut self,
        ctx: &mut Context,
        tstamp: i64,
        key: Vec<u8>,
        value: Vec<u8>,
    ) -> (r: Result<(), Error>)
        ensures
            final(self).file() == old(self).file(),
            final(ctx).spec_path() == old(ctx).spec_path(),
            match r {
                Ok(()) => {
                    &&& store_put_fits(old(self).store(old(ctx)), tstamp, key@, value@)
                    &&& final(self).store(final(ctx)) == store_put(
                        old(self).store(old(ctx)),
                        tstamp,
                        key@,
                        value@,
                    )
                },
                Err(Error::Overflow) => {
                    &&& !store_put_fits(old(self).store(old(ctx)), tstamp, key@, value@)
                    &&& final(self).store(final(ctx)) == old(self).store(old(ctx))
                },
                Err(_) => false,
            },
    {
        let value = Some(value);
        if !self.can_record(ctx, &key, &value) {
            return Err(Error::Overflow);
        }
        let ghost before = *ctx;
        let (keydir_entry, key) = match self.write(tstamp, key, value) {
            Ok(written) => written,
            Err(e) => {
                assert(self.store(&before) == old(self).store(&before));
                return Err(e);
            },
        };
        self.record_put(ctx, key, keydir_entry);
        Ok(())
    }

    /// Deletes `key` in one go: `write`, then `record_delete`. The
    /// tombstone is only in the buffer when the key leaves the key
    /// directory. Appends a tombstone to the active file, whether or
    /// not `key` is live, counts it as dead there, takes `key` out of the
    /// key directory, and counts the record that `key` pointed to as dead in
    /// its own file. Returns whether `key` was live. Fails with
    /// `Error::Overflow`, and changes nothing, exactly when the tombstone
    /// would end past the largest offset or a counter would leave the range
    /// of `u64`.
    pub fn delete(
        &mut self,
        ctx: &mut Context,
        tstamp: i64,
        key: Vec<u8>,
    ) -> (r: Result<bool, Error>)
        ensures
            final(self).file() == old(self).file(),
            final(ctx).spec_path() == old(ctx).spec_path(),
            match r {
                Ok(was_live) => {
                    &&& store_delete_fits(old(self).store(old(ctx)), tstamp, key@)
                    &&& was_live == old(ctx).keydir_view().contains_key(key@)
                    &&& final(self).store(final(ctx)) == store_delete(
                        old(self).store(old(ctx)),
                        tstamp,
                        key@,
                    )
                },
                Err(Error::Overflow) => {
                    &&& !store_delete_fits(old(self).store(old(ctx)), tstamp, key@)
                    &&& final(self).store(final(ctx)) == old(self).store(old(ctx))
                },
                Err(_) => false,
            },
    {
        if !self.can_record(ctx, &key, &None) {
            return Err(Error::Overflow);
        }
        let ghost before = *ctx;
        let was_live = ctx.get_keydir().get(&key).is_some();
        let (_, key) = match self.write(tstamp, key, None) {
            Ok(written) => written,
            Err(e) => {
                assert(self.store(&before) == old(self).store(&before));
                return Err(e);
            },
        };
        self.record_delete(ctx, &key);
        Ok(was_live)
    }
}

} // verus!
