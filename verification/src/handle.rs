//! The store as its users see it: `Bitcask` opens a store, and its `Handle`
//! takes the operations, each of which fails once the store is closed.

use vstd::prelude::*;

use crate::context::{lookup, Context, KeyDir, KeyDirEntry};
use crate::entry::{data_record, option_view};
use crate::error::Error;
use crate::index::{charge_fits, Index};
use crate::log::{LogWriter, StatsMap};
use crate::logdir::{store, touch, LogDir};
use crate::reader::{value_at, Fetch, Reader};
use crate::store::{
    next_entry, store_close, store_delete, store_delete_fits, store_flush,
    store_put, store_put_fits, store_rotate, store_write, write_fits, Store,
};
use crate::utils::timestamp;
use crate::writer::{Writer, MAX_FILE_SIZE};

verus! {

/// The number of readers that a store serves at the same time.
pub const CONCURRENCY: usize = 4;

/// The number of data files that each reader keeps mapped.
pub const READER_CACHE_SIZE: usize = 16;

/// The first step of a write through `writer`, unless the store of `ctx`
/// is closed: encodes the record `(tstamp, key, value)`, a tombstone where
/// `value` is `None`, behind the records that wait in the buffer of the
/// writer, and returns where it will lie in the active file, with the key.
/// The record is counted in the statistics of the active file; the key
/// directory stays as it is: the caller appends what `Writer::flush` returns
/// to the file, and then takes the second step, `Writer::record_put` or
/// `Writer::record_delete`, which has room. On a
/// closed store it fails with `Error::Closed`; where the record cannot be
/// appended or the index has no room for it, with `Error::Overflow`. A
/// failure changes nothing.
pub fn write<W>(
    ctx: &Context,
    writer: &mut Writer<W>,
    tstamp: i64,
    key: Vec<u8>,
    value: Option<Vec<u8>>,
) -> (r: Result<(KeyDirEntry, Vec<u8>), Error>)
    ensures
        final(writer).file() == old(writer).file(),
        match r {
            Ok((entry, k)) => {
                &&& !ctx.spec_is_closed()
                &&& k@ == key@
                &&& write_fits(old(writer).store(ctx), data_record(tstamp, key@, option_view(value)))
                &&& entry == next_entry(
                    old(writer).store(ctx),
                    data_record(tstamp, key@, option_view(value)),
                )
                &&& final(writer).store(ctx) == store_write(
                    old(writer).store(ctx),
                    data_record(tstamp, key@, option_view(value)),
                )
                &&& charge_fits(final(writer).stats_view(), lookup(ctx.keydir_view(), key@))
            },
            Err(Error::Closed) => {
                &&& ctx.spec_is_closed()
                &&& final(writer).store(ctx) == old(writer).store(ctx)
            },
            Err(Error::Overflow) => {
                &&& !ctx.spec_is_closed()
                &&& !write_fits(old(writer).store(ctx), data_record(tstamp, key@, option_view(value)))
                &&& final(writer).store(ctx) == old(writer).store(ctx)
            },
            Err(_) => false,
        },
{
    if ctx.is_closed() {
        return Err(Error::Closed);
    }
    if !writer.can_record(ctx, &key, &value) {
        return Err(Error::Overflow);
    }
    writer.write(tstamp, key, value)
}

/// The first step of a write with the time of the clock: `write`, with the
/// time that the clock gives once the store is known to be open. It fails as
/// `write` does, and with `Error::Overflow` where the clock cannot give the
/// time in nanoseconds. On success the entry returned carries the time that
/// the clock gave.
pub fn write_now<W>(
    ctx: &Context,
    writer: &mut Writer<W>,
    key: Vec<u8>,
    value: Option<Vec<u8>>,
) -> (r: Result<(KeyDirEntry, Vec<u8>), Error>)
    ensures
        final(writer).file() == old(writer).file(),
        match r {
            Ok((entry, k)) => {
                &&& !ctx.spec_is_closed()
                &&& k@ == key@
                &&& write_fits(
                    old(writer).store(ctx),
                    data_record(entry.tstamp, key@, option_view(value)),
                )
                &&& entry == next_entry(
                    old(writer).store(ctx),
                    data_record(entry.tstamp, key@, option_view(value)),
                )
                &&& final(writer).store(ctx) == store_write(
                    old(writer).store(ctx),
                    data_record(entry.tstamp, key@, option_view(value)),
                )
                &&& charge_fits(final(writer).stats_view(), lookup(ctx.keydir_view(), key@))
            },
            Err(Error::Closed) => {
                &&& ctx.spec_is_closed()
                &&& final(writer).store(ctx) == old(writer).store(ctx)
            },
            Err(Error::Overflow) => {
                &&& !ctx.spec_is_closed()
                &&& final(writer).store(ctx) == old(writer).store(ctx)
            },
            Err(_) => false,
        },
{
    if ctx.is_closed() {
        return Err(Error::Closed);
    }
    match timestamp() {
        Some(tstamp) => write(ctx, writer, tstamp, key, value),
        None => Err(Error::Overflow),
    }
}

/// Writes `value` for `key` with the time `tstamp` through `writer` in one
/// go, unless the store of `ctx` is closed. The record is only in the buffer
/// of the writer when the key directory points to it; a caller that has to
/// see the bytes in the file first takes the two steps, `write` and
/// `Writer::record_put`. On a closed store it fails with
/// `Error::Closed`; where the record would end past the largest offset or a
/// counter would leave the range of `u64`, with `Error::Overflow`. A failure
/// changes nothing.
pub fn put<W>(
    ctx: &mut Context,
    writer: &mut Writer<W>,
    tstamp: i64,
    key: Vec<u8>,
    value: Vec<u8>,
) -> (r: Result<(), Error>)
    ensures
        final(writer).file() == old(writer).file(),
        final(ctx).spec_path() == old(ctx).spec_path(),
        match r {
            Ok(()) => {
                &&& !old(ctx).spec_is_closed()
                &&& store_put_fits(old(writer).store(old(ctx)), tstamp, key@, value@)
                &&& final(writer).store(final(ctx)) == store_put(
                    old(writer).store(old(ctx)),
                    tstamp,
                    key@,
                    value@,
                )
            },
            Err(Error::Closed) => {
                &&& old(ctx).spec_is_closed()
                &&& final(writer).store(final(ctx)) == old(writer).store(old(ctx))
            },
            Err(Error::Overflow) => {
                &&& !old(ctx).spec_is_closed()
                &&& !store_put_fits(old(writer).store(old(ctx)), tstamp, key@, value@)
                &&& final(writer).store(final(ctx)) == old(writer).store(old(ctx))
            },
            Err(_) => false,
        },
{
    if ctx.is_closed() {
        return Err(Error::Closed);
    }
    writer.put(ctx, tstamp, key, value)
}

/// Deletes `key` with the time `tstamp` through `writer` in one go, unless
/// the store of `ctx` is closed, and returns whether `key` was live. The
/// tombstone is only in the buffer of the writer when the key leaves the key
/// directory; the two steps are `write` and `Writer::record_delete`. On a
/// closed store
/// it fails with `Error::Closed`; where the tombstone would end past the
/// largest offset or a counter would leave the range of `u64`, with
/// `Error::Overflow`. A failure changes nothing.
pub fn del<W>(
    ctx: &mut Context,
    writer: &mut Writer<W>,
    tstamp: i64,
    key: Vec<u8>,
) -> (r: Result<bool, Error>)
    ensures
        final(writer).file() == old(writer).file(),
        final(ctx).spec_path() == old(ctx).spec_path(),
        match r {
            Ok(was_live) => {
                &&& !old(ctx).spec_is_closed()
                &&& store_delete_fits(old(writer).store(old(ctx)), tstamp, key@)
                &&& was_live == old(ctx).keydir_view().contains_key(key@)
                &&& final(writer).store(final(ctx)) == store_delete(
                    old(writer).store(old(ctx)),
                    tstamp,
                    key@,
                )
            },
            Err(Error::Closed) => {
                &&& old(ctx).spec_is_closed()
                &&& final(writer).store(final(ctx)) == old(writer).store(old(ctx))
            },
            Err(Error::Overflow) => {
                &&& !old(ctx).spec_is_closed()
                &&& !store_delete_fits(old(writer).store(old(ctx)), tstamp, key@)
                &&& final(writer).store(final(ctx)) == old(writer).store(old(ctx))
            },
            Err(_) => false,
        },
{
    if ctx.is_closed() {
        return Err(Error::Closed);
    }
    writer.delete(ctx, tstamp, key)
}

/// What a lookup of `key` through a reader with the cache `cache` comes to
/// in an open store with the key directory `keydir`, and what it makes of
/// the cache: `r` is the result and `after` the entries of the cache
/// afterwards. A key that the directory does not hold has no value. For any
/// other key the record that the directory points to is decoded from the
/// cached mapping of its file, which then counts as used; where the cache
/// has no mapping that covers the record, the result names the file to map.
pub open spec fn lookup_outcome(
    keydir: Map<Seq<u8>, KeyDirEntry>,
    cache: LogDir,
    key: Seq<u8>,
    r: Result<Fetch, Error>,
    after: Seq<(u64, Seq<u8>)>,
) -> bool {
    match lookup(keydir, key) {
        None => {
            &&& r matches Ok(Fetch::Value(None))
            &&& after == cache.entries()
        },
        Some(e) => {
            &&& after == touch(cache.entries(), e.fileid)
            &&& match cache.covering(e.fileid, e.len, e.pos) {
                Some(file) => match r {
                    Ok(Fetch::Value(value)) => value_at(file, e.len, e.pos) == Some(
                        option_view(value),
                    ),
                    Err(Error::Serialization(_)) => value_at(file, e.len, e.pos) is None,
                    _ => false,
                },
                None => r matches Ok(Fetch::Unmapped(id)) && id == e.fileid,
            }
        },
    }
}

/// Looks `key` up through `reader`, unless the store of `ctx` is closed.
/// On a closed store it fails with `Error::Closed` and changes nothing.
pub fn get(ctx: &Context, reader: &mut Reader, key: &Vec<u8>) -> (r: Result<Fetch, Error>)
    ensures
        final(reader).cache().capacity() == old(reader).cache().capacity(),
        ctx.spec_is_closed() ==> (r matches Err(Error::Closed)),
        ctx.spec_is_closed() ==> final(reader).cache() == old(reader).cache(),
        !ctx.spec_is_closed() ==> lookup_outcome(
            ctx.keydir_view(),
            old(reader).cache(),
            key@,
            r,
            final(reader).cache().entries(),
        ),
{
    if ctx.is_closed() {
        return Err(Error::Closed);
    }
    reader.get(ctx, key)
}

/// The active data file of `writer`, for a request to make its contents
/// durable. It fails with `Error::Closed` exactly when the store of `ctx` is
/// closed.
pub fn sync<'a, W>(ctx: &Context, writer: &'a Writer<W>) -> (r: Result<&'a W, Error>)
    ensures
        match r {
            Ok(file) => !ctx.spec_is_closed() && *file == writer.file(),
            Err(Error::Closed) => ctx.spec_is_closed(),
            Err(_) => false,
        },
{
    if ctx.is_closed() {
        return Err(Error::Closed);
    }
    Ok(writer.sync())
}

/// The id of the data file that has to replace the active one of `writer`,
/// if the active file is due: more than `MAX_FILE_SIZE` bytes were written
/// to it. Fails with `Error::Overflow` exactly when the active file is due
/// and has the largest id.
pub fn rotation_due<W>(writer: &Writer<W>) -> (r: Result<Option<u64>, Error>)
    ensures
        match r {
            Ok(None) => writer.spec_written_bytes() <= MAX_FILE_SIZE,
            Ok(Some(id)) => writer.spec_written_bytes() > MAX_FILE_SIZE && id
                == writer.spec_active_fileid() + 1,
            Err(Error::Overflow) => writer.spec_written_bytes() > MAX_FILE_SIZE
                && writer.spec_active_fileid() == u64::MAX,
            Err(_) => false,
        },
{
    if !writer.needs_rotation() {
        return Ok(None);
    }
    match writer.next_fileid() {
        Some(id) => Ok(Some(id)),
        None => Err(Error::Overflow),
    }
}

/// The operations of an open store. The handle holds the active data file
/// as `W` and never calls it: after `set` and `del` the caller appends what
/// `flush` returns to that file, and after a lookup that names a file to map
/// it hands the bytes of that file to `load`.
pub struct Handle<W> {
    ctx: Context,
    writer: Writer<W>,
    reader: Reader,
}

impl<W> Handle<W> {
    /// The store that this handle stands for.
    pub closed spec fn view(&self) -> Store {
        self.writer.store(&self.ctx)
    }

    /// The active data file.
    pub closed spec fn file(&self) -> W {
        self.writer.file()
    }

    /// The cache of data-file mappings that lookups are served from.
    pub closed spec fn cache(&self) -> LogDir {
        self.reader.cache()
    }

    /// The directory of the store.
    pub closed spec fn spec_path(&self) -> Seq<char> {
        self.ctx.spec_path()
    }

    /// A handle made of the shared context, the writer and a reader of one
    /// store.
    pub fn new(ctx: Context, writer: Writer<W>, reader: Reader) -> (h: Self)
        ensures
            h@ == writer.store(&ctx),
            h.file() == writer.file(),
            h.cache() == reader.cache(),
            h.spec_path() == ctx.spec_path(),
    {
        Handle { ctx, writer, reader }
    }

    /// Writes `value` for `key` with the time `tstamp`. The record waits in
    /// the buffer until `flush` hands it out. On a closed store
    /// it fails with `Error::Closed`; where the record would end past the
    /// largest offset or a counter would leave the range of `u64`, with
    /// `Error::Overflow`. A failure changes nothing.
    pub fn put(&mut self, tstamp: i64, key: Vec<u8>, value: Vec<u8>) -> (r: Result<(), Error>)
        ensures
            final(self).file() == old(self).file(),
            final(self).cache() == old(self).cache(),
            final(self).spec_path() == old(self).spec_path(),
            match r {
                Ok(()) => {
                    &&& !old(self)@.closed
                    &&& store_put_fits(old(self)@, tstamp, key@, value@)
                    &&& final(self)@ == store_put(old(self)@, tstamp, key@, value@)
                },
                Err(Error::Closed) => old(self)@.closed && final(self)@ == old(self)@,
                Err(Error::Overflow) => {
                    &&& !old(self)@.closed
                    &&& !store_put_fits(old(self)@, tstamp, key@, value@)
                    &&& final(self)@ == old(self)@
                },
                Err(_) => false,
            },
    {
        put(&mut self.ctx, &mut self.writer, tstamp, key, value)
    }

    /// Deletes `key` with the time `tstamp` and returns whether it was
    /// live. The tombstone waits in the buffer until `flush` hands it out.
    /// On a closed store it fails with `Error::Closed`; where the
    /// tombstone would end past the largest offset or a counter would leave
    /// the range of `u64`, with `Error::Overflow`. A failure changes nothing.
    pub fn del_at(&mut self, tstamp: i64, key: Vec<u8>) -> (r: Result<bool, Error>)
        ensures
            final(self).file() == old(self).file(),
            final(self).cache() == old(self).cache(),
            final(self).spec_path() == old(self).spec_path(),
            match r {
                Ok(was_live) => {
                    &&& !old(self)@.closed
                    &&& store_delete_fits(old(self)@, tstamp, key@)
                    &&& was_live == old(self)@.index.keydir.contains_key(key@)
                    &&& final(self)@ == store_delete(old(self)@, tstamp, key@)
                },
                Err(Error::Closed) => old(self)@.closed && final(self)@ == old(self)@,
                Err(Error::Overflow) => {
                    &&& !old(self)@.closed
                    &&& !store_delete_fits(old(self)@, tstamp, key@)
                    &&& final(self)@ == old(self)@
                },
                Err(_) => false,
            },
    {
        del(&mut self.ctx, &mut self.writer, tstamp, key)
    }

    /// Writes `value` for `key` with the time of the clock. It fails as
    /// `put` does, and with `Error::Overflow` where the clock cannot give
    /// the time in nanoseconds. On success `key` points to the new record,
    /// which carries the time that the clock gave.
    pub fn set(&mut self, key: Vec<u8>, value: Vec<u8>) -> (r: Result<(), Error>)
        ensures
            final(self).file() == old(self).file(),
            final(self).cache() == old(self).cache(),
            final(self).spec_path() == old(self).spec_path(),
            match r {
                Ok(()) => {
                    &&& !old(self)@.closed
                    &&& lookup(final(self)@.index.keydir, key@) matches Some(e)
                    &&& store_put_fits(old(self)@, e.tstamp, key@, value@)
                    &&& final(self)@ == store_put(old(self)@, e.tstamp, key@, value@)
                },
                Err(Error::Closed) => old(self)@.closed && final(self)@ == old(self)@,
                Err(Error::Overflow) => !old(self)@.closed && final(self)@ == old(self)@,
                Err(_) => false,
            },
    {
        if self.ctx.is_closed() {
            return Err(Error::Closed);
        }
        match timestamp() {
            Some(tstamp) => self.put(tstamp, key, value),
            None => Err(Error::Overflow),
        }
    }

    /// Deletes `key` with the time of the clock and returns whether it was
    /// live. It fails as `del_at` does, and with `Error::Overflow` where the
    /// clock cannot give the time in nanoseconds.
    pub fn del(&mut self, key: Vec<u8>) -> (r: Result<bool, Error>)
        ensures
            final(self).file() == old(self).file(),
            final(self).cache() == old(self).cache(),
            final(self).spec_path() == old(self).spec_path(),
            match r {
                Ok(was_live) => {
                    &&& !old(self)@.closed
                    &&& was_live == old(self)@.index.keydir.contains_key(key@)
                    &&& exists|tstamp: i64|
                        store_delete_fits(old(self)@, tstamp, key@) && final(self)@
                            == #[trigger] store_delete(old(self)@, tstamp, key@)
                },
                Err(Error::Closed) => old(self)@.closed && final(self)@ == old(self)@,
                Err(Error::Overflow) => !old(self)@.closed && final(self)@ == old(self)@,
                Err(_) => false,
            },
    {
        if self.ctx.is_closed() {
            return Err(Error::Closed);
        }
        match timestamp() {
            Some(tstamp) => self.del_at(tstamp, key),
            None => Err(Error::Overflow),
        }
    }

    /// Looks `key` up. On a closed store it fails with `Error::Closed` and
    /// changes nothing. A key that the directory does not hold has no
    /// value. For any other key the record that the directory points to is
    /// decoded from the cached mapping of its file; where the cache has no
    /// mapping that covers the record, the result names the file to map.
    pub fn get(&mut self, key: &Vec<u8>) -> (r: Result<Fetch, Error>)
        ensures
            final(self)@ == old(self)@,
            final(self).file() == old(self).file(),
            final(self).spec_path() == old(self).spec_path(),
            final(self).cache().capacity() == old(self).cache().capacity(),
            old(self)@.closed ==> (r matches Err(Error::Closed)),
            old(self)@.closed ==> final(self).cache() == old(self).cache(),
            !old(self)@.closed ==> lookup_outcome(
                old(self)@.index.keydir,
                old(self).cache(),
                key@,
                r,
                final(self).cache().entries(),
            ),
    {
        get(&self.ctx, &mut self.reader, key)
    }

    /// Stores `mapped`, the bytes of the data file `fileid` as it is now,
    /// in the cache that lookups are served from.
    pub fn load(&mut self, fileid: u64, mapped: Vec<u8>)
        ensures
            final(self)@ == old(self)@,
            final(self).file() == old(self).file(),
            final(self).spec_path() == old(self).spec_path(),
            final(self).cache().capacity() == old(self).cache().capacity(),
            final(self).cache().entries() == store(
                old(self).cache().entries(),
                old(self).cache().capacity(),
                fileid,
                mapped@,
            ),
    {
        self.reader.load(fileid, mapped);
    }

    /// The active data file, for a request to make its contents durable. It
    /// fails with `Error::Closed` exactly on a closed store.
    pub fn sync(&self) -> (r: Result<&W, Error>)
        ensures
            match r {
                Ok(file) => !self@.closed && *file == self.file(),
                Err(Error::Closed) => self@.closed,
                Err(_) => false,
            },
    {
        sync(&self.ctx, &self.writer)
    }

    /// The active data file, whether or not the store is closed.
    pub fn active_file(&self) -> (file: &W)
        ensures
            *file == self.file(),
    {
        self.writer.sync()
    }

    /// The id of the active data file.
    pub fn active_fileid(&self) -> (id: u64)
        ensures
            id == self@.active_fileid,
    {
        self.writer.active_fileid()
    }

    /// Closes the store. Closing a closed store changes nothing, and
    /// nothing opens it again.
    pub fn close(&mut self)
        ensures
            final(self)@ == store_close(old(self)@),
            final(self).file() == old(self).file(),
            final(self).cache() == old(self).cache(),
            final(self).spec_path() == old(self).spec_path(),
    {
        self.ctx.close();
    }

    /// Whether the store has been closed.
    pub fn is_closed(&self) -> (b: bool)
        ensures
            b == self@.closed,
    {
        self.ctx.is_closed()
    }

    /// The directory of the store.
    pub fn path(&self) -> (p: &str)
        ensures
            p@ == self.spec_path(),
    {
        self.ctx.path()
    }

    /// The statistics of all data files.
    pub fn get_stats(&self) -> (stats: &StatsMap)
        ensures
            stats@ == self@.index.stats,
    {
        self.writer.get_stats()
    }

    /// Empties the buffer of the writer and returns what it held: the
    /// records that the caller has to append to the active data file.
    pub fn flush(&mut self) -> (out: Vec<u8>)
        ensures
            out@ == old(self)@.buffered,
            final(self)@ == store_flush(old(self)@),
            final(self).file() == old(self).file(),
            final(self).cache() == old(self).cache(),
            final(self).spec_path() == old(self).spec_path(),
    {
        self.writer.flush()
    }

    /// The id of the data file that has to replace the active one, if the
    /// active file is due: more than `MAX_FILE_SIZE` bytes were written to
    /// it. Fails with `Error::Overflow` exactly when the active file is due
    /// and has the largest id.
    pub fn rotation_due(&self) -> (r: Result<Option<u64>, Error>)
        ensures
            match r {
                Ok(None) => self@.written_bytes <= MAX_FILE_SIZE,
                Ok(Some(id)) => self@.written_bytes > MAX_FILE_SIZE && id
                    == self@.active_fileid + 1,
                Err(Error::Overflow) => self@.written_bytes > MAX_FILE_SIZE
                    && self@.active_fileid == u64::MAX,
                Err(_) => false,
            },
    {
        rotation_due(&self.writer)
    }

    /// Makes the empty file `file` with id `fileid` the active data file
    /// and returns the writer of the file that was active until now, with
    /// whatever it still holds in its buffer.
    pub fn new_active_datafile(&mut self, fileid: u64, file: W) -> (retired: LogWriter<W>)
        ensures
            final(self)@ == store_rotate(old(self)@, fileid),
            final(self).file() == file,
            final(self).cache() == old(self).cache(),
            final(self).spec_path() == old(self).spec_path(),
            retired.buffered() == old(self)@.buffered,
            retired.spec_pos() == old(self)@.pos,
            retired.inner() == old(self).file(),
    {
        self.writer.new_active_datafile(fileid, file)
    }

    /// Whether nothing was written to the active data file, so that it can
    /// be removed when the store shuts down.
    pub fn active_file_is_unused(&self) -> (unused: bool)
        ensures
            unused == (self@.written_bytes == 0),
    {
        self.writer.active_file_is_unused()
    }
}

/// A store of byte strings under byte-string keys that takes the time of
/// its records from a clock of its own.
pub trait KeyValueStorage {
    /// The store as a mathematical value.
    spec fn store(&self) -> Store;

    /// The cache of data-file mappings that lookups are served from.
    spec fn mappings(&self) -> LogDir;

    /// Writes `value` for `key`. A closed store fails with
    /// `Error::Closed`, and a failure changes nothing. On success `key`
    /// points to the new record, which carries the time of the write.
    fn set(&mut self, key: Vec<u8>, value: Vec<u8>) -> (r: Result<(), Error>)
        ensures
            final(self).mappings() == old(self).mappings(),
            match r {
                Ok(()) => {
                    &&& !old(self).store().closed
                    &&& lookup(final(self).store().index.keydir, key@) matches Some(e)
                    &&& store_put_fits(old(self).store(), e.tstamp, key@, value@)
                    &&& final(self).store() == store_put(old(self).store(), e.tstamp, key@, value@)
                },
                Err(Error::Closed) => old(self).store().closed && final(self).store() == old(self).store(),
                Err(_) => !old(self).store().closed && final(self).store() == old(self).store(),
            },
    ;

    /// Looks `key` up. A closed store fails with `Error::Closed` and
    /// changes nothing. On an open store the store stays as it is, and the
    /// result and the cache are what `lookup_outcome` says: a key that is not
    /// live has no value; for a live key the record that the key directory
    /// points to is decoded from the cached mapping of its file, and where no
    /// mapping covers it, the result names the file to map.
    fn get(&mut self, key: Vec<u8>) -> (r: Result<Fetch, Error>)
        ensures
            final(self).store() == old(self).store(),
            final(self).mappings().capacity() == old(self).mappings().capacity(),
            old(self).store().closed ==> (r matches Err(Error::Closed)),
            old(self).store().closed ==> final(self).mappings() == old(self).mappings(),
            !old(self).store().closed ==> lookup_outcome(
                old(self).store().index.keydir,
                old(self).mappings(),
                key@,
                r,
                final(self).mappings().entries(),
            ),
    ;

    /// Deletes `key` and returns whether it was live. A closed store fails
    /// with `Error::Closed`, and a failure changes nothing. On success `key`
    /// is not live.
    fn del(&mut self, key: Vec<u8>) -> (r: Result<bool, Error>)
        ensures
            final(self).mappings() == old(self).mappings(),
            match r {
                Ok(was_live) => {
                    &&& !old(self).store().closed
                    &&& was_live == old(self).store().index.keydir.contains_key(key@)
                    &&& exists|tstamp: i64|
                        store_delete_fits(old(self).store(), tstamp, key@) && final(self).store()
                            == #[trigger] store_delete(old(self).store(), tstamp, key@)
                },
                Err(Error::Closed) => old(self).store().closed && final(self).store() == old(self).store(),
                Err(_) => !old(self).store().closed && final(self).store() == old(self).store(),
            },
    ;
}

impl<W> KeyValueStorage for Handle<W> {
    open spec fn store(&self) -> Store {
        self@
    }

    open spec fn mappings(&self) -> LogDir {
        self.cache()
    }

    fn set(&mut self, key: Vec<u8>, value: Vec<u8>) -> (r: Result<(), Error>) {
        Handle::set(self, key, value)
    }

    fn get(&mut self, key: Vec<u8>) -> (r: Result<Fetch, Error>) {
        Handle::get(self, &key)
    }

    fn del(&mut self, key: Vec<u8>) -> (r: Result<bool, Error>) {
        Handle::del(self, key)
    }
}

/// A store. It owns the handle through which the store is used.
pub struct Bitcask<W> {
    handle: Handle<W>,
}

impl<W> Bitcask<W> {
    /// The handle of the store.
    pub closed spec fn handle(&self) -> Handle<W> {
        self.handle
    }

    /// Opens the store in the directory `path` after a recovery that gave
    /// `keydir`, `stats` and `active_fileid`, over the new, empty data file
    /// `file` with that id. The store is open, nothing has been written to
    /// the active file, and the cache of mappings is empty.
    pub fn open(
        path: String,
        keydir: KeyDir,
        stats: StatsMap,
        active_fileid: u64,
        file: W,
    ) -> (b: Self)
        ensures
            b.handle()@ == (Store {
                index: Index { keydir: keydir@, stats: stats@ },
                active_fileid,
                pos: 0,
                written_bytes: 0,
                buffered: Seq::empty(),
                closed: false,
            }),
            b.handle().file() == file,
            b.handle().spec_path() == path@,
            b.handle().cache().entries() == Seq::<(u64, Seq<u8>)>::empty(),
            b.handle().cache().capacity() == READER_CACHE_SIZE,
    {
        let ctx = Context::new(path, keydir);
        let reader = Reader::new(LogDir::new(READER_CACHE_SIZE));
        let writer = Writer::new(LogWriter::new(file, 0), stats, active_fileid, 0);
        Bitcask { handle: Handle::new(ctx, writer, reader) }
    }

    /// The handle of the store.
    pub fn get_handle(&mut self) -> (h: &mut Handle<W>)
        ensures
            *h == old(self).handle(),
            final(self).handle() == *final(h),
    {
        &mut self.handle
    }

    /// Closes the store, as dropping it does.
    pub fn close(&mut self)
        ensures
            final(self).handle()@ == store_close(old(self).handle()@),
            final(self).handle().file() == old(self).handle().file(),
            final(self).handle().cache() == old(self).handle().cache(),
            final(self).handle().spec_path() == old(self).handle().spec_path(),
    {
        self.handle.close();
    }
}

} // verus!
