//! Log-file bookkeeping: record positions and per-file liveness statistics.

use std::collections::HashMap;
use vstd::prelude::*;
use vstd::slice::{slice_subrange, slice_to_vec};

use crate::bufio::{BufReaderWithPos, BufWriterWithPos};
use crate::entry::{
    data_len, decode_data, decode_hint, encode_data, lemma_decode_data_len,
    lemma_decode_data_prefix, lemma_decode_hint_len, DataFileEntry, DataRecord, HintFileEntry,
};
use crate::error::Error;

verus! {

broadcast use vstd::std_specs::hash::group_hash_axioms;

/// Where a record lies in its data file: `len` bytes starting at `pos`.
#[derive(Clone, Copy, Debug, PartialEq, Eq, Structural)]
pub struct LogIndex {
    pub len: u64,
    pub pos: u64,
}

/// Liveness counters of one data file.
///
/// `live_keys` counts the records that the key directory still points to,
/// `dead_keys` the tombstones and the records that were overwritten or
/// deleted, and `dead_bytes` the bytes those dead records occupy.
#[derive(Clone, Copy, Debug, PartialEq, Eq, Structural)]
pub struct LogStatistics {
    live_keys: u64,
    dead_keys: u64,
    dead_bytes: u64,
}

/// The counters of one file as mathematical integers.
pub struct Counts {
    pub live_keys: int,
    pub dead_keys: int,
    pub dead_bytes: int,
}

impl Counts {
    /// The counters of a file with no records.
    pub open spec fn zero() -> Counts {
        Counts { live_keys: 0, dead_keys: 0, dead_bytes: 0 }
    }

    /// One more live record.
    pub open spec fn add_live(self) -> Counts {
        Counts { live_keys: self.live_keys + 1, ..self }
    }

    /// One more record of `nbytes` bytes that is dead from the start.
    pub open spec fn add_dead(self, nbytes: int) -> Counts {
        Counts { dead_keys: self.dead_keys + 1, dead_bytes: self.dead_bytes + nbytes, ..self }
    }

    /// One live record of `nbytes` bytes becomes dead.
    pub open spec fn overwrite(self, nbytes: int) -> Counts {
        Counts {
            live_keys: self.live_keys - 1,
            dead_keys: self.dead_keys + 1,
            dead_bytes: self.dead_bytes + nbytes,
        }
    }

    /// Every counter lies in the range of `u64`.
    pub open spec fn fits(self) -> bool {
        &&& 0 <= self.live_keys <= u64::MAX
        &&& 0 <= self.dead_keys <= u64::MAX
        &&& 0 <= self.dead_bytes <= u64::MAX
    }
}

impl View for LogStatistics {
    type V = Counts;

    closed spec fn view(&self) -> Counts {
        Counts {
            live_keys: self.live_keys as int,
            dead_keys: self.dead_keys as int,
            dead_bytes: self.dead_bytes as int,
        }
    }
}

impl LogStatistics {
    /// The counters of a file with no records.
    pub fn new() -> (s: Self)
        ensures
            s@ == Counts::zero(),
    {
        LogStatistics { live_keys: 0, dead_keys: 0, dead_bytes: 0 }
    }

    /// Counts one more live record.
    pub fn add_live(&mut self)
        requires
            old(self)@.add_live().fits(),
        ensures
            final(self)@ == old(self)@.add_live(),
    {
        self.live_keys += 1;
    }

    /// Counts one record of `nbytes` bytes that was dead when it was written.
    pub fn add_dead(&mut self, nbytes: u64)
        requires
            old(self)@.add_dead(nbytes as int).fits(),
        ensures
            final(self)@ == old(self)@.add_dead(nbytes as int),
    {
        self.dead_keys += 1;
        self.dead_bytes += nbytes;
    }

    /// Turns one live record of `nbytes` bytes into a dead one.
    pub fn overwrite(&mut self, nbytes: u64)
        requires
            old(self)@.overwrite(nbytes as int).fits(),
        ensures
            final(self)@ == old(self)@.overwrite(nbytes as int),
    {
        self.live_keys -= 1;
        self.dead_keys += 1;
        self.dead_bytes += nbytes;
    }

    /// Whether `add_live` can count one more record.
    pub fn can_add_live(&self) -> (ok: bool)
        ensures
            ok == self@.add_live().fits(),
    {
        self.live_keys < u64::MAX
    }

    /// Whether `add_dead` can count a record of `nbytes` bytes.
    pub fn can_add_dead(&self, nbytes: u64) -> (ok: bool)
        ensures
            ok == self@.add_dead(nbytes as int).fits(),
    {
        self.dead_keys < u64::MAX && nbytes <= u64::MAX - self.dead_bytes
    }

    /// Whether `overwrite` can move a record of `nbytes` bytes from live to dead.
    pub fn can_overwrite(&self, nbytes: u64) -> (ok: bool)
        ensures
            ok == self@.overwrite(nbytes as int).fits(),
    {
        self.live_keys > 0 && self.dead_keys < u64::MAX && nbytes <= u64::MAX - self.dead_bytes
    }

    /// The number of records that the key directory points to.
    pub fn live_keys(&self) -> (n: u64)
        ensures
            n == self@.live_keys,
    {
        self.live_keys
    }

    /// The number of tombstones and of overwritten or deleted records.
    pub fn dead_keys(&self) -> (n: u64)
        ensures
            n == self@.dead_keys,
    {
        self.dead_keys
    }

    /// The bytes that the dead records occupy.
    pub fn dead_bytes(&self) -> (n: u64)
        ensures
            n == self@.dead_bytes,
    {
        self.dead_bytes
    }

    /// The share of dead records among all records, as the pair
    /// `(dead_keys, live_keys + dead_keys)`; `(0, 1)` for a file without
    /// dead records.
    pub fn fragmentation(&self) -> (r: (u64, u128))
        ensures
            self@.dead_keys == 0 ==> r == (0u64, 1u128),
            self@.dead_keys != 0 ==> r.0 == self@.dead_keys && r.1 == self@.live_keys
                + self@.dead_keys,
    {
        let live = self.live_keys();
        let dead = self.dead_keys();
        if dead == 0 {
            (0, 1)
        } else {
            let total: u128 = dead as u128 + live as u128;
            (dead, total)
        }
    }
}

/// The counters that a table of statistics holds for `fileid`: those of an
/// empty file where it has none.
pub open spec fn counts_of(stats: Map<u64, Counts>, fileid: u64) -> Counts {
    if stats.contains_key(fileid) {
        stats[fileid]
    } else {
        Counts::zero()
    }
}

/// The table after one more live record in `fileid`.
pub open spec fn stats_add_live(stats: Map<u64, Counts>, fileid: u64) -> Map<u64, Counts> {
    stats.insert(fileid, counts_of(stats, fileid).add_live())
}

/// The table after one more record of `nbytes` bytes in `fileid` that is
/// dead from the start.
pub open spec fn stats_add_dead(stats: Map<u64, Counts>, fileid: u64, nbytes: int) -> Map<
    u64,
    Counts,
> {
    stats.insert(fileid, counts_of(stats, fileid).add_dead(nbytes))
}

/// The table after a live record of `nbytes` bytes in `fileid` became dead.
pub open spec fn stats_overwrite(stats: Map<u64, Counts>, fileid: u64, nbytes: int) -> Map<
    u64,
    Counts,
> {
    stats.insert(fileid, counts_of(stats, fileid).overwrite(nbytes))
}

/// The statistics of all data files, by file id.
pub struct StatsMap {
    map: HashMap<u64, LogStatistics>,
}

impl View for StatsMap {
    type V = Map<u64, Counts>;

    closed spec fn view(&self) -> Map<u64, Counts> {
        Map::new(|f: u64| self.map@.contains_key(f), |f: u64| self.map@[f]@)
    }
}

impl StatsMap {
    /// A table without files.
    pub fn new() -> (t: Self)
        ensures
            t@ == Map::<u64, Counts>::empty(),
    {
        let t = StatsMap { map: HashMap::new() };
        assert(t@ =~= Map::<u64, Counts>::empty());
        t
    }

    /// The statistics of `fileid`, if the table has any.
    pub fn get(&self, fileid: u64) -> (r: Option<LogStatistics>)
        ensures
            r is Some <==> self@.contains_key(fileid),
            r matches Some(s) ==> s@ == self@[fileid],
    {
        match self.map.get(&fileid) {
            Some(s) => Some(*s),
            None => None,
        }
    }

    /// The statistics of `fileid`: those of an empty file where the table
    /// has none.
    pub fn counts(&self, fileid: u64) -> (s: LogStatistics)
        ensures
            s@ == counts_of(self@, fileid),
    {
        match self.map.get(&fileid) {
            Some(s) => *s,
            None => LogStatistics::new(),
        }
    }

    /// Stores `s` as the statistics of `fileid`.
    fn put(&mut self, fileid: u64, s: LogStatistics)
        ensures
            final(self)@ == old(self)@.insert(fileid, s@),
    {
        self.map.insert(fileid, s);
        assert(self@ =~= old(self)@.insert(fileid, s@));
    }

    /// Counts one more live record in `fileid`, unless the counter is full.
    pub fn add_live(&mut self, fileid: u64) -> (ok: bool)
        ensures
            ok == counts_of(old(self)@, fileid).add_live().fits(),
            ok ==> final(self)@ == stats_add_live(old(self)@, fileid),
            !ok ==> final(self)@ == old(self)@,
    {
        let mut s = self.counts(fileid);
        if s.can_add_live() {
            s.add_live();
            self.put(fileid, s);
            true
        } else {
            false
        }
    }

    /// Counts one more record of `nbytes` bytes in `fileid` that is dead
    /// from the start, unless a counter would overflow.
    pub fn add_dead(&mut self, fileid: u64, nbytes: u64) -> (ok: bool)
        ensures
            ok == counts_of(old(self)@, fileid).add_dead(nbytes as int).fits(),
            ok ==> final(self)@ == stats_add_dead(old(self)@, fileid, nbytes as int),
            !ok ==> final(self)@ == old(self)@,
    {
        let mut s = self.counts(fileid);
        if s.can_add_dead(nbytes) {
            s.add_dead(nbytes);
            self.put(fileid, s);
            true
        } else {
            false
        }
    }

    /// Turns one live record of `nbytes` bytes in `fileid` into a dead one,
    /// unless the file has no live record or a counter would overflow.
    pub fn overwrite(&mut self, fileid: u64, nbytes: u64) -> (ok: bool)
        ensures
            ok == counts_of(old(self)@, fileid).overwrite(nbytes as int).fits(),
            ok ==> final(self)@ == stats_overwrite(old(self)@, fileid, nbytes as int),
            !ok ==> final(self)@ == old(self)@,
    {
        let mut s = self.counts(fileid);
        if s.can_overwrite(nbytes) {
            s.overwrite(nbytes);
            self.put(fileid, s);
            true
        } else {
            false
        }
    }
}

/// Appends records to the active data file. The file is held as `W` and is
/// never called: the encoded records wait in a buffer until `flush` hands
/// them to the caller, who appends them to the file.
#[derive(Debug)]
pub struct LogWriter<W>(BufWriterWithPos<W>);

impl<W> LogWriter<W> {
    /// The offset at which the next record will begin.
    pub closed spec fn spec_pos(&self) -> u64 {
        self.0.spec_pos()
    }

    /// The encoded records that have not been handed out yet.
    pub closed spec fn buffered(&self) -> Seq<u8> {
        self.0.buffered()
    }

    /// The file.
    pub closed spec fn inner(&self) -> W {
        self.0.inner()
    }

    /// A writer for `file`, whose current length is `end`.
    pub fn new(file: W, end: u64) -> (w: Self)
        ensures
            w.spec_pos() == end,
            w.buffered() == Seq::<u8>::empty(),
            w.inner() == file,
    {
        LogWriter(BufWriterWithPos::new(file, end))
    }

    /// The offset at which the next record will begin.
    pub fn pos(&self) -> (p: u64)
        ensures
            p == self.spec_pos(),
    {
        self.0.pos()
    }

    /// The file, for a request to make its contents durable.
    pub fn get_ref(&self) -> (w: &W)
        ensures
            *w == self.inner(),
    {
        self.0.get_ref()
    }

    /// Encodes `entry` behind the records already accepted and says where it
    /// lies. Fails with `Error::Overflow`, and changes nothing, exactly when
    /// the record would end past the largest offset.
    pub fn append(&mut self, entry: &DataFileEntry) -> (r: Result<LogIndex, Error>)
        ensures
            final(self).inner() == old(self).inner(),
            match r {
                Ok(index) => {
                    &&& index.pos == old(self).spec_pos()
                    &&& index.len == data_len(entry@)
                    &&& final(self).spec_pos() == old(self).spec_pos() + data_len(entry@)
                    &&& final(self).buffered() == old(self).buffered() + encode_data(entry@)
                },
                Err(Error::Overflow) => {
                    &&& old(self).spec_pos() + data_len(entry@) > u64::MAX
                    &&& final(self).spec_pos() == old(self).spec_pos()
                    &&& final(self).buffered() == old(self).buffered()
                },
                Err(_) => false,
            },
    {
        let pos = self.0.pos();
        let bytes = match entry.encode() {
            Ok(bytes) => bytes,
            Err(e) => {
                return Err(e);
            },
        };
        proof {
            assert(entry.key@.len() == entry.key.len());
            assert(entry.value matches Some(v) ==> v@.len() == v.len());
            lemma_decode_data_prefix(entry@, Seq::empty());
            assert(encode_data(entry@) + Seq::<u8>::empty() =~= encode_data(entry@));
        }
        let n = bytes.len();
        if n as u64 > u64::MAX - pos {
            return Err(Error::Overflow);
        }
        self.0.write(bytes.as_slice());
        Ok(LogIndex { len: n as u64, pos })
    }

    /// Empties the buffer and returns what it held: the bytes that the
    /// caller has to append to the file.
    pub fn flush(&mut self) -> (out: Vec<u8>)
        ensures
            out@ == old(self).buffered(),
            final(self).buffered() == Seq::<u8>::empty(),
            final(self).spec_pos() == old(self).spec_pos(),
            final(self).inner() == old(self).inner(),
    {
        self.0.flush()
    }
}

/// The bytes of `file` in the range of `len` bytes at `pos`.
pub open spec fn record_range(file: Seq<u8>, len: u64, pos: u64) -> Seq<u8> {
    file.subrange(pos as int, pos + len)
}

/// The data-file record that the range of `len` bytes at `pos` of `file`
/// begins with, if the range lies in the file and begins with one.
pub open spec fn record_at(file: Seq<u8>, len: u64, pos: u64) -> Option<DataRecord> {
    if pos + len <= file.len() {
        match decode_data(record_range(file, len, pos)) {
            Some((rec, _)) => Some(rec),
            None => None,
        }
    } else {
        None
    }
}

/// Reads records of one data file at given positions. It holds the bytes of
/// the file as they were when the file was last mapped.
#[derive(Debug)]
pub struct LogReader {
    mmap: Vec<u8>,
}

impl View for LogReader {
    type V = Seq<u8>;

    closed spec fn view(&self) -> Seq<u8> {
        self.mmap@
    }
}

impl LogReader {
    /// A reader over the bytes `mapped` of a file.
    pub fn new(mapped: Vec<u8>) -> (r: Self)
        ensures
            r@ == mapped@,
    {
        LogReader { mmap: mapped }
    }

    /// Whether the range of `len` bytes at `pos` lies inside the mapping. A
    /// range that does not calls for the file to be mapped again.
    pub fn covers(&self, len: u64, pos: u64) -> (b: bool)
        ensures
            b == (pos + len <= self@.len()),
    {
        let n = self.mmap.len() as u64;
        pos <= n && len <= n - pos
    }

    /// Replaces the mapping by `mapped`, the bytes of the file as it is now.
    pub fn remap(&mut self, mapped: Vec<u8>)
        ensures
            final(self)@ == mapped@,
    {
        self.mmap = mapped;
    }

    /// Decodes the record in the range of `len` bytes at `pos`.
    pub fn at(&self, len: u64, pos: u64) -> (r: Result<DataFileEntry, Error>)
        requires
            pos + len <= self@.len(),
        ensures
            match r {
                Ok(entry) => record_at(self@, len, pos) == Some(entry@),
                Err(Error::Serialization(_)) => record_at(self@, len, pos) is None,
                Err(_) => false,
            },
    {
        let total = self.mmap.len();
        let start = pos as usize;
        let end = start + len as usize;
        match DataFileEntry::decode(slice_subrange(self.mmap.as_slice(), start, end)) {
            Ok((entry, _)) => Ok(entry),
            Err(e) => Err(e),
        }
    }

    /// Appends the range of `len` bytes at `pos` to `dst` as it is and
    /// returns the number of bytes copied.
    pub fn copy_raw(&self, len: u64, pos: u64, dst: &mut Vec<u8>) -> (n: u64)
        requires
            pos + len <= self@.len(),
        ensures
            n == len,
            final(dst)@ == old(dst)@ + record_range(self@, len, pos),
    {
        let total = self.mmap.len();
        let start = pos as usize;
        let end = start + len as usize;
        let mut range = slice_to_vec(slice_subrange(self.mmap.as_slice(), start, end));
        dst.append(&mut range);
        len
    }
}

/// Reads the records of a data file or of a hint file one after the other,
/// each with its position.
#[derive(Debug)]
pub struct LogIterator {
    reader: BufReaderWithPos,
}

impl LogIterator {
    /// The offset of the next record.
    pub closed spec fn spec_pos(&self) -> u64 {
        self.reader.spec_pos()
    }

    /// The bytes of the file.
    pub closed spec fn data(&self) -> Seq<u8> {
        self.reader.data()
    }

    /// The offset lies inside the file or at its end.
    pub open spec fn wf(&self) -> bool {
        self.spec_pos() <= self.data().len()
    }

    /// The bytes from the offset to the end of the file.
    pub open spec fn remaining(&self) -> Seq<u8> {
        self.data().skip(self.spec_pos() as int)
    }

    /// An iterator at the start of a file that holds `data`.
    pub fn new(data: Vec<u8>) -> (it: Self)
        ensures
            it.wf(),
            it.spec_pos() == 0,
            it.data() == data@,
    {
        LogIterator { reader: BufReaderWithPos::new(data) }
    }

    /// The next data-file record with its position, or `None` at the end of
    /// the file. Fails, and stays where it is, when the bytes at the offset
    /// do not begin with a whole record.
    pub fn next_data(&mut self) -> (r: Result<Option<(LogIndex, DataFileEntry)>, Error>)
        requires
            old(self).wf(),
        ensures
            final(self).wf(),
            final(self).data() == old(self).data(),
            match r {
                Ok(None) => old(self).remaining().len() == 0 && final(self).spec_pos() == old(self).spec_pos(),
                Ok(Some((index, entry))) => {
                    &&& old(self).remaining().len() > 0
                    &&& decode_data(old(self).remaining()) == Some((entry@, index.len as int))
                    &&& index.pos == old(self).spec_pos()
                    &&& final(self).spec_pos() == old(self).spec_pos() + index.len
                },
                Err(Error::Serialization(_)) => {
                    &&& old(self).remaining().len() > 0
                    &&& decode_data(old(self).remaining()) is None
                    &&& final(self).spec_pos() == old(self).spec_pos()
                },
                Err(_) => false,
            },
    {
        let pos = self.reader.pos();
        let total = self.reader.len();
        let rest = self.reader.peek();
        if rest.len() == 0 {
            return Ok(None);
        }
        match DataFileEntry::decode(rest) {
            Ok((entry, n)) => {
                proof {
                    lemma_decode_data_len(self.remaining());
                }
                self.reader.seek(pos + n as u64);
                Ok(Some((LogIndex { len: n as u64, pos }, entry)))
            },
            Err(e) => Err(e),
        }
    }

    /// The next hint-file record with its position in the hint file, or
    /// `None` at the end of the file. Fails, and stays where it is, when the
    /// bytes at the offset do not begin with a whole record.
    pub fn next_hint(&mut self) -> (r: Result<Option<(LogIndex, HintFileEntry)>, Error>)
        requires
            old(self).wf(),
        ensures
            final(self).wf(),
            final(self).data() == old(self).data(),
            match r {
                Ok(None) => old(self).remaining().len() == 0 && final(self).spec_pos() == old(self).spec_pos(),
                Ok(Some((index, entry))) => {
                    &&& old(self).remaining().len() > 0
                    &&& decode_hint(old(self).remaining()) == Some((entry@, index.len as int))
                    &&& index.pos == old(self).spec_pos()
                    &&& final(self).spec_pos() == old(self).spec_pos() + index.len
                },
                Err(Error::Serialization(_)) => {
                    &&& old(self).remaining().len() > 0
                    &&& decode_hint(old(self).remaining()) is None
                    &&& final(self).spec_pos() == old(self).spec_pos()
                },
                Err(_) => false,
            },
    {
        let pos = self.reader.pos();
        let total = self.reader.len();
        let rest = self.reader.peek();
        if rest.len() == 0 {
            return Ok(None);
        }
        match HintFileEntry::decode(rest) {
            Ok((entry, n)) => {
                proof {
                    lemma_decode_hint_len(self.remaining());
                }
                self.reader.seek(pos + n as u64);
                Ok(Some((LogIndex { len: n as u64, pos }, entry)))
            },
            Err(e) => Err(e),
        }
    }
}

} // verus!
