//! Rebuilding the key directory and the statistics from the files of a
//! store.
//!
//! Files are replayed in ascending order of their ids. A file with a hint
//! file is replayed from the hint file, any other from its data file. The
//! caller reads the files; this module decides what to read next and what
//! each record means.

use vstd::prelude::*;

use crate::context::{KeyDir, KeyDirEntry};
use crate::entry::{decode_data, decode_hint, DataRecord, HintRecord};
use crate::error::Error;
use crate::index::{
    index_delete, index_delete_fits, index_empty, index_of, index_put, index_put_fits,
    record_delete, record_put, Index,
};
use crate::log::{LogIterator, StatsMap};

verus! {

/// How the replay of a file ends.
pub enum ReplayEnd {
    /// Every byte of the file belonged to a record.
    Complete,
    /// The bytes at some record boundary do not begin with a whole record.
    Corrupt,
    /// A counter would have left the range of `u64`.
    Overflow,
}

/// The key-directory entry for a record of `len` bytes at `pos` in `fileid`.
pub open spec fn entry_at(fileid: u64, len: u64, pos: u64, tstamp: i64) -> KeyDirEntry {
    KeyDirEntry { fileid, len, pos, tstamp }
}

/// The index after the data-file record `rec`, read from `len` bytes at
/// `pos` in `fileid`: a tombstone deletes its key, any other record points
/// its key to itself.
pub open spec fn apply_data(ix: Index, fileid: u64, len: u64, pos: u64, rec: DataRecord) -> Index {
    match rec.value {
        None => index_delete(ix, rec.key, fileid, len),
        Some(_) => index_put(ix, rec.key, entry_at(fileid, len, pos, rec.tstamp)),
    }
}

/// Whether `apply_data` keeps every counter in range.
pub open spec fn apply_data_fits(
    ix: Index,
    fileid: u64,
    len: u64,
    pos: u64,
    rec: DataRecord,
) -> bool {
    match rec.value {
        None => index_delete_fits(ix, rec.key, fileid, len),
        Some(_) => index_put_fits(ix, rec.key, fileid),
    }
}

/// The index after the hint-file record `rec` of `fileid`: its key points
/// to the place that the record names.
pub open spec fn apply_hint(ix: Index, fileid: u64, rec: HintRecord) -> Index {
    index_put(ix, rec.key, entry_at(fileid, rec.len, rec.pos, rec.tstamp))
}

/// Whether `apply_hint` keeps every counter in range.
pub open spec fn apply_hint_fits(ix: Index, fileid: u64, rec: HintRecord) -> bool {
    index_put_fits(ix, rec.key, fileid)
}

/// Replays the data file `fileid`, whose bytes are `data`, from offset
/// `pos` on: the index reached, and how the replay ended. The replay stops
/// at the first record that cannot be decoded or counted.
pub open spec fn replay_data(ix: Index, fileid: u64, data: Seq<u8>, pos: int) -> (Index, ReplayEnd)
    decreases data.len() - pos,
{
    if pos < 0 || pos >= data.len() {
        (ix, ReplayEnd::Complete)
    } else {
        match decode_data(data.skip(pos)) {
            None => (ix, ReplayEnd::Corrupt),
            Some((rec, n)) => if !apply_data_fits(ix, fileid, n as u64, pos as u64, rec) {
                (ix, ReplayEnd::Overflow)
            } else {
                replay_data(apply_data(ix, fileid, n as u64, pos as u64, rec), fileid, data, pos + n)
            },
        }
    }
}

/// Replays the hint file of `fileid`, whose bytes are `hint`, from offset
/// `pos` on: the index reached, and how the replay ended.
pub open spec fn replay_hint(ix: Index, fileid: u64, hint: Seq<u8>, pos: int) -> (Index, ReplayEnd)
    decreases hint.len() - pos,
{
    if pos < 0 || pos >= hint.len() {
        (ix, ReplayEnd::Complete)
    } else {
        match decode_hint(hint.skip(pos)) {
            None => (ix, ReplayEnd::Corrupt),
            Some((rec, n)) => if !apply_hint_fits(ix, fileid, rec) {
                (ix, ReplayEnd::Overflow)
            } else {
                replay_hint(apply_hint(ix, fileid, rec), fileid, hint, pos + n)
            },
        }
    }
}

/// Whether `r` reports the end `end` of a replay.
pub open spec fn reports(r: Result<(), Error>, end: ReplayEnd) -> bool {
    match r {
        Ok(()) => end is Complete,
        Err(Error::Serialization(_)) => end is Corrupt,
        Err(Error::Overflow) => end is Overflow,
        Err(_) => false,
    }
}

/// Replays the data file `fileid`, whose bytes are `data`, into `keydir`
/// and `stats`. Each record with a value points its key to itself and
/// counts as live in `fileid`; each tombstone counts as dead in `fileid` and
/// deletes its key; the record that a key pointed to before becomes dead in
/// its own file.
pub fn populate_keydir_with_datafile(
    fileid: u64,
    data: Vec<u8>,
    keydir: &mut KeyDir,
    stats: &mut StatsMap,
) -> (r: Result<(), Error>)
    ensures
        index_of(*final(keydir), *final(stats)) == replay_data(
            index_of(*old(keydir), *old(stats)),
            fileid,
            data@,
            0,
        ).0,
        reports(r, replay_data(index_of(*old(keydir), *old(stats)), fileid, data@, 0).1),
{
    let ghost start = index_of(*keydir, *stats);
    let mut datafile_iter = LogIterator::new(data);
    loop
        invariant
            start == index_of(*old(keydir), *old(stats)),
            datafile_iter.wf(),
            datafile_iter.data() == data@,
            replay_data(start, fileid, data@, 0) == replay_data(
                index_of(*keydir, *stats),
                fileid,
                data@,
                datafile_iter.spec_pos() as int,
            ),
        decreases data@.len() - datafile_iter.spec_pos(),
    {
        let (datafile_index, datafile_entry) = match datafile_iter.next_data() {
            Ok(Some(item)) => item,
            Ok(None) => {
                return Ok(());
            },
            Err(e) => {
                return Err(e);
            },
        };
        let recorded = match datafile_entry.value {
            None => record_delete(
                keydir,
                stats,
                &datafile_entry.key,
                fileid,
                datafile_index.len,
            ).is_some(),
            Some(_) => {
                let keydir_entry = KeyDirEntry {
                    fileid,
                    len: datafile_index.len,
                    pos: datafile_index.pos,
                    tstamp: datafile_entry.tstamp,
                };
                record_put(keydir, stats, datafile_entry.key, keydir_entry)
            },
        };
        if !recorded {
            return Err(Error::Overflow);
        }
    }
}

/// Replays the hint file of `fileid`, whose bytes are `hint`, into `keydir`
/// and `stats`. Each record points its key to the place it names and counts
/// as live in `fileid`; the record that the key pointed to before becomes
/// dead in its own file.
pub fn populate_keydir_with_hintfile(
    fileid: u64,
    hint: Vec<u8>,
    keydir: &mut KeyDir,
    stats: &mut StatsMap,
) -> (r: Result<(), Error>)
    ensures
        index_of(*final(keydir), *final(stats)) == replay_hint(
            index_of(*old(keydir), *old(stats)),
            fileid,
            hint@,
            0,
        ).0,
        reports(r, replay_hint(index_of(*old(keydir), *old(stats)), fileid, hint@, 0).1),
{
    let ghost start = index_of(*keydir, *stats);
    let mut hintfile_iter = LogIterator::new(hint);
    loop
        invariant
            start == index_of(*old(keydir), *old(stats)),
            hintfile_iter.wf(),
            hintfile_iter.data() == hint@,
            replay_hint(start, fileid, hint@, 0) == replay_hint(
                index_of(*keydir, *stats),
                fileid,
                hint@,
                hintfile_iter.spec_pos() as int,
            ),
        decreases hint@.len() - hintfile_iter.spec_pos(),
    {
        let entry = match hintfile_iter.next_hint() {
            Ok(Some((_, entry))) => entry,
            Ok(None) => {
                return Ok(());
            },
            Err(e) => {
                return Err(e);
            },
        };
        let keydir_entry = KeyDirEntry {
            fileid,
            len: entry.len,
            pos: entry.pos,
            tstamp: entry.tstamp,
        };
        if !record_put(keydir, stats, entry.key, keydir_entry) {
            return Err(Error::Overflow);
        }
    }
}

/// What the caller found when it tried to read the hint file of a data
/// file.
#[derive(Debug)]
pub enum HintProbe {
    /// The hint file exists and holds these bytes.
    Found(Vec<u8>),
    /// There is no hint file.
    NotFound,
    /// The hint file could not be read.
    Failed(std::io::Error),
}

/// The largest of the file ids seen so far and `fileid`.
pub open spec fn max_fileid(seen: Option<u64>, fileid: u64) -> Option<u64> {
    match seen {
        Some(id) if id >= fileid => Some(id),
        _ => Some(fileid),
    }
}

/// The state of a recovery: the key directory and the statistics rebuilt so
/// far, and the largest file id seen.
pub struct Recovery {
    keydir: KeyDir,
    stats: StatsMap,
    max_seen: Option<u64>,
}

impl Recovery {
    /// The index rebuilt so far.
    pub closed spec fn index(&self) -> Index {
        index_of(self.keydir, self.stats)
    }

    /// The largest file id seen so far.
    pub closed spec fn max_seen(&self) -> Option<u64> {
        self.max_seen
    }

    /// The recovery of a store before any file was replayed.
    pub fn new() -> (r: Self)
        ensures
            r.index() == index_empty(),
            r.max_seen() == None::<u64>,
    {
        Recovery { keydir: KeyDir::new(), stats: StatsMap::new(), max_seen: None }
    }

    /// Takes note of the data file `fileid` and of what the caller found of
    /// its hint file. A hint file that was found is replayed, and the result
    /// is `false`. Without a hint file nothing is replayed and the result is
    /// `true`: the caller has to read the data file and hand it to `replay`.
    /// A hint file that could not be read ends the recovery with that error.
    pub fn probe(&mut self, fileid: u64, hint: HintProbe) -> (r: Result<bool, Error>)
        ensures
            final(self).max_seen() == max_fileid(old(self).max_seen(), fileid),
            match hint {
                HintProbe::Found(bytes) => {
                    &&& final(self).index() == replay_hint(old(self).index(), fileid, bytes@, 0).0
                    &&& match r {
                        Ok(read_data) => !read_data && replay_hint(
                            old(self).index(),
                            fileid,
                            bytes@,
                            0,
                        ).1 is Complete,
                        Err(Error::Serialization(_)) => replay_hint(
                            old(self).index(),
                            fileid,
                            bytes@,
                            0,
                        ).1 is Corrupt,
                        Err(Error::Overflow) => replay_hint(
                            old(self).index(),
                            fileid,
                            bytes@,
                            0,
                        ).1 is Overflow,
                        Err(_) => false,
                    }
                },
                HintProbe::NotFound => r == Ok::<bool, Error>(true) && final(self).index() == old(self).index(),
                HintProbe::Failed(e) => r == Err::<bool, Error>(Error::Io(e)) && final(self).index() == old(self).index(),
            },
    {
        match self.max_seen {
            Some(id) if id >= fileid => {},
            _ => {
                self.max_seen = Some(fileid);
            },
        }
        match hint {
            HintProbe::Found(bytes) => {
                match populate_keydir_with_hintfile(
                    fileid,
                    bytes,
                    &mut self.keydir,
                    &mut self.stats,
                ) {
                    Ok(()) => Ok(false),
                    Err(e) => Err(e),
                }
            },
            HintProbe::NotFound => Ok(true),
            HintProbe::Failed(e) => Err(Error::Io(e)),
        }
    }

    /// Replays the data file `fileid`, whose bytes are `data`.
    pub fn replay(&mut self, fileid: u64, data: Vec<u8>) -> (r: Result<(), Error>)
        ensures
            final(self).max_seen() == old(self).max_seen(),
            final(self).index() == replay_data(old(self).index(), fileid, data@, 0).0,
            reports(r, replay_data(old(self).index(), fileid, data@, 0).1),
    {
        populate_keydir_with_datafile(fileid, data, &mut self.keydir, &mut self.stats)
    }

    /// Ends the recovery: the key directory, the statistics, and the id of
    /// the data file to write next, which is one more than the largest id
    /// seen, or 0 for an empty store. Fails with `Error::Overflow` exactly
    /// when the largest id seen is the largest `u64`.
    pub fn finish(self) -> (r: Result<(KeyDir, StatsMap, u64), Error>)
        ensures
            match r {
                Ok((keydir, stats, active_fileid)) => {
                    &&& index_of(keydir, stats) == self.index()
                    &&& active_fileid == match self.max_seen() {
                        Some(id) => id + 1,
                        None => 0,
                    }
                },
                Err(Error::Overflow) => self.max_seen() == Some(u64::MAX),
                Err(_) => false,
            },
    {
        let active_fileid = match self.max_seen {
            Some(id) => {
                if id == u64::MAX {
                    return Err(Error::Overflow);
                }
                id + 1
            },
            None => 0,
        };
        Ok((self.keydir, self.stats, active_fileid))
    }
}

/// A data file as recovery takes it: its id, what was found of its hint
/// file, and the bytes of the data file, which are read only where there is
/// no hint file.
#[derive(Debug)]
pub struct LogFile {
    pub fileid: u64,
    pub hint: HintProbe,
    pub data: Vec<u8>,
}

/// How a recovery ends.
pub enum Rebuilt {
    /// Every file was replayed to its end.
    Done,
    /// The replay of a file stopped at a record that could not be decoded
    /// or counted.
    Stopped(ReplayEnd),
    /// A hint file could not be read.
    Failed(std::io::Error),
}

/// The index after the replay of the file `file`, from its hint file where
/// it has one and from its data file else, and how that ended.
pub open spec fn replay_file(ix: Index, file: LogFile) -> (Index, Rebuilt) {
    match file.hint {
        HintProbe::Found(bytes) => {
            let replayed = replay_hint(ix, file.fileid, bytes@, 0);
            (
                replayed.0,
                if replayed.1 is Complete {
                    Rebuilt::Done
                } else {
                    Rebuilt::Stopped(replayed.1)
                },
            )
        },
        HintProbe::NotFound => {
            let replayed = replay_data(ix, file.fileid, file.data@, 0);
            (
                replayed.0,
                if replayed.1 is Complete {
                    Rebuilt::Done
                } else {
                    Rebuilt::Stopped(replayed.1)
                },
            )
        },
        HintProbe::Failed(e) => (ix, Rebuilt::Failed(e)),
    }
}

/// What recovery rebuilds from the files `files`, replayed in this order
/// from an empty index: the index, the largest file id seen, and how the
/// recovery ended. Recovery stops at the first file whose replay does not
/// reach its end.
pub open spec fn rebuild(files: Seq<LogFile>) -> (Index, Option<u64>, Rebuilt)
    decreases files.len(),
{
    if files.len() == 0 {
        (index_empty(), None, Rebuilt::Done)
    } else {
        let before = rebuild(files.drop_last());
        if before.2 is Done {
            let replayed = replay_file(before.0, files.last());
            (replayed.0, max_fileid(before.1, files.last().fileid), replayed.1)
        } else {
            before
        }
    }
}

/// Recovery stops for good: files that follow the one at which it stopped
/// change nothing.
pub proof fn lemma_rebuild_stops(files: Seq<LogFile>, n: int)
    requires
        0 <= n <= files.len(),
        !(rebuild(files.take(n)).2 is Done),
    ensures
        rebuild(files) == rebuild(files.take(n)),
    decreases files.len(),
{
    if n < files.len() {
        let front = files.drop_last();
        assert(front.take(n) =~= files.take(n));
        lemma_rebuild_stops(front, n);
    } else {
        assert(files.take(n) =~= files);
    }
}

/// The id of the data file to write after a recovery that saw `seen` as
/// its largest file id.
pub open spec fn next_fileid(seen: Option<u64>) -> int {
    match seen {
        Some(id) => id + 1,
        None => 0,
    }
}

/// Rebuilds the key directory and the statistics from the files `files`,
/// replayed in this order, and finds the id of the data file to write next:
/// one more than the largest id among them, or 0 where there is none. A file
/// with a hint file is replayed from the hint file, any other from its data
/// file. Recovery fails at the first file that cannot be replayed to its
/// end: with `Error::Serialization` where a record cannot be decoded, with
/// `Error::Overflow` where a counter or the next file id would leave the
/// range of `u64`, and with `Error::Io` where a hint file could not be read.
pub fn rebuild_storage(files: Vec<LogFile>) -> (r: Result<(KeyDir, StatsMap, u64), Error>)
    ensures
        match r {
            Ok((keydir, stats, active_fileid)) => {
                &&& rebuild(files@).2 is Done
                &&& index_of(keydir, stats) == rebuild(files@).0
                &&& active_fileid == next_fileid(rebuild(files@).1)
            },
            Err(Error::Serialization(_)) => rebuild(files@).2 == Rebuilt::Stopped(
                ReplayEnd::Corrupt,
            ),
            Err(Error::Overflow) => rebuild(files@).2 == Rebuilt::Stopped(ReplayEnd::Overflow) || (
            rebuild(files@).2 is Done && rebuild(files@).1 == Some(u64::MAX)),
            Err(Error::Io(e)) => rebuild(files@).2 == Rebuilt::Failed(e),
            Err(Error::Closed) => false,
        },
{
    let mut recovery = Recovery::new();
    let ghost all = files@;
    assert(all.take(0) =~= Seq::<LogFile>::empty());
    for file in iter: files.into_iter()
        invariant
            iter.seq() == all,
            rebuild(all.take(iter.index() as int)).2 is Done,
            recovery.index() == rebuild(all.take(iter.index() as int)).0,
            recovery.max_seen() == rebuild(all.take(iter.index() as int)).1,
    {
        let ghost n = iter.index() as int;
        proof {
            assert(all.take(n + 1).drop_last() =~= all.take(n));
            assert(all.take(n + 1).last() == file);
        }
        let LogFile { fileid, hint, data } = file;
        let read_data = match recovery.probe(fileid, hint) {
            Ok(read_data) => read_data,
            Err(e) => {
                proof {
                    lemma_rebuild_stops(all, n + 1);
                }
                return Err(e);
            },
        };
        if read_data {
            match recovery.replay(fileid, data) {
                Ok(()) => {},
                Err(e) => {
                    proof {
                        lemma_rebuild_stops(all, n + 1);
                    }
                    return Err(e);
                },
            }
        }
    }
    proof {
        assert(all.take(all.len() as int) =~= all);
    }
    recovery.finish()
}

} // verus!
