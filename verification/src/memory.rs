//! A store whose data files are byte vectors in memory. It takes every step
//! that a store on a file system takes between the handle and its files:
//! it appends what the handle encodes, starts a new file where one is due,
//! and maps a file for a lookup that asks for it. Its contracts say what a
//! store does, from its operations alone.

use std::collections::HashMap;
use vstd::prelude::*;
use vstd::slice::slice_to_vec;

use crate::context::{Context, KeyDir};
use crate::entry::option_view;
use crate::error::Error;
use crate::handle::{Handle, READER_CACHE_SIZE};
use crate::entry::data_len;
use crate::laws::{
    counted, law_delete_keeps_counted, law_empty_index_counted, law_put_keeps_counted,
    disk_append, file_of, images_of, law_apply_keeps_wf, law_get_runs, law_growth_keeps_cache,
    law_load_then_get_runs, law_lookup_reads_last_value, law_new_store_runs,
    law_rebuild_restores, law_reopen_runs, law_rotation_runs, op_fits, reflects, runs, value_of,
    world_apply, world_new, world_reopen, world_rotate, world_step, world_wf, Op, World,
};
use crate::log::{LogWriter, StatsMap};
use crate::logdir::LogDir;
use crate::reader::{Fetch, Reader};
use crate::recovery::{rebuild_storage, HintProbe, LogFile};
use crate::store::{next_entry, put_record, store_close, store_flush, tombstone};
use crate::writer::Writer;

verus! {

broadcast use vstd::std_specs::hash::group_hash_axioms;

/// A store with its data files in memory. Every value that `new` or
/// `reopen` returns is well formed (`wf`), and every operation keeps it so.
pub struct MemoryStore {
    handle: Handle<()>,
    files: HashMap<u64, Vec<u8>>,
    ids: Vec<u64>,
    world: Ghost<World>,
}

impl MemoryStore {
    /// The store with its files as a mathematical value: what the handle
    /// holds, the bytes of each data file, and the value that each live key
    /// was given last.
    pub closed spec fn world(&self) -> World {
        self.world@
    }

    /// The value that each live key was given last.
    pub open spec fn contents(&self) -> Map<Seq<u8>, Seq<u8>> {
        self.world().contents
    }

    /// Whether the store has been closed.
    pub open spec fn spec_is_closed(&self) -> bool {
        self.world().store.closed
    }

    /// The handle runs the store of the world, and the files in memory are
    /// the files of the world.
    pub closed spec fn wf(&self) -> bool {
        &&& runs(self.handle, self.world@)
        &&& counted(self.world@.store.index)
        &&& self.ids@ == self.world@.ids
        &&& forall|f: u64| self.files@.contains_key(f) <==> self.world@.disk.contains_key(f)
        &&& forall|f: u64|
            self.files@.contains_key(f) ==> (#[trigger] self.files@[f])@ == self.world@.disk[f]
    }

    /// What holds of every store: its world is well formed, so that every
    /// live key points inside a data file to a record of that key with the
    /// value it was given last, and recovery rebuilds the index from the
    /// files; and for each data file the live records counted are the keys
    /// that point into it.
    pub proof fn lemma_wf(&self)
        requires
            self.wf(),
        ensures
            world_wf(self.world()),
            counted(self.world().store.index),
    {
    }

    /// The statistics of all data files.
    pub fn get_stats(&self) -> (stats: &StatsMap)
        requires
            self.wf(),
        ensures
            stats@ == self.world().store.index.stats,
    {
        self.handle.get_stats()
    }

    /// The number of data files.
    pub fn file_count(&self) -> (n: usize)
        requires
            self.wf(),
        ensures
            n == self.world().ids.len(),
    {
        self.ids.len()
    }

    /// An empty store with its first, empty data file.
    pub fn new() -> (s: Self)
        ensures
            s.wf(),
            s.world() == world_new(),
    {
        let ctx = Context::new(String::new(), KeyDir::new());
        let writer = Writer::new(LogWriter::new((), 0), StatsMap::new(), 0, 0);
        let reader = Reader::new(LogDir::new(READER_CACHE_SIZE));
        let handle = Handle::new(ctx, writer, reader);
        let mut files: HashMap<u64, Vec<u8>> = HashMap::new();
        files.insert(0, Vec::new());
        let mut ids: Vec<u64> = Vec::new();
        ids.push(0);
        proof {
            law_new_store_runs(handle);
            law_empty_index_counted();
            assert(ids@ =~= world_new().ids);
        }
        MemoryStore { handle, files, ids, world: Ghost(world_new()) }
    }

    /// Appends `bytes` to the data file `fileid`.
    fn append(&mut self, fileid: u64, bytes: Vec<u8>)
        ensures
            final(self).handle == old(self).handle,
            final(self).world@ == old(self).world@,
            final(self).ids == old(self).ids,
            forall|f: u64|
                final(self).files@.contains_key(f) <==> (old(self).files@.contains_key(f) || f
                    == fileid),
            forall|f: u64|
                f != fileid && old(self).files@.contains_key(f) ==> (#[trigger] final(self).files@[f])
                    == old(self).files@[f],
            final(self).files@[fileid]@ == (if old(self).files@.contains_key(fileid) {
                old(self).files@[fileid]@
            } else {
                Seq::empty()
            }) + bytes@,
    {
        let mut bytes = bytes;
        let mut file = match self.files.remove(&fileid) {
            Some(file) => file,
            None => Vec::new(),
        };
        file.append(&mut bytes);
        self.files.insert(fileid, file);
    }

    /// Hands the bytes that the handle has encoded to the active file and
    /// starts the next data file where the active one is due, after an
    /// operation that took the world to `applied`.
    fn settle(&mut self, Ghost(applied): Ghost<World>)
        requires
            world_wf(applied),
            counted(applied.store.index),
            store_flush(old(self).handle@) == applied.store,
            reflects(old(self).handle.cache().entries(), applied.disk),
            applied.disk == disk_append(
                old(self).world@.disk,
                applied.store.active_fileid,
                old(self).handle@.buffered,
            ),
            old(self).world@.disk.contains_key(applied.store.active_fileid),
            old(self).ids@ == applied.ids,
            forall|f: u64| old(self).files@.contains_key(f) <==> old(self).world@.disk.contains_key(f),
            forall|f: u64|
                old(self).files@.contains_key(f) ==> (#[trigger] old(self).files@[f])@ == old(self).world@.disk[f],
        ensures
            final(self).wf(),
            final(self).world@ == world_rotate(applied),
    {
        let ghost was = self.handle;
        let bytes = self.handle.flush();
        let active = self.handle.active_fileid();
        self.append(active, bytes);
        let ghost flushed = self.handle;
        proof {
            assert(runs(flushed, applied));
            assert forall|f: u64| self.files@.contains_key(f) implies (#[trigger] self.files@[f])@
                == applied.disk[f] by {
                if f != active {
                    assert(self.files@[f] == old(self).files@[f]);
                }
            }
        }
        match self.handle.rotation_due() {
            Ok(Some(next)) => {
                self.files.insert(next, Vec::new());
                self.ids.push(next);
                self.handle.new_active_datafile(next, ());
                proof {
                    law_rotation_runs(flushed, self.handle, applied);
                    let rotated = world_rotate(applied);
                    assert forall|f: u64| self.files@.contains_key(f) implies (
                    #[trigger] self.files@[f])@ == rotated.disk[f] by {}
                }
            },
            _ => {},
        }
        self.world = Ghost(world_rotate(applied));
    }

    /// Writes `value` for `key` with the time `tstamp`, and appends the
    /// record to the active data file. On a closed store it fails with
    /// `Error::Closed`; where the store has no room for the record, with
    /// `Error::Overflow`. A failure changes nothing. After a success `key` has
    /// the value `value`, and every other key the value it had.
    pub fn set(&mut self, tstamp: i64, key: Vec<u8>, value: Vec<u8>) -> (r: Result<(), Error>)
        requires
            old(self).wf(),
        ensures
            final(self).wf(),
            match r {
                Ok(()) => {
                    &&& op_fits(old(self).world(), Op::Write { tstamp, key: key@, value: value@ })
                    &&& final(self).world() == world_step(
                        old(self).world(),
                        Op::Write { tstamp, key: key@, value: value@ },
                    )
                    &&& final(self).contents() == old(self).contents().insert(key@, value@)
                },
                Err(Error::Closed) => old(self).spec_is_closed() && final(self).world() == old(self).world(),
                Err(Error::Overflow) => {
                    &&& !op_fits(old(self).world(), Op::Write { tstamp, key: key@, value: value@ })
                    &&& !old(self).spec_is_closed()
                    &&& final(self).world() == old(self).world()
                },
                Err(_) => false,
            },
    {
        let ghost w = self.world@;
        let ghost before = self.handle;
        let ghost op = Op::Write { tstamp, key: key@, value: value@ };
        let ghost (key_view, value_view) = (key@, value@);
        match self.handle.put(tstamp, key, value) {
            Ok(()) => {},
            Err(e) => {
                return Err(e);
            },
        }
        proof {
            law_apply_keeps_wf(w, op);
            law_put_keeps_counted(
                w.store.index,
                key_view,
                next_entry(w.store, put_record(tstamp, key_view, value_view)),
            );
            law_growth_keeps_cache(
                before.cache().entries(),
                w.disk,
                w.store.active_fileid,
                self.handle@.buffered,
            );
            assert(w.ids[w.ids.len() - 1] == w.store.active_fileid);
            assert(w.ids.contains(w.store.active_fileid));
        }
        self.settle(Ghost(world_apply(w, op)));
        Ok(())
    }

    /// Deletes `key` with the time `tstamp`, appends the tombstone to the
    /// active data file, and returns whether `key` had a value. On a closed
    /// store it fails with `Error::Closed`; where the store has no room for
    /// the tombstone, with `Error::Overflow`. A failure changes nothing. After
    /// a success `key` has no value, and every other key the value it had.
    pub fn del(&mut self, tstamp: i64, key: Vec<u8>) -> (r: Result<bool, Error>)
        requires
            old(self).wf(),
        ensures
            final(self).wf(),
            match r {
                Ok(was_live) => {
                    &&& op_fits(old(self).world(), Op::Delete { tstamp, key: key@ })
                    &&& was_live == old(self).contents().contains_key(key@)
                    &&& final(self).world() == world_step(
                        old(self).world(),
                        Op::Delete { tstamp, key: key@ },
                    )
                    &&& final(self).contents() == old(self).contents().remove(key@)
                },
                Err(Error::Closed) => old(self).spec_is_closed() && final(self).world() == old(self).world(),
                Err(Error::Overflow) => {
                    &&& !op_fits(old(self).world(), Op::Delete { tstamp, key: key@ })
                    &&& !old(self).spec_is_closed()
                    &&& final(self).world() == old(self).world()
                },
                Err(_) => false,
            },
    {
        let ghost w = self.world@;
        let ghost before = self.handle;
        let ghost op = Op::Delete { tstamp, key: key@ };
        let ghost key_view = key@;
        let was_live = match self.handle.del_at(tstamp, key) {
            Ok(was_live) => was_live,
            Err(e) => {
                return Err(e);
            },
        };
        proof {
            law_apply_keeps_wf(w, op);
            law_delete_keeps_counted(
                w.store.index,
                key_view,
                w.store.active_fileid,
                data_len(tombstone(tstamp, key_view)) as u64,
            );
            law_growth_keeps_cache(
                before.cache().entries(),
                w.disk,
                w.store.active_fileid,
                self.handle@.buffered,
            );
            assert(w.ids[w.ids.len() - 1] == w.store.active_fileid);
            assert(w.ids.contains(w.store.active_fileid));
        }
        self.settle(Ghost(world_apply(w, op)));
        Ok(was_live)
    }

    /// The value of `key`: the one it was given last, or none for a key
    /// that was never set or was deleted since. A data file that the lookup
    /// needs is mapped once. It fails with `Error::Closed` exactly on a closed
    /// store, and in no other way.
    pub fn get(&mut self, key: &Vec<u8>) -> (r: Result<Option<Vec<u8>>, Error>)
        requires
            old(self).wf(),
        ensures
            final(self).wf(),
            final(self).world() == old(self).world(),
            match r {
                Ok(value) => !old(self).spec_is_closed() && option_view(value) == value_of(
                    old(self).contents(),
                    key@,
                ),
                Err(Error::Closed) => old(self).spec_is_closed(),
                Err(_) => false,
            },
    {
        let ghost w = self.world@;
        let ghost before = self.handle;
        let first = self.handle.get(key);
        let ghost asked = self.handle;
        proof {
            if !w.store.closed {
                law_get_runs(before, asked, w, key@, first);
                law_lookup_reads_last_value(
                    w.store.index.keydir,
                    before.cache(),
                    w.disk,
                    w.contents,
                    key@,
                    first,
                    asked.cache().entries(),
                );
            }
        }
        let fileid = match first {
            Ok(Fetch::Value(value)) => {
                return Ok(value);
            },
            Ok(Fetch::Unmapped(fileid)) => fileid,
            Err(e) => {
                return Err(e);
            },
        };
        let mapped = match self.files.get(&fileid) {
            Some(file) => slice_to_vec(file.as_slice()),
            None => Vec::new(),
        };
        self.handle.load(fileid, mapped);
        let ghost loaded = self.handle;
        let second = self.handle.get(key);
        proof {
            law_load_then_get_runs(asked, loaded, self.handle, w, key@, second);
        }
        match second {
            Ok(Fetch::Value(value)) => Ok(value),
            Ok(Fetch::Unmapped(_)) => Err(Error::Closed),
            Err(e) => Err(e),
        }
    }

    /// Closes the store. Every later operation fails with `Error::Closed`.
    pub fn close(&mut self)
        requires
            old(self).wf(),
        ensures
            final(self).wf(),
            final(self).spec_is_closed(),
            final(self).contents() == old(self).contents(),
    {
        self.handle.close();
        proof {
            let w = self.world@;
            let closed = World { store: store_close(w.store), ..w };
            assert(world_wf(closed));
        }
        self.world = Ghost(
            World { store: store_close(self.world@.store), ..self.world@ },
        );
    }

    /// Opens the store again from its data files alone, as after a shutdown
    /// or a crash: rebuilds the key directory and the statistics from the
    /// files in the order of their ids, and starts a new, empty data file with
    /// the next id. The store is open, whether or not it was closed, and
    /// every key has the value it had. It fails with `Error::Overflow`
    /// exactly when the active file has the largest id, and in no other way.
    pub fn reopen(self) -> (r: Result<MemoryStore, Error>)
        requires
            self.wf(),
        ensures
            match r {
                Ok(s) => {
                    &&& s.wf()
                    &&& s.world() == world_reopen(self.world())
                    &&& s.contents() == self.contents()
                    &&& !s.spec_is_closed()
                    &&& s.world().store.index == self.world().store.index
                },
                Err(Error::Overflow) => self.world().store.active_fileid == u64::MAX,
                Err(_) => false,
            },
    {
        let ghost w = self.world@;
        let mut images: Vec<LogFile> = Vec::new();
        let mut i: usize = 0;
        while i < self.ids.len()
            invariant
                self.wf(),
                w == self.world@,
                i <= self.ids.len(),
                images_of(images@, w.disk, w.ids.take(i as int)),
            decreases self.ids.len() - i,
        {
            let fileid = self.ids[i];
            proof {
                assert(w.ids.contains(w.ids[i as int]));
            }
            let data = match self.files.get(&fileid) {
                Some(file) => slice_to_vec(file.as_slice()),
                None => Vec::new(),
            };
            let ghost before = images@;
            images.push(LogFile { fileid, hint: HintProbe::NotFound, data });
            proof {
                let ids = w.ids.take(i + 1);
                assert forall|j: int| 0 <= j < images@.len() implies {
                    &&& (#[trigger] images@[j]).fileid == ids[j]
                    &&& images@[j].hint is NotFound
                    &&& images@[j].data@ == file_of(w.disk, ids[j])
                } by {
                    if j < i {
                        assert(images@[j] == before[j]);
                        assert(w.ids.take(i as int)[j] == ids[j]);
                    }
                }
            }
            i += 1;
        }
        proof {
            assert(w.ids.take(i as int) =~= w.ids);
            law_rebuild_restores(w, images@);
        }
        let (keydir, stats, active_fileid) = match rebuild_storage(images) {
            Ok(rebuilt) => rebuilt,
            Err(e) => {
                return Err(e);
            },
        };
        let ctx = Context::new(String::new(), keydir);
        let writer = Writer::new(LogWriter::new((), 0), stats, active_fileid, 0);
        let reader = Reader::new(LogDir::new(READER_CACHE_SIZE));
        let handle = Handle::new(ctx, writer, reader);
        let mut files = self.files;
        let mut ids = self.ids;
        files.insert(active_fileid, Vec::new());
        ids.push(active_fileid);
        proof {
            law_reopen_runs(handle, w);
            assert(ids@ =~= world_reopen(w).ids);
        }
        Ok(MemoryStore { handle, files, ids, world: Ghost(world_reopen(w)) })
    }
}

} // verus!
