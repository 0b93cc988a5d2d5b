//! The state that readers and the writer share: the key directory and the
//! closed flag.

use crossbeam_skiplist::SkipMap;
use vstd::prelude::*;

use crate::index::{
    can_record_delete, can_record_put, charge_fits, index_delete_fits, index_install,
    index_put_fits, index_remove, install, remove, Index,
};
use crate::log::StatsMap;

verus! {

/// Where the latest record of a key lies: `len` bytes at `pos` in the data
/// file `fileid`, written at time `tstamp`.
#[derive(Clone, Copy, Debug, PartialEq, Eq, Structural)]
pub struct KeyDirEntry {
    pub fileid: u64,
    pub len: u64,
    pub pos: u64,
    pub tstamp: i64,
}

/// The ordered map of `crossbeam_skiplist`, which holds the key directory.
#[verifier::external_type_specification]
#[verifier::external_body]
#[verifier::reject_recursive_types(K)]
#[verifier::reject_recursive_types(V)]
pub struct ExSkipMap<K, V>(SkipMap<K, V>);

/// The entries that a key directory holds: each key with its entry.
pub uninterp spec fn keydir_entries(m: SkipMap<Vec<u8>, KeyDirEntry>) -> Map<Seq<u8>, KeyDirEntry>;

/// Calls `SkipMap::new`, which returns an empty map.
#[verifier::external_body]
fn skipmap_new() -> (r: SkipMap<Vec<u8>, KeyDirEntry>)
    ensures
        keydir_entries(r) =~= Map::empty(),
{
    SkipMap::new()
}

/// Calls `SkipMap::get` and copies the value out of the entry it returns.
/// The call returns the entry of `key`, if the map has one.
#[verifier::external_body]
fn skipmap_get(m: &SkipMap<Vec<u8>, KeyDirEntry>, key: &Vec<u8>) -> (r: Option<KeyDirEntry>)
    ensures
        r == if keydir_entries(*m).contains_key(key@) {
            Some(keydir_entries(*m)[key@])
        } else {
            None
        },
{
    m.get(key).map(|e| *e.value())
}

/// Calls `SkipMap::insert`, which removes an entry with the same key, if
/// there is one, and then inserts the new one. The other entries stay.
#[verifier::external_body]
fn skipmap_insert(m: &mut SkipMap<Vec<u8>, KeyDirEntry>, key: Vec<u8>, entry: KeyDirEntry)
    ensures
        keydir_entries(*final(m)) == keydir_entries(*old(m)).insert(key@, entry),
{
    m.insert(key, entry);
}

/// Calls `SkipMap::remove`, which takes the entry of `key` out of the map, if
/// there is one, and returns it. The other entries stay.
#[verifier::external_body]
fn skipmap_remove(m: &mut SkipMap<Vec<u8>, KeyDirEntry>, key: &Vec<u8>) -> (r: Option<KeyDirEntry>)
    ensures
        keydir_entries(*final(m)) == keydir_entries(*old(m)).remove(key@),
        r == if keydir_entries(*old(m)).contains_key(key@) {
            Some(keydir_entries(*old(m))[key@])
        } else {
            None
        },
{
    m.remove(key).map(|e| *e.value())
}

/// The key directory: a map from each live key to the place of its latest
/// record. It is changed through `&mut` only, so that whoever holds a shared
/// reference reads one and the same map.
pub struct KeyDir {
    map: SkipMap<Vec<u8>, KeyDirEntry>,
}

impl View for KeyDir {
    type V = Map<Seq<u8>, KeyDirEntry>;

    closed spec fn view(&self) -> Map<Seq<u8>, KeyDirEntry> {
        keydir_entries(self.map)
    }
}

impl KeyDir {
    /// A key directory without keys.
    pub fn new() -> (kd: Self)
        ensures
            kd@ == Map::<Seq<u8>, KeyDirEntry>::empty(),
    {
        KeyDir { map: skipmap_new() }
    }

    /// The entry of `key`, if it is live.
    pub fn get(&self, key: &Vec<u8>) -> (r: Option<KeyDirEntry>)
        ensures
            r == lookup(self@, key@),
    {
        skipmap_get(&self.map, key)
    }

    /// Points `key` to `entry` and returns the entry it pointed to before.
    pub fn set(&mut self, key: Vec<u8>, entry: KeyDirEntry) -> (prev: Option<KeyDirEntry>)
        ensures
            final(self)@ == old(self)@.insert(key@, entry),
            prev == lookup(old(self)@, key@),
    {
        let prev = skipmap_get(&self.map, &key);
        skipmap_insert(&mut self.map, key, entry);
        prev
    }

    /// Takes `key` out of the directory and returns the entry it pointed to.
    pub fn remove(&mut self, key: &Vec<u8>) -> (prev: Option<KeyDirEntry>)
        ensures
            final(self)@ == old(self)@.remove(key@),
            prev == lookup(old(self)@, key@),
    {
        skipmap_remove(&mut self.map, key)
    }
}

/// The entry that a key directory holds for `key`, if any.
pub open spec fn lookup(kd: Map<Seq<u8>, KeyDirEntry>, key: Seq<u8>) -> Option<KeyDirEntry> {
    if kd.contains_key(key) {
        Some(kd[key])
    } else {
        None
    }
}

/// The state that the readers and the writer of one store share: the
/// directory of the store, the key directory, and the closed flag.
pub struct Context {
    pub(crate) path: String,
    pub(crate) keydir: KeyDir,
    pub(crate) closed: bool,
}

impl Context {
    /// The key directory as a map.
    pub closed spec fn keydir_view(&self) -> Map<Seq<u8>, KeyDirEntry> {
        self.keydir@
    }

    /// Whether the store has been closed.
    pub closed spec fn spec_is_closed(&self) -> bool {
        self.closed
    }

    /// The directory of the store.
    pub closed spec fn spec_path(&self) -> Seq<char> {
        self.path@
    }

    /// The directory of the store.
    pub fn path(&self) -> (p: &str)
        ensures
            p@ == self.spec_path(),
    {
        self.path.as_str()
    }

    /// The shared state of an open store in the directory `path` with the
    /// key directory `keydir`.
    pub fn new(path: String, keydir: KeyDir) -> (ctx: Self)
        ensures
            ctx.spec_path() == path@,
            ctx.keydir_view() == keydir@,
            !ctx.spec_is_closed(),
    {
        Context { path, keydir, closed: false }
    }

    /// Points `key` to `keydir_entry` and returns the entry it pointed to
    /// before.
    pub fn keydir_set(
        &mut self,
        key: Vec<u8>,
        keydir_entry: KeyDirEntry,
    ) -> (prev: Option<KeyDirEntry>)
        ensures
            final(self).keydir_view() == old(self).keydir_view().insert(key@, keydir_entry),
            prev == lookup(old(self).keydir_view(), key@),
            final(self).spec_is_closed() == old(self).spec_is_closed(),
            final(self).spec_path() == old(self).spec_path(),
    {
        self.keydir.set(key, keydir_entry)
    }

    /// The index that the key directory and `stats` stand for.
    pub open spec fn index(&self, stats: &StatsMap) -> Index {
        Index { keydir: self.keydir_view(), stats: stats@ }
    }

    /// Whether the index has room for a value written for `key` to `fileid`:
    /// for counting the record as live and the record that `key` points to
    /// as dead.
    pub fn can_put(&self, stats: &StatsMap, key: &Vec<u8>, fileid: u64) -> (ok: bool)
        ensures
            ok == index_put_fits(self.index(stats), key@, fileid),
    {
        can_record_put(&self.keydir, stats, key, fileid)
    }

    /// Whether the index has room for a tombstone of `len` bytes written for
    /// `key` to `fileid`: for counting the tombstone and the record that `key`
    /// points to as dead.
    pub fn can_delete(&self, stats: &StatsMap, key: &Vec<u8>, fileid: u64, len: u64) -> (ok: bool)
        ensures
            ok == index_delete_fits(self.index(stats), key@, fileid, len),
    {
        can_record_delete(&self.keydir, stats, key, fileid, len)
    }

    /// Points `key` to `entry`, a record that `stats` counts already, and
    /// counts the record that `key` pointed to before as dead. When a
    /// counter would leave the range of `u64`, nothing changes and the
    /// result is `false`.
    pub fn install(&mut self, stats: &mut StatsMap, key: Vec<u8>, entry: KeyDirEntry) -> (ok: bool)
        ensures
            final(self).spec_is_closed() == old(self).spec_is_closed(),
            final(self).spec_path() == old(self).spec_path(),
            ok == charge_fits(old(stats)@, lookup(old(self).keydir_view(), key@)),
            ok ==> final(self).index(final(stats)) == index_install(
                old(self).index(old(stats)),
                key@,
                entry,
            ),
            !ok ==> final(self).index(final(stats)) == old(self).index(old(stats)),
    {
        install(&mut self.keydir, stats, key, entry)
    }

    /// Takes `key` out of the key directory for a tombstone that `stats`
    /// counts already, counts the record that `key` pointed to as dead, and
    /// returns whether `key` was live. When a counter would leave the range
    /// of `u64`, nothing changes and the result is `None`.
    pub fn remove(&mut self, stats: &mut StatsMap, key: &Vec<u8>) -> (r: Option<bool>)
        ensures
            final(self).spec_is_closed() == old(self).spec_is_closed(),
            final(self).spec_path() == old(self).spec_path(),
            r is Some == charge_fits(old(stats)@, lookup(old(self).keydir_view(), key@)),
            r matches Some(was_live) ==> {
                &&& was_live == old(self).keydir_view().contains_key(key@)
                &&& final(self).index(final(stats)) == index_remove(
                    old(self).index(old(stats)),
                    key@,
                )
            },
            r is None ==> final(self).index(final(stats)) == old(self).index(old(stats)),
    {
        remove(&mut self.keydir, stats, key)
    }

    /// The key directory.
    pub fn get_keydir(&self) -> (kd: &KeyDir)
        ensures
            kd@ == self.keydir_view(),
    {
        &self.keydir
    }

    /// Marks the store closed. Closing a closed store changes nothing.
    pub fn close(&mut self)
        ensures
            final(self).spec_is_closed(),
            final(self).keydir_view() == old(self).keydir_view(),
            final(self).spec_path() == old(self).spec_path(),
    {
        self.closed = true;
    }

    /// Whether the store has been closed.
    pub fn is_closed(&self) -> (b: bool)
        ensures
            b == self.spec_is_closed(),
    {
        self.closed
    }
}

} // verus!
