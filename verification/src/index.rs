//! The rules by which one record changes the key directory and the
//! statistics. The writer follows them for each record it appends, and
//! recovery follows them for each record it reads back.

use vstd::prelude::*;

use crate::context::{lookup, KeyDir, KeyDirEntry};
use crate::log::{counts_of, stats_add_dead, stats_add_live, stats_overwrite, Counts, LogStatistics, StatsMap};

verus! {

/// The key directory and the statistics as one mathematical value.
pub struct Index {
    pub keydir: Map<Seq<u8>, KeyDirEntry>,
    pub stats: Map<u64, Counts>,
}

/// The index of an empty store.
pub open spec fn index_empty() -> Index {
    Index { keydir: Map::empty(), stats: Map::empty() }
}

/// The statistics after the record that `prev` points to, if any, became
/// dead.
pub open spec fn charge_previous(stats: Map<u64, Counts>, prev: Option<KeyDirEntry>) -> Map<
    u64,
    Counts,
> {
    match prev {
        Some(p) => stats_overwrite(stats, p.fileid, p.len as int),
        None => stats,
    }
}

/// The index after a record with a value for `key` was written at `entry`:
/// the file of `entry` has one more live record, `key` points to `entry`,
/// and the record that `key` pointed to before is dead.
pub open spec fn index_put(ix: Index, key: Seq<u8>, entry: KeyDirEntry) -> Index {
    Index {
        keydir: ix.keydir.insert(key, entry),
        stats: charge_previous(stats_add_live(ix.stats, entry.fileid), lookup(ix.keydir, key)),
    }
}

/// The index after a tombstone of `len` bytes for `key` was written to
/// `fileid`: the file has one more dead record, `key` is gone from the
/// directory, and the record that `key` pointed to before is dead.
pub open spec fn index_delete(ix: Index, key: Seq<u8>, fileid: u64, len: u64) -> Index {
    Index {
        keydir: ix.keydir.remove(key),
        stats: charge_previous(
            stats_add_dead(ix.stats, fileid, len as int),
            lookup(ix.keydir, key),
        ),
    }
}

/// The index after `key` was pointed to `entry`, a record that its file
/// counts already: the record that `key` pointed to before is dead.
pub open spec fn index_install(ix: Index, key: Seq<u8>, entry: KeyDirEntry) -> Index {
    Index {
        keydir: ix.keydir.insert(key, entry),
        stats: charge_previous(ix.stats, lookup(ix.keydir, key)),
    }
}

/// The index after `key` was taken out of the key directory for a
/// tombstone that its file counts already: the record that `key` pointed to
/// is dead.
pub open spec fn index_remove(ix: Index, key: Seq<u8>) -> Index {
    Index {
        keydir: ix.keydir.remove(key),
        stats: charge_previous(ix.stats, lookup(ix.keydir, key)),
    }
}

/// Whether the counter that `charge_previous` changes stays in range.
pub open spec fn charge_fits(stats: Map<u64, Counts>, prev: Option<KeyDirEntry>) -> bool {
    prev matches Some(p) ==> counts_of(stats, p.fileid).overwrite(p.len as int).fits()
}

/// Whether every counter stays in range that `index_put` changes for a
/// record written for `key` to `fileid`.
pub open spec fn index_put_fits(ix: Index, key: Seq<u8>, fileid: u64) -> bool {
    &&& counts_of(ix.stats, fileid).add_live().fits()
    &&& charge_fits(stats_add_live(ix.stats, fileid), lookup(ix.keydir, key))
}

/// Whether every counter that `index_delete` changes stays in range.
pub open spec fn index_delete_fits(ix: Index, key: Seq<u8>, fileid: u64, len: u64) -> bool {
    &&& counts_of(ix.stats, fileid).add_dead(len as int).fits()
    &&& charge_fits(stats_add_dead(ix.stats, fileid, len as int), lookup(ix.keydir, key))
}

/// The index that a key directory and a table of statistics stand for.
pub open spec fn index_of(keydir: KeyDir, stats: StatsMap) -> Index {
    Index { keydir: keydir@, stats: stats@ }
}

/// Whether the record that `prev` points to can be counted as dead, once
/// the counters of `fileid` have become `current`.
fn can_charge(
    stats: &StatsMap,
    fileid: u64,
    current: LogStatistics,
    prev: Option<KeyDirEntry>,
) -> (ok:
    bool)
    ensures
        ok == charge_fits(stats@.insert(fileid, current@), prev),
{
    match prev {
        Some(p) => {
            let s = if p.fileid == fileid {
                current
            } else {
                stats.counts(p.fileid)
            };
            s.can_overwrite(p.len)
        },
        None => true,
    }
}

/// Whether `record_put` can count a value written for `key` to `fileid`.
pub fn can_record_put(keydir: &KeyDir, stats: &StatsMap, key: &Vec<u8>, fileid: u64) -> (ok: bool)
    ensures
        ok == index_put_fits(index_of(*keydir, *stats), key@, fileid),
{
    let prev = keydir.get(key);
    let mut current = stats.counts(fileid);
    if !current.can_add_live() {
        return false;
    }
    current.add_live();
    can_charge(stats, fileid, current, prev)
}

/// Whether `record_delete` can count a tombstone of `len` bytes written for
/// `key` to `fileid`.
pub fn can_record_delete(
    keydir: &KeyDir,
    stats: &StatsMap,
    key: &Vec<u8>,
    fileid: u64,
    len: u64,
) -> (ok: bool)
    ensures
        ok == index_delete_fits(index_of(*keydir, *stats), key@, fileid, len),
{
    let prev = keydir.get(key);
    let mut current = stats.counts(fileid);
    if !current.can_add_dead(len) {
        return false;
    }
    current.add_dead(len);
    can_charge(stats, fileid, current, prev)
}

/// Records a value written for `key` at `entry`, as `index_put` says. When a
/// counter would leave the range of `u64`, nothing changes and the result
/// is `false`.
pub fn record_put(
    keydir: &mut KeyDir,
    stats: &mut StatsMap,
    key: Vec<u8>,
    entry: KeyDirEntry,
) -> (ok:
    bool)
    ensures
        ok == index_put_fits(index_of(*old(keydir), *old(stats)), key@, entry.fileid),
        ok ==> index_of(*final(keydir), *final(stats)) == index_put(
            index_of(*old(keydir), *old(stats)),
            key@,
            entry,
        ),
        !ok ==> final(keydir)@ == old(keydir)@ && final(stats)@ == old(stats)@,
{
    let prev = keydir.get(&key);
    let mut current = stats.counts(entry.fileid);
    if !current.can_add_live() {
        return false;
    }
    current.add_live();
    if !can_charge(stats, entry.fileid, current, prev) {
        return false;
    }
    stats.add_live(entry.fileid);
    keydir.set(key, entry);
    match prev {
        Some(p) => {
            stats.overwrite(p.fileid, p.len);
        },
        None => {},
    }
    true
}

/// Records a tombstone of `len` bytes written for `key` to `fileid`, as
/// `index_delete` says, and returns whether `key` was live. When a counter
/// would leave the range of `u64`, nothing changes and the result is `None`.
pub fn record_delete(
    keydir: &mut KeyDir,
    stats: &mut StatsMap,
    key: &Vec<u8>,
    fileid: u64,
    len: u64,
) -> (r:
    Option<bool>)
    ensures
        r is Some == index_delete_fits(index_of(*old(keydir), *old(stats)), key@, fileid, len),
        r matches Some(was_live) ==> {
            &&& was_live == old(keydir)@.contains_key(key@)
            &&& index_of(*final(keydir), *final(stats)) == index_delete(
                index_of(*old(keydir), *old(stats)),
                key@,
                fileid,
                len,
            )
        },
        r is None ==> final(keydir)@ == old(keydir)@ && final(stats)@ == old(stats)@,
{
    let prev = keydir.get(key);
    let mut current = stats.counts(fileid);
    if !current.can_add_dead(len) {
        return None;
    }
    current.add_dead(len);
    if !can_charge(stats, fileid, current, prev) {
        return None;
    }
    stats.add_dead(fileid, len);
    keydir.remove(key);
    match prev {
        Some(p) => {
            stats.overwrite(p.fileid, p.len);
            Some(true)
        },
        None => Some(false),
    }
}

/// Points `key` to `entry`, a record that its file counts already, and
/// counts the record that `key` pointed to before as dead in its own file,
/// as `index_install` says. When a counter would leave the range of `u64`,
/// nothing changes and the result is `false`.
pub fn install(
    keydir: &mut KeyDir,
    stats: &mut StatsMap,
    key: Vec<u8>,
    entry: KeyDirEntry,
) -> (ok: bool)
    ensures
        ok == charge_fits(old(stats)@, lookup(old(keydir)@, key@)),
        ok ==> index_of(*final(keydir), *final(stats)) == index_install(
            index_of(*old(keydir), *old(stats)),
            key@,
            entry,
        ),
        !ok ==> final(keydir)@ == old(keydir)@ && final(stats)@ == old(stats)@,
{
    match keydir.get(&key) {
        Some(p) => {
            if !stats.overwrite(p.fileid, p.len) {
                return false;
            }
        },
        None => {},
    }
    keydir.set(key, entry);
    true
}

/// Takes `key` out of the key directory for a tombstone that its file
/// counts already, and counts the record that `key` pointed to as dead in
/// its own file, as `index_remove` says. Returns whether `key` was live.
/// When a counter would leave the range of `u64`, nothing changes and the
/// result is `None`.
pub fn remove(keydir: &mut KeyDir, stats: &mut StatsMap, key: &Vec<u8>) -> (r: Option<bool>)
    ensures
        r is Some == charge_fits(old(stats)@, lookup(old(keydir)@, key@)),
        r matches Some(was_live) ==> {
            &&& was_live == old(keydir)@.contains_key(key@)
            &&& index_of(*final(keydir), *final(stats)) == index_remove(
                index_of(*old(keydir), *old(stats)),
                key@,
            )
        },
        r is None ==> final(keydir)@ == old(keydir)@ && final(stats)@ == old(stats)@,
{
    match keydir.get(key) {
        Some(p) => {
            if !stats.overwrite(p.fileid, p.len) {
                return None;
            }
            keydir.remove(key);
            Some(true)
        },
        None => {
            assert(keydir@.remove(key@) =~= keydir@);
            Some(false)
        },
    }
}

} // verus!
