//! A bounded cache of data-file readers, by file id. The reader that was
//! used longest ago leaves when a new one needs its place.

use lru::LruCache;
use std::collections::hash_map::RandomState;
use vstd::prelude::*;

use crate::entry::DataFileEntry;
use crate::error::Error;
use crate::log::{record_at, record_range, LogReader};

verus! {

/// The cache of the `lru` crate that holds the readers.
#[verifier::external_type_specification]
#[verifier::external_body]
#[verifier::reject_recursive_types(K)]
#[verifier::reject_recursive_types(V)]
#[verifier::reject_recursive_types(S)]
pub struct ExLruCache<K, V, S>(LruCache<K, V, S>);

/// The readers that a cache holds, each as its file id with the bytes of
/// its mapping, from the one used last to the one used longest ago.
pub uninterp spec fn cache_entries(c: LruCache<u64, LogReader, RandomState>) -> Seq<(u64, Seq<u8>)>;

/// The number of readers that a cache was made to hold.
pub uninterp spec fn cache_capacity(c: LruCache<u64, LogReader, RandomState>) -> nat;

/// The place of the entry for `fileid` in `s`, if `s` has one.
pub open spec fn find(s: Seq<(u64, Seq<u8>)>, fileid: u64) -> Option<int>
    decreases s.len(),
{
    if s.len() == 0 {
        None
    } else if s[0].0 == fileid {
        Some(0)
    } else {
        match find(s.skip(1), fileid) {
            Some(i) => Some(i + 1),
            None => None,
        }
    }
}

/// The bytes that `s` holds for `fileid`, if any.
pub open spec fn mapping_of(s: Seq<(u64, Seq<u8>)>, fileid: u64) -> Option<Seq<u8>> {
    match find(s, fileid) {
        Some(i) => Some(s[i].1),
        None => None,
    }
}

/// The entries after the one for `fileid` was used: it has moved to the
/// front, and the others keep their order.
pub open spec fn touch(s: Seq<(u64, Seq<u8>)>, fileid: u64) -> Seq<(u64, Seq<u8>)> {
    match find(s, fileid) {
        Some(i) => seq![s[i]] + s.remove(i),
        None => s,
    }
}

/// The entries after `mapped` was stored for `fileid` in a cache made for
/// `capacity` readers: the new entry is at the front; it replaces an entry
/// for the same file, or else, where the cache was full, the entry at the
/// back.
pub open spec fn store(
    s: Seq<(u64, Seq<u8>)>,
    capacity: nat,
    fileid: u64,
    mapped: Seq<u8>,
) -> Seq<(u64, Seq<u8>)> {
    match find(s, fileid) {
        Some(i) => seq![(fileid, mapped)] + s.remove(i),
        None => if s.len() >= capacity && s.len() > 0 {
            seq![(fileid, mapped)] + s.drop_last()
        } else {
            seq![(fileid, mapped)] + s
        },
    }
}

/// The largest number of readers that a cache can be made for. The table of
/// a cache is allocated when the cache is made, and a table for more entries
/// than this would take more bytes than an allocation can have.
pub const MAX_CACHE_SIZE: usize = usize::MAX / 128;

/// Calls `LruCache::with_hasher` with the hasher of the standard library.
/// The call returns an empty cache for `capacity` entries. A capacity of
/// zero is no capacity. The call allocates a hash table for `capacity`
/// entries of two pointers each: the table has fewer than `capacity * 16 / 7`
/// buckets of seventeen bytes, and the call stops the program where that
/// exceeds the largest allocation, `isize::MAX` bytes.
#[verifier::external_body]
fn lru_new(capacity: usize) -> (r: LruCache<u64, LogReader, RandomState>)
    requires
        0 < capacity <= MAX_CACHE_SIZE,
    ensures
        cache_entries(r) =~= Seq::empty(),
        cache_capacity(r) == capacity,
{
    LruCache::with_hasher(std::num::NonZeroUsize::new(capacity).unwrap(), RandomState::new())
}

/// Calls `LruCache::get_mut`, which returns the reader stored for `fileid`,
/// if there is one, moves its entry to the front and leaves the rest as it
/// is.
#[verifier::external_body]
fn lru_get<'a>(
    c: &'a mut LruCache<u64, LogReader, RandomState>,
    fileid: u64,
) -> (r: Option<&'a LogReader>)
    ensures
        r is Some == (mapping_of(cache_entries(*old(c)), fileid) is Some),
        r is Some ==> mapping_of(cache_entries(*old(c)), fileid) == Some(r->Some_0@),
        cache_entries(*final(c)) == touch(cache_entries(*old(c)), fileid),
        cache_capacity(*final(c)) == cache_capacity(*old(c)),
{
    c.get_mut(&fileid).map(|reader| &*reader)
}

/// Calls `LruCache::put`. The call stores the reader at the front; where
/// the cache held one for the same file it replaces that one, and else,
/// where the cache was full, it drops the entry at the back.
#[verifier::external_body]
fn lru_put(c: &mut LruCache<u64, LogReader, RandomState>, fileid: u64, reader: LogReader)
    ensures
        cache_entries(*final(c)) == store(
            cache_entries(*old(c)),
            cache_capacity(*old(c)),
            fileid,
            reader@,
        ),
        cache_capacity(*final(c)) == cache_capacity(*old(c)),
{
    c.put(fileid, reader);
}

/// What a request to the cache came to.
#[derive(Debug)]
pub enum Cached<T> {
    /// The cache holds a mapping of the file that covers the range asked
    /// for, and this is what the range gave.
    Hit(T),
    /// The cache holds no mapping of the file, or one that ends before the
    /// range does: the caller has to map the file, hand the bytes to `load`
    /// and ask again.
    Miss,
}

/// A cache of data-file readers for a fixed number of files.
pub struct LogDir {
    cache: LruCache<u64, LogReader, RandomState>,
}

impl LogDir {
    /// The cached mappings, each as its file id with its bytes, from the
    /// one used last to the one used longest ago.
    pub closed spec fn entries(&self) -> Seq<(u64, Seq<u8>)> {
        cache_entries(self.cache)
    }

    /// The number of readers that the cache can hold.
    pub closed spec fn capacity(&self) -> nat {
        cache_capacity(self.cache)
    }

    /// The mapping of `fileid` that covers the range of `len` bytes at
    /// `pos`, if the cache holds one.
    pub open spec fn covering(&self, fileid: u64, len: u64, pos: u64) -> Option<Seq<u8>> {
        match mapping_of(self.entries(), fileid) {
            Some(file) if pos + len <= file.len() => Some(file),
            _ => None,
        }
    }

    /// An empty cache for `size` readers.
    pub fn new(size: usize) -> (d: Self)
        requires
            0 < size <= MAX_CACHE_SIZE,
        ensures
            d.entries() == Seq::<(u64, Seq<u8>)>::empty(),
            d.capacity() == size,
    {
        LogDir { cache: lru_new(size) }
    }

    /// Decodes the record in the range of `len` bytes at `pos` of the data
    /// file `fileid` from the cached mapping of that file. The file counts
    /// as used, whatever comes of the request.
    pub fn read(
        &mut self,
        fileid: u64,
        len: u64,
        pos: u64,
    ) -> (r: Result<Cached<DataFileEntry>, Error>)
        ensures
            final(self).entries() == touch(old(self).entries(), fileid),
            final(self).capacity() == old(self).capacity(),
            match old(self).covering(fileid, len, pos) {
                Some(file) => match r {
                    Ok(Cached::Hit(entry)) => record_at(file, len, pos) == Some(entry@),
                    Err(Error::Serialization(_)) => record_at(file, len, pos) is None,
                    _ => false,
                },
                None => r matches Ok(Cached::Miss),
            },
    {
        match lru_get(&mut self.cache, fileid) {
            Some(reader) => {
                if reader.covers(len, pos) {
                    match reader.at(len, pos) {
                        Ok(entry) => Ok(Cached::Hit(entry)),
                        Err(e) => Err(e),
                    }
                } else {
                    Ok(Cached::Miss)
                }
            },
            None => Ok(Cached::Miss),
        }
    }

    /// Appends to `dst`, as they are, the `len` bytes at `pos` of the data
    /// file `fileid` from the cached mapping of that file, and returns their
    /// number. The file counts as used, whatever comes of the request.
    pub fn copy(&mut self, fileid: u64, len: u64, pos: u64, dst: &mut Vec<u8>) -> (r: Cached<u64>)
        ensures
            final(self).entries() == touch(old(self).entries(), fileid),
            final(self).capacity() == old(self).capacity(),
            match old(self).covering(fileid, len, pos) {
                Some(file) => r == Cached::Hit(len) && final(dst)@ == old(dst)@ + record_range(
                    file,
                    len,
                    pos,
                ),
                None => r matches Cached::Miss && final(dst)@ == old(dst)@,
            },
    {
        match lru_get(&mut self.cache, fileid) {
            Some(reader) => {
                if reader.covers(len, pos) {
                    Cached::Hit(reader.copy_raw(len, pos, dst))
                } else {
                    Cached::Miss
                }
            },
            None => Cached::Miss,
        }
    }

    /// Stores `mapped`, the bytes of the data file `fileid` as it is now,
    /// in place of any earlier mapping of that file. Where the cache is full
    /// and has no mapping of that file, the mapping used longest ago leaves.
    pub fn load(&mut self, fileid: u64, mapped: Vec<u8>)
        ensures
            final(self).entries() == store(
                old(self).entries(),
                old(self).capacity(),
                fileid,
                mapped@,
            ),
            final(self).capacity() == old(self).capacity(),
    {
        lru_put(&mut self.cache, fileid, LogReader::new(mapped));
    }
}

/// The cache is in order: it holds no more entries than it was made for,
/// and at most one for each file.
pub open spec fn bounded(s: Seq<(u64, Seq<u8>)>, capacity: nat) -> bool {
    &&& s.len() <= capacity
    &&& forall|i: int, j: int| 0 <= i < j < s.len() ==> s[i].0 != s[j].0
}

/// Bounded cache. Neither a use nor a new mapping lets the cache grow past
/// the number of readers it was made for, or hold two mappings of one file;
/// and the cache holds for a file what was stored for it last.
pub proof fn law_cache_stays_bounded(
    s: Seq<(u64, Seq<u8>)>,
    capacity: nat,
    fileid: u64,
    mapped: Seq<u8>,
)
    requires
        capacity > 0,
        bounded(s, capacity),
    ensures
        bounded(touch(s, fileid), capacity),
        bounded(store(s, capacity, fileid, mapped), capacity),
        mapping_of(store(s, capacity, fileid, mapped), fileid) == Some(mapped),
{
    lemma_find_bounds(s, fileid);
    let front = seq![(fileid, mapped)];
    match find(s, fileid) {
        Some(i) => {
            let rest = s.remove(i);
            assert forall|a: int, b: int| 0 <= a < b < rest.len() implies rest[a].0 != rest[b].0 by {
                let a2 = if a < i {
                    a
                } else {
                    a + 1
                };
                let b2 = if b < i {
                    b
                } else {
                    b + 1
                };
                assert(rest[a] == s[a2] && rest[b] == s[b2]);
            }
            assert forall|a: int| 0 <= a < rest.len() implies (#[trigger] rest[a]).0 != fileid by {
                let a2 = if a < i {
                    a
                } else {
                    a + 1
                };
                assert(rest[a] == s[a2]);
            }
            let t = seq![s[i]] + rest;
            assert forall|a: int, b: int| 0 <= a < b < t.len() implies t[a].0 != t[b].0 by {
                if a > 0 {
                    assert(t[a] == rest[a - 1] && t[b] == rest[b - 1]);
                } else {
                    assert(t[b] == rest[b - 1]);
                }
            }
            let u = front + rest;
            assert forall|a: int, b: int| 0 <= a < b < u.len() implies u[a].0 != u[b].0 by {
                if a > 0 {
                    assert(u[a] == rest[a - 1] && u[b] == rest[b - 1]);
                } else {
                    assert(u[b] == rest[b - 1]);
                }
            }
            assert(u[0].0 == fileid);
        },
        None => {
            let kept = if s.len() >= capacity && s.len() > 0 {
                s.drop_last()
            } else {
                s
            };
            let u = front + kept;
            assert forall|a: int, b: int| 0 <= a < b < u.len() implies u[a].0 != u[b].0 by {
                if a > 0 {
                    assert(u[a] == s[a - 1] && u[b] == s[b - 1]);
                } else {
                    assert(u[b] == s[b - 1]);
                }
            }
            assert(u[0].0 == fileid);
        },
    }
}

/// A use keeps the mappings. Using one file does not change which bytes
/// the cache holds for any file.
pub proof fn law_touch_keeps_mappings(s: Seq<(u64, Seq<u8>)>, used: u64, fileid: u64)
    ensures
        mapping_of(touch(s, used), fileid) == mapping_of(s, fileid),
{
    lemma_find_bounds(s, used);
    lemma_find_bounds(s, fileid);
    match find(s, used) {
        None => {},
        Some(i) => {
            let t = touch(s, used);
            lemma_find_bounds(t, fileid);
            if fileid == used {
                assert(t[0].0 == used);
            } else {
                lemma_find_remove(s, i, fileid);
                assert(t.skip(1) =~= s.remove(i));
            }
        },
    }
}

/// What `find` returns is the first place with the file id, and `None`
/// means that no place has it.
pub proof fn lemma_find_bounds(s: Seq<(u64, Seq<u8>)>, fileid: u64)
    ensures
        match find(s, fileid) {
            Some(i) => 0 <= i < s.len() && s[i].0 == fileid && forall|j: int|
                0 <= j < i ==> (#[trigger] s[j]).0 != fileid,
            None => forall|j: int| 0 <= j < s.len() ==> (#[trigger] s[j]).0 != fileid,
        },
    decreases s.len(),
{
    if s.len() > 0 && s[0].0 != fileid {
        let rest = s.skip(1);
        lemma_find_bounds(rest, fileid);
        match find(rest, fileid) {
            Some(i) => {
                assert forall|j: int| 0 <= j < i + 1 implies (#[trigger] s[j]).0 != fileid by {
                    if j > 0 {
                        assert(rest[j - 1] == s[j]);
                    }
                }
            },
            None => {
                assert forall|j: int| 0 <= j < s.len() implies (#[trigger] s[j]).0 != fileid by {
                    if j > 0 {
                        assert(rest[j - 1] == s[j]);
                    }
                }
            },
        }
    }
}

/// The first place with a given file id is the one that `find` returns.
pub proof fn lemma_find_first(s: Seq<(u64, Seq<u8>)>, fileid: u64, i: int)
    requires
        0 <= i < s.len(),
        s[i].0 == fileid,
        forall|j: int| 0 <= j < i ==> (#[trigger] s[j]).0 != fileid,
    ensures
        find(s, fileid) == Some(i),
    decreases s.len(),
{
    if i > 0 {
        let rest = s.skip(1);
        assert(s[0].0 != fileid);
        assert(rest[i - 1] == s[i]);
        assert forall|j: int| 0 <= j < i - 1 implies (#[trigger] rest[j]).0 != fileid by {
            assert(rest[j] == s[j + 1]);
        }
        lemma_find_first(rest, fileid, i - 1);
    }
}

/// Taking out the entry of another file leaves the bytes held for `fileid`.
pub proof fn lemma_find_remove(s: Seq<(u64, Seq<u8>)>, i: int, fileid: u64)
    requires
        0 <= i < s.len(),
        s[i].0 != fileid,
    ensures
        mapping_of(s.remove(i), fileid) == mapping_of(s, fileid),
{
    let t = s.remove(i);
    lemma_find_bounds(s, fileid);
    lemma_find_bounds(t, fileid);
    match find(s, fileid) {
        Some(k) => {
            let k2 = if k < i {
                k
            } else {
                k - 1
            };
            assert(t[k2] == s[k]);
            assert forall|j: int| 0 <= j < k2 implies (#[trigger] t[j]).0 != fileid by {
                if j < i {
                    assert(t[j] == s[j]);
                } else {
                    assert(t[j] == s[j + 1]);
                }
            }
            lemma_find_first(t, fileid, k2);
        },
        None => {
            match find(t, fileid) {
                Some(k) => {
                    if k < i {
                        assert(t[k] == s[k]);
                    } else {
                        assert(t[k] == s[k + 1]);
                    }
                },
                None => {},
            }
        },
    }
}

} // verus!
