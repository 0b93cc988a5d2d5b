//! A reader of a store: it looks a key up in the key directory and decodes
//! the record that the directory points to.

use vstd::prelude::*;

use crate::context::{lookup, Context};
use crate::entry::option_view;
use crate::error::Error;
use crate::log::record_at;
use crate::logdir::{store, touch, Cached, LogDir};

verus! {

/// The value of the record in the range of `len` bytes at `pos` of `file`:
/// `None` where the range does not lie in the file or does not begin with a
/// record, `Some(None)` where the record is a tombstone.
pub open spec fn value_at(file: Seq<u8>, len: u64, pos: u64) -> Option<Option<Seq<u8>>> {
    match record_at(file, len, pos) {
        Some(rec) => Some(rec.value),
        None => None,
    }
}

/// What a lookup came to.
#[derive(Debug)]
pub enum Fetch {
    /// The value of the key, or `None` for a key without a value.
    Value(Option<Vec<u8>>),
    /// The key has a value in the data file with this id, and the cache of
    /// the reader holds no mapping of that file that covers it: the caller
    /// has to map the file, hand the bytes to `load`, and look up again.
    Unmapped(u64),
}

/// A reader with a cache of data-file mappings of its own.
pub struct Reader {
    readers: LogDir,
}

impl Reader {
    /// The cache of data-file mappings.
    pub closed spec fn cache(&self) -> LogDir {
        self.readers
    }

    /// A reader that keeps its mappings in `readers`.
    pub fn new(readers: LogDir) -> (r: Self)
        ensures
            r.cache() == readers,
    {
        Reader { readers }
    }

    /// The value of `key`. A key that the directory does not hold has none.
    /// For any other key the record that the directory points to is decoded
    /// from the cached mapping of its file, and its value returned; where
    /// the cache has no mapping that covers the record, the result names the
    /// file to map.
    pub fn get(&mut self, ctx: &Context, key: &Vec<u8>) -> (r: Result<Fetch, Error>)
        ensures
            final(self).cache().capacity() == old(self).cache().capacity(),
            match lookup(ctx.keydir_view(), key@) {
                None => {
                    &&& r matches Ok(Fetch::Value(None))
                    &&& final(self).cache().entries() == old(self).cache().entries()
                },
                Some(e) => {
                    &&& final(self).cache().entries() == touch(
                        old(self).cache().entries(),
                        e.fileid,
                    )
                    &&& match old(self).cache().covering(e.fileid, e.len, e.pos) {
                        Some(file) => match r {
                            Ok(Fetch::Value(value)) => value_at(file, e.len, e.pos) == Some(
                                option_view(value),
                            ),
                            Err(Error::Serialization(_)) => value_at(file, e.len, e.pos) is None,
                            _ => false,
                        },
                        None => r matches Ok(Fetch::Unmapped(id)) && id == e.fileid,
                    }
                },
            },
    {
        match ctx.get_keydir().get(key) {
            Some(keydir_entry) => {
                match self.readers.read(keydir_entry.fileid, keydir_entry.len, keydir_entry.pos) {
                    Ok(Cached::Hit(datafile_entry)) => Ok(Fetch::Value(datafile_entry.value)),
                    Ok(Cached::Miss) => Ok(Fetch::Unmapped(keydir_entry.fileid)),
                    Err(e) => Err(e),
                }
            },
            None => Ok(Fetch::Value(None)),
        }
    }

    /// Stores `mapped`, the bytes of the data file `fileid` as it is now,
    /// in the cache of this reader.
    pub fn load(&mut self, fileid: u64, mapped: Vec<u8>)
        ensures
            final(self).cache().entries() == store(
                old(self).cache().entries(),
                old(self).cache().capacity(),
                fileid,
                mapped@,
            ),
            final(self).cache().capacity() == old(self).cache().capacity(),
    {
        self.readers.load(fileid, mapped);
    }
}

} // verus!
