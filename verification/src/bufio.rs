//! Buffered readers and writers that know their byte offset.
//!
//! Neither touches a file. The writer collects the bytes it accepts until
//! the caller takes them to append them to the file; the reader serves the
//! bytes of a file that the caller has read.

use vstd::prelude::*;
use vstd::slice::{slice_subrange, slice_to_vec};

verus! {

/// A reader over the bytes of a file that tracks its absolute offset.
#[derive(Debug)]
pub struct BufReaderWithPos {
    pos: u64,
    data: Vec<u8>,
}

impl BufReaderWithPos {
    /// The offset of the next byte to read.
    pub closed spec fn spec_pos(&self) -> u64 {
        self.pos
    }

    /// The bytes of the file.
    pub closed spec fn data(&self) -> Seq<u8> {
        self.data@
    }

    /// The bytes from the offset to the end of the file.
    pub open spec fn remaining(&self) -> Seq<u8> {
        if self.spec_pos() <= self.data().len() {
            self.data().skip(self.spec_pos() as int)
        } else {
            Seq::empty()
        }
    }

    /// A reader at the start of a file that holds `data`.
    pub fn new(data: Vec<u8>) -> (r: Self)
        ensures
            r.spec_pos() == 0,
            r.data() == data@,
    {
        BufReaderWithPos { pos: 0, data }
    }

    /// The offset of the next byte to read.
    pub fn pos(&self) -> (p: u64)
        ensures
            p == self.spec_pos(),
    {
        self.pos
    }

    /// The length of the file.
    pub fn len(&self) -> (n: usize)
        ensures
            n == self.data().len(),
    {
        self.data.len()
    }

    /// The bytes from the offset to the end of the file, without moving the
    /// offset.
    pub fn peek(&self) -> (out: &[u8])
        ensures
            out@ == self.remaining(),
    {
        let n = self.data.len();
        if self.pos <= n as u64 {
            slice_subrange(self.data.as_slice(), self.pos as usize, n)
        } else {
            slice_subrange(self.data.as_slice(), n, n)
        }
    }

    /// Reads up to `n` bytes at the offset and moves the offset past them.
    /// Fewer than `n` bytes come back only where the file ends.
    pub fn read(&mut self, n: usize) -> (out: Vec<u8>)
        ensures
            out@ == old(self).remaining().take(
                if n <= old(self).remaining().len() {
                    n as int
                } else {
                    old(self).remaining().len() as int
                },
            ),
            final(self).spec_pos() == old(self).spec_pos() + out@.len(),
            final(self).data() == old(self).data(),
    {
        let len = self.data.len();
        if self.pos >= len as u64 {
            return Vec::new();
        }
        let start = self.pos as usize;
        let end = if n <= len - start {
            start + n
        } else {
            len
        };
        let out = slice_to_vec(slice_subrange(self.data.as_slice(), start, end));
        assert(out@ =~= self.remaining().take((end - start) as int));
        self.pos = end as u64;
        out
    }

    /// Moves the offset to `pos`, which may lie past the end of the file.
    pub fn seek(&mut self, pos: u64) -> (p: u64)
        ensures
            p == pos,
            final(self).spec_pos() == pos,
            final(self).data() == old(self).data(),
    {
        self.pos = pos;
        pos
    }
}

/// A writer for a file opened for appending that tracks its offset. It holds
/// the file as `W` and never calls it: the bytes that `write` accepts wait in
/// a buffer until `flush` hands them to the caller.
#[derive(Debug)]
pub struct BufWriterWithPos<W> {
    pos: u64,
    buf: Vec<u8>,
    writer: W,
}

impl<W> BufWriterWithPos<W> {
    /// The offset at which the next byte will lie in the file.
    pub closed spec fn spec_pos(&self) -> u64 {
        self.pos
    }

    /// The bytes accepted and not yet handed out.
    pub closed spec fn buffered(&self) -> Seq<u8> {
        self.buf@
    }

    /// The file.
    pub closed spec fn inner(&self) -> W {
        self.writer
    }

    /// A writer for `w`, whose current length is `end`.
    pub fn new(w: W, end: u64) -> (r: Self)
        ensures
            r.spec_pos() == end,
            r.buffered() == Seq::<u8>::empty(),
            r.inner() == w,
    {
        BufWriterWithPos { pos: end, buf: Vec::new(), writer: w }
    }

    /// The offset at which the next byte will lie in the file.
    pub fn pos(&self) -> (p: u64)
        ensures
            p == self.spec_pos(),
    {
        self.pos
    }

    /// The file, for what the writer does not do itself, such as a request
    /// to make its contents durable.
    pub fn get_ref(&self) -> (w: &W)
        ensures
            *w == self.inner(),
    {
        &self.writer
    }

    /// Accepts `bytes` into the buffer and moves the offset by their number,
    /// which it returns.
    pub fn write(&mut self, bytes: &[u8]) -> (n: usize)
        requires
            old(self).spec_pos() + bytes@.len() <= u64::MAX,
        ensures
            n == bytes@.len(),
            final(self).spec_pos() == old(self).spec_pos() + bytes@.len(),
            final(self).buffered() == old(self).buffered() + bytes@,
            final(self).inner() == old(self).inner(),
    {
        let n = bytes.len();
        let mut tail = slice_to_vec(bytes);
        self.buf.append(&mut tail);
        self.pos = self.pos + n as u64;
        n
    }

    /// Moves the offset to `pos`. A buffered writer writes out what it holds
    /// before it seeks: the buffer is emptied, and what it held is returned
    /// for the caller to append to the file first.
    pub fn seek(&mut self, pos: u64) -> (out: Vec<u8>)
        ensures
            out@ == old(self).buffered(),
            final(self).buffered() == Seq::<u8>::empty(),
            final(self).spec_pos() == pos,
            final(self).inner() == old(self).inner(),
    {
        let out = self.flush();
        self.pos = pos;
        out
    }

    /// Empties the buffer and returns what it held: the bytes that the
    /// caller has to append to the file. The offset stays.
    pub fn flush(&mut self) -> (out: Vec<u8>)
        ensures
            out@ == old(self).buffered(),
            final(self).buffered() == Seq::<u8>::empty(),
            final(self).spec_pos() == old(self).spec_pos(),
            final(self).inner() == old(self).inner(),
    {
        let mut out: Vec<u8> = Vec::new();
        std::mem::swap(&mut self.buf, &mut out);
        out
    }
}

} // verus!
