//! Looking at the first bytes of a stream without taking them: what was
//! read ahead is kept and handed out before anything else.

use vstd::prelude::*;

verus! {

/// The bytes that were read ahead of a stream.
#[derive(Debug)]
pub struct PeekableTcpStream {
    pub buf: Vec<u8>,
}

/// Where a read gets its bytes from.
#[derive(Debug)]
pub enum ReadSource {
    /// These bytes, which were read ahead.
    Buffered(Vec<u8>),
    /// The stream itself.
    Stream,
}

impl PeekableTcpStream {
    /// Nothing is read ahead yet.
    pub fn new() -> (r: PeekableTcpStream)
        ensures
            r.buf@.len() == 0,
    {
        PeekableTcpStream { buf: Vec::new() }
    }

    /// The number of bytes that have to be read from the stream so that
    /// `size` bytes are held.
    pub fn fill_buf(&self, size: usize) -> (r: usize)
        ensures
            r == (if size > self.buf@.len() {
                size - self.buf@.len()
            } else {
                0
            }),
    {
        if size > self.buf.len() {
            size - self.buf.len()
        } else {
            0
        }
    }

    /// Bytes that were read from the stream go behind those that are held.
    pub fn filled(&mut self, data: &[u8])
        ensures
            final(self).buf@ == old(self).buf@ + data@,
    {
        let ghost before = self.buf@;
        let mut i: usize = 0;
        while i < data.len()
            invariant
                i <= data@.len(),
                self.buf@ == before + data@.take(i as int),
            decreases data@.len() - i,
        {
            self.buf.push(data[i]);
            i += 1;
            assert(self.buf@ =~= before + data@.take(i as int));
        }
        assert(data@.take(data@.len() as int) =~= data@);
    }

    /// The first `len` bytes, which stay where they are; nothing where
    /// fewer bytes are held.
    pub fn peek_exact(&self, len: usize) -> (r: Option<Vec<u8>>)
        ensures
            match r {
                Some(bytes) => len <= self.buf@.len() && bytes@ == self.buf@.take(len as int),
                None => len > self.buf@.len(),
            },
    {
        if len > self.buf.len() {
            return None;
        }
        let mut out: Vec<u8> = Vec::new();
        let mut i: usize = 0;
        while i < len
            invariant
                i <= len <= self.buf@.len(),
                out@ == self.buf@.take(i as int),
            decreases len - i,
        {
            out.push(self.buf[i]);
            i += 1;
            assert(out@ =~= self.buf@.take(i as int));
        }
        Some(out)
    }

    /// A read into a buffer with room for `remaining` bytes: while bytes
    /// are held, as many of them as fit are handed out and are gone from
    /// what is held; else the stream itself is read.
    pub fn poll_read(&mut self, remaining: usize) -> (r: ReadSource)
        ensures
            match r {
                ReadSource::Buffered(bytes) => {
                    let read = if old(self).buf@.len() <= remaining {
                        old(self).buf@.len() as int
                    } else {
                        remaining as int
                    };
                    &&& old(self).buf@.len() > 0
                    &&& bytes@ == old(self).buf@.take(read)
                    &&& final(self).buf@ == old(self).buf@.skip(read)
                },
                ReadSource::Stream => old(self).buf@.len() == 0 && final(self).buf@ == old(self).buf@,
            },
    {
        if self.buf.len() == 0 {
            return ReadSource::Stream;
        }
        let read = if self.buf.len() <= remaining {
            self.buf.len()
        } else {
            remaining
        };
        let ghost before = self.buf@;
        let mut rest = self.buf.split_off(read);
        core::mem::swap(&mut self.buf, &mut rest);
        proof {
            assert(rest@ =~= before.take(read as int));
            assert(self.buf@ =~= before.skip(read as int));
        }
        ReadSource::Buffered(rest)
    }

    /// What is held, for whoever takes the stream over.
    pub fn into_inner(self) -> (r: Vec<u8>)
        ensures
            r == self.buf,
    {
        self.buf
    }
}

} // verus!
