//! An append-only byte buffer with a fixed capacity.

use vstd::prelude::*;
use crate::error::Error;
use crate::utils::bytes::{le_bytes, push_le, lemma_le_bytes_len};

verus! {

/// Bytes written so far, and the capacity that appends may not exceed.
pub struct WriteBuf {
    buf: Vec<u8>,
    cap: usize,
}

impl View for WriteBuf {
    type V = Seq<u8>;

    closed spec fn view(&self) -> Seq<u8> {
        self.buf@
    }
}

impl WriteBuf {
    /// The most bytes this buffer will ever hold.
    pub closed spec fn capacity(&self) -> nat {
        self.cap as nat
    }

    /// An empty buffer that accepts up to `cap` bytes.
    pub fn new(cap: usize) -> (w: Self)
        ensures
            w@ == Seq::<u8>::empty(),
            w.capacity() == cap,
    {
        WriteBuf { buf: Vec::new(), cap }
    }

    /// The number of bytes written so far.
    pub fn get_tail(&self) -> (n: usize)
        ensures
            n == self@.len(),
    {
        self.buf.len()
    }

    /// The capacity chosen at creation.
    pub fn get_capacity(&self) -> (n: usize)
        ensures
            n == self.capacity(),
    {
        self.cap
    }

    /// Drops everything written after the first `anchor` bytes.
    pub fn rewind_tail_to(&mut self, anchor: usize)
        ensures
            final(self).capacity() == old(self).capacity(),
            anchor <= old(self)@.len() ==> final(self)@ == old(self)@.subrange(0, anchor as int),
            anchor > old(self)@.len() ==> final(self)@ == old(self)@,
    {
        if anchor <= self.buf.len() {
            self.buf.truncate(anchor);
        }
    }

    /// The bytes written so far.
    pub fn as_slice(&self) -> (s: &[u8])
        ensures
            s@ == self@,
    {
        self.buf.as_slice()
    }

    /// Appends `src`, or fails with `NoSpace` and writes nothing.
    pub fn append(&mut self, src: &[u8]) -> (r: Result<(), Error>)
        ensures
            final(self).capacity() == old(self).capacity(),
            old(self)@.len() + src@.len() <= old(self).capacity() ==> r is Ok && final(self)@
                == old(self)@ + src@,
            old(self)@.len() + src@.len() > old(self).capacity() ==> r == Err::<(), Error>(
                Error::NoSpace,
            ) && final(self)@ == old(self)@,
    {
        if self.buf.len() > self.cap || src.len() > self.cap - self.buf.len() {
            return Err(Error::NoSpace);
        }
        let mut i: usize = 0;
        while i < src.len()
            invariant
                i <= src.len(),
                self.cap == old(self).cap,
                self.buf@ == old(self).buf@ + src@.subrange(0, i as int),
                old(self).buf.len() + src.len() <= self.cap,
            decreases src.len() - i,
        {
            self.buf.push(src[i]);
            i = i + 1;
            assert(self.buf@ =~= old(self).buf@ + src@.subrange(0, i as int));
        }
        assert(src@.subrange(0, src.len() as int) =~= src@);
        Ok(())
    }

    /// Appends the `n` low bytes of `v`, least significant first.
    pub fn le_uint(&mut self, n: usize, v: u64) -> (r: Result<(), Error>)
        requires
            n <= 8,
        ensures
            final(self).capacity() == old(self).capacity(),
            old(self)@.len() + n <= old(self).capacity() ==> r is Ok && final(self)@ == old(self)@
                + le_bytes(v as nat, n as nat),
            old(self)@.len() + n > old(self).capacity() ==> r == Err::<(), Error>(Error::NoSpace)
                && final(self)@ == old(self)@,
    {
        proof {
            lemma_le_bytes_len(v as nat, n as nat);
        }
        if self.buf.len() > self.cap || n > self.cap - self.buf.len() {
            return Err(Error::NoSpace);
        }
        push_le(&mut self.buf, v, n);
        Ok(())
    }

    /// Appends one byte.
    pub fn le_u8(&mut self, v: u8) -> (r: Result<(), Error>)
        ensures
            final(self).capacity() == old(self).capacity(),
            old(self)@.len() + 1 <= old(self).capacity() ==> r is Ok && final(self)@ == old(
                self,
            )@.push(v),
            old(self)@.len() + 1 > old(self).capacity() ==> r == Err::<(), Error>(Error::NoSpace)
                && final(self)@ == old(self)@,
    {
        if self.buf.len() >= self.cap {
            return Err(Error::NoSpace);
        }
        self.buf.push(v);
        Ok(())
    }

    /// Appends `v` as two bytes, least significant first.
    pub fn le_u16(&mut self, v: u16) -> (r: Result<(), Error>)
        ensures
            final(self).capacity() == old(self).capacity(),
            old(self)@.len() + 2 <= old(self).capacity() ==> r is Ok && final(self)@ == old(self)@
                + le_bytes(v as nat, 2),
            old(self)@.len() + 2 > old(self).capacity() ==> r == Err::<(), Error>(Error::NoSpace)
                && final(self)@ == old(self)@,
    {
        self.le_uint(2, v as u64)
    }

    /// Appends `v` as four bytes, least significant first.
    pub fn le_u32(&mut self, v: u32) -> (r: Result<(), Error>)
        ensures
            final(self).capacity() == old(self).capacity(),
            old(self)@.len() + 4 <= old(self).capacity() ==> r is Ok && final(self)@ == old(self)@
                + le_bytes(v as nat, 4),
            old(self)@.len() + 4 > old(self).capacity() ==> r == Err::<(), Error>(Error::NoSpace)
                && final(self)@ == old(self)@,
    {
        self.le_uint(4, v as u64)
    }

    /// Appends `v` as eight bytes, least significant first.
    pub fn le_u64(&mut self, v: u64) -> (r: Result<(), Error>)
        ensures
            final(self).capacity() == old(self).capacity(),
            old(self)@.len() + 8 <= old(self).capacity() ==> r is Ok && final(self)@ == old(self)@
                + le_bytes(v as nat, 8),
            old(self)@.len() + 8 > old(self).capacity() ==> r == Err::<(), Error>(Error::NoSpace)
                && final(self)@ == old(self)@,
    {
        self.le_uint(8, v)
    }
}

} // verus!
