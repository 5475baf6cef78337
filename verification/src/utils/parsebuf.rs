//! A read cursor over received bytes.

use vstd::prelude::*;
use crate::error::Error;
use crate::utils::bytes::{le_value, pow256, read_le, lemma_pow256_values};

verus! {

/// Received bytes and how far they have been read.
pub struct ParseBuf {
    buf: Vec<u8>,
    read_off: usize,
}

impl View for ParseBuf {
    type V = Seq<u8>;

    /// The bytes not yet read.
    closed spec fn view(&self) -> Seq<u8> {
        if self.read_off <= self.buf.len() {
            self.buf@.subrange(self.read_off as int, self.buf.len() as int)
        } else {
            Seq::<u8>::empty()
        }
    }
}

impl ParseBuf {
    /// A cursor at the start of a copy of `src`.
    pub fn new(src: &[u8]) -> (p: Self)
        ensures
            p@ == src@,
    {
        let mut buf: Vec<u8> = Vec::new();
        let mut i: usize = 0;
        while i < src.len()
            invariant
                i <= src.len(),
                buf@ == src@.subrange(0, i as int),
            decreases src.len() - i,
        {
            buf.push(src[i]);
            i = i + 1;
            assert(buf@ =~= src@.subrange(0, i as int));
        }
        assert(buf@ =~= src@);
        assert(buf@.subrange(0, buf.len() as int) =~= buf@);
        ParseBuf { buf, read_off: 0 }
    }

    /// The number of bytes not yet read.
    pub fn left(&self) -> (n: usize)
        ensures
            n == self@.len(),
    {
        if self.read_off <= self.buf.len() {
            self.buf.len() - self.read_off
        } else {
            0
        }
    }

    /// The bytes not yet read.
    pub fn as_slice(&self) -> (s: &[u8])
        ensures
            s@ == self@,
    {
        if self.read_off <= self.buf.len() {
            vstd::slice::slice_subrange(self.buf.as_slice(), self.read_off, self.buf.len())
        } else {
            vstd::slice::slice_subrange(self.buf.as_slice(), 0, 0)
        }
    }

    /// Reads `n` bytes as a little-endian number, or fails with
    /// `TruncatedPacket` and reads nothing.
    pub fn le_uint(&mut self, n: usize) -> (r: Result<u64, Error>)
        requires
            n <= 8,
        ensures
            old(self)@.len() >= n ==> r is Ok && r->Ok_0 as nat == le_value(
                old(self)@.subrange(0, n as int),
            ) && (r->Ok_0 as nat) < pow256(n as nat) && final(self)@ == old(self)@.subrange(
                n as int,
                old(self)@.len() as int,
            ),
            old(self)@.len() < n ==> r == Err::<u64, Error>(Error::TruncatedPacket) && final(self)@
                == old(self)@,
    {
        if n > self.left() {
            return Err(Error::TruncatedPacket);
        }
        if n == 0 {
            assert(self@.subrange(0, 0) =~= Seq::<u8>::empty());
            assert(self@.subrange(0, self@.len() as int) =~= self@);
            return Ok(0);
        }
        let v: u64 = read_le(self.buf.as_slice(), self.read_off, n);
        assert(old(self)@.subrange(0, n as int) =~= self.buf@.subrange(
            self.read_off as int,
            self.read_off + n,
        ));
        self.read_off = self.read_off + n;
        assert(self@ =~= old(self)@.subrange(n as int, old(self)@.len() as int));
        Ok(v)
    }

    /// Reads one byte.
    pub fn le_u8(&mut self) -> (r: Result<u8, Error>)
        ensures
            old(self)@.len() >= 1 ==> r is Ok && r->Ok_0 == old(self)@[0] && final(self)@ == old(
                self,
            )@.subrange(1, old(self)@.len() as int),
            old(self)@.len() < 1 ==> r == Err::<u8, Error>(Error::TruncatedPacket) && final(self)@
                == old(self)@,
    {
        if self.read_off >= self.buf.len() {
            return Err(Error::TruncatedPacket);
        }
        let v: u8 = self.buf[self.read_off];
        self.read_off = self.read_off + 1;
        assert(self@ =~= old(self)@.subrange(1, old(self)@.len() as int));
        Ok(v)
    }

    /// Reads two bytes as a little-endian number.
    pub fn le_u16(&mut self) -> (r: Result<u16, Error>)
        ensures
            old(self)@.len() >= 2 ==> r is Ok && r->Ok_0 as nat == le_value(
                old(self)@.subrange(0, 2),
            ) && final(self)@ == old(self)@.subrange(2, old(self)@.len() as int),
            old(self)@.len() < 2 ==> r == Err::<u16, Error>(Error::TruncatedPacket) && final(self)@
                == old(self)@,
    {
        proof {
            lemma_pow256_values();
        }
        match self.le_uint(2) {
            Ok(v) => Ok(v as u16),
            Err(e) => Err(e),
        }
    }

    /// Reads four bytes as a little-endian number.
    pub fn le_u32(&mut self) -> (r: Result<u32, Error>)
        ensures
            old(self)@.len() >= 4 ==> r is Ok && r->Ok_0 as nat == le_value(
                old(self)@.subrange(0, 4),
            ) && final(self)@ == old(self)@.subrange(4, old(self)@.len() as int),
            old(self)@.len() < 4 ==> r == Err::<u32, Error>(Error::TruncatedPacket) && final(self)@
                == old(self)@,
    {
        proof {
            lemma_pow256_values();
        }
        match self.le_uint(4) {
            Ok(v) => Ok(v as u32),
            Err(e) => Err(e),
        }
    }
}

} // verus!
