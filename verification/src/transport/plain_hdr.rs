//! The unencrypted header that starts every message.

use vstd::prelude::*;
use crate::error::Error;
use crate::utils::bytes::{le_bytes, le_value};
use crate::utils::parsebuf::ParseBuf;
use crate::utils::writebuf::WriteBuf;

verus! {

/// Whether a message belongs to a secured session.
#[derive(Debug, PartialEq, Eq, Clone, Copy, Structural)]
pub enum SessionType {
    Plain,
    Encrypted,
}

impl Default for SessionType {
    fn default() -> (r: SessionType)
        ensures
            r == SessionType::Plain,
    {
        SessionType::Plain
    }
}

/// The fields of the unencrypted header.
#[derive(Debug)]
pub struct PlainHdr {
    pub flags: u8,
    pub sess_type: SessionType,
    pub sess_id: u16,
    pub ctr: u32,
}

impl Default for PlainHdr {
    fn default() -> (r: PlainHdr)
        ensures
            r.flags == 0,
            r.sess_type == SessionType::Plain,
            r.sess_id == 0,
            r.ctr == 0,
    {
        PlainHdr { flags: 0, sess_type: SessionType::Plain, sess_id: 0, ctr: 0 }
    }
}

/// The session type that a session identifier implies.
pub open spec fn session_type_of(sess_id: u16) -> SessionType {
    if sess_id != 0 {
        SessionType::Encrypted
    } else {
        SessionType::Plain
    }
}

/// The eight bytes that a header is written as: flags, session identifier,
/// a zero security-flags byte, message counter.
pub open spec fn plain_hdr_bytes(flags: u8, sess_id: u16, ctr: u32) -> Seq<u8> {
    seq![flags] + le_bytes(sess_id as nat, 2) + seq![0u8] + le_bytes(ctr as nat, 4)
}

/// How many bytes of a message of `n` bytes the reading of a header takes:
/// the fields are read one after the other, and the reading stops before
/// the first field that the message does not hold whole.
pub open spec fn decoded_len(n: int) -> int {
    if n >= 8 {
        8
    } else if n >= 4 {
        4
    } else if n >= 3 {
        3
    } else if n >= 1 {
        1
    } else {
        0
    }
}

/// The bytes of a header that are written where `room` bytes are free: the
/// fields are written one after the other, and the writing stops before
/// the first field that does not fit whole.
pub open spec fn encoded_prefix(flags: u8, sess_id: u16, ctr: u32, room: int) -> Seq<u8> {
    if room >= 8 {
        plain_hdr_bytes(flags, sess_id, ctr)
    } else if room >= 4 {
        seq![flags] + le_bytes(sess_id as nat, 2) + seq![0u8]
    } else if room >= 3 {
        seq![flags] + le_bytes(sess_id as nat, 2)
    } else if room >= 1 {
        seq![flags]
    } else {
        Seq::empty()
    }
}

impl PlainHdr {
    /// Reads the header from the front of `msg`, field by field: the flags,
    /// the session identifier, the security flags, which are passed over,
    /// and the message counter. A session identifier other than zero names
    /// a secured session. Where the message ends within a field, the
    /// reading fails with `TruncatedPacket`; the fields before it were
    /// read, and the session type follows the session identifier once the
    /// security flags were read.
    pub fn decode(&mut self, msg: &mut ParseBuf) -> (r: Result<(), Error>)
        ensures
            r == if old(msg)@.len() >= 8 {
                Ok::<(), Error>(())
            } else {
                Err::<(), Error>(Error::TruncatedPacket)
            },
            final(msg)@ == old(msg)@.subrange(
                decoded_len(old(msg)@.len() as int),
                old(msg)@.len() as int,
            ),
            final(self).flags == if old(msg)@.len() >= 1 {
                old(msg)@[0]
            } else {
                old(self).flags
            },
            final(self).sess_id as nat == if old(msg)@.len() >= 3 {
                le_value(old(msg)@.subrange(1, 3))
            } else {
                old(self).sess_id as nat
            },
            final(self).sess_type == if old(msg)@.len() >= 4 {
                session_type_of(final(self).sess_id)
            } else {
                old(self).sess_type
            },
            final(self).ctr as nat == if old(msg)@.len() >= 8 {
                le_value(old(msg)@.subrange(4, 8))
            } else {
                old(self).ctr as nat
            },
    {
        let ghost m0 = msg@;
        assert(m0.subrange(0, m0.len() as int) =~= m0);
        match msg.le_u8() {
            Ok(flags) => {
                self.flags = flags;
            },
            Err(e) => {
                return Err(e);
            },
        }
        let ghost m1 = msg@;
        match msg.le_u16() {
            Ok(sess_id) => {
                self.sess_id = sess_id;
            },
            Err(e) => {
                return Err(e);
            },
        }
        assert(m1.subrange(0, 2) =~= m0.subrange(1, 3));
        assert(msg@ =~= m0.subrange(3, m0.len() as int));
        match msg.le_u8() {
            Ok(_) => {},
            Err(e) => {
                return Err(e);
            },
        }
        assert(msg@ =~= m0.subrange(4, m0.len() as int));
        self.sess_type = if self.sess_id != 0 {
            SessionType::Encrypted
        } else {
            SessionType::Plain
        };
        let ghost m3 = msg@;
        match msg.le_u32() {
            Ok(ctr) => {
                self.ctr = ctr;
            },
            Err(e) => {
                return Err(e);
            },
        }
        assert(m3.subrange(0, 4) =~= m0.subrange(4, 8));
        assert(msg@ =~= m0.subrange(8, m0.len() as int));
        Ok(())
    }

    /// Appends the header to `resp_buf`, field by field: the flags, the
    /// session identifier, a zero byte of security flags, and the message
    /// counter. Where a field does not fit, the writing fails with
    /// `NoSpace`; the fields before it were written.
    pub fn encode(&mut self, resp_buf: &mut WriteBuf) -> (r: Result<(), Error>)
        ensures
            *final(self) == *old(self),
            final(resp_buf).capacity() == old(resp_buf).capacity(),
            r == if old(resp_buf)@.len() + 8 <= old(resp_buf).capacity() {
                Ok::<(), Error>(())
            } else {
                Err::<(), Error>(Error::NoSpace)
            },
            final(resp_buf)@ == old(resp_buf)@ + encoded_prefix(
                old(self).flags,
                old(self).sess_id,
                old(self).ctr,
                old(resp_buf).capacity() - old(resp_buf)@.len(),
            ),
    {
        let ghost b0 = resp_buf@;
        proof {
            crate::utils::bytes::lemma_le_bytes_len(self.sess_id as nat, 2);
            crate::utils::bytes::lemma_le_bytes_len(self.ctr as nat, 4);
            assert(b0 + Seq::<u8>::empty() =~= b0);
        }
        match resp_buf.le_u8(self.flags) {
            Ok(()) => {},
            Err(e) => {
                return Err(e);
            },
        }
        assert(resp_buf@ =~= b0 + seq![self.flags]);
        match resp_buf.le_u16(self.sess_id) {
            Ok(()) => {},
            Err(e) => {
                return Err(e);
            },
        }
        assert(resp_buf@ =~= b0 + (seq![self.flags] + le_bytes(self.sess_id as nat, 2)));
        match resp_buf.le_u8(0) {
            Ok(()) => {},
            Err(e) => {
                return Err(e);
            },
        }
        assert(resp_buf@ =~= b0 + (seq![self.flags] + le_bytes(self.sess_id as nat, 2) + seq![0u8]));
        match resp_buf.le_u32(self.ctr) {
            Ok(()) => {},
            Err(e) => {
                return Err(e);
            },
        }
        assert(resp_buf@ =~= b0 + plain_hdr_bytes(self.flags, self.sess_id, self.ctr));
        Ok(())
    }

    /// Whether the header names a secured session.
    pub fn is_encrypted(&self) -> (b: bool)
        ensures
            b == (self.sess_type == SessionType::Encrypted),
    {
        self.sess_type == SessionType::Encrypted
    }
}

/// The most bytes a header can take: an optional length prefix, the fixed
/// part, and the optional source and destination node identifiers.
pub fn max_plain_hdr_len() -> (n: usize)
    ensures
        n == 26,
{
    2 + 1 + 1 + 2 + 4 + 8 + 8
}

} // verus!
