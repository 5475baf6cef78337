//! A DER writer with scopes whose length is filled in when they close.

use vstd::prelude::*;
use crate::cert::der::{
    bitstr_content, der_len_bytes, der_tlv, integer_content, strip_zero_bytes, tlv_opt,
    trailing_zero_bits, two_digits, utc_time_text, utctime_content, MAX_DER_CONTENT, TAG_BIT_STRING,
    TAG_BOOLEAN, TAG_CTX_EXPLICIT, TAG_CTX_IMPLICIT, TAG_INTEGER, TAG_OCTET_STRING, TAG_OID,
    TAG_SEQUENCE, TAG_SET, TAG_UTC_TIME, TAG_UTF8_STRING,
};
use crate::cert::time::{civil_from_epoch, CivilTime};
use crate::error::Error;

verus! {

/// The deepest nesting of open scopes.
pub const MAX_DEPTH: usize = 10;

/// What a writer holds: the bytes written, the offsets at which the
/// contents of the open scopes start, outermost first, and the capacity.
pub struct Asn1View {
    pub bytes: Seq<u8>,
    pub open: Seq<int>,
    pub cap: nat,
}

/// How the emission of `add` ends: with the bytes added and the scopes as
/// they were, where there is something to add and it fits; else with
/// `NoSpace`.
pub open spec fn emit_outcome(
    before: Asn1View,
    add: Option<Seq<u8>>,
    r: Result<(), Error>,
    after: Asn1View,
) -> bool {
    &&& after.cap == before.cap
    &&& match add {
        Some(x) => if before.bytes.len() + x.len() <= before.cap {
            r is Ok && after.bytes == before.bytes + x && after.open == before.open
        } else {
            r == Err::<(), Error>(Error::NoSpace)
        },
        None => r == Err::<(), Error>(Error::NoSpace),
    }
}

/// How an emission that may open up to `levels` scopes, one inside the
/// other, ends: as the emission of `add`, where so many scopes can still
/// be opened; else with `NoSpace` and nothing changed.
pub open spec fn nested_outcome(
    before: Asn1View,
    add: Option<Seq<u8>>,
    levels: int,
    r: Result<(), Error>,
    after: Asn1View,
) -> bool {
    if before.open.len() + levels <= MAX_DEPTH {
        emit_outcome(before, add, r, after)
    } else {
        r == Err::<(), Error>(Error::NoSpace) && after == before
    }
}

/// How the opening of a scope with the given tag byte ends: with the tag
/// and one byte for the length written and the scope noted, where the two
/// bytes fit and fewer than ten scopes are open; else with `NoSpace` and
/// nothing changed.
pub open spec fn scope_opened(
    before: Asn1View,
    tag: u8,
    r: Result<(), Error>,
    after: Asn1View,
) -> bool {
    &&& after.cap == before.cap
    &&& if before.bytes.len() + 2 <= before.cap && before.open.len() < MAX_DEPTH {
        &&& r is Ok
        &&& after.bytes == before.bytes + seq![tag, 0u8]
        &&& after.open == before.open.push(before.bytes.len() as int + 2)
    } else {
        r == Err::<(), Error>(Error::NoSpace) && after == before
    }
}

/// How the closing of the innermost scope ends: with the length of its
/// content in place of the byte reserved for it, in as many bytes as it
/// takes, and the content after it. With no scope open it ends with
/// `Invalid`; where the content is longer than 65535 bytes or the longer
/// length does not fit, with `NoSpace`. On failure nothing changes.
pub open spec fn scope_closed(before: Asn1View, r: Result<(), Error>, after: Asn1View) -> bool {
    &&& after.cap == before.cap
    &&& if before.open.len() == 0 {
        r == Err::<(), Error>(Error::Invalid) && after == before
    } else {
        let at = before.open.last();
        let content = before.bytes.subrange(at, before.bytes.len() as int);
        if content.len() <= MAX_DER_CONTENT && at - 1 + der_len_bytes(content.len()).len()
            + content.len() <= before.cap {
            &&& r is Ok
            &&& after.bytes == before.bytes.subrange(0, at - 1) + der_len_bytes(content.len())
                + content
            &&& after.open == before.open.drop_last()
        } else {
            r == Err::<(), Error>(Error::NoSpace) && after == before
        }
    }
}

/// Writes DER into a buffer of fixed capacity.
pub struct ASN1Writer {
    buf: Vec<u8>,
    cap: usize,
    depth: Vec<usize>,
}

impl View for ASN1Writer {
    type V = Asn1View;

    closed spec fn view(&self) -> Asn1View {
        Asn1View {
            bytes: self.buf@,
            open: Seq::new(self.depth@.len(), |i: int| self.depth@[i] as int),
            cap: self.cap as nat,
        }
    }
}

/// The scopes of `v` are at most ten, each starts after its tag and its
/// length byte, inside the bytes written, and after the scope around it.
pub open spec fn asn1_wf(v: Asn1View) -> bool {
    &&& v.bytes.len() <= v.cap
    &&& v.open.len() <= MAX_DEPTH
    &&& forall|i: int| 0 <= i < v.open.len() ==> 2 <= #[trigger] v.open[i] <= v.bytes.len()
    &&& forall|i: int, j: int|
        0 <= i < j < v.open.len() ==> #[trigger] v.open[i] < #[trigger] v.open[j]
}

impl ASN1Writer {
    /// Whether the writer is in a state that its methods keep.
    pub open spec fn wf(&self) -> bool {
        asn1_wf(self@)
    }

    /// A writer with nothing written and no scope open.
    pub fn new(cap: usize) -> (w: Self)
        ensures
            w.wf(),
            w@.bytes == Seq::<u8>::empty(),
            w@.open == Seq::<int>::empty(),
            w@.cap == cap,
    {
        let w = ASN1Writer { buf: Vec::new(), cap, depth: Vec::new() };
        assert(w@.open =~= Seq::<int>::empty());
        w
    }

    /// The bytes written so far.
    pub fn as_slice(&self) -> (s: &[u8])
        ensures
            s@ == self@.bytes,
    {
        self.buf.as_slice()
    }

    /// The number of scopes that are open.
    pub fn open_scopes(&self) -> (n: usize)
        ensures
            n == self@.open.len(),
    {
        self.depth.len()
    }

    /// Opens a scope with the given tag byte: writes the tag and one byte
    /// for the length. Fails with `NoSpace` where the two bytes do not fit
    /// or ten scopes are open, and then writes nothing.
    pub fn add_compound(&mut self, tag: u8) -> (r: Result<(), Error>)
        requires
            old(self).wf(),
        ensures
            final(self).wf(),
            scope_opened(old(self)@, tag, r, final(self)@),
    {
        if self.cap - self.buf.len() < 2 || self.depth.len() >= MAX_DEPTH {
            return Err(Error::NoSpace);
        }
        self.buf.push(tag);
        self.buf.push(0);
        self.depth.push(self.buf.len());
        proof {
            assert(self@.bytes =~= old(self)@.bytes + seq![tag, 0u8]);
            assert(self@.open =~= old(self)@.open.push(old(self)@.bytes.len() as int + 2));
        }
        Ok(())
    }

    /// Closes the innermost scope: puts the length of what was written
    /// since it opened in place of the byte reserved for it, and moves the
    /// content up where the length takes more than that byte. With no scope
    /// open it fails with `Invalid`; where the content is longer than 65535
    /// bytes or the longer length does not fit, with `NoSpace`. On failure
    /// nothing changes.
    pub fn end_compound(&mut self) -> (r: Result<(), Error>)
        requires
            old(self).wf(),
        ensures
            final(self).wf(),
            scope_closed(old(self)@, r, final(self)@),
    {
        if self.depth.len() == 0 {
            return Err(Error::Invalid);
        }
        let at: usize = self.depth[self.depth.len() - 1];
        assert(at as int == self@.open.last());
        assert(2 <= self@.open[self@.open.len() - 1] <= self@.bytes.len());
        let n: usize = self.buf.len() - at;
        if n > MAX_DER_CONTENT {
            return Err(Error::NoSpace);
        }
        let extra: usize = if n < 128 {
            0
        } else if n < 256 {
            1
        } else {
            2
        };
        if self.cap - self.buf.len() < extra {
            return Err(Error::NoSpace);
        }
        let ghost before = self.buf@;
        let ghost content = before.subrange(at as int, before.len() as int);
        if n < 128 {
            self.buf[at - 1] = n as u8;
        } else if n < 256 {
            self.buf[at - 1] = 0x81;
            self.buf.insert(at, n as u8);
        } else {
            self.buf[at - 1] = 0x82;
            self.buf.insert(at, (n / 256) as u8);
            self.buf.insert(at + 1, (n % 256) as u8);
        }
        self.depth.pop();
        proof {
            assert(self@.bytes =~= before.subrange(0, at - 1) + der_len_bytes(content.len())
                + content);
            assert(self@.open =~= old(self)@.open.drop_last());
            assert forall|i: int| 0 <= i < self@.open.len() implies 2 <= #[trigger] self@.open[i]
                <= self@.bytes.len() by {
                assert(self@.open[i] == old(self)@.open[i]);
                assert(old(self)@.open[i] < old(self)@.open[old(self)@.open.len() - 1]);
            }
        }
        Ok(())
    }

    /// Writes a tag, the length of `content`, and `content`. Fails with
    /// `NoSpace`, and writes nothing, where the content is longer than
    /// 65535 bytes or the whole does not fit.
    pub fn append_tlv(&mut self, tag: u8, content: &[u8]) -> (r: Result<(), Error>)
        requires
            old(self).wf(),
        ensures
            final(self).wf(),
            emit_outcome(old(self)@, tlv_opt(tag, Some(content@)), r, final(self)@),
            r is Err ==> final(self)@ == old(self)@,
    {
        let n: usize = content.len();
        if n > MAX_DER_CONTENT {
            return Err(Error::NoSpace);
        }
        let k: usize = if n < 128 {
            1
        } else if n < 256 {
            2
        } else {
            3
        };
        if self.cap - self.buf.len() < 1 + k + n {
            return Err(Error::NoSpace);
        }
        self.buf.push(tag);
        if n < 128 {
            self.buf.push(n as u8);
        } else if n < 256 {
            self.buf.push(0x81);
            self.buf.push(n as u8);
        } else {
            self.buf.push(0x82);
            self.buf.push((n / 256) as u8);
            self.buf.push((n % 256) as u8);
        }
        let ghost base = self.buf@;
        assert(base =~= old(self)@.bytes + seq![tag] + der_len_bytes(n as nat));
        let mut i: usize = 0;
        while i < n
            invariant
                i <= n,
                n == content.len(),
                self.buf@ == base + content@.subrange(0, i as int),
                self.cap == old(self).cap,
                self.depth == old(self).depth,
            decreases n - i,
        {
            self.buf.push(content[i]);
            i = i + 1;
            assert(self.buf@ =~= base + content@.subrange(0, i as int));
        }
        proof {
            assert(content@.subrange(0, n as int) =~= content@);
            assert(self@.bytes =~= old(self)@.bytes + der_tlv(tag, content@));
            assert(self@.open =~= old(self)@.open);
        }
        Ok(())
    }
}

} // verus!

verus! {

/// Closing a scope that was opened after `before` and holds `content`
/// leaves `before` followed by the tag, the length and the content.
pub proof fn lemma_scope_closed(before: Seq<u8>, tag: u8, content: Seq<u8>)
    ensures
        ({
            let mid = before + seq![tag, 0u8] + content;
            let at = before.len() as int + 2;
            &&& mid.subrange(at, mid.len() as int) == content
            &&& mid.subrange(0, at - 1) + der_len_bytes(content.len()) + content == before
                + der_tlv(tag, content)
        }),
{
    let mid = before + seq![tag, 0u8] + content;
    let at = before.len() as int + 2;
    assert(mid.subrange(at, mid.len() as int) =~= content);
    assert(mid.subrange(0, at - 1) + der_len_bytes(content.len()) + content =~= before + der_tlv(
        tag,
        content,
    ));
}

fn push_two_digits(out: &mut Vec<u8>, n: u32)
    requires
        n < 100,
    ensures
        final(out)@ == old(out)@ + two_digits(n as int),
{
    out.push((0x30 + n / 10) as u8);
    out.push((0x30 + n % 10) as u8);
    assert(out@ =~= old(out)@ + two_digits(n as int));
}

/// The thirteen characters of a UTCTime.
pub fn utc_time_chars(t: CivilTime) -> (v: Vec<u8>)
    requires
        t.valid(),
    ensures
        v@ == utc_time_text(t),
        v@.len() == 13,
{
    let mut v: Vec<u8> = Vec::new();
    push_two_digits(&mut v, t.year % 100);
    push_two_digits(&mut v, t.month);
    push_two_digits(&mut v, t.day);
    push_two_digits(&mut v, t.hour);
    push_two_digits(&mut v, t.minute);
    push_two_digits(&mut v, t.second);
    v.push(0x5a);
    assert(v@ =~= utc_time_text(t));
    v
}

fn count_trailing_zero_bits(b: u8) -> (n: u8)
    ensures
        n == trailing_zero_bits(b),
{
    if b % 2 != 0 {
        0
    } else if b % 4 != 0 {
        1
    } else if b % 8 != 0 {
        2
    } else if b % 16 != 0 {
        3
    } else if b % 32 != 0 {
        4
    } else if b % 64 != 0 {
        5
    } else if b % 128 != 0 {
        6
    } else {
        7
    }
}

impl ASN1Writer {
    /// Opens a SEQUENCE.
    pub fn start_seq(&mut self) -> (r: Result<(), Error>)
        requires
            old(self).wf(),
        ensures
            final(self).wf(),
            scope_opened(old(self)@, TAG_SEQUENCE, r, final(self)@),
    {
        self.add_compound(TAG_SEQUENCE)
    }

    /// Opens a SET.
    pub fn start_set(&mut self) -> (r: Result<(), Error>)
        requires
            old(self).wf(),
        ensures
            final(self).wf(),
            scope_opened(old(self)@, TAG_SET, r, final(self)@),
    {
        self.add_compound(TAG_SET)
    }

    /// Opens an OCTET STRING whose content is written piece by piece.
    pub fn start_compound_ostr(&mut self) -> (r: Result<(), Error>)
        requires
            old(self).wf(),
        ensures
            final(self).wf(),
            scope_opened(old(self)@, TAG_OCTET_STRING, r, final(self)@),
    {
        self.add_compound(TAG_OCTET_STRING)
    }

    /// Opens an explicit context tag. A tag number of 32 or more fails with
    /// `Invalid`.
    pub fn start_ctx(&mut self, id: u8) -> (r: Result<(), Error>)
        requires
            old(self).wf(),
        ensures
            final(self).wf(),
            id >= 32 ==> r == Err::<(), Error>(Error::Invalid) && final(self)@ == old(self)@,
            id < 32 ==> scope_opened(old(self)@, (TAG_CTX_EXPLICIT + id) as u8, r, final(self)@),
    {
        if id >= 32 {
            return Err(Error::Invalid);
        }
        self.add_compound(TAG_CTX_EXPLICIT + id)
    }

    /// Closes a SEQUENCE.
    pub fn end_seq(&mut self) -> (r: Result<(), Error>)
        requires
            old(self).wf(),
        ensures
            final(self).wf(),
            scope_closed(old(self)@, r, final(self)@),
    {
        self.end_compound()
    }

    /// Closes a SET.
    pub fn end_set(&mut self) -> (r: Result<(), Error>)
        requires
            old(self).wf(),
        ensures
            final(self).wf(),
            scope_closed(old(self)@, r, final(self)@),
    {
        self.end_compound()
    }

    /// Closes an OCTET STRING that was written piece by piece.
    pub fn end_compound_ostr(&mut self) -> (r: Result<(), Error>)
        requires
            old(self).wf(),
        ensures
            final(self).wf(),
            scope_closed(old(self)@, r, final(self)@),
    {
        self.end_compound()
    }

    /// Closes an explicit context tag.
    pub fn end_ctx(&mut self) -> (r: Result<(), Error>)
        requires
            old(self).wf(),
        ensures
            final(self).wf(),
            scope_closed(old(self)@, r, final(self)@),
    {
        self.end_compound()
    }

    /// Writes an INTEGER from its bytes, most significant first.
    pub fn integer(&mut self, i: &[u8]) -> (r: Result<(), Error>)
        requires
            old(self).wf(),
        ensures
            final(self).wf(),
            emit_outcome(
                old(self)@,
                tlv_opt(TAG_INTEGER, Some(integer_content(i@))),
                r,
                final(self)@,
            ),
            r is Err ==> final(self)@ == old(self)@,
    {
        if i.len() > 0 && i[0] >= 0x80 {
            let mut v: Vec<u8> = Vec::new();
            v.push(0);
            let mut k: usize = 0;
            while k < i.len()
                invariant
                    k <= i.len(),
                    v@ == seq![0u8] + i@.subrange(0, k as int),
                decreases i.len() - k,
            {
                v.push(i[k]);
                k = k + 1;
                assert(v@ =~= seq![0u8] + i@.subrange(0, k as int));
            }
            assert(i@.subrange(0, i.len() as int) =~= i@);
            self.append_tlv(TAG_INTEGER, v.as_slice())
        } else {
            self.append_tlv(TAG_INTEGER, i)
        }
    }

    /// Writes a UTF8String from its bytes.
    pub fn utf8str(&mut self, s: &[u8]) -> (r: Result<(), Error>)
        requires
            old(self).wf(),
        ensures
            final(self).wf(),
            emit_outcome(old(self)@, tlv_opt(TAG_UTF8_STRING, Some(s@)), r, final(self)@),
            r is Err ==> final(self)@ == old(self)@,
    {
        self.append_tlv(TAG_UTF8_STRING, s)
    }

    /// Writes an OCTET STRING.
    pub fn ostr(&mut self, s: &[u8]) -> (r: Result<(), Error>)
        requires
            old(self).wf(),
        ensures
            final(self).wf(),
            emit_outcome(old(self)@, tlv_opt(TAG_OCTET_STRING, Some(s@)), r, final(self)@),
            r is Err ==> final(self)@ == old(self)@,
    {
        self.append_tlv(TAG_OCTET_STRING, s)
    }

    /// Writes an OBJECT IDENTIFIER from its DER content.
    pub fn oid(&mut self, oid: &[u8]) -> (r: Result<(), Error>)
        requires
            old(self).wf(),
        ensures
            final(self).wf(),
            emit_outcome(old(self)@, tlv_opt(TAG_OID, Some(oid@)), r, final(self)@),
            r is Err ==> final(self)@ == old(self)@,
    {
        self.append_tlv(TAG_OID, oid)
    }

    /// Writes a BOOLEAN.
    pub fn bool(&mut self, b: bool) -> (r: Result<(), Error>)
        requires
            old(self).wf(),
        ensures
            final(self).wf(),
            emit_outcome(
                old(self)@,
                tlv_opt(
                    TAG_BOOLEAN,
                    Some(
                        seq![
                            if b {
                                0xffu8
                            } else {
                                0u8
                            },
                        ],
                    ),
                ),
                r,
                final(self)@,
            ),
            r is Err ==> final(self)@ == old(self)@,
    {
        let mut v: Vec<u8> = Vec::new();
        v.push(if b {
            0xff
        } else {
            0
        });
        assert(v@ =~= seq![
            if b {
                0xffu8
            } else {
                0u8
            },
        ]);
        self.append_tlv(TAG_BOOLEAN, v.as_slice())
    }

    /// Writes a BIT STRING. When truncating, the zero bytes at the end of
    /// `s` are left out and the zero bits at the end of the last byte are
    /// counted as unused.
    pub fn bitstr(&mut self, truncate: bool, s: &[u8]) -> (r: Result<(), Error>)
        requires
            old(self).wf(),
        ensures
            final(self).wf(),
            emit_outcome(
                old(self)@,
                tlv_opt(TAG_BIT_STRING, Some(bitstr_content(truncate, s@))),
                r,
                final(self)@,
            ),
            r is Err ==> final(self)@ == old(self)@,
    {
        let mut keep: usize = s.len();
        let mut unused: u8 = 0;
        if truncate {
            assert(s@.subrange(0, keep as int) =~= s@);
            while keep > 0 && s[keep - 1] == 0
                invariant
                    keep <= s.len(),
                    strip_zero_bytes(s@.subrange(0, keep as int)) == strip_zero_bytes(s@),
                decreases keep,
            {
                assert(s@.subrange(0, keep as int).drop_last() =~= s@.subrange(0, keep - 1));
                keep = keep - 1;
            }
            assert(strip_zero_bytes(s@.subrange(0, keep as int)) == s@.subrange(0, keep as int));
            if keep > 0 {
                unused = count_trailing_zero_bits(s[keep - 1]);
            }
        }
        let mut v: Vec<u8> = Vec::new();
        v.push(unused);
        let mut k: usize = 0;
        while k < keep
            invariant
                k <= keep <= s.len(),
                v@ == seq![unused] + s@.subrange(0, k as int),
            decreases keep - k,
        {
            v.push(s[k]);
            k = k + 1;
            assert(v@ =~= seq![unused] + s@.subrange(0, k as int));
        }
        proof {
            if truncate {
                let t = strip_zero_bytes(s@);
                if t.len() == 0 {
                    assert(v@ =~= seq![0u8]);
                }
            } else {
                assert(s@.subrange(0, keep as int) =~= s@);
            }
        }
        self.append_tlv(TAG_BIT_STRING, v.as_slice())
    }

    /// Writes an implicit context tag around `val`. A tag number of 32 or
    /// more fails with `Invalid`.
    pub fn ctx(&mut self, id: u8, val: &[u8]) -> (r: Result<(), Error>)
        requires
            old(self).wf(),
        ensures
            final(self).wf(),
            id >= 32 ==> r == Err::<(), Error>(Error::Invalid),
            id < 32 ==> emit_outcome(
                old(self)@,
                tlv_opt((TAG_CTX_IMPLICIT + id) as u8, Some(val@)),
                r,
                final(self)@,
            ),
            r is Err ==> final(self)@ == old(self)@,
    {
        if id >= 32 {
            return Err(Error::Invalid);
        }
        self.append_tlv(TAG_CTX_IMPLICIT + id, val)
    }

    /// Writes the UTCTime that lies `epoch` seconds after the Matter epoch.
    pub fn utctime(&mut self, epoch: u32) -> (r: Result<(), Error>)
        requires
            old(self).wf(),
        ensures
            final(self).wf(),
            emit_outcome(
                old(self)@,
                tlv_opt(TAG_UTC_TIME, Some(utctime_content(epoch))),
                r,
                final(self)@,
            ),
            r is Err ==> final(self)@ == old(self)@,
    {
        let t: CivilTime = civil_from_epoch(epoch);
        let v: Vec<u8> = utc_time_chars(t);
        self.append_tlv(TAG_UTC_TIME, v.as_slice())
    }
}

} // verus!
