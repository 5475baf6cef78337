//! Writing TLV: typed writers that append whole elements to a buffer.

use vstd::prelude::*;
use crate::error::Error;
use crate::tlv::model::{
    container, elem_bytes, elems_bytes, header_bytes, is_container, is_string, len_size,
    scalar_size, tag_size, Elem, TagType, END_OF_CONTAINER, TYPE_ARRAY, TYPE_FALSE, TYPE_LIST,
    TYPE_NULL, TYPE_S16, TYPE_S32, TYPE_S64, TYPE_S8, TYPE_STR16L, TYPE_STR32L, TYPE_STR8L,
    TYPE_STRUCT, TYPE_TRUE, TYPE_U16, TYPE_U32, TYPE_U64, TYPE_U8, TYPE_UTF16L, TYPE_UTF8L,
};
use crate::utils::bytes::{le_bytes, lemma_pow256_values, pow256, push_le};
use crate::tlv::record::{lemma_present_concat, lemma_present_one, opt_member, present};
use crate::utils::writebuf::WriteBuf;

verus! {

/// How an append of `add` to a buffer of the given capacity ends: with the
/// bytes added where they fit, with `NoSpace` and nothing written where
/// they do not.
pub open spec fn write_outcome(
    before: Seq<u8>,
    cap: nat,
    add: Seq<u8>,
    r: Result<(), Error>,
    after: Seq<u8>,
) -> bool {
    if before.len() + add.len() <= cap {
        r is Ok && after == before + add
    } else {
        r == Err::<(), Error>(Error::NoSpace) && after == before
    }
}

/// How the write of an element with the given tag ends: as an append of
/// `add`, but with `InvalidData` and nothing written where the tag is out
/// of range.
pub open spec fn tagged_outcome(
    tag: TagType,
    before: Seq<u8>,
    cap: nat,
    add: Seq<u8>,
    r: Result<(), Error>,
    after: Seq<u8>,
) -> bool {
    if tag.wf() {
        write_outcome(before, cap, add, r, after)
    } else {
        r == Err::<(), Error>(Error::InvalidData) && after == before
    }
}

/// An element without members.
pub open spec fn leaf(tag: TagType, code: u8, num: u64, data: Seq<u8>) -> Elem {
    Elem { tag, code, num, data, children: Seq::empty() }
}

/// The element type of the narrowest unsigned integer that holds `v`.
pub open spec fn uint_code(v: u64) -> u8 {
    if v <= 0xff {
        TYPE_U8
    } else if v <= 0xffff {
        TYPE_U16
    } else if v <= 0xffff_ffff {
        TYPE_U32
    } else {
        TYPE_U64
    }
}

/// The unsigned integer element that `v` is written as.
pub open spec fn uint_elem(tag: TagType, v: u64) -> Elem {
    leaf(tag, uint_code(v), v, Seq::empty())
}

/// The element type of the narrowest signed integer that holds `v`.
pub open spec fn int_code(v: i64) -> u8 {
    if -0x80 <= v <= 0x7f {
        TYPE_S8
    } else if -0x8000 <= v <= 0x7fff {
        TYPE_S16
    } else if -0x8000_0000 <= v <= 0x7fff_ffff {
        TYPE_S32
    } else {
        TYPE_S64
    }
}

/// The raw value of `v` in two's complement of `size` bytes.
pub open spec fn twos_complement(v: i64, size: nat) -> u64 {
    if v >= 0 {
        v as u64
    } else {
        (v + pow256(size)) as u64
    }
}

/// The signed integer element that `v` is written as.
pub open spec fn int_elem(tag: TagType, v: i64) -> Elem {
    leaf(tag, int_code(v), twos_complement(v, scalar_size(int_code(v))), Seq::empty())
}

/// The boolean element that `b` is written as.
pub open spec fn bool_elem(tag: TagType, b: bool) -> Elem {
    leaf(
        tag,
        if b {
            TYPE_TRUE
        } else {
            TYPE_FALSE
        },
        0,
        Seq::empty(),
    )
}

/// The element type of the octet string with the narrowest length field
/// that holds `len`.
pub open spec fn octets_code(len: nat) -> u8 {
    if len <= 0xff {
        TYPE_STR8L
    } else if len <= 0xffff {
        TYPE_STR16L
    } else {
        TYPE_STR32L
    }
}

/// The octet string element that `data` is written as.
pub open spec fn octets_elem(tag: TagType, data: Seq<u8>) -> Elem {
    leaf(tag, octets_code(data.len()), 0, data)
}

/// The form of `tag`, for the control byte.
pub fn tag_form(tag: TagType) -> (f: u8)
    ensures
        f == tag.form(),
        f < 8,
{
    match tag {
        TagType::Anonymous => 0,
        TagType::Context(_) => 1,
        TagType::CommonPrf16(_) => 2,
        TagType::CommonPrf32(_) => 3,
        TagType::ImplPrf16(_) => 4,
        TagType::ImplPrf32(_) => 5,
        TagType::FullQual48(_) => 6,
        TagType::FullQual64(_) => 7,
    }
}

/// The number that the bytes of `tag` spell.
pub fn tag_number(tag: TagType) -> (n: u64)
    ensures
        n == tag.number(),
{
    match tag {
        TagType::Anonymous => 0,
        TagType::Context(v) => v as u64,
        TagType::CommonPrf16(v) => v as u64,
        TagType::CommonPrf32(v) => v as u64,
        TagType::ImplPrf16(v) => v as u64,
        TagType::ImplPrf32(v) => v as u64,
        TagType::FullQual48(v) => v,
        TagType::FullQual64(v) => v,
    }
}

/// Whether the number of `tag` fits its bytes.
pub fn tag_is_wf(tag: TagType) -> (b: bool)
    ensures
        b == tag.wf(),
{
    match tag {
        TagType::FullQual48(v) => v < 0x1_0000_0000_0000,
        _ => true,
    }
}

fn tag_len(form: u8) -> (n: usize)
    requires
        form < 8,
    ensures
        n == tag_size(form as nat),
        n <= 8,
{
    if form == 0 {
        0
    } else if form == 1 {
        1
    } else if form == 2 || form == 4 {
        2
    } else if form == 3 || form == 5 {
        4
    } else if form == 6 {
        6
    } else {
        8
    }
}

fn header_vec(tag: TagType, code: u8) -> (v: Vec<u8>)
    requires
        code < 32,
    ensures
        v@ == header_bytes(tag, code),
{
    let form: u8 = tag_form(tag);
    let mut v: Vec<u8> = Vec::new();
    v.push(form * 32 + code);
    push_le(&mut v, tag_number(tag), tag_len(form));
    assert(v@ =~= header_bytes(tag, code));
    v
}

/// Appends TLV elements to a buffer of fixed capacity. Every write is whole
/// or not at all.
pub struct TLVWriter {
    buf: WriteBuf,
}

impl View for TLVWriter {
    type V = Seq<u8>;

    /// The bytes written so far.
    closed spec fn view(&self) -> Seq<u8> {
        self.buf@
    }
}

impl TLVWriter {
    /// The most bytes the buffer will ever hold.
    pub closed spec fn capacity(&self) -> nat {
        self.buf.capacity()
    }

    /// A writer that appends to `buf`.
    pub fn new(buf: WriteBuf) -> (w: Self)
        ensures
            w@ == buf@,
            w.capacity() == buf.capacity(),
    {
        TLVWriter { buf }
    }

    /// The buffer, with everything written to it.
    pub fn into_buf(self) -> (buf: WriteBuf)
        ensures
            buf@ == self@,
            buf.capacity() == self.capacity(),
    {
        self.buf
    }

    /// The bytes written so far.
    pub fn as_slice(&self) -> (s: &[u8])
        ensures
            s@ == self@,
    {
        self.buf.as_slice()
    }

    /// The number of bytes written so far.
    pub fn get_tail(&self) -> (n: usize)
        ensures
            n == self@.len(),
    {
        self.buf.get_tail()
    }

    /// Drops everything written after the first `anchor` bytes.
    pub fn rewind_to(&mut self, anchor: usize)
        ensures
            final(self).capacity() == old(self).capacity(),
            anchor <= old(self)@.len() ==> final(self)@ == old(self)@.subrange(0, anchor as int),
            anchor > old(self)@.len() ==> final(self)@ == old(self)@,
    {
        self.buf.rewind_tail_to(anchor)
    }

    /// Appends raw bytes.
    pub fn put_raw(&mut self, bytes: &[u8]) -> (r: Result<(), Error>)
        ensures
            final(self).capacity() == old(self).capacity(),
            write_outcome(old(self)@, old(self).capacity(), bytes@, r, final(self)@),
    {
        self.buf.append(bytes)
    }

    /// Appends an element without members: a scalar, a string, a boolean or
    /// null, as `code` says.
    fn put_leaf(&mut self, tag: TagType, code: u8, num: u64, data: &[u8]) -> (r: Result<
        (),
        Error,
    >)
        requires
            leaf(tag, code, num, data@).wf() || !tag.wf(),
            code < 21,
        ensures
            final(self).capacity() == old(self).capacity(),
            tagged_outcome(
                tag,
                old(self)@,
                old(self).capacity(),
                elem_bytes(leaf(tag, code, num, data@)),
                r,
                final(self)@,
            ),
    {
        if !tag_is_wf(tag) {
            return Err(Error::InvalidData);
        }
        let mut v: Vec<u8> = header_vec(tag, code);
        proof {
            lemma_pow256_values();
        }
        if code <= 7 || code == 10 || code == 11 {
            let n: usize = if code == 0 || code == 4 {
                1
            } else if code == 1 || code == 5 {
                2
            } else if code == 2 || code == 6 || code == 10 {
                4
            } else {
                8
            };
            push_le(&mut v, num, n);
        } else if (12 <= code && code <= 14) || (16 <= code && code <= 18) {
            let k: usize = if code == 12 || code == 16 {
                1
            } else if code == 13 || code == 17 {
                2
            } else {
                4
            };
            push_le(&mut v, data.len() as u64, k);
            let mut i: usize = 0;
            let ghost base = v@;
            while i < data.len()
                invariant
                    i <= data.len(),
                    v@ == base + data@.subrange(0, i as int),
                decreases data.len() - i,
            {
                v.push(data[i]);
                i = i + 1;
                assert(v@ =~= base + data@.subrange(0, i as int));
            }
            assert(data@.subrange(0, data.len() as int) =~= data@);
            assert(v@ =~= header_bytes(tag, code) + (le_bytes(data@.len(), len_size(code))
                + data@));
        } else {
            assert(v@ =~= header_bytes(tag, code) + Seq::<u8>::empty());
        }
        self.buf.append(v.as_slice())
    }

    /// Appends the header that opens a container.
    fn put_start(&mut self, tag: TagType, code: u8) -> (r: Result<(), Error>)
        requires
            code < 32,
        ensures
            final(self).capacity() == old(self).capacity(),
            tagged_outcome(
                tag,
                old(self)@,
                old(self).capacity(),
                header_bytes(tag, code),
                r,
                final(self)@,
            ),
    {
        if !tag_is_wf(tag) {
            return Err(Error::InvalidData);
        }
        let v: Vec<u8> = header_vec(tag, code);
        self.buf.append(v.as_slice())
    }

    /// Appends `v` as the narrowest unsigned integer that holds it.
    pub fn u64(&mut self, tag: TagType, v: u64) -> (r: Result<(), Error>)
        ensures
            final(self).capacity() == old(self).capacity(),
            tagged_outcome(
                tag,
                old(self)@,
                old(self).capacity(),
                elem_bytes(uint_elem(tag, v)),
                r,
                final(self)@,
            ),
    {
        proof {
            lemma_pow256_values();
        }
        let code: u8 = if v <= 0xff {
            TYPE_U8
        } else if v <= 0xffff {
            TYPE_U16
        } else if v <= 0xffff_ffff {
            TYPE_U32
        } else {
            TYPE_U64
        };
        let none: Vec<u8> = Vec::new();
        self.put_leaf(tag, code, v, none.as_slice())
    }

    /// Appends `v` as the narrowest unsigned integer that holds it.
    pub fn u32(&mut self, tag: TagType, v: u32) -> (r: Result<(), Error>)
        ensures
            final(self).capacity() == old(self).capacity(),
            tagged_outcome(
                tag,
                old(self)@,
                old(self).capacity(),
                elem_bytes(uint_elem(tag, v as u64)),
                r,
                final(self)@,
            ),
    {
        self.u64(tag, v as u64)
    }

    /// Appends `v` as the narrowest unsigned integer that holds it.
    pub fn u16(&mut self, tag: TagType, v: u16) -> (r: Result<(), Error>)
        ensures
            final(self).capacity() == old(self).capacity(),
            tagged_outcome(
                tag,
                old(self)@,
                old(self).capacity(),
                elem_bytes(uint_elem(tag, v as u64)),
                r,
                final(self)@,
            ),
    {
        self.u64(tag, v as u64)
    }

    /// Appends `v` as an unsigned integer of one byte.
    pub fn u8(&mut self, tag: TagType, v: u8) -> (r: Result<(), Error>)
        ensures
            final(self).capacity() == old(self).capacity(),
            tagged_outcome(
                tag,
                old(self)@,
                old(self).capacity(),
                elem_bytes(uint_elem(tag, v as u64)),
                r,
                final(self)@,
            ),
    {
        self.u64(tag, v as u64)
    }

    /// Appends `v` as the narrowest signed integer that holds it.
    pub fn i64(&mut self, tag: TagType, v: i64) -> (r: Result<(), Error>)
        ensures
            final(self).capacity() == old(self).capacity(),
            tagged_outcome(
                tag,
                old(self)@,
                old(self).capacity(),
                elem_bytes(int_elem(tag, v)),
                r,
                final(self)@,
            ),
    {
        proof {
            lemma_pow256_values();
        }
        let none: Vec<u8> = Vec::new();
        if -0x80 <= v && v <= 0x7f {
            let raw: u64 = if v >= 0 {
                v as u64
            } else {
                (v + 0x100) as u64
            };
            self.put_leaf(tag, TYPE_S8, raw, none.as_slice())
        } else if -0x8000 <= v && v <= 0x7fff {
            let raw: u64 = if v >= 0 {
                v as u64
            } else {
                (v + 0x1_0000) as u64
            };
            self.put_leaf(tag, TYPE_S16, raw, none.as_slice())
        } else if -0x8000_0000 <= v && v <= 0x7fff_ffff {
            let raw: u64 = if v >= 0 {
                v as u64
            } else {
                (v + 0x1_0000_0000) as u64
            };
            self.put_leaf(tag, TYPE_S32, raw, none.as_slice())
        } else {
            let raw: u64 = if v >= 0 {
                v as u64
            } else {
                (v as i128 + 0x1_0000_0000_0000_0000) as u64
            };
            self.put_leaf(tag, TYPE_S64, raw, none.as_slice())
        }
    }

    /// Appends a boolean.
    pub fn bool(&mut self, tag: TagType, b: bool) -> (r: Result<(), Error>)
        ensures
            final(self).capacity() == old(self).capacity(),
            tagged_outcome(
                tag,
                old(self)@,
                old(self).capacity(),
                elem_bytes(bool_elem(tag, b)),
                r,
                final(self)@,
            ),
    {
        let none: Vec<u8> = Vec::new();
        let code: u8 = if b {
            TYPE_TRUE
        } else {
            TYPE_FALSE
        };
        self.put_leaf(tag, code, 0, none.as_slice())
    }

    /// Appends a null.
    pub fn null(&mut self, tag: TagType) -> (r: Result<(), Error>)
        ensures
            final(self).capacity() == old(self).capacity(),
            tagged_outcome(
                tag,
                old(self)@,
                old(self).capacity(),
                elem_bytes(leaf(tag, TYPE_NULL, 0, Seq::empty())),
                r,
                final(self)@,
            ),
    {
        let none: Vec<u8> = Vec::new();
        self.put_leaf(tag, TYPE_NULL, 0, none.as_slice())
    }

    /// Appends a string of the element type `code`, whose length field must
    /// hold the length of `data`: where it does not, fails with `Invalid`
    /// and writes nothing.
    fn put_string(&mut self, tag: TagType, code: u8, data: &[u8]) -> (r: Result<(), Error>)
        requires
            is_string(code),
        ensures
            final(self).capacity() == old(self).capacity(),
            data@.len() < pow256(len_size(code)) ==> tagged_outcome(
                tag,
                old(self)@,
                old(self).capacity(),
                elem_bytes(leaf(tag, code, 0, data@)),
                r,
                final(self)@,
            ),
            data@.len() >= pow256(len_size(code)) ==> r == Err::<(), Error>(Error::Invalid)
                && final(self)@ == old(self)@,
    {
        proof {
            lemma_pow256_values();
        }
        let limit: u64 = if code == 12 || code == 16 {
            0x100
        } else if code == 13 || code == 17 {
            0x1_0000
        } else {
            0x1_0000_0000
        };
        if data.len() as u64 >= limit {
            return Err(Error::Invalid);
        }
        self.put_leaf(tag, code, 0, data)
    }

    /// Appends an octet string with a length field of one byte.
    pub fn str8(&mut self, tag: TagType, data: &[u8]) -> (r: Result<(), Error>)
        ensures
            final(self).capacity() == old(self).capacity(),
            data@.len() < 0x100 ==> tagged_outcome(
                tag,
                old(self)@,
                old(self).capacity(),
                elem_bytes(leaf(tag, TYPE_STR8L, 0, data@)),
                r,
                final(self)@,
            ),
            data@.len() >= 0x100 ==> r == Err::<(), Error>(Error::Invalid) && final(self)@ == old(
                self,
            )@,
    {
        proof {
            lemma_pow256_values();
        }
        self.put_string(tag, TYPE_STR8L, data)
    }

    /// Appends an octet string with a length field of two bytes.
    pub fn str16(&mut self, tag: TagType, data: &[u8]) -> (r: Result<(), Error>)
        ensures
            final(self).capacity() == old(self).capacity(),
            data@.len() < 0x1_0000 ==> tagged_outcome(
                tag,
                old(self)@,
                old(self).capacity(),
                elem_bytes(leaf(tag, TYPE_STR16L, 0, data@)),
                r,
                final(self)@,
            ),
            data@.len() >= 0x1_0000 ==> r == Err::<(), Error>(Error::Invalid) && final(self)@
                == old(self)@,
    {
        proof {
            lemma_pow256_values();
        }
        self.put_string(tag, TYPE_STR16L, data)
    }

    /// Appends a UTF-8 string with a length field of one byte.
    pub fn utf8(&mut self, tag: TagType, data: &[u8]) -> (r: Result<(), Error>)
        ensures
            final(self).capacity() == old(self).capacity(),
            data@.len() < 0x100 ==> tagged_outcome(
                tag,
                old(self)@,
                old(self).capacity(),
                elem_bytes(leaf(tag, TYPE_UTF8L, 0, data@)),
                r,
                final(self)@,
            ),
            data@.len() >= 0x100 ==> r == Err::<(), Error>(Error::Invalid) && final(self)@ == old(
                self,
            )@,
    {
        proof {
            lemma_pow256_values();
        }
        self.put_string(tag, TYPE_UTF8L, data)
    }

    /// Appends a UTF-8 string with a length field of two bytes.
    pub fn utf16(&mut self, tag: TagType, data: &[u8]) -> (r: Result<(), Error>)
        ensures
            final(self).capacity() == old(self).capacity(),
            data@.len() < 0x1_0000 ==> tagged_outcome(
                tag,
                old(self)@,
                old(self).capacity(),
                elem_bytes(leaf(tag, TYPE_UTF16L, 0, data@)),
                r,
                final(self)@,
            ),
            data@.len() >= 0x1_0000 ==> r == Err::<(), Error>(Error::Invalid) && final(self)@
                == old(self)@,
    {
        proof {
            lemma_pow256_values();
        }
        self.put_string(tag, TYPE_UTF16L, data)
    }

    /// Appends an octet string with the narrowest length field that holds
    /// its length. A string of four gigabytes or more fails with `Invalid`.
    pub fn octets(&mut self, tag: TagType, data: &[u8]) -> (r: Result<(), Error>)
        ensures
            final(self).capacity() == old(self).capacity(),
            data@.len() < 0x1_0000_0000 ==> tagged_outcome(
                tag,
                old(self)@,
                old(self).capacity(),
                elem_bytes(octets_elem(tag, data@)),
                r,
                final(self)@,
            ),
            data@.len() >= 0x1_0000_0000 ==> r == Err::<(), Error>(Error::Invalid) && final(self)@
                == old(self)@,
    {
        proof {
            lemma_pow256_values();
        }
        if data.len() <= 0xff {
            self.put_string(tag, TYPE_STR8L, data)
        } else if data.len() <= 0xffff {
            self.put_string(tag, TYPE_STR16L, data)
        } else {
            self.put_string(tag, TYPE_STR32L, data)
        }
    }

    /// Opens a structure.
    pub fn start_struct(&mut self, tag: TagType) -> (r: Result<(), Error>)
        ensures
            final(self).capacity() == old(self).capacity(),
            tagged_outcome(
                tag,
                old(self)@,
                old(self).capacity(),
                header_bytes(tag, TYPE_STRUCT),
                r,
                final(self)@,
            ),
    {
        self.put_start(tag, TYPE_STRUCT)
    }

    /// Opens an array.
    pub fn start_array(&mut self, tag: TagType) -> (r: Result<(), Error>)
        ensures
            final(self).capacity() == old(self).capacity(),
            tagged_outcome(
                tag,
                old(self)@,
                old(self).capacity(),
                header_bytes(tag, TYPE_ARRAY),
                r,
                final(self)@,
            ),
    {
        self.put_start(tag, TYPE_ARRAY)
    }

    /// Opens a list.
    pub fn start_list(&mut self, tag: TagType) -> (r: Result<(), Error>)
        ensures
            final(self).capacity() == old(self).capacity(),
            tagged_outcome(
                tag,
                old(self)@,
                old(self).capacity(),
                header_bytes(tag, TYPE_LIST),
                r,
                final(self)@,
            ),
    {
        self.put_start(tag, TYPE_LIST)
    }

    /// Closes the container opened last.
    pub fn end_container(&mut self) -> (r: Result<(), Error>)
        ensures
            final(self).capacity() == old(self).capacity(),
            write_outcome(
                old(self)@,
                old(self).capacity(),
                seq![END_OF_CONTAINER],
                r,
                final(self)@,
            ),
    {
        let r = self.buf.le_u8(END_OF_CONTAINER);
        assert(old(self)@.push(END_OF_CONTAINER) =~= old(self)@ + seq![END_OF_CONTAINER]);
        r
    }
}

} // verus!

verus! {

/// How the write of a whole container with the given tag ends: with the
/// bytes added where they fit, else with `NoSpace`; with `InvalidData`
/// where the tag is out of range.
pub open spec fn composite_outcome(
    tag: TagType,
    before: Seq<u8>,
    cap: nat,
    add: Seq<u8>,
    r: Result<(), Error>,
    after: Seq<u8>,
) -> bool {
    if !tag.wf() {
        r == Err::<(), Error>(Error::InvalidData)
    } else if before.len() + add.len() <= cap {
        r is Ok && after == before + add
    } else {
        r == Err::<(), Error>(Error::NoSpace)
    }
}

/// The bytes of a container whose members are partly written: the members
/// done, the next one, and the rest.
pub proof fn lemma_members_step(done: Seq<Elem>, ahead: Seq<Elem>)
    requires
        ahead.len() > 0,
    ensures
        crate::tlv::model::elems_bytes(done + ahead) == crate::tlv::model::elems_bytes(done)
            + elem_bytes(ahead[0]) + crate::tlv::model::elems_bytes(
            ahead.subrange(1, ahead.len() as int),
        ),
        crate::tlv::model::elems_bytes(done.push(ahead[0])) == crate::tlv::model::elems_bytes(done)
            + elem_bytes(ahead[0]),
        done.push(ahead[0]) + ahead.subrange(1, ahead.len() as int) == done + ahead,
{
    crate::tlv::model::lemma_elems_bytes_concat(done, ahead);
    crate::tlv::model::lemma_elems_bytes_push(done, ahead[0]);
    assert(done.push(ahead[0]) + ahead.subrange(1, ahead.len() as int) =~= done + ahead);
    assert(crate::tlv::model::elems_bytes(done) + (elem_bytes(ahead[0])
        + crate::tlv::model::elems_bytes(ahead.subrange(1, ahead.len() as int)))
        =~= crate::tlv::model::elems_bytes(done) + elem_bytes(ahead[0])
        + crate::tlv::model::elems_bytes(ahead.subrange(1, ahead.len() as int)));
}

/// The bytes of a container are its header, its members and the end byte.
pub proof fn lemma_container_bytes(tag: TagType, code: u8, children: Seq<Elem>)
    requires
        is_container(code),
    ensures
        elem_bytes(container(tag, code, children)) == header_bytes(tag, code) + elems_bytes(
            children,
        ) + seq![END_OF_CONTAINER],
{
    assert(elem_bytes(container(tag, code, children)) =~= header_bytes(tag, code) + elems_bytes(
        children,
    ) + seq![END_OF_CONTAINER]);
}

/// Where the bytes to add start with what was added so far and go on with
/// `next`, they are at least as long as the two together.
pub proof fn lemma_too_long(
    before: Seq<u8>,
    all: Seq<u8>,
    mid: Seq<u8>,
    next: Seq<u8>,
    rest: Seq<u8>,
)
    requires
        before + all == mid + next + rest,
    ensures
        before.len() + all.len() >= mid.len() + next.len(),
{
    assert((before + all).len() == before.len() + all.len());
    assert((mid + next).len() == mid.len() + next.len());
    assert((mid + next + rest).len() == (mid + next).len() + rest.len());
}

/// How the write of one member ends, as the writers state it.
pub open spec fn member_outcome(
    mid: Seq<u8>,
    cap: nat,
    x: Seq<u8>,
    r: Result<(), Error>,
    after: Seq<u8>,
) -> bool {
    if mid.len() + x.len() <= cap {
        r is Ok && after == mid + x
    } else {
        r == Err::<(), Error>(Error::NoSpace)
    }
}

/// One member more is written, or the whole container does not fit.
pub proof fn lemma_member_written(
    before: Seq<u8>,
    cap: nat,
    all: Seq<u8>,
    header: Seq<u8>,
    done: Seq<Elem>,
    ahead: Seq<Elem>,
    mid: Seq<u8>,
    r: Result<(), Error>,
    after: Seq<u8>,
)
    requires
        ahead.len() > 0,
        all == header + elems_bytes(done + ahead) + seq![END_OF_CONTAINER],
        mid == before + header + elems_bytes(done),
        member_outcome(mid, cap, elem_bytes(ahead[0]), r, after),
    ensures
        r is Ok ==> after == before + header + elems_bytes(done.push(ahead[0])),
        r is Err ==> r == Err::<(), Error>(Error::NoSpace) && before.len() + all.len() > cap,
        done.push(ahead[0]) + ahead.subrange(1, ahead.len() as int) == done + ahead,
{
    lemma_members_step(done, ahead);
    let rest = elems_bytes(ahead.subrange(1, ahead.len() as int)) + seq![END_OF_CONTAINER];
    assert(before + all =~= mid + elem_bytes(ahead[0]) + rest);
    lemma_too_long(before, all, mid, elem_bytes(ahead[0]), rest);
    if r is Ok {
        assert(after =~= before + header + elems_bytes(done.push(ahead[0])));
    }
}

/// The header of a container is written, or the whole container does not
/// fit.
pub proof fn lemma_header_written(
    tag: TagType,
    code: u8,
    children: Seq<Elem>,
    before: Seq<u8>,
    cap: nat,
    r: Result<(), Error>,
    after: Seq<u8>,
)
    requires
        is_container(code),
        tagged_outcome(tag, before, cap, header_bytes(tag, code), r, after),
    ensures
        r is Ok ==> tag.wf() && after == before + header_bytes(tag, code) + elems_bytes(
            Seq::<Elem>::empty(),
        ),
        r is Err ==> composite_outcome(
            tag,
            before,
            cap,
            elem_bytes(container(tag, code, children)),
            r,
            after,
        ),
{
    lemma_container_bytes(tag, code, children);
    let all = elem_bytes(container(tag, code, children));
    assert(all.len() == (header_bytes(tag, code) + elems_bytes(children)).len() + 1);
    assert((header_bytes(tag, code) + elems_bytes(children)).len() == header_bytes(tag, code).len()
        + elems_bytes(children).len());
    assert(before + header_bytes(tag, code) + elems_bytes(Seq::<Elem>::empty()) =~= before
        + header_bytes(tag, code));
}

/// The end byte closes a container whose members are all written, or the
/// whole container does not fit.
pub proof fn lemma_end_written(
    tag: TagType,
    code: u8,
    children: Seq<Elem>,
    before: Seq<u8>,
    cap: nat,
    mid: Seq<u8>,
    r: Result<(), Error>,
    after: Seq<u8>,
)
    requires
        is_container(code),
        tag.wf(),
        mid == before + header_bytes(tag, code) + elems_bytes(children),
        write_outcome(mid, cap, seq![END_OF_CONTAINER], r, after),
    ensures
        composite_outcome(tag, before, cap, elem_bytes(container(tag, code, children)), r, after),
{
    lemma_container_bytes(tag, code, children);
    let all = elem_bytes(container(tag, code, children));
    assert(mid + seq![END_OF_CONTAINER] =~= before + all);
    assert((mid + seq![END_OF_CONTAINER]).len() == mid.len() + 1);
    assert((before + all).len() == before.len() + all.len());
}

/// One field more is written, or passed over where it is absent, or the
/// whole container does not fit.
pub proof fn lemma_field_written(
    before: Seq<u8>,
    cap: nat,
    tag: TagType,
    code: u8,
    fields: Seq<Option<Elem>>,
    k: int,
    mid: Seq<u8>,
    r: Result<(), Error>,
    after: Seq<u8>,
)
    requires
        is_container(code),
        0 <= k < fields.len(),
        mid == before + header_bytes(tag, code) + elems_bytes(present(fields.subrange(0, k))),
        match fields[k] {
            Some(x) => member_outcome(mid, cap, elem_bytes(x), r, after),
            None => r is Ok && after == mid,
        },
    ensures
        r is Ok ==> after == before + header_bytes(tag, code) + elems_bytes(
            present(fields.subrange(0, k + 1)),
        ),
        r is Err ==> r == Err::<(), Error>(Error::NoSpace) && before.len() + elem_bytes(
            container(tag, code, present(fields)),
        ).len() > cap,
{
    let a = fields.subrange(0, k);
    let rest = fields.subrange(k + 1, fields.len() as int);
    let all = elem_bytes(container(tag, code, present(fields)));
    lemma_container_bytes(tag, code, present(fields));
    assert(fields =~= a + seq![fields[k]] + rest);
    lemma_present_concat(a + seq![fields[k]], rest);
    lemma_present_concat(a, seq![fields[k]]);
    lemma_present_one(fields[k]);
    assert(fields.subrange(0, k + 1) =~= a + seq![fields[k]]);
    match fields[k] {
        Some(x) => {
            let ahead = seq![x] + present(rest);
            assert(present(a) + ahead =~= present(fields));
            lemma_member_written(
                before,
                cap,
                all,
                header_bytes(tag, code),
                present(a),
                ahead,
                mid,
                r,
                after,
            );
            assert(present(a).push(x) =~= present(a) + opt_member(fields[k]));
        },
        None => {
            assert(present(a) + opt_member(fields[k]) =~= present(a));
        },
    }
}


} // verus!

verus! {

/// Whether `after` starts with `before`.
pub open spec fn extends(before: Seq<u8>, after: Seq<u8>) -> bool {
    after.len() >= before.len() && after.subrange(0, before.len() as int) == before
}

/// How a write in several steps ends: with the bytes added where they fit;
/// else with `NoSpace` and, after what was there before, whatever was
/// written until the space ran out.
pub open spec fn write_or_fail(
    before: Seq<u8>,
    cap: nat,
    add: Seq<u8>,
    r: Result<(), Error>,
    after: Seq<u8>,
) -> bool {
    if before.len() + add.len() <= cap {
        r is Ok && after == before + add
    } else {
        r == Err::<(), Error>(Error::NoSpace) && extends(before, after)
    }
}

impl TLVWriter {
    /// Appends a whole element with its members, or fails with `NoSpace`
    /// where it does not fit. On failure what was written of it is not
    /// taken back.
    pub fn put_element(&mut self, e: &crate::tlv::parser::TLVElement) -> (r: Result<(), Error>)
        requires
            e@.wf(),
        ensures
            final(self).capacity() == old(self).capacity(),
            write_or_fail(old(self)@, old(self).capacity(), elem_bytes(e@), r, final(self)@),
        decreases e,
    {
        proof {
            crate::tlv::parser::lemma_children_view(*e);
        }
        if e.code >= crate::tlv::model::TYPE_STRUCT {
            let ghost members = e@.children;
            let ghost cap = self.capacity();
            let ghost before = self@;
            let ghost all = elem_bytes(e@);
            let ghost header = header_bytes(e.tag, e.code);
            proof {
                assert(e@ == container(e.tag, e.code, members)) by {
                    assert(e@.data =~= Seq::<u8>::empty());
                }
                lemma_container_bytes(e.tag, e.code, members);
            }
            let r0 = self.put_start(e.tag, e.code);
            proof {
                lemma_header_written(e.tag, e.code, members, before, cap, r0, self@);
                assert(members.subrange(0, 0) =~= Seq::<Elem>::empty());
            }
            if r0.is_err() {
                assert(self@.subrange(0, before.len() as int) =~= before);
                return r0;
            }
            let mut i: usize = 0;
            while i < e.children.len()
                invariant
                    i <= e.children.len(),
                    e@.wf(),
                    members == e@.children,
                    members == crate::tlv::parser::elems_view(e.children@),
                    cap == old(self).capacity(),
                    before == old(self)@,
                    self.capacity() == cap,
                    header == header_bytes(e.tag, e.code),
                    all == elem_bytes(e@),
                    all == header + elems_bytes(members) + seq![END_OF_CONTAINER],
                    self@ == before + header + elems_bytes(members.subrange(0, i as int)),
                decreases e.children.len() - i,
            {
                let ghost done = members.subrange(0, i as int);
                let ghost ahead = members.subrange(i as int, members.len() as int);
                let ghost mid = self@;
                proof {
                    assert(ahead[0] == e.children@[i as int]@);
                    assert(members[i as int].wf());
                }
                let r1 = self.put_element(&e.children[i]);
                proof {
                    assert(done + ahead =~= members);
                    lemma_member_written(before, cap, all, header, done, ahead, mid, r1, self@);
                    assert(done.push(ahead[0]) =~= members.subrange(0, i + 1));
                }
                if r1.is_err() {
                    assert(self@.subrange(0, before.len() as int) =~= mid.subrange(
                        0,
                        before.len() as int,
                    ));
                    assert(mid.subrange(0, before.len() as int) =~= before);
                    return r1;
                }
                i = i + 1;
            }
            let ghost mid = self@;
            let r2 = self.end_container();
            proof {
                assert(members.subrange(0, i as int) =~= members);
                lemma_end_written(e.tag, e.code, members, before, cap, mid, r2, self@);
                assert(mid.subrange(0, before.len() as int) =~= before);
            }
            r2
        } else {
            proof {
                assert(e@ == leaf(e.tag, e.code, e.num, e.data@)) by {
                    assert(e@.children =~= Seq::<Elem>::empty());
                }
            }
            let r = self.put_leaf(e.tag, e.code, e.num, e.data.as_slice());
            assert(self@.subrange(0, old(self)@.len() as int) =~= old(self)@) by {
                if r is Ok {
                    assert(self@ == old(self)@ + elem_bytes(e@));
                }
            }
            r
        }
    }

    /// Appends a whole element with its members, or fails with `NoSpace`
    /// and writes nothing where it does not fit.
    pub fn element(&mut self, e: &crate::tlv::parser::TLVElement) -> (r: Result<(), Error>)
        requires
            e@.wf(),
        ensures
            final(self).capacity() == old(self).capacity(),
            write_outcome(old(self)@, old(self).capacity(), elem_bytes(e@), r, final(self)@),
    {
        let anchor: usize = self.get_tail();
        let r = self.put_element(e);
        if r.is_err() {
            self.rewind_to(anchor);
        }
        r
    }
}

} // verus!
