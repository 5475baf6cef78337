//! The mathematical model of TLV: what an element is, the bytes it is
//! written as, and what a byte string is read as.

use vstd::prelude::*;
use crate::utils::bytes::{
    le_bytes, le_value, lemma_le_bytes_len, lemma_le_value_bound, lemma_pow256_values, pow256,
};

verus! {

/// The tag of an element: none, a context number, or one of the
/// profile-scoped forms.
#[derive(Debug, PartialEq, Eq, Clone, Copy, Structural)]
pub enum TagType {
    Anonymous,
    Context(u8),
    CommonPrf16(u16),
    CommonPrf32(u32),
    ImplPrf16(u16),
    ImplPrf32(u32),
    FullQual48(u64),
    FullQual64(u64),
}

pub const TYPE_S8: u8 = 0;
pub const TYPE_S16: u8 = 1;
pub const TYPE_S32: u8 = 2;
pub const TYPE_S64: u8 = 3;
pub const TYPE_U8: u8 = 4;
pub const TYPE_U16: u8 = 5;
pub const TYPE_U32: u8 = 6;
pub const TYPE_U64: u8 = 7;
pub const TYPE_FALSE: u8 = 8;
pub const TYPE_TRUE: u8 = 9;
pub const TYPE_F32: u8 = 10;
pub const TYPE_F64: u8 = 11;
pub const TYPE_UTF8L: u8 = 12;
pub const TYPE_UTF16L: u8 = 13;
pub const TYPE_UTF32L: u8 = 14;
pub const TYPE_STR8L: u8 = 16;
pub const TYPE_STR16L: u8 = 17;
pub const TYPE_STR32L: u8 = 18;
pub const TYPE_NULL: u8 = 20;
pub const TYPE_STRUCT: u8 = 21;
pub const TYPE_ARRAY: u8 = 22;
pub const TYPE_LIST: u8 = 23;
pub const END_OF_CONTAINER: u8 = 24;

impl TagType {
    /// The three-bit tag form that the control byte carries.
    pub open spec fn form(self) -> nat {
        match self {
            TagType::Anonymous => 0,
            TagType::Context(_) => 1,
            TagType::CommonPrf16(_) => 2,
            TagType::CommonPrf32(_) => 3,
            TagType::ImplPrf16(_) => 4,
            TagType::ImplPrf32(_) => 5,
            TagType::FullQual48(_) => 6,
            TagType::FullQual64(_) => 7,
        }
    }

    /// The number that the tag bytes spell.
    pub open spec fn number(self) -> nat {
        match self {
            TagType::Anonymous => 0,
            TagType::Context(v) => v as nat,
            TagType::CommonPrf16(v) => v as nat,
            TagType::CommonPrf32(v) => v as nat,
            TagType::ImplPrf16(v) => v as nat,
            TagType::ImplPrf32(v) => v as nat,
            TagType::FullQual48(v) => v as nat,
            TagType::FullQual64(v) => v as nat,
        }
    }

    /// A six-byte tag holds a number of at most 48 bits.
    pub open spec fn wf(self) -> bool {
        match self {
            TagType::FullQual48(v) => v < 0x1_0000_0000_0000,
            _ => true,
        }
    }
}

/// The number of tag bytes that follow the control byte, by tag form.
pub open spec fn tag_size(form: nat) -> nat {
    if form == 0 {
        0
    } else if form == 1 {
        1
    } else if form == 2 || form == 4 {
        2
    } else if form == 3 || form == 5 {
        4
    } else if form == 6 {
        6
    } else {
        8
    }
}

/// The tag of the given form whose bytes spell `number`.
pub open spec fn tag_of(form: nat, number: nat) -> TagType {
    if form == 0 {
        TagType::Anonymous
    } else if form == 1 {
        TagType::Context(number as u8)
    } else if form == 2 {
        TagType::CommonPrf16(number as u16)
    } else if form == 3 {
        TagType::CommonPrf32(number as u32)
    } else if form == 4 {
        TagType::ImplPrf16(number as u16)
    } else if form == 5 {
        TagType::ImplPrf32(number as u32)
    } else if form == 6 {
        TagType::FullQual48(number as u64)
    } else {
        TagType::FullQual64(number as u64)
    }
}

/// Whether the element type is an integer or a float, which has a value of
/// fixed width.
pub open spec fn is_scalar(code: u8) -> bool {
    code <= 7 || code == 10 || code == 11
}

/// The width in bytes of the value of a scalar element type.
pub open spec fn scalar_size(code: u8) -> nat {
    if code == 0 || code == 4 {
        1
    } else if code == 1 || code == 5 {
        2
    } else if code == 2 || code == 6 || code == 10 {
        4
    } else {
        8
    }
}

/// Whether the element type is a UTF-8 or octet string with a length field
/// of one, two or four bytes.
pub open spec fn is_string(code: u8) -> bool {
    (12 <= code <= 14) || (16 <= code <= 18)
}

/// The width in bytes of the length field of a string element type.
pub open spec fn len_size(code: u8) -> nat {
    if code == 12 || code == 16 {
        1
    } else if code == 13 || code == 17 {
        2
    } else {
        4
    }
}

/// Whether the element type has no value bytes: a boolean or null.
pub open spec fn is_empty_kind(code: u8) -> bool {
    code == 8 || code == 9 || code == 20
}

/// Whether the element type is a structure, an array or a list.
pub open spec fn is_container(code: u8) -> bool {
    21 <= code <= 23
}

/// Whether `code` is an element type that this codec reads and writes.
pub open spec fn is_element_code(code: u8) -> bool {
    is_scalar(code) || is_string(code) || is_empty_kind(code) || is_container(code)
}

/// One element: its tag, its element type, and what the type calls for: the
/// raw value of a scalar, the bytes of a string, the members of a container.
pub struct Elem {
    pub tag: TagType,
    pub code: u8,
    pub num: u64,
    pub data: Seq<u8>,
    pub children: Seq<Elem>,
}

impl Elem {
    /// The element holds exactly what its type calls for, in range, and so do
    /// its members.
    pub open spec fn wf(self) -> bool
        decreases self,
    {
        &&& self.tag.wf()
        &&& is_element_code(self.code)
        &&& (is_scalar(self.code) ==> self.num < pow256(scalar_size(self.code)))
        &&& (!is_scalar(self.code) ==> self.num == 0)
        &&& (is_string(self.code) ==> self.data.len() < pow256(len_size(self.code)))
        &&& (!is_string(self.code) ==> self.data.len() == 0)
        &&& (!is_container(self.code) ==> self.children.len() == 0)
        &&& forall|i: int| 0 <= i < self.children.len() ==> (#[trigger] self.children[i]).wf()
    }
}

/// An element with members.
pub open spec fn container(tag: TagType, code: u8, children: Seq<Elem>) -> Elem {
    Elem { tag, code, num: 0, data: Seq::empty(), children }
}

/// Whether every element of `s` is well formed.
pub open spec fn all_wf(s: Seq<Elem>) -> bool {
    forall|i: int| 0 <= i < s.len() ==> (#[trigger] s[i]).wf()
}

/// The control byte: tag form in the three high bits, element type in the
/// five low bits.
pub open spec fn control_byte(tag: TagType, code: u8) -> u8 {
    (tag.form() * 32 + code) as u8
}

/// The control byte and the tag bytes of an element.
pub open spec fn header_bytes(tag: TagType, code: u8) -> Seq<u8> {
    seq![control_byte(tag, code)] + le_bytes(tag.number(), tag_size(tag.form()))
}

/// The bytes that an element is written as.
pub open spec fn elem_bytes(e: Elem) -> Seq<u8>
    decreases e,
{
    header_bytes(e.tag, e.code) + (if is_scalar(e.code) {
        le_bytes(e.num as nat, scalar_size(e.code))
    } else if is_string(e.code) {
        le_bytes(e.data.len(), len_size(e.code)) + e.data
    } else if is_container(e.code) {
        elems_bytes(e.children) + seq![END_OF_CONTAINER]
    } else {
        Seq::<u8>::empty()
    })
}

/// The bytes that a run of elements is written as, one after the other.
pub open spec fn elems_bytes(s: Seq<Elem>) -> Seq<u8>
    decreases s,
{
    if s.len() == 0 {
        Seq::<u8>::empty()
    } else {
        elem_bytes(s[0]) + elems_bytes(s.subrange(1, s.len() as int))
    }
}

/// What the front of `b` is read as: an element and the number of bytes it
/// takes, or nothing where `b` does not start with a whole element.
pub open spec fn parse_elem(b: Seq<u8>) -> Option<(Elem, int)>
    decreases b.len(), 0nat,
{
    if b.len() == 0 {
        None
    } else {
        let form = (b[0] / 32) as nat;
        let code = (b[0] % 32) as u8;
        let h: int = 1 + tag_size(form) as int;
        if !is_element_code(code) || b.len() < h {
            None
        } else {
            let tag = tag_of(form, le_value(b.subrange(1, h)));
            if is_scalar(code) {
                let n: int = scalar_size(code) as int;
                if b.len() < h + n {
                    None
                } else {
                    Some(
                        (
                            Elem {
                                tag,
                                code,
                                num: le_value(b.subrange(h, h + n)) as u64,
                                data: Seq::empty(),
                                children: Seq::empty(),
                            },
                            h + n,
                        ),
                    )
                }
            } else if is_string(code) {
                let k: int = len_size(code) as int;
                if b.len() < h + k {
                    None
                } else {
                    let l: int = le_value(b.subrange(h, h + k)) as int;
                    if b.len() < h + k + l {
                        None
                    } else {
                        Some(
                            (
                                Elem {
                                    tag,
                                    code,
                                    num: 0,
                                    data: b.subrange(h + k, h + k + l),
                                    children: Seq::empty(),
                                },
                                h + k + l,
                            ),
                        )
                    }
                }
            } else if is_container(code) {
                match parse_elems(b.subrange(h, b.len() as int)) {
                    Some((cs, n)) => Some(
                        (Elem { tag, code, num: 0, data: Seq::empty(), children: cs }, h + n),
                    ),
                    None => None,
                }
            } else {
                Some(
                    (Elem { tag, code, num: 0, data: Seq::empty(), children: Seq::empty() }, h),
                )
            }
        }
    }
}

/// What the front of `b` is read as inside a container: the members up to
/// the end-of-container byte, and the number of bytes taken, that byte
/// included.
pub open spec fn parse_elems(b: Seq<u8>) -> Option<(Seq<Elem>, int)>
    decreases b.len(), 1nat,
{
    if b.len() == 0 {
        None
    } else if b[0] == END_OF_CONTAINER {
        Some((Seq::empty(), 1))
    } else {
        match parse_elem(b) {
            None => None,
            Some((e, n)) => if n <= 0 || n > b.len() {
                None
            } else {
                match parse_elems(b.subrange(n, b.len() as int)) {
                    None => None,
                    Some((rest, m)) => Some((seq![e] + rest, n + m)),
                }
            },
        }
    }
}

/// A tag is the tag of its own form and number, and its number fits its
/// bytes.
pub proof fn lemma_tag_round_trip(tag: TagType)
    requires
        tag.wf(),
    ensures
        tag.form() < 8,
        tag.number() < pow256(tag_size(tag.form())),
        tag_of(tag.form(), tag.number()) == tag,
{
    lemma_pow256_values();
}

/// The tag read from bytes has the form it was read as, and its number is
/// the one the bytes spell.
pub proof fn lemma_tag_of_bytes(form: nat, s: Seq<u8>)
    requires
        form < 8,
        s.len() == tag_size(form),
    ensures
        tag_of(form, le_value(s)).wf(),
        tag_of(form, le_value(s)).form() == form,
        tag_of(form, le_value(s)).number() == le_value(s),
{
    lemma_pow256_values();
    lemma_le_value_bound(s);
    if form == 0 {
        assert(le_value(s) == 0);
    }
}

/// The header of an element is one byte longer than its tag bytes.
pub proof fn lemma_header_len(tag: TagType, code: u8)
    ensures
        header_bytes(tag, code).len() == 1 + tag_size(tag.form()),
{
    lemma_le_bytes_len(tag.number(), tag_size(tag.form()));
}

/// Writing a run that is split in two writes the first part, then the
/// second.
pub proof fn lemma_elems_bytes_concat(a: Seq<Elem>, b: Seq<Elem>)
    ensures
        elems_bytes(a + b) == elems_bytes(a) + elems_bytes(b),
    decreases a.len(),
{
    if a.len() == 0 {
        assert(a + b =~= b);
        assert(elems_bytes(a) + elems_bytes(b) =~= elems_bytes(b));
    } else {
        let tail = a.subrange(1, a.len() as int);
        lemma_elems_bytes_concat(tail, b);
        assert((a + b).subrange(1, (a + b).len() as int) =~= tail + b);
        assert((a + b)[0] == a[0]);
        assert(elems_bytes(a + b) =~= elems_bytes(a) + elems_bytes(b));
    }
}

/// Writing a run with one more element writes the run, then the element.
pub proof fn lemma_elems_bytes_push(a: Seq<Elem>, e: Elem)
    ensures
        elems_bytes(a.push(e)) == elems_bytes(a) + elem_bytes(e),
{
    lemma_elems_bytes_concat(a, seq![e]);
    assert(a.push(e) =~= a + seq![e]);
    assert(seq![e].subrange(1, 1) =~= Seq::<Elem>::empty());
    assert(elems_bytes(Seq::<Elem>::empty()) =~= Seq::<u8>::empty());
    assert(seq![e][0] == e);
    assert(elems_bytes(seq![e]) =~= elem_bytes(e));
}

} // verus!
