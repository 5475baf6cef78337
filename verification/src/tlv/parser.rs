//! Reading TLV: from bytes to a tree of elements, and typed access to it.

use vstd::prelude::*;
use crate::error::Error;
use crate::tlv::laws::{lemma_bytes_of_parse};
use crate::tlv::model::{
    elem_bytes, is_container, is_scalar, is_string, len_size, parse_elem, parse_elems, scalar_size,
    tag_of, tag_size, Elem, TagType, END_OF_CONTAINER, TYPE_ARRAY, TYPE_FALSE, TYPE_LIST, TYPE_S16,
    TYPE_S32, TYPE_S64, TYPE_S8, TYPE_STRUCT, TYPE_TRUE, TYPE_U16, TYPE_U32, TYPE_U64, TYPE_U8,
};
use crate::utils::bytes::{copy_range, lemma_pow256_values, pow256, read_le};

verus! {

/// One element read from bytes, with its members where it is a container.
#[derive(Debug)]
pub struct TLVElement {
    pub tag: TagType,
    pub code: u8,
    pub num: u64,
    pub data: Vec<u8>,
    pub children: Vec<TLVElement>,
}

/// The model of an element and, through it, of its members.
pub open spec fn elem_of(e: TLVElement) -> Elem
    decreases e,
{
    Elem {
        tag: e.tag,
        code: e.code,
        num: e.num,
        data: e.data@,
        children: Seq::new(
            e.children@.len(),
            |i: int|
                if 0 <= i < e.children@.len() {
                    elem_of(e.children@[i])
                } else {
                    arbitrary()
                },
        ),
    }
}

impl View for TLVElement {
    type V = Elem;

    open spec fn view(&self) -> Elem {
        elem_of(*self)
    }
}

/// The models of a run of elements.
pub open spec fn elems_view(s: Seq<TLVElement>) -> Seq<Elem> {
    Seq::new(s.len(), |i: int| s[i]@)
}

/// The members of an element's model are the models of its members.
pub proof fn lemma_children_view(e: TLVElement)
    ensures
        e@.children == elems_view(e.children@),
{
    let a = e@.children;
    let b = elems_view(e.children@);
    assert(a.len() == b.len());
    assert forall|i: int| 0 <= i < a.len() implies a[i] == b[i] by {
        assert(b[i] == e.children@[i]@);
    }
    assert(a =~= b);
}

/// The signed number that `num`, read as `size` bytes, stands for in two's
/// complement.
pub open spec fn signed_value(num: u64, size: nat) -> int {
    if 2 * num < pow256(size) {
        num as int
    } else {
        num - pow256(size)
    }
}

/// The index of the first element of `s` that has the context tag `tag`.
pub open spec fn find_ctx(s: Seq<Elem>, tag: u8) -> Option<int>
    decreases s.len(),
{
    if s.len() == 0 {
        None
    } else if s[0].tag == TagType::Context(tag) {
        Some(0)
    } else {
        match find_ctx(s.subrange(1, s.len() as int), tag) {
            Some(i) => Some(i + 1),
            None => None,
        }
    }
}

/// `find_ctx` finds an index in range with the tag, and none before it has
/// the tag.
pub proof fn lemma_find_ctx(s: Seq<Elem>, tag: u8)
    ensures
        match find_ctx(s, tag) {
            Some(i) => 0 <= i < s.len() && s[i].tag == TagType::Context(tag) && forall|j: int|
                0 <= j < i ==> (#[trigger] s[j]).tag != TagType::Context(tag),
            None => forall|j: int| 0 <= j < s.len() ==> (#[trigger] s[j]).tag != TagType::Context(
                tag,
            ),
        },
    decreases s.len(),
{
    if s.len() > 0 && s[0].tag != TagType::Context(tag) {
        let tail = s.subrange(1, s.len() as int);
        lemma_find_ctx(tail, tag);
        match find_ctx(tail, tag) {
            Some(i) => {
                assert forall|j: int| 0 <= j < i + 1 implies (#[trigger] s[j]).tag
                    != TagType::Context(tag) by {
                    if j > 0 {
                        assert(s[j] == tail[j - 1]);
                    }
                }
            },
            None => {
                assert forall|j: int| 0 <= j < s.len() implies (#[trigger] s[j]).tag
                    != TagType::Context(tag) by {
                    if j > 0 {
                        assert(s[j] == tail[j - 1]);
                    }
                }
            },
        }
    }
}

fn tag_size_of(form: u8) -> (n: usize)
    requires
        form < 8,
    ensures
        n == tag_size(form as nat),
        n <= 8,
{
    if form == 0 {
        0
    } else if form == 1 {
        1
    } else if form == 2 || form == 4 {
        2
    } else if form == 3 || form == 5 {
        4
    } else if form == 6 {
        6
    } else {
        8
    }
}

fn make_tag(form: u8, number: u64) -> (t: TagType)
    requires
        form < 8,
        (number as nat) < pow256(tag_size(form as nat)),
    ensures
        t == tag_of(form as nat, number as nat),
{
    proof {
        lemma_pow256_values();
    }
    if form == 0 {
        TagType::Anonymous
    } else if form == 1 {
        TagType::Context(number as u8)
    } else if form == 2 {
        TagType::CommonPrf16(number as u16)
    } else if form == 3 {
        TagType::CommonPrf32(number as u32)
    } else if form == 4 {
        TagType::ImplPrf16(number as u16)
    } else if form == 5 {
        TagType::ImplPrf32(number as u32)
    } else if form == 6 {
        TagType::FullQual48(number)
    } else {
        TagType::FullQual64(number)
    }
}

/// Whether the element type is an integer or a float.
pub fn code_is_scalar(code: u8) -> (b: bool)
    ensures
        b == is_scalar(code),
{
    code <= 7 || code == 10 || code == 11
}

/// Whether the element type is a string.
pub fn code_is_string(code: u8) -> (b: bool)
    ensures
        b == is_string(code),
{
    (12 <= code && code <= 14) || (16 <= code && code <= 18)
}

/// Whether the element type is a container.
pub fn code_is_container(code: u8) -> (b: bool)
    ensures
        b == is_container(code),
{
    21 <= code && code <= 23
}

fn scalar_size_of(code: u8) -> (n: usize)
    ensures
        n == scalar_size(code),
        n <= 8,
{
    if code == 0 || code == 4 {
        1
    } else if code == 1 || code == 5 {
        2
    } else if code == 2 || code == 6 || code == 10 {
        4
    } else {
        8
    }
}

fn len_size_of(code: u8) -> (n: usize)
    ensures
        n == len_size(code),
        n <= 4,
{
    if code == 12 || code == 16 {
        1
    } else if code == 13 || code == 17 {
        2
    } else {
        4
    }
}

/// Reads the element that starts at `off`, and says where it ends. Fails
/// with `InvalidData` where no whole element starts there.
pub fn parse_element(buf: &[u8], off: usize) -> (r: Result<(TLVElement, usize), Error>)
    requires
        off <= buf.len(),
    ensures
        match r {
            Ok((e, end)) => off < end <= buf.len() && parse_elem(
                buf@.subrange(off as int, buf.len() as int),
            ) == Some((e@, end - off)),
            Err(err) => err == Error::InvalidData && parse_elem(
                buf@.subrange(off as int, buf.len() as int),
            ) is None,
        },
    decreases buf.len() - off, 0nat,
{
    let ghost b = buf@.subrange(off as int, buf.len() as int);
    if off >= buf.len() {
        return Err(Error::InvalidData);
    }
    let left: usize = buf.len() - off;
    let control: u8 = buf[off];
    let form: u8 = control / 32;
    let code: u8 = control % 32;
    let ts: usize = tag_size_of(form);
    assert(b[0] == control);
    let scalar: bool = code_is_scalar(code);
    let string: bool = code_is_string(code);
    let container: bool = code_is_container(code);
    let empty: bool = code == TYPE_FALSE || code == TYPE_TRUE || code == 20;
    if !(scalar || string || container || empty) || left < 1 + ts {
        return Err(Error::InvalidData);
    }
    let h: usize = 1 + ts;
    let number: u64 = read_le(buf, off + 1, ts);
    assert(b.subrange(1, h as int) =~= buf@.subrange(off + 1, off + 1 + ts));
    let tag: TagType = make_tag(form, number);
    if scalar {
        let n: usize = scalar_size_of(code);
        if left - h < n {
            return Err(Error::InvalidData);
        }
        let num: u64 = read_le(buf, off + h, n);
        assert(b.subrange(h as int, h + n) =~= buf@.subrange(off + h, off + h + n));
        let e = TLVElement { tag, code, num, data: Vec::new(), children: Vec::new() };
        assert(e@.children =~= Seq::<Elem>::empty());
        assert(e@.data =~= Seq::<u8>::empty());
        Ok((e, off + h + n))
    } else if string {
        let k: usize = len_size_of(code);
        if left - h < k {
            return Err(Error::InvalidData);
        }
        let l: u64 = read_le(buf, off + h, k);
        assert(b.subrange(h as int, h + k) =~= buf@.subrange(off + h, off + h + k));
        if ((left - h - k) as u64) < l {
            return Err(Error::InvalidData);
        }
        let start: usize = off + h + k;
        let end: usize = start + l as usize;
        let data: Vec<u8> = copy_range(buf, start, end);
        assert(b.subrange(h + k, h + k + l) =~= buf@.subrange(start as int, end as int));
        let e = TLVElement { tag, code, num: 0, data, children: Vec::new() };
        assert(e@.children =~= Seq::<Elem>::empty());
        Ok((e, end))
    } else if container {
        let mut children: Vec<TLVElement> = Vec::new();
        assert(b.subrange(h as int, b.len() as int) =~= buf@.subrange(
            off + h,
            buf.len() as int,
        ));
        match parse_children(buf, off + h, &mut children) {
            Ok(end) => {
                let e = TLVElement { tag, code, num: 0, data: Vec::new(), children };
                proof {
                    lemma_children_view(e);
                    assert(elems_view(Seq::<TLVElement>::empty()) =~= Seq::<Elem>::empty());
                    assert(e@.children =~= parse_elems(
                        b.subrange(h as int, b.len() as int),
                    )->Some_0.0);
                    assert(e@.data =~= Seq::<u8>::empty());
                }
                Ok((e, end))
            },
            Err(err) => Err(err),
        }
    } else {
        let e = TLVElement { tag, code, num: 0, data: Vec::new(), children: Vec::new() };
        assert(e@.children =~= Seq::<Elem>::empty());
        assert(e@.data =~= Seq::<u8>::empty());
        Ok((e, off + h))
    }
}

/// Reads the members of a container from `off` up to its end byte, adds
/// them to `acc`, and says where the container ends.
pub fn parse_children(buf: &[u8], off: usize, acc: &mut Vec<TLVElement>) -> (r: Result<
    usize,
    Error,
>)
    requires
        off <= buf.len(),
    ensures
        match r {
            Ok(end) => {
                &&& off < end <= buf.len()
                &&& parse_elems(buf@.subrange(off as int, buf.len() as int)) is Some
                &&& parse_elems(buf@.subrange(off as int, buf.len() as int))->Some_0.1 == end
                    - off
                &&& elems_view(final(acc)@) == elems_view(old(acc)@) + parse_elems(
                    buf@.subrange(off as int, buf.len() as int),
                )->Some_0.0
            },
            Err(err) => err == Error::InvalidData && parse_elems(
                buf@.subrange(off as int, buf.len() as int),
            ) is None,
        },
    decreases buf.len() - off, 1nat,
{
    let ghost b = buf@.subrange(off as int, buf.len() as int);
    if off >= buf.len() {
        return Err(Error::InvalidData);
    }
    assert(b[0] == buf[off as int]);
    if buf[off] == END_OF_CONTAINER {
        assert(elems_view(acc@) + Seq::<Elem>::empty() =~= elems_view(acc@));
        return Ok(off + 1);
    }
    match parse_element(buf, off) {
        Err(err) => Err(err),
        Ok((e, next)) => {
            let ghost ev = e@;
            let ghost before = elems_view(acc@);
            acc.push(e);
            assert(elems_view(acc@) =~= before.push(ev));
            assert(b.subrange(next - off, b.len() as int) =~= buf@.subrange(
                next as int,
                buf.len() as int,
            ));
            match parse_children(buf, next, acc) {
                Err(err) => Err(err),
                Ok(end) => {
                    proof {
                        let rest = parse_elems(
                            buf@.subrange(next as int, buf.len() as int),
                        )->Some_0.0;
                        assert(before.push(ev) + rest =~= before + (seq![ev] + rest));
                    }
                    Ok(end)
                },
            }
        },
    }
}

} // verus!

verus! {

impl TLVElement {
    /// The tag of the element.
    pub fn get_tag(&self) -> (t: TagType)
        ensures
            t == self@.tag,
    {
        self.tag
    }

    /// Whether the element has the context tag `tag`.
    pub fn check_ctx_tag(&self, tag: u8) -> (b: bool)
        ensures
            b == (self@.tag == TagType::Context(tag)),
    {
        match self.tag {
            TagType::Context(t) => t == tag,
            _ => false,
        }
    }

    /// The value of an unsigned integer of one byte.
    pub fn u8(&self) -> (r: Result<u8, Error>)
        ensures
            self.code == TYPE_U8 && self.num <= u8::MAX ==> r == Ok::<u8, Error>(self.num as u8),
            !(self.code == TYPE_U8 && self.num <= u8::MAX) ==> r == Err::<u8, Error>(
                Error::TLVTypeMismatch,
            ),
    {
        if self.code == TYPE_U8 && self.num <= 0xff {
            Ok(self.num as u8)
        } else {
            Err(Error::TLVTypeMismatch)
        }
    }

    /// The value of an unsigned integer of at most two bytes.
    pub fn u16(&self) -> (r: Result<u16, Error>)
        ensures
            TYPE_U8 <= self.code <= TYPE_U16 && self.num <= u16::MAX ==> r == Ok::<u16, Error>(
                self.num as u16,
            ),
            !(TYPE_U8 <= self.code <= TYPE_U16 && self.num <= u16::MAX) ==> r == Err::<
                u16,
                Error,
            >(Error::TLVTypeMismatch),
    {
        if TYPE_U8 <= self.code && self.code <= TYPE_U16 && self.num <= 0xffff {
            Ok(self.num as u16)
        } else {
            Err(Error::TLVTypeMismatch)
        }
    }

    /// The value of an unsigned integer of at most four bytes.
    pub fn u32(&self) -> (r: Result<u32, Error>)
        ensures
            TYPE_U8 <= self.code <= TYPE_U32 && self.num <= u32::MAX ==> r == Ok::<u32, Error>(
                self.num as u32,
            ),
            !(TYPE_U8 <= self.code <= TYPE_U32 && self.num <= u32::MAX) ==> r == Err::<
                u32,
                Error,
            >(Error::TLVTypeMismatch),
    {
        if TYPE_U8 <= self.code && self.code <= TYPE_U32 && self.num <= 0xffff_ffff {
            Ok(self.num as u32)
        } else {
            Err(Error::TLVTypeMismatch)
        }
    }

    /// The value of an unsigned integer of any width.
    pub fn u64(&self) -> (r: Result<u64, Error>)
        ensures
            TYPE_U8 <= self.code <= TYPE_U64 ==> r == Ok::<u64, Error>(self.num),
            !(TYPE_U8 <= self.code <= TYPE_U64) ==> r == Err::<u64, Error>(Error::TLVTypeMismatch),
    {
        if TYPE_U8 <= self.code && self.code <= TYPE_U64 {
            Ok(self.num)
        } else {
            Err(Error::TLVTypeMismatch)
        }
    }

    /// The value of a signed integer of any width. A raw value that does not
    /// fit the width of its type is a type mismatch.
    pub fn i64(&self) -> (r: Result<i64, Error>)
        ensures
            self.code <= TYPE_S64 && self.num < pow256(scalar_size(self.code)) ==> r is Ok
                && r->Ok_0 as int == signed_value(self.num, scalar_size(self.code)),
            !(self.code <= TYPE_S64 && self.num < pow256(scalar_size(self.code))) ==> r == Err::<
                i64,
                Error,
            >(Error::TLVTypeMismatch),
    {
        proof {
            lemma_pow256_values();
        }
        if self.code > TYPE_S64 {
            return Err(Error::TLVTypeMismatch);
        }
        let full: u128 = if self.code == TYPE_S8 {
            0x100
        } else if self.code == TYPE_S16 {
            0x1_0000
        } else if self.code == TYPE_S32 {
            0x1_0000_0000
        } else {
            0x1_0000_0000_0000_0000
        };
        let v: u128 = self.num as u128;
        if v >= full {
            return Err(Error::TLVTypeMismatch);
        }
        if 2 * v < full {
            Ok(v as i64)
        } else {
            Ok((v as i128 - full as i128) as i64)
        }
    }

    /// The value of a boolean.
    pub fn bool(&self) -> (r: Result<bool, Error>)
        ensures
            self.code == TYPE_TRUE ==> r == Ok::<bool, Error>(true),
            self.code == TYPE_FALSE ==> r == Ok::<bool, Error>(false),
            self.code != TYPE_TRUE && self.code != TYPE_FALSE ==> r == Err::<bool, Error>(
                Error::TLVTypeMismatch,
            ),
    {
        if self.code == TYPE_TRUE {
            Ok(true)
        } else if self.code == TYPE_FALSE {
            Ok(false)
        } else {
            Err(Error::TLVTypeMismatch)
        }
    }

    /// The bytes of a UTF-8 or octet string.
    pub fn slice(&self) -> (r: Result<&[u8], Error>)
        ensures
            is_string(self.code) ==> r is Ok && r->Ok_0@ == self.data@,
            !is_string(self.code) ==> r is Err && r->Err_0 == Error::TLVTypeMismatch,
    {
        if code_is_string(self.code) {
            Ok(self.data.as_slice())
        } else {
            Err(Error::TLVTypeMismatch)
        }
    }

    /// The members of a structure.
    pub fn confirm_struct(&self) -> (r: Result<&Vec<TLVElement>, Error>)
        ensures
            self.code == TYPE_STRUCT ==> r is Ok && *r->Ok_0 == self.children,
            self.code != TYPE_STRUCT ==> r is Err && r->Err_0 == Error::TLVTypeMismatch,
    {
        if self.code == TYPE_STRUCT {
            Ok(&self.children)
        } else {
            Err(Error::TLVTypeMismatch)
        }
    }

    /// The members of an array.
    pub fn confirm_array(&self) -> (r: Result<&Vec<TLVElement>, Error>)
        ensures
            self.code == TYPE_ARRAY ==> r is Ok && *r->Ok_0 == self.children,
            self.code != TYPE_ARRAY ==> r is Err && r->Err_0 == Error::TLVTypeMismatch,
    {
        if self.code == TYPE_ARRAY {
            Ok(&self.children)
        } else {
            Err(Error::TLVTypeMismatch)
        }
    }

    /// The members of a list.
    pub fn confirm_list(&self) -> (r: Result<&Vec<TLVElement>, Error>)
        ensures
            self.code == TYPE_LIST ==> r is Ok && *r->Ok_0 == self.children,
            self.code != TYPE_LIST ==> r is Err && r->Err_0 == Error::TLVTypeMismatch,
    {
        if self.code == TYPE_LIST {
            Ok(&self.children)
        } else {
            Err(Error::TLVTypeMismatch)
        }
    }

    /// The first member of a container that has the context tag `tag`. A
    /// tag that no context tag can hold is not found; an element that is no
    /// container is a type mismatch.
    pub fn find_tag(&self, tag: u32) -> (r: Result<&TLVElement, Error>)
        ensures
            !is_container(self.code) ==> r is Err && r->Err_0 == Error::TLVTypeMismatch,
            is_container(self.code) && tag <= 255 ==> match find_ctx(self@.children, tag as u8) {
                Some(i) => r is Ok && *r->Ok_0 == self.children@[i],
                None => r is Err && r->Err_0 == Error::NoTagFound,
            },
            is_container(self.code) && tag > 255 ==> r is Err && r->Err_0 == Error::NoTagFound,
    {
        if !code_is_container(self.code) {
            return Err(Error::TLVTypeMismatch);
        }
        if tag > 255 {
            return Err(Error::NoTagFound);
        }
        let want: u8 = tag as u8;
        let mut i: usize = 0;
        proof {
            lemma_children_view(*self);
            assert(self@.children.subrange(0, self@.children.len() as int) =~= self@.children);
        }
        while i < self.children.len()
            invariant
                i <= self.children.len(),
                is_container(self.code),
                tag <= 255,
                want == tag,
                self@.children == elems_view(self.children@),
                match find_ctx(
                    self@.children.subrange(i as int, self@.children.len() as int),
                    want,
                ) {
                    Some(j) => find_ctx(self@.children, want) == Some(j + i),
                    None => find_ctx(self@.children, want) is None,
                },
            decreases self.children.len() - i,
        {
            let ghost cur = self@.children.subrange(i as int, self@.children.len() as int);
            assert(cur[0] == self.children@[i as int]@);
            assert(cur.subrange(1, cur.len() as int) =~= self@.children.subrange(
                i + 1,
                self@.children.len() as int,
            ));
            if self.children[i].check_ctx_tag(want) {
                return Ok(&self.children[i]);
            }
            i = i + 1;
        }
        Err(Error::NoTagFound)
    }
}

/// Reads the element at the front of `b`; anything after it is ignored.
/// Fails with `InvalidData` where `b` does not start with a whole element.
/// What is read is well formed, and is written as the bytes it was read
/// from.
pub fn get_root_node(b: &[u8]) -> (r: Result<TLVElement, Error>)
    ensures
        match r {
            Ok(e) => {
                &&& parse_elem(b@) is Some
                &&& parse_elem(b@)->Some_0.0 == e@
                &&& e@.wf()
                &&& elem_bytes(e@).len() <= b@.len()
                &&& elem_bytes(e@) == b@.subrange(0, elem_bytes(e@).len() as int)
            },
            Err(err) => err == Error::InvalidData && parse_elem(b@) is None,
        },
{
    assert(b@.subrange(0, b@.len() as int) =~= b@);
    match parse_element(b, 0) {
        Ok((e, end)) => {
            proof {
                lemma_bytes_of_parse(b@);
            }
            Ok(e)
        },
        Err(err) => Err(err),
    }
}

/// Reads the element at the front of `b`, which must be a structure.
pub fn get_root_node_struct(b: &[u8]) -> (r: Result<TLVElement, Error>)
    ensures
        match r {
            Ok(e) => {
                &&& parse_elem(b@) is Some
                &&& parse_elem(b@)->Some_0.0 == e@
                &&& e.code == TYPE_STRUCT
                &&& e@.wf()
                &&& elem_bytes(e@) == b@.subrange(0, elem_bytes(e@).len() as int)
            },
            Err(err) => if parse_elem(b@) is None {
                err == Error::InvalidData
            } else {
                err == Error::TLVTypeMismatch && parse_elem(b@)->Some_0.0.code != TYPE_STRUCT
            },
        },
{
    let e = get_root_node(b)?;
    if e.code == TYPE_STRUCT {
        Ok(e)
    } else {
        Err(Error::TLVTypeMismatch)
    }
}

} // verus!

verus! {

impl TLVElement {
    /// The narrowest unsigned integer element that holds `v`.
    pub fn new_uint(tag: TagType, v: u64) -> (e: TLVElement)
        ensures
            e@ == crate::tlv::writer::uint_elem(tag, v),
    {
        let code: u8 = if v <= 0xff {
            TYPE_U8
        } else if v <= 0xffff {
            TYPE_U16
        } else if v <= 0xffff_ffff {
            TYPE_U32
        } else {
            TYPE_U64
        };
        let e = TLVElement { tag, code, num: v, data: Vec::new(), children: Vec::new() };
        assert(e@.children =~= Seq::<Elem>::empty());
        assert(e@.data =~= Seq::<u8>::empty());
        e
    }

    /// A boolean element.
    pub fn new_bool(tag: TagType, b: bool) -> (e: TLVElement)
        ensures
            e@ == crate::tlv::writer::bool_elem(tag, b),
    {
        let code: u8 = if b {
            TYPE_TRUE
        } else {
            TYPE_FALSE
        };
        let e = TLVElement { tag, code, num: 0, data: Vec::new(), children: Vec::new() };
        assert(e@.children =~= Seq::<Elem>::empty());
        assert(e@.data =~= Seq::<u8>::empty());
        e
    }

    /// A container element with the given members.
    pub fn new_container(tag: TagType, code: u8, children: Vec<TLVElement>) -> (e: TLVElement)
        ensures
            e@ == crate::tlv::model::container(tag, code, elems_view(children@)),
    {
        let e = TLVElement { tag, code, num: 0, data: Vec::new(), children };
        proof {
            lemma_children_view(e);
            assert(e@.data =~= Seq::<u8>::empty());
        }
        e
    }
}

} // verus!

verus! {

impl TLVElement {
    /// A string element of the given element type.
    pub fn new_string(tag: TagType, code: u8, data: Vec<u8>) -> (e: TLVElement)
        ensures
            e@ == crate::tlv::writer::leaf(tag, code, 0, data@),
    {
        let e = TLVElement { tag, code, num: 0, data, children: Vec::new() };
        assert(e@.children =~= Seq::<Elem>::empty());
        e
    }
}

} // verus!
