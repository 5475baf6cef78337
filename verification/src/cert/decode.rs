//! Reading the parts of a certificate from TLV elements.

use vstd::prelude::*;
use crate::cert::model::{
    basic_const_of_elem, dn_of_elem, dn_of_members, elem_octets, u8_array_of_elem, u8s_of_members,
    BasicConstraints,
};
use crate::error::Error;
use crate::tlv::model::{Elem, TagType, TYPE_ARRAY, TYPE_LIST};
use crate::tlv::parser::{elems_view, lemma_children_view, TLVElement};
use crate::tlv::record::{
    derive_fromtlv, lemma_record_tags_untagged, no_overrides, record_tags, untagged, RecordKind,
    TlvArgs,
};

verus! {

/// The bytes of a string element, copied.
pub fn octets_from(e: &TLVElement) -> (r: Result<Vec<u8>, Error>)
    ensures
        match r {
            Ok(v) => elem_octets(e@) == Ok::<Seq<u8>, Error>(v@),
            Err(x) => elem_octets(e@) == Err::<Seq<u8>, Error>(x),
        },
{
    match e.slice() {
        Ok(s) => Ok(vstd::slice::slice_to_vec(s)),
        Err(x) => Err(x),
    }
}

/// Once a member cannot be read, no longer run of members can.
pub proof fn lemma_dn_error_stays(s: Seq<Elem>, i: int)
    requires
        0 <= i <= s.len(),
        dn_of_members(s.subrange(0, i)) is Err,
    ensures
        dn_of_members(s) == dn_of_members(s.subrange(0, i)),
    decreases s.len() - i,
{
    if i < s.len() {
        assert(s.subrange(0, i + 1).drop_last() =~= s.subrange(0, i));
        lemma_dn_error_stays(s, i + 1);
    } else {
        assert(s.subrange(0, i) =~= s);
    }
}

/// Once a member cannot be read, no longer run of members can.
pub proof fn lemma_u8s_error_stays(s: Seq<Elem>, i: int)
    requires
        0 <= i <= s.len(),
        u8s_of_members(s.subrange(0, i)) is Err,
    ensures
        u8s_of_members(s) == u8s_of_members(s.subrange(0, i)),
    decreases s.len() - i,
{
    if i < s.len() {
        assert(s.subrange(0, i + 1).drop_last() =~= s.subrange(0, i));
        lemma_u8s_error_stays(s, i + 1);
    } else {
        assert(s.subrange(0, i) =~= s);
    }
}

/// The distinguished names of a list element, in the order of its members.
pub fn dn_from(t: &TLVElement) -> (r: Result<Vec<(u8, u64)>, Error>)
    ensures
        match r {
            Ok(v) => dn_of_elem(t@) == Ok::<Seq<(u8, u64)>, Error>(v@),
            Err(x) => dn_of_elem(t@) == Err::<Seq<(u8, u64)>, Error>(x),
        },
{
    let children = match t.confirm_list() {
        Ok(c) => c,
        Err(x) => {
            return Err(x);
        },
    };
    let ghost kids = t@.children;
    proof {
        lemma_children_view(*t);
    }
    let mut dn: Vec<(u8, u64)> = Vec::new();
    let mut i: usize = 0;
    assert(kids.subrange(0, 0) =~= Seq::<Elem>::empty());
    while i < children.len()
        invariant
            i <= children.len(),
            kids == elems_view(children@),
            kids == t@.children,
            t.code == TYPE_LIST,
            dn_of_members(kids.subrange(0, i as int)) == Ok::<Seq<(u8, u64)>, Error>(dn@),
        decreases children.len() - i,
    {
        let ghost prefix = kids.subrange(0, i + 1);
        proof {
            assert(prefix.drop_last() =~= kids.subrange(0, i as int));
            assert(prefix.last() == children@[i as int]@);
        }
        match children[i].get_tag() {
            TagType::Context(tag) => {
                match children[i].u64() {
                    Ok(v) => {
                        dn.push((tag, v));
                    },
                    Err(x) => {
                        proof {
                            lemma_dn_error_stays(kids, i + 1);
                        }
                        return Err(x);
                    },
                }
            },
            _ => {},
        }
        i = i + 1;
    }
    assert(kids.subrange(0, i as int) =~= kids);
    Ok(dn)
}

/// The small numbers of an array element, in the order of its members.
pub fn u8_array_from(t: &TLVElement) -> (r: Result<Vec<u8>, Error>)
    ensures
        match r {
            Ok(v) => u8_array_of_elem(t@) == Ok::<Seq<u8>, Error>(v@),
            Err(x) => u8_array_of_elem(t@) == Err::<Seq<u8>, Error>(x),
        },
{
    let children = match t.confirm_array() {
        Ok(c) => c,
        Err(x) => {
            return Err(x);
        },
    };
    let ghost kids = t@.children;
    proof {
        lemma_children_view(*t);
    }
    let mut out: Vec<u8> = Vec::new();
    let mut i: usize = 0;
    assert(kids.subrange(0, 0) =~= Seq::<Elem>::empty());
    while i < children.len()
        invariant
            i <= children.len(),
            kids == elems_view(children@),
            kids == t@.children,
            t.code == TYPE_ARRAY,
            u8s_of_members(kids.subrange(0, i as int)) == Ok::<Seq<u8>, Error>(out@),
        decreases children.len() - i,
    {
        let ghost prefix = kids.subrange(0, i + 1);
        proof {
            assert(prefix.drop_last() =~= kids.subrange(0, i as int));
            assert(prefix.last() == children@[i as int]@);
        }
        match children[i].u8() {
            Ok(v) => {
                out.push(v);
            },
            Err(x) => {
                proof {
                    lemma_u8s_error_stays(kids, i + 1);
                }
                return Err(x);
            },
        }
        i = i + 1;
    }
    assert(kids.subrange(0, i as int) =~= kids);
    Ok(out)
}

/// The basic constraints of a structure element.
pub fn basic_const_from(t: &TLVElement) -> (r: Result<BasicConstraints, Error>)
    ensures
        r == basic_const_of_elem(t@),
{
    let args = TlvArgs { start: 1, datatype: RecordKind::Struct, unordered: false };
    let overrides = no_overrides(2);
    proof {
        lemma_children_view(*t);
        lemma_record_tags_untagged(1, 2);
        assert(record_tags(1, untagged(2)) =~= seq![1u8, 2u8]);
    }
    let m = match derive_fromtlv(&args, overrides.as_slice(), t) {
        Ok(m) => m,
        Err(x) => {
            return Err(x);
        },
    };
    let children = &t.children;
    let ghost kids = t@.children;
    let is_ca: bool = match m[0] {
        None => {
            return Err(Error::NoTagFound);
        },
        Some(j) => {
            assert(kids[j as int] == children@[j as int]@);
            match children[j].bool() {
                Ok(b) => b,
                Err(x) => {
                    return Err(x);
                },
            }
        },
    };
    match m[1] {
        None => Ok(BasicConstraints { is_ca, path: None }),
        Some(j) => {
            assert(kids[j as int] == children@[j as int]@);
            match children[j].u8() {
                Ok(p) => Ok(BasicConstraints { is_ca, path: Some(p) }),
                Err(x) => Err(x),
            }
        },
    }
}

} // verus!
