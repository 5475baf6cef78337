//! What holds of every certificate: reading inverts writing.

use vstd::prelude::*;
use crate::cert::model::{
    basic_const_elem, basic_const_of_elem, cert_bytes, cert_dn, cert_elem, cert_extensions,
    cert_fields, cert_octets, cert_of_elem, cert_tags, cert_u32, cert_u8, dn_elem, dn_members,
    dn_of_members, ext_basic_const, ext_ext_key_usage, ext_key_usage, ext_octets, extensions_elem,
    extensions_fields, extensions_of_elem, extensions_tags, first_error, u8_array_elem,
    u8s_of_members, BasicConstraints, CertModel, ExtensionsModel,
};
use crate::cert::cert_of_bytes;
use crate::error::Error;
use crate::tlv::laws::lemma_parse_of_bytes;
use crate::tlv::model::{all_wf, elem_bytes, Elem, TagType};
use crate::tlv::record::{
    lemma_match_present, lemma_present_concat, lemma_present_one, match_ordered, member_at,
    opt_member, present,
};
use crate::tlv::writer::{bool_elem, octets_elem, uint_elem};
use crate::utils::bytes::lemma_pow256_values;

verus! {

/// Distinguished names read back from the list they were written as are
/// the same names in the same order.
pub proof fn lemma_dn_round_trip(dn: Seq<(u8, u64)>)
    ensures
        dn_of_members(dn_members(dn)) == Ok::<Seq<(u8, u64)>, Error>(dn),
    decreases dn.len(),
{
    if dn.len() > 0 {
        lemma_dn_round_trip(dn.drop_last());
        assert(dn_members(dn).drop_last() =~= dn_members(dn.drop_last()));
        assert(dn.drop_last().push(dn.last()) =~= dn);
    } else {
        assert(dn =~= Seq::<(u8, u64)>::empty());
    }
}

/// Small numbers read back from the array they were written as are the
/// same numbers in the same order.
pub proof fn lemma_u8s_round_trip(tag: TagType, s: Seq<u8>)
    ensures
        u8s_of_members(u8_array_elem(tag, s).children) == Ok::<Seq<u8>, Error>(s),
    decreases s.len(),
{
    let members = u8_array_elem(tag, s).children;
    if s.len() > 0 {
        lemma_u8s_round_trip(tag, s.drop_last());
        assert(members.drop_last() =~= u8_array_elem(tag, s.drop_last()).children);
        assert(s.drop_last().push(s.last()) =~= s);
    } else {
        assert(s =~= Seq::<u8>::empty());
    }
}

/// The members of a record of two fields.
pub proof fn lemma_present_two(a: Option<Elem>, b: Option<Elem>)
    ensures
        present(seq![a, b]) == opt_member(a) + opt_member(b),
{
    lemma_present_concat(seq![a], seq![b]);
    lemma_present_one(a);
    lemma_present_one(b);
    assert(seq![a, b] =~= seq![a] + seq![b]);
}

/// Basic constraints read back from the structure they were written as are
/// the same.
pub proof fn lemma_basic_const_round_trip(tag: TagType, bc: BasicConstraints)
    ensures
        basic_const_of_elem(basic_const_elem(tag, bc)) == Ok::<BasicConstraints, Error>(bc),
{
    let f0 = Some(bool_elem(TagType::Context(1), bc.is_ca));
    let f1 = match bc.path {
        Some(p) => Some(uint_elem(TagType::Context(2), p as u64)),
        None => None,
    };
    let fields = seq![f0, f1];
    let tags = seq![1u8, 2u8];
    lemma_present_two(f0, f1);
    lemma_match_present(fields, tags);
    let e = basic_const_elem(tag, bc);
    assert(e.children =~= present(fields));
    let m = match_ordered(e.children, 0, tags);
    assert(member_at(e.children, m[0]) == fields[0]);
    assert(member_at(e.children, m[1]) == fields[1]);
}

/// Extensions read back from the list they were written as are the same.
pub proof fn lemma_extensions_round_trip(tag: TagType, x: ExtensionsModel)
    ensures
        extensions_of_elem(extensions_elem(tag, x)) == Ok::<ExtensionsModel, Error>(x),
{
    let fields = extensions_fields(x);
    let tags = extensions_tags();
    lemma_match_present(fields, tags);
    let c = extensions_elem(tag, x).children;
    let m = match_ordered(c, 0, tags);
    assert(member_at(c, m[0]) == fields[0]);
    assert(member_at(c, m[1]) == fields[1]);
    assert(member_at(c, m[2]) == fields[2]);
    assert(member_at(c, m[3]) == fields[3]);
    assert(member_at(c, m[4]) == fields[4]);
    assert(member_at(c, m[5]) == fields[5]);
    match x.basic_const {
        Some(bc) => {
            lemma_basic_const_round_trip(TagType::Context(1), bc);
        },
        None => {},
    }
    match x.ext_key_usage {
        Some(l) => {
            lemma_u8s_round_trip(TagType::Context(3), l);
        },
        None => {},
    }
    reveal_with_fuel(first_error, 8);
    assert(ext_basic_const(c) == Ok::<Option<BasicConstraints>, Error>(x.basic_const));
    assert(ext_key_usage(c) == Ok::<Option<u16>, Error>(x.key_usage));
    assert(ext_ext_key_usage(c) == Ok::<Option<Seq<u8>>, Error>(x.ext_key_usage));
    assert(ext_octets(c, 3) == Ok::<Option<Seq<u8>>, Error>(x.subj_key_id));
    assert(ext_octets(c, 4) == Ok::<Option<Seq<u8>>, Error>(x.auth_key_id));
    assert(ext_octets(c, 5) == Ok::<Option<Seq<u8>>, Error>(x.future_extensions));
}

/// A certificate read back from the structure it was written as is the
/// same certificate.
pub proof fn lemma_cert_elem_round_trip(tag: TagType, m: CertModel)
    ensures
        cert_of_elem(cert_elem(tag, m)) == Ok::<CertModel, Error>(m),
{
    let fields = cert_fields(m);
    let tags = cert_tags();
    lemma_match_present(fields, tags);
    let c = cert_elem(tag, m).children;
    let mm = match_ordered(c, 0, tags);
    assert(member_at(c, mm[0]) == fields[0]);
    assert(member_at(c, mm[1]) == fields[1]);
    assert(member_at(c, mm[2]) == fields[2]);
    assert(member_at(c, mm[3]) == fields[3]);
    assert(member_at(c, mm[4]) == fields[4]);
    assert(member_at(c, mm[5]) == fields[5]);
    assert(member_at(c, mm[6]) == fields[6]);
    assert(member_at(c, mm[7]) == fields[7]);
    assert(member_at(c, mm[8]) == fields[8]);
    assert(member_at(c, mm[9]) == fields[9]);
    assert(member_at(c, mm[10]) == fields[10]);
    lemma_dn_round_trip(m.issuer);
    lemma_dn_round_trip(m.subject);
    lemma_extensions_round_trip(TagType::Context(10), m.extensions);
    reveal_with_fuel(first_error, 13);
    assert(cert_octets(c, 0) == Ok::<Seq<u8>, Error>(m.serial_no));
    assert(cert_u8(c, 1) == Ok::<u8, Error>(m.sign_algo));
    assert(cert_dn(c, 2) == Ok::<Seq<(u8, u64)>, Error>(m.issuer));
    assert(cert_u32(c, 3) == Ok::<u32, Error>(m.not_before));
    assert(cert_u32(c, 4) == Ok::<u32, Error>(m.not_after));
    assert(cert_dn(c, 5) == Ok::<Seq<(u8, u64)>, Error>(m.subject));
    assert(cert_u8(c, 6) == Ok::<u8, Error>(m.pubkey_algo));
    assert(cert_u8(c, 7) == Ok::<u8, Error>(m.ec_curve_id));
    assert(cert_octets(c, 8) == Ok::<Seq<u8>, Error>(m.pubkey));
    assert(cert_extensions(c) == Ok::<ExtensionsModel, Error>(m.extensions));
    assert(cert_octets(c, 10) == Ok::<Seq<u8>, Error>(m.signature));
}

} // verus!

verus! {

/// Whether every field that is present is well formed.
pub open spec fn fields_wf(fields: Seq<Option<Elem>>) -> bool {
    forall|i: int| 0 <= i < fields.len() ==> ((#[trigger] fields[i]) matches Some(e) ==> e.wf())
}

/// The members of a record whose fields are well formed are well formed.
pub proof fn lemma_present_wf(fields: Seq<Option<Elem>>)
    requires
        fields_wf(fields),
    ensures
        all_wf(present(fields)),
    decreases fields.len(),
{
    if fields.len() > 0 {
        let front = fields.drop_last();
        assert(fields_wf(front)) by {
            assert forall|i: int| 0 <= i < front.len() implies ((#[trigger] front[i]) matches Some(
                e,
            ) ==> e.wf()) by {
                assert(front[i] == fields[i]);
            }
        }
        lemma_present_wf(front);
        let p = present(fields);
        assert forall|i: int| 0 <= i < p.len() implies (#[trigger] p[i]).wf() by {
            if i < present(front).len() {
                assert(p[i] == present(front)[i]);
            } else {
                assert(fields[fields.len() - 1] == Some(p[i]));
            }
        }
    }
}

/// The element that a number is written as is well formed.
pub proof fn lemma_uint_elem_wf(tag: TagType, v: u64)
    requires
        tag.wf(),
    ensures
        uint_elem(tag, v).wf(),
{
    lemma_pow256_values();
}

/// The element that a byte string is written as is well formed.
pub proof fn lemma_octets_elem_wf(tag: TagType, data: Seq<u8>)
    requires
        tag.wf(),
        data.len() < 0x1_0000_0000,
    ensures
        octets_elem(tag, data).wf(),
{
    lemma_pow256_values();
}

/// The list that distinguished names are written as is well formed.
pub proof fn lemma_dn_elem_wf(tag: TagType, dn: Seq<(u8, u64)>)
    requires
        tag.wf(),
    ensures
        dn_elem(tag, dn).wf(),
{
    let e = dn_elem(tag, dn);
    assert forall|i: int| 0 <= i < e.children.len() implies (#[trigger] e.children[i]).wf() by {
        lemma_uint_elem_wf(TagType::Context(dn[i].0), dn[i].1);
    }
}

/// The list that extensions are written as is well formed.
pub proof fn lemma_extensions_elem_wf(tag: TagType, x: ExtensionsModel)
    requires
        tag.wf(),
        x.wf(),
    ensures
        extensions_elem(tag, x).wf(),
{
    let fields = extensions_fields(x);
    assert(fields_wf(fields)) by {
        match x.basic_const {
            Some(bc) => {
                let e = basic_const_elem(TagType::Context(1), bc);
                match bc.path {
                    Some(p) => {
                        lemma_uint_elem_wf(TagType::Context(2), p as u64);
                    },
                    None => {},
                }
                assert(bool_elem(TagType::Context(1), bc.is_ca).wf());
                assert forall|i: int| 0 <= i < e.children.len() implies (
                #[trigger] e.children[i]).wf() by {
                    if i == 0 {
                        assert(e.children[0] == bool_elem(TagType::Context(1), bc.is_ca));
                    } else {
                        assert(e.children[i] == uint_elem(
                            TagType::Context(2),
                            bc.path->Some_0 as u64,
                        ));
                    }
                }
                assert(e.wf());
            },
            None => {},
        }
        match x.key_usage {
            Some(k) => {
                lemma_uint_elem_wf(TagType::Context(2), k as u64);
            },
            None => {},
        }
        match x.ext_key_usage {
            Some(l) => {
                let e = u8_array_elem(TagType::Context(3), l);
                assert forall|i: int| 0 <= i < e.children.len() implies (
                #[trigger] e.children[i]).wf() by {
                    lemma_uint_elem_wf(TagType::Anonymous, l[i] as u64);
                }
                assert(e.wf());
            },
            None => {},
        }
        match x.subj_key_id {
            Some(d) => {
                lemma_octets_elem_wf(TagType::Context(4), d);
            },
            None => {},
        }
        match x.auth_key_id {
            Some(d) => {
                lemma_octets_elem_wf(TagType::Context(5), d);
            },
            None => {},
        }
        match x.future_extensions {
            Some(d) => {
                lemma_octets_elem_wf(TagType::Context(6), d);
            },
            None => {},
        }
    }
    lemma_present_wf(fields);
}

/// The structure that a certificate is written as is well formed.
pub proof fn lemma_cert_elem_wf(tag: TagType, m: CertModel)
    requires
        tag.wf(),
        m.wf(),
    ensures
        cert_elem(tag, m).wf(),
{
    let fields = cert_fields(m);
    assert(fields_wf(fields)) by {
        lemma_octets_elem_wf(TagType::Context(1), m.serial_no);
        lemma_uint_elem_wf(TagType::Context(2), m.sign_algo as u64);
        lemma_dn_elem_wf(TagType::Context(3), m.issuer);
        lemma_uint_elem_wf(TagType::Context(4), m.not_before as u64);
        lemma_uint_elem_wf(TagType::Context(5), m.not_after as u64);
        lemma_dn_elem_wf(TagType::Context(6), m.subject);
        lemma_uint_elem_wf(TagType::Context(7), m.pubkey_algo as u64);
        lemma_uint_elem_wf(TagType::Context(8), m.ec_curve_id as u64);
        lemma_octets_elem_wf(TagType::Context(9), m.pubkey);
        lemma_extensions_elem_wf(TagType::Context(10), m.extensions);
        lemma_octets_elem_wf(TagType::Context(11), m.signature);
    }
    lemma_present_wf(fields);
}

/// Reading the bytes that a certificate is written as gives the
/// certificate back.
pub proof fn law_cert_decodes_to_itself(m: CertModel)
    requires
        m.wf(),
    ensures
        cert_of_bytes(cert_bytes(m)) == Ok::<CertModel, Error>(m),
{
    let e = cert_elem(TagType::Anonymous, m);
    lemma_cert_elem_wf(TagType::Anonymous, m);
    lemma_parse_of_bytes(e, Seq::<u8>::empty());
    assert(elem_bytes(e) + Seq::<u8>::empty() =~= elem_bytes(e));
    lemma_cert_elem_round_trip(TagType::Anonymous, m);
}

/// Bytes that some certificate is written as are read as a certificate
/// that is written as the same bytes.
pub proof fn law_cert_bytes_round_trip(b: Seq<u8>, m: CertModel)
    requires
        m.wf(),
        b == cert_bytes(m),
    ensures
        cert_of_bytes(b) is Ok,
        cert_bytes(cert_of_bytes(b)->Ok_0) == b,
{
    law_cert_decodes_to_itself(m);
}

} // verus!
