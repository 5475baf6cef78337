//! What a certificate holds, the TLV element it is written as, and what a
//! TLV element is read as.

use vstd::prelude::*;
use crate::error::Error;
use crate::tlv::model::{
    container, is_string, Elem, TagType, TYPE_ARRAY, TYPE_FALSE, TYPE_LIST, TYPE_STRUCT, TYPE_TRUE, TYPE_U16,
    TYPE_U32, TYPE_U64, TYPE_U8,
};
use crate::tlv::record::{match_ordered, member_at, opt_member, present};
use crate::tlv::writer::{bool_elem, octets_elem, uint_elem};

verus! {

/// The basic-constraints extension.
#[derive(Debug, PartialEq, Eq, Clone, Copy, Structural)]
pub struct BasicConstraints {
    pub is_ca: bool,
    pub path: Option<u8>,
}

/// The extensions of a certificate; each may be absent.
pub struct ExtensionsModel {
    pub basic_const: Option<BasicConstraints>,
    pub key_usage: Option<u16>,
    pub ext_key_usage: Option<Seq<u8>>,
    pub subj_key_id: Option<Seq<u8>>,
    pub auth_key_id: Option<Seq<u8>>,
    pub future_extensions: Option<Seq<u8>>,
}

/// What a certificate holds. The distinguished names are pairs of a kind
/// and a value, in the order in which they arrived.
pub struct CertModel {
    pub serial_no: Seq<u8>,
    pub sign_algo: u8,
    pub issuer: Seq<(u8, u64)>,
    pub not_before: u32,
    pub not_after: u32,
    pub subject: Seq<(u8, u64)>,
    pub pubkey_algo: u8,
    pub ec_curve_id: u8,
    pub pubkey: Seq<u8>,
    pub extensions: ExtensionsModel,
    pub signature: Seq<u8>,
}

/// The longest byte string that a TLV length field holds.
pub open spec fn fits_tlv(s: Seq<u8>) -> bool {
    s.len() < 0x1_0000_0000
}

/// Whether an absent or present byte string fits a TLV length field.
pub open spec fn opt_fits_tlv(s: Option<Seq<u8>>) -> bool {
    match s {
        Some(x) => fits_tlv(x),
        None => true,
    }
}

impl ExtensionsModel {
    /// Every byte string fits a TLV length field.
    pub open spec fn wf(self) -> bool {
        &&& opt_fits_tlv(self.subj_key_id)
        &&& opt_fits_tlv(self.auth_key_id)
        &&& opt_fits_tlv(self.future_extensions)
    }
}

impl CertModel {
    /// Every byte string fits a TLV length field.
    pub open spec fn wf(self) -> bool {
        &&& fits_tlv(self.serial_no)
        &&& fits_tlv(self.pubkey)
        &&& fits_tlv(self.signature)
        &&& self.extensions.wf()
    }
}

/// The members that a list of distinguished names is written as.
pub open spec fn dn_members(dn: Seq<(u8, u64)>) -> Seq<Elem> {
    Seq::new(dn.len(), |i: int| uint_elem(TagType::Context(dn[i].0), dn[i].1))
}

/// The list that distinguished names are written as.
pub open spec fn dn_elem(tag: TagType, dn: Seq<(u8, u64)>) -> Elem {
    container(tag, TYPE_LIST, dn_members(dn))
}

/// The structure that basic constraints are written as.
pub open spec fn basic_const_elem(tag: TagType, bc: BasicConstraints) -> Elem {
    container(
        tag,
        TYPE_STRUCT,
        seq![bool_elem(TagType::Context(1), bc.is_ca)] + opt_member(
            match bc.path {
                Some(p) => Some(uint_elem(TagType::Context(2), p as u64)),
                None => None,
            },
        ),
    )
}

/// The array that a list of small numbers is written as.
pub open spec fn u8_array_elem(tag: TagType, s: Seq<u8>) -> Elem {
    container(
        tag,
        TYPE_ARRAY,
        Seq::new(s.len(), |i: int| uint_elem(TagType::Anonymous, s[i] as u64)),
    )
}

/// The octet string that an optional byte string is written as.
pub open spec fn opt_octets(n: u8, s: Option<Seq<u8>>) -> Option<Elem> {
    match s {
        Some(x) => Some(octets_elem(TagType::Context(n), x)),
        None => None,
    }
}

/// The fields of the extensions as elements, in declared order.
pub open spec fn extensions_fields(x: ExtensionsModel) -> Seq<Option<Elem>> {
    seq![
        match x.basic_const {
            Some(bc) => Some(basic_const_elem(TagType::Context(1), bc)),
            None => None,
        },
        match x.key_usage {
            Some(k) => Some(uint_elem(TagType::Context(2), k as u64)),
            None => None,
        },
        match x.ext_key_usage {
            Some(l) => Some(u8_array_elem(TagType::Context(3), l)),
            None => None,
        },
        opt_octets(4, x.subj_key_id),
        opt_octets(5, x.auth_key_id),
        opt_octets(6, x.future_extensions),
    ]
}

/// The list that extensions are written as.
pub open spec fn extensions_elem(tag: TagType, x: ExtensionsModel) -> Elem {
    container(tag, TYPE_LIST, present(extensions_fields(x)))
}

/// The fields of a certificate as elements, in declared order; all are
/// present.
pub open spec fn cert_fields(m: CertModel) -> Seq<Option<Elem>> {
    seq![
        Some(octets_elem(TagType::Context(1), m.serial_no)),
        Some(uint_elem(TagType::Context(2), m.sign_algo as u64)),
        Some(dn_elem(TagType::Context(3), m.issuer)),
        Some(uint_elem(TagType::Context(4), m.not_before as u64)),
        Some(uint_elem(TagType::Context(5), m.not_after as u64)),
        Some(dn_elem(TagType::Context(6), m.subject)),
        Some(uint_elem(TagType::Context(7), m.pubkey_algo as u64)),
        Some(uint_elem(TagType::Context(8), m.ec_curve_id as u64)),
        Some(octets_elem(TagType::Context(9), m.pubkey)),
        Some(extensions_elem(TagType::Context(10), m.extensions)),
        Some(octets_elem(TagType::Context(11), m.signature)),
    ]
}

/// The structure that a certificate is written as: its eleven fields under
/// the context tags 1 to 11.
pub open spec fn cert_elem(tag: TagType, m: CertModel) -> Elem {
    container(tag, TYPE_STRUCT, present(cert_fields(m)))
}

/// The bytes that a certificate is written as in Matter TLV.
pub open spec fn cert_bytes(m: CertModel) -> Seq<u8> {
    crate::tlv::model::elem_bytes(cert_elem(TagType::Anonymous, m))
}

/// The number that an element is read as where a number of one byte is
/// asked for.
pub open spec fn elem_u8(e: Elem) -> Result<u8, Error> {
    if e.code == TYPE_U8 && e.num <= u8::MAX {
        Ok(e.num as u8)
    } else {
        Err(Error::TLVTypeMismatch)
    }
}

/// The number that an element is read as where a number of at most two
/// bytes is asked for.
pub open spec fn elem_u16(e: Elem) -> Result<u16, Error> {
    if TYPE_U8 <= e.code <= TYPE_U16 && e.num <= u16::MAX {
        Ok(e.num as u16)
    } else {
        Err(Error::TLVTypeMismatch)
    }
}

/// The number that an element is read as where a number of at most four
/// bytes is asked for.
pub open spec fn elem_u32(e: Elem) -> Result<u32, Error> {
    if TYPE_U8 <= e.code <= TYPE_U32 && e.num <= u32::MAX {
        Ok(e.num as u32)
    } else {
        Err(Error::TLVTypeMismatch)
    }
}

/// The number that an element is read as where an unsigned number of any
/// width is asked for.
pub open spec fn elem_u64(e: Elem) -> Result<u64, Error> {
    if TYPE_U8 <= e.code <= TYPE_U64 {
        Ok(e.num)
    } else {
        Err(Error::TLVTypeMismatch)
    }
}

/// The truth value that an element is read as.
pub open spec fn elem_bool(e: Elem) -> Result<bool, Error> {
    if e.code == TYPE_TRUE {
        Ok(true)
    } else if e.code == TYPE_FALSE {
        Ok(false)
    } else {
        Err(Error::TLVTypeMismatch)
    }
}

/// The bytes that an element is read as where a string is asked for.
pub open spec fn elem_octets(e: Elem) -> Result<Seq<u8>, Error> {
    if is_string(e.code) {
        Ok(e.data)
    } else {
        Err(Error::TLVTypeMismatch)
    }
}

/// The distinguished names that the members of a list are read as: each
/// member with a context tag gives a pair of that tag and its unsigned
/// value; members with other tags are passed over.
pub open spec fn dn_of_members(s: Seq<Elem>) -> Result<Seq<(u8, u64)>, Error>
    decreases s.len(),
{
    if s.len() == 0 {
        Ok(Seq::empty())
    } else {
        match dn_of_members(s.drop_last()) {
            Err(e) => Err(e),
            Ok(front) => match s.last().tag {
                TagType::Context(t) => match elem_u64(s.last()) {
                    Ok(v) => Ok(front.push((t, v))),
                    Err(e) => Err(e),
                },
                _ => Ok(front),
            },
        }
    }
}

/// The distinguished names that an element is read as.
pub open spec fn dn_of_elem(e: Elem) -> Result<Seq<(u8, u64)>, Error> {
    if e.code != TYPE_LIST {
        Err(Error::TLVTypeMismatch)
    } else {
        dn_of_members(e.children)
    }
}

/// The small numbers that the members of an array are read as.
pub open spec fn u8s_of_members(s: Seq<Elem>) -> Result<Seq<u8>, Error>
    decreases s.len(),
{
    if s.len() == 0 {
        Ok(Seq::empty())
    } else {
        match u8s_of_members(s.drop_last()) {
            Err(e) => Err(e),
            Ok(front) => match elem_u8(s.last()) {
                Ok(v) => Ok(front.push(v)),
                Err(e) => Err(e),
            },
        }
    }
}

/// The list of small numbers that an element is read as.
pub open spec fn u8_array_of_elem(e: Elem) -> Result<Seq<u8>, Error> {
    if e.code != TYPE_ARRAY {
        Err(Error::TLVTypeMismatch)
    } else {
        u8s_of_members(e.children)
    }
}

/// The basic constraints that an element is read as.
pub open spec fn basic_const_of_elem(e: Elem) -> Result<BasicConstraints, Error> {
    if e.code != TYPE_STRUCT {
        Err(Error::TLVTypeMismatch)
    } else {
        let m = match_ordered(e.children, 0, seq![1u8, 2u8]);
        match member_at(e.children, m[0]) {
            None => Err(Error::NoTagFound),
            Some(a) => match elem_bool(a) {
                Err(x) => Err(x),
                Ok(is_ca) => match member_at(e.children, m[1]) {
                    None => Ok(BasicConstraints { is_ca, path: None }),
                    Some(b) => match elem_u8(b) {
                        Err(x) => Err(x),
                        Ok(p) => Ok(BasicConstraints { is_ca, path: Some(p) }),
                    },
                },
            },
        }
    }
}

/// What reading an optional field gives: absent where there is no member,
/// else what the member is read as.
pub open spec fn optional<T>(r: Option<Result<T, Error>>) -> Result<Option<T>, Error> {
    match r {
        None => Ok(None),
        Some(Ok(v)) => Ok(Some(v)),
        Some(Err(e)) => Err(e),
    }
}

/// What reading a required field gives: `NoTagFound` where there is no
/// member, else what the member is read as.
pub open spec fn required<T>(r: Option<Result<T, Error>>) -> Result<T, Error> {
    match r {
        None => Err(Error::NoTagFound),
        Some(x) => x,
    }
}

/// The first error among the outcomes of reading the fields in order.
pub open spec fn first_error(errs: Seq<Option<Error>>) -> Option<Error>
    decreases errs.len(),
{
    if errs.len() == 0 {
        None
    } else {
        match errs[0] {
            Some(e) => Some(e),
            None => first_error(errs.subrange(1, errs.len() as int)),
        }
    }
}

/// The error of an outcome, if it is one.
pub open spec fn error_of<T>(r: Result<T, Error>) -> Option<Error> {
    match r {
        Ok(_) => None,
        Err(e) => Some(e),
    }
}

/// The tags of the fields of the extensions.
pub open spec fn extensions_tags() -> Seq<u8> {
    seq![1u8, 2u8, 3u8, 4u8, 5u8, 6u8]
}

/// The tags of the fields of a certificate.
pub open spec fn cert_tags() -> Seq<u8> {
    seq![1u8, 2u8, 3u8, 4u8, 5u8, 6u8, 7u8, 8u8, 9u8, 10u8, 11u8]
}

/// What each field of the extensions is read as, given the members of the
/// list.
pub open spec fn ext_basic_const(c: Seq<Elem>) -> Result<Option<BasicConstraints>, Error> {
    optional(
        match member_at(c, match_ordered(c, 0, extensions_tags())[0]) {
            Some(e) => Some(basic_const_of_elem(e)),
            None => None,
        },
    )
}

pub open spec fn ext_key_usage(c: Seq<Elem>) -> Result<Option<u16>, Error> {
    optional(
        match member_at(c, match_ordered(c, 0, extensions_tags())[1]) {
            Some(e) => Some(elem_u16(e)),
            None => None,
        },
    )
}

pub open spec fn ext_ext_key_usage(c: Seq<Elem>) -> Result<Option<Seq<u8>>, Error> {
    optional(
        match member_at(c, match_ordered(c, 0, extensions_tags())[2]) {
            Some(e) => Some(u8_array_of_elem(e)),
            None => None,
        },
    )
}

pub open spec fn ext_octets(c: Seq<Elem>, i: int) -> Result<Option<Seq<u8>>, Error> {
    optional(
        match member_at(c, match_ordered(c, 0, extensions_tags())[i]) {
            Some(e) => Some(elem_octets(e)),
            None => None,
        },
    )
}

/// The extensions that an element is read as: a list whose members supply
/// the fields in order; the first field that cannot be read gives the
/// error.
pub open spec fn extensions_of_elem(e: Elem) -> Result<ExtensionsModel, Error> {
    if e.code != TYPE_LIST {
        Err(Error::TLVTypeMismatch)
    } else {
        let c = e.children;
        match first_error(
            seq![
                error_of(ext_basic_const(c)),
                error_of(ext_key_usage(c)),
                error_of(ext_ext_key_usage(c)),
                error_of(ext_octets(c, 3)),
                error_of(ext_octets(c, 4)),
                error_of(ext_octets(c, 5)),
            ],
        ) {
            Some(x) => Err(x),
            None => Ok(
                ExtensionsModel {
                    basic_const: ext_basic_const(c)->Ok_0,
                    key_usage: ext_key_usage(c)->Ok_0,
                    ext_key_usage: ext_ext_key_usage(c)->Ok_0,
                    subj_key_id: ext_octets(c, 3)->Ok_0,
                    auth_key_id: ext_octets(c, 4)->Ok_0,
                    future_extensions: ext_octets(c, 5)->Ok_0,
                },
            ),
        }
    }
}

/// What each field of a certificate is read as, given the members of the
/// structure.
pub open spec fn cert_octets(c: Seq<Elem>, i: int) -> Result<Seq<u8>, Error> {
    required(
        match member_at(c, match_ordered(c, 0, cert_tags())[i]) {
            Some(e) => Some(elem_octets(e)),
            None => None,
        },
    )
}

pub open spec fn cert_u8(c: Seq<Elem>, i: int) -> Result<u8, Error> {
    required(
        match member_at(c, match_ordered(c, 0, cert_tags())[i]) {
            Some(e) => Some(elem_u8(e)),
            None => None,
        },
    )
}

pub open spec fn cert_u32(c: Seq<Elem>, i: int) -> Result<u32, Error> {
    required(
        match member_at(c, match_ordered(c, 0, cert_tags())[i]) {
            Some(e) => Some(elem_u32(e)),
            None => None,
        },
    )
}

pub open spec fn cert_dn(c: Seq<Elem>, i: int) -> Result<Seq<(u8, u64)>, Error> {
    required(
        match member_at(c, match_ordered(c, 0, cert_tags())[i]) {
            Some(e) => Some(dn_of_elem(e)),
            None => None,
        },
    )
}

pub open spec fn cert_extensions(c: Seq<Elem>) -> Result<ExtensionsModel, Error> {
    required(
        match member_at(c, match_ordered(c, 0, cert_tags())[9]) {
            Some(e) => Some(extensions_of_elem(e)),
            None => None,
        },
    )
}

/// The certificate that an element is read as: a structure whose members
/// supply the eleven fields in order, each required; the first field that
/// is missing or cannot be read gives the error.
pub open spec fn cert_of_elem(e: Elem) -> Result<CertModel, Error> {
    if e.code != TYPE_STRUCT {
        Err(Error::TLVTypeMismatch)
    } else {
        let c = e.children;
        match first_error(
            seq![
                error_of(cert_octets(c, 0)),
                error_of(cert_u8(c, 1)),
                error_of(cert_dn(c, 2)),
                error_of(cert_u32(c, 3)),
                error_of(cert_u32(c, 4)),
                error_of(cert_dn(c, 5)),
                error_of(cert_u8(c, 6)),
                error_of(cert_u8(c, 7)),
                error_of(cert_octets(c, 8)),
                error_of(cert_extensions(c)),
                error_of(cert_octets(c, 10)),
            ],
        ) {
            Some(x) => Err(x),
            None => Ok(
                CertModel {
                    serial_no: cert_octets(c, 0)->Ok_0,
                    sign_algo: cert_u8(c, 1)->Ok_0,
                    issuer: cert_dn(c, 2)->Ok_0,
                    not_before: cert_u32(c, 3)->Ok_0,
                    not_after: cert_u32(c, 4)->Ok_0,
                    subject: cert_dn(c, 5)->Ok_0,
                    pubkey_algo: cert_u8(c, 6)->Ok_0,
                    ec_curve_id: cert_u8(c, 7)->Ok_0,
                    pubkey: cert_octets(c, 8)->Ok_0,
                    extensions: cert_extensions(c)->Ok_0,
                    signature: cert_octets(c, 10)->Ok_0,
                },
            ),
        }
    }
}

} // verus!
