//! Matter certificates: reading them from TLV, writing them as DER, and
//! verifying chains of them.

pub mod asn1_writer;
pub mod decode;
pub mod der;
pub mod der_cert;
pub mod dn_laws;
pub mod emit;
pub mod key_usage;
pub mod laws;
pub mod encode;
pub mod model;
pub mod time;
pub mod verify;

use vstd::prelude::*;
use crate::cert::decode::{basic_const_from, dn_from, octets_from, u8_array_from};
use crate::cert::model::{
    cert_of_elem, cert_tags, dn_of_elem, elem_octets, elem_u32, elem_u8, ext_key_usage,
    extensions_of_elem, extensions_tags, first_error, optional, required, BasicConstraints,
    CertModel, ExtensionsModel,
};
use crate::error::Error;
use crate::tlv::parser::{get_root_node, lemma_children_view, TLVElement};
use crate::tlv::record::{
    derive_fromtlv, lemma_record_tags_untagged, match_ordered, member_at, no_overrides,
    record_tags, untagged, RecordKind, TlvArgs,
};

verus! {

/// The context tags of the fields of a certificate.
#[derive(Debug, PartialEq, Eq, Clone, Copy, Structural)]
pub enum CertTags {
    SerialNum,
    SignAlgo,
    Issuer,
    NotBefore,
    NotAfter,
    Subject,
    PubKeyAlgo,
    EcCurveId,
    EcPubKey,
    Extensions,
    Signature,
}

/// The elliptic curves that a certificate may name.
#[derive(Debug, PartialEq, Eq, Clone, Copy, Structural)]
pub enum EcCurveIdValue {
    Prime256V1,
}

/// The curve that the number `algo` names: 1 is prime256v1.
pub fn get_ec_curve_id(algo: u8) -> (r: Option<EcCurveIdValue>)
    ensures
        r == if algo == 1 {
            Some(EcCurveIdValue::Prime256V1)
        } else {
            None
        },
{
    if algo == 1 {
        Some(EcCurveIdValue::Prime256V1)
    } else {
        None
    }
}

/// The public-key algorithms that a certificate may name.
#[derive(Debug, PartialEq, Eq, Clone, Copy, Structural)]
pub enum PubKeyAlgoValue {
    EcPubKey,
}

/// The public-key algorithm that the number `algo` names: 1 is an EC
/// public key.
pub fn get_pubkey_algo(algo: u8) -> (r: Option<PubKeyAlgoValue>)
    ensures
        r == if algo == 1 {
            Some(PubKeyAlgoValue::EcPubKey)
        } else {
            None
        },
{
    if algo == 1 {
        Some(PubKeyAlgoValue::EcPubKey)
    } else {
        None
    }
}

/// The signature algorithms that a certificate may name.
#[derive(Debug, PartialEq, Eq, Clone, Copy, Structural)]
pub enum SignAlgoValue {
    ECDSAWithSHA256,
}

/// The signature algorithm that the number `algo` names: 1 is ECDSA with
/// SHA-256.
pub fn get_sign_algo(algo: u8) -> (r: Option<SignAlgoValue>)
    ensures
        r == if algo == 1 {
            Some(SignAlgoValue::ECDSAWithSHA256)
        } else {
            None
        },
{
    if algo == 1 {
        Some(SignAlgoValue::ECDSAWithSHA256)
    } else {
        None
    }
}

impl CertTags {
    /// The number of the context tag.
    pub fn to_u8(self) -> (n: u8)
        ensures
            1 <= n <= 11,
            n == match self {
                CertTags::SerialNum => 1u8,
                CertTags::SignAlgo => 2u8,
                CertTags::Issuer => 3u8,
                CertTags::NotBefore => 4u8,
                CertTags::NotAfter => 5u8,
                CertTags::Subject => 6u8,
                CertTags::PubKeyAlgo => 7u8,
                CertTags::EcCurveId => 8u8,
                CertTags::EcPubKey => 9u8,
                CertTags::Extensions => 10u8,
                CertTags::Signature => 11u8,
            },
    {
        match self {
            CertTags::SerialNum => 1,
            CertTags::SignAlgo => 2,
            CertTags::Issuer => 3,
            CertTags::NotBefore => 4,
            CertTags::NotAfter => 5,
            CertTags::Subject => 6,
            CertTags::PubKeyAlgo => 7,
            CertTags::EcCurveId => 8,
            CertTags::EcPubKey => 9,
            CertTags::Extensions => 10,
            CertTags::Signature => 11,
        }
    }
}

/// The kinds of distinguished name that Matter defines.
#[derive(Debug, PartialEq, Eq, Clone, Copy, Structural)]
pub enum DnTags {
    NodeId,
    FirmwareSignId,
    IcaId,
    RootCaId,
    FabricId,
    NocCat,
}

impl DnTags {
    /// The number of the context tag of the kind.
    pub fn to_u8(self) -> (n: u8)
        ensures
            n == self.number(),
    {
        match self {
            DnTags::NodeId => 17,
            DnTags::FirmwareSignId => 18,
            DnTags::IcaId => 19,
            DnTags::RootCaId => 20,
            DnTags::FabricId => 21,
            DnTags::NocCat => 22,
        }
    }

    /// The number of the context tag of the kind.
    pub open spec fn number(self) -> u8 {
        match self {
            DnTags::NodeId => 17,
            DnTags::FirmwareSignId => 18,
            DnTags::IcaId => 19,
            DnTags::RootCaId => 20,
            DnTags::FabricId => 21,
            DnTags::NocCat => 22,
        }
    }
}

/// The model of an optional byte string.
pub open spec fn opt_bytes(o: Option<Vec<u8>>) -> Option<Seq<u8>> {
    match o {
        Some(v) => Some(v@),
        None => None,
    }
}

/// Distinguished names, in the order in which they arrived: signing is
/// over the DER form, which keeps that order.
#[derive(Debug)]
pub struct DistNames {
    pub dn: Vec<(u8, u64)>,
}

impl View for DistNames {
    type V = Seq<(u8, u64)>;

    open spec fn view(&self) -> Seq<(u8, u64)> {
        self.dn@
    }
}

/// The extensions of a certificate.
#[derive(Debug)]
pub struct Extensions {
    pub basic_const: Option<BasicConstraints>,
    pub key_usage: Option<u16>,
    pub ext_key_usage: Option<Vec<u8>>,
    pub subj_key_id: Option<Vec<u8>>,
    pub auth_key_id: Option<Vec<u8>>,
    pub future_extensions: Option<Vec<u8>>,
}

impl View for Extensions {
    type V = ExtensionsModel;

    open spec fn view(&self) -> ExtensionsModel {
        ExtensionsModel {
            basic_const: self.basic_const,
            key_usage: self.key_usage,
            ext_key_usage: opt_bytes(self.ext_key_usage),
            subj_key_id: opt_bytes(self.subj_key_id),
            auth_key_id: opt_bytes(self.auth_key_id),
            future_extensions: opt_bytes(self.future_extensions),
        }
    }
}

/// A Matter certificate.
#[derive(Debug)]
pub struct Cert {
    pub serial_no: Vec<u8>,
    pub sign_algo: u8,
    pub issuer: DistNames,
    pub not_before: u32,
    pub not_after: u32,
    pub subject: DistNames,
    pub pubkey_algo: u8,
    pub ec_curve_id: u8,
    pub pubkey: Vec<u8>,
    pub extensions: Extensions,
    pub signature: Vec<u8>,
}

impl View for Cert {
    type V = CertModel;

    open spec fn view(&self) -> CertModel {
        CertModel {
            serial_no: self.serial_no@,
            sign_algo: self.sign_algo,
            issuer: self.issuer@,
            not_before: self.not_before,
            not_after: self.not_after,
            subject: self.subject@,
            pubkey_algo: self.pubkey_algo,
            ec_curve_id: self.ec_curve_id,
            pubkey: self.pubkey@,
            extensions: self.extensions@,
            signature: self.signature@,
        }
    }
}

impl DistNames {
    /// Reads distinguished names from a list element.
    pub fn from_tlv(t: &TLVElement) -> (r: Result<DistNames, Error>)
        ensures
            match r {
                Ok(d) => dn_of_elem(t@) == Ok::<Seq<(u8, u64)>, Error>(d@),
                Err(x) => dn_of_elem(t@) == Err::<Seq<(u8, u64)>, Error>(x),
            },
    {
        match dn_from(t) {
            Ok(dn) => Ok(DistNames { dn }),
            Err(x) => Err(x),
        }
    }
}

fn opt_octets_from(children: &Vec<TLVElement>, m: Option<usize>) -> (r: Result<
    Option<Vec<u8>>,
    Error,
>)
    requires
        m matches Some(j) ==> j < children.len(),
    ensures
        match r {
            Ok(v) => optional(
                match m {
                    Some(j) => Some(elem_octets(children@[j as int]@)),
                    None => None,
                },
            ) == Ok::<Option<Seq<u8>>, Error>(opt_bytes(v)),
            Err(x) => optional(
                match m {
                    Some(j) => Some(elem_octets(children@[j as int]@)),
                    None => None,
                },
            ) == Err::<Option<Seq<u8>>, Error>(x),
        },
{
    match m {
        None => Ok(None),
        Some(j) => match octets_from(&children[j]) {
            Ok(v) => Ok(Some(v)),
            Err(x) => Err(x),
        },
    }
}

impl Extensions {
    /// Reads extensions from a list element.
    pub fn from_tlv(t: &TLVElement) -> (r: Result<Extensions, Error>)
        ensures
            match r {
                Ok(x) => extensions_of_elem(t@) == Ok::<ExtensionsModel, Error>(x@),
                Err(e) => extensions_of_elem(t@) == Err::<ExtensionsModel, Error>(e),
            },
    {
        let args = TlvArgs { start: 1, datatype: RecordKind::List, unordered: false };
        let overrides = no_overrides(6);
        proof {
            lemma_children_view(*t);
            reveal_with_fuel(first_error, 8);
            lemma_record_tags_untagged(1, 6);
            assert(record_tags(1, untagged(6)) =~= extensions_tags());
        }
        let m = match derive_fromtlv(&args, overrides.as_slice(), t) {
            Ok(m) => m,
            Err(x) => {
                return Err(x);
            },
        };
        let children = &t.children;
        let ghost c = t@.children;
        assert(forall|i: int|
            0 <= i < 6 ==> match (#[trigger] m@[i]) {
                Some(j) => j < children@.len() && member_at(c, match_ordered(c, 0, extensions_tags())[i])
                    == Some(children@[j as int]@),
                None => member_at(c, match_ordered(c, 0, extensions_tags())[i]) is None,
            });
        let basic_const: Option<BasicConstraints> = match m[0] {
            None => None,
            Some(j) => match basic_const_from(&children[j]) {
                Ok(b) => Some(b),
                Err(x) => {
                    return Err(x);
                },
            },
        };
        let key_usage: Option<u16> = match m[1] {
            None => None,
            Some(j) => match children[j].u16() {
                Ok(b) => Some(b),
                Err(x) => {
                    return Err(x);
                },
            },
        };
        let ext_key_usage: Option<Vec<u8>> = match m[2] {
            None => None,
            Some(j) => match u8_array_from(&children[j]) {
                Ok(b) => Some(b),
                Err(x) => {
                    return Err(x);
                },
            },
        };
        let subj_key_id: Option<Vec<u8>> = match opt_octets_from(children, m[3]) {
            Ok(v) => v,
            Err(x) => {
                return Err(x);
            },
        };
        let auth_key_id: Option<Vec<u8>> = match opt_octets_from(children, m[4]) {
            Ok(v) => v,
            Err(x) => {
                return Err(x);
            },
        };
        let future_extensions: Option<Vec<u8>> = match opt_octets_from(children, m[5]) {
            Ok(v) => v,
            Err(x) => {
                return Err(x);
            },
        };
        let x = Extensions {
            basic_const,
            key_usage,
            ext_key_usage,
            subj_key_id,
            auth_key_id,
            future_extensions,
        };
        Ok(x)
    }
}

} // verus!

verus! {

fn req_octets_from(children: &Vec<TLVElement>, m: Option<usize>) -> (r: Result<Vec<u8>, Error>)
    requires
        m matches Some(j) ==> j < children.len(),
    ensures
        match r {
            Ok(v) => required(
                match m {
                    Some(j) => Some(elem_octets(children@[j as int]@)),
                    None => None,
                },
            ) == Ok::<Seq<u8>, Error>(v@),
            Err(x) => required(
                match m {
                    Some(j) => Some(elem_octets(children@[j as int]@)),
                    None => None,
                },
            ) == Err::<Seq<u8>, Error>(x),
        },
{
    match m {
        None => Err(Error::NoTagFound),
        Some(j) => octets_from(&children[j]),
    }
}

fn req_u8_from(children: &Vec<TLVElement>, m: Option<usize>) -> (r: Result<u8, Error>)
    requires
        m matches Some(j) ==> j < children.len(),
    ensures
        r == required(
            match m {
                Some(j) => Some(elem_u8(children@[j as int]@)),
                None => None,
            },
        ),
{
    match m {
        None => Err(Error::NoTagFound),
        Some(j) => children[j].u8(),
    }
}

fn req_u32_from(children: &Vec<TLVElement>, m: Option<usize>) -> (r: Result<u32, Error>)
    requires
        m matches Some(j) ==> j < children.len(),
    ensures
        r == required(
            match m {
                Some(j) => Some(elem_u32(children@[j as int]@)),
                None => None,
            },
        ),
{
    match m {
        None => Err(Error::NoTagFound),
        Some(j) => children[j].u32(),
    }
}

fn req_dn_from(children: &Vec<TLVElement>, m: Option<usize>) -> (r: Result<DistNames, Error>)
    requires
        m matches Some(j) ==> j < children.len(),
    ensures
        match r {
            Ok(v) => required(
                match m {
                    Some(j) => Some(dn_of_elem(children@[j as int]@)),
                    None => None,
                },
            ) == Ok::<Seq<(u8, u64)>, Error>(v@),
            Err(x) => required(
                match m {
                    Some(j) => Some(dn_of_elem(children@[j as int]@)),
                    None => None,
                },
            ) == Err::<Seq<(u8, u64)>, Error>(x),
        },
{
    match m {
        None => Err(Error::NoTagFound),
        Some(j) => DistNames::from_tlv(&children[j]),
    }
}

fn req_extensions_from(children: &Vec<TLVElement>, m: Option<usize>) -> (r: Result<
    Extensions,
    Error,
>)
    requires
        m matches Some(j) ==> j < children.len(),
    ensures
        match r {
            Ok(v) => required(
                match m {
                    Some(j) => Some(extensions_of_elem(children@[j as int]@)),
                    None => None,
                },
            ) == Ok::<ExtensionsModel, Error>(v@),
            Err(x) => required(
                match m {
                    Some(j) => Some(extensions_of_elem(children@[j as int]@)),
                    None => None,
                },
            ) == Err::<ExtensionsModel, Error>(x),
        },
{
    match m {
        None => Err(Error::NoTagFound),
        Some(j) => Extensions::from_tlv(&children[j]),
    }
}

impl Cert {
    /// Reads a certificate from a structure element: its eleven fields, in
    /// order, each required.
    pub fn from_tlv(t: &TLVElement) -> (r: Result<Cert, Error>)
        ensures
            match r {
                Ok(c) => cert_of_elem(t@) == Ok::<CertModel, Error>(c@),
                Err(e) => cert_of_elem(t@) == Err::<CertModel, Error>(e),
            },
    {
        let args = TlvArgs { start: 1, datatype: RecordKind::Struct, unordered: false };
        let overrides = no_overrides(11);
        proof {
            lemma_children_view(*t);
            reveal_with_fuel(first_error, 13);
            lemma_record_tags_untagged(1, 11);
            assert(record_tags(1, untagged(11)) =~= cert_tags());
        }
        let m = match derive_fromtlv(&args, overrides.as_slice(), t) {
            Ok(m) => m,
            Err(x) => {
                return Err(x);
            },
        };
        let children = &t.children;
        let ghost c = t@.children;
        assert(forall|i: int|
            0 <= i < 11 ==> match (#[trigger] m@[i]) {
                Some(j) => j < children@.len() && member_at(c, match_ordered(c, 0, cert_tags())[i])
                    == Some(children@[j as int]@),
                None => member_at(c, match_ordered(c, 0, cert_tags())[i]) is None,
            });
        let serial_no: Vec<u8> = match req_octets_from(children, m[0]) {
            Ok(v) => v,
            Err(x) => {
                return Err(x);
            },
        };
        let sign_algo: u8 = match req_u8_from(children, m[1]) {
            Ok(v) => v,
            Err(x) => {
                return Err(x);
            },
        };
        let issuer: DistNames = match req_dn_from(children, m[2]) {
            Ok(v) => v,
            Err(x) => {
                return Err(x);
            },
        };
        let not_before: u32 = match req_u32_from(children, m[3]) {
            Ok(v) => v,
            Err(x) => {
                return Err(x);
            },
        };
        let not_after: u32 = match req_u32_from(children, m[4]) {
            Ok(v) => v,
            Err(x) => {
                return Err(x);
            },
        };
        let subject: DistNames = match req_dn_from(children, m[5]) {
            Ok(v) => v,
            Err(x) => {
                return Err(x);
            },
        };
        let pubkey_algo: u8 = match req_u8_from(children, m[6]) {
            Ok(v) => v,
            Err(x) => {
                return Err(x);
            },
        };
        let ec_curve_id: u8 = match req_u8_from(children, m[7]) {
            Ok(v) => v,
            Err(x) => {
                return Err(x);
            },
        };
        let pubkey: Vec<u8> = match req_octets_from(children, m[8]) {
            Ok(v) => v,
            Err(x) => {
                return Err(x);
            },
        };
        let extensions: Extensions = match req_extensions_from(children, m[9]) {
            Ok(v) => v,
            Err(x) => {
                return Err(x);
            },
        };
        let signature: Vec<u8> = match req_octets_from(children, m[10]) {
            Ok(v) => v,
            Err(x) => {
                return Err(x);
            },
        };
        Ok(
            Cert {
                serial_no,
                sign_algo,
                issuer,
                not_before,
                not_after,
                subject,
                pubkey_algo,
                ec_curve_id,
                pubkey,
                extensions,
                signature,
            },
        )
    }

    /// Reads a certificate from the Matter TLV bytes at the front of
    /// `cert_bin`. Fails with `InvalidData` where no whole element starts
    /// there, else with the error of the first field that is missing or of
    /// another type.
    pub fn new(cert_bin: &[u8]) -> (r: Result<Cert, Error>)
        ensures
            match r {
                Ok(c) => cert_of_bytes(cert_bin@) == Ok::<CertModel, Error>(c@),
                Err(e) => cert_of_bytes(cert_bin@) == Err::<CertModel, Error>(e),
            },
    {
        let root = match get_root_node(cert_bin) {
            Ok(e) => e,
            Err(x) => {
                return Err(x);
            },
        };
        Cert::from_tlv(&root)
    }
}

/// The certificate that a byte string is read as: the element at its front,
/// read as a certificate.
pub open spec fn cert_of_bytes(b: Seq<u8>) -> Result<CertModel, Error> {
    match crate::tlv::model::parse_elem(b) {
        None => Err(Error::InvalidData),
        Some((e, _)) => cert_of_elem(e),
    }
}

} // verus!
