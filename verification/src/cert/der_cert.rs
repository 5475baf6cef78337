//! The DER form of a certificate: the "to be signed" part, which is what a
//! signature is verified over.

use vstd::prelude::*;
use crate::cert::der::{
    bitstr_content, cat_opt, der_tlv, integer_content, key_usage_bits, tlv_opt, utctime_content,
    TAG_BIT_STRING, TAG_BOOLEAN, TAG_INTEGER, TAG_OCTET_STRING, TAG_OID, TAG_SEQUENCE, TAG_SET,
    TAG_UTC_TIME, TAG_UTF8_STRING,
};
use crate::cert::model::{BasicConstraints, CertModel, ExtensionsModel};

verus! {

pub open spec fn oid_pub_key_ecpubkey() -> Seq<u8> {
    seq![0x2Au8, 0x86u8, 0x48u8, 0xCEu8, 0x3Du8, 0x02u8, 0x01u8]
}

pub open spec fn oid_ec_type_prime256v1() -> Seq<u8> {
    seq![0x2Au8, 0x86u8, 0x48u8, 0xCEu8, 0x3Du8, 0x03u8, 0x01u8, 0x07u8]
}

pub open spec fn oid_ecdsa_with_sha256() -> Seq<u8> {
    seq![0x2Au8, 0x86u8, 0x48u8, 0xCEu8, 0x3Du8, 0x04u8, 0x03u8, 0x02u8]
}

/// The OID of an X.509 extension: 2.5.29.`n`.
pub open spec fn oid_extension(n: u8) -> Seq<u8> {
    seq![0x55u8, 0x1Du8, n]
}

pub const EXT_BASIC_CONSTRAINTS: u8 = 0x13;
pub const EXT_KEY_USAGE: u8 = 0x0F;
pub const EXT_EXT_KEY_USAGE: u8 = 0x25;
pub const EXT_SUBJ_KEY_IDENTIFIER: u8 = 0x0E;
pub const EXT_AUTH_KEY_ID: u8 = 0x23;

/// The OID of a key purpose: 1.3.6.1.5.5.7.3.`n`.
pub open spec fn oid_key_purpose(n: u8) -> Seq<u8> {
    seq![0x2Bu8, 0x06u8, 0x01u8, 0x05u8, 0x05u8, 0x07u8, 0x03u8, n]
}

/// The last arc of the key purpose that an index of the extended key usage
/// names: 1 serverAuth, 2 clientAuth, 3 codeSigning, 4 emailProtection,
/// 5 timeStamping, 6 OCSPSigning.
pub open spec fn key_purpose_arc(index: u8) -> u8 {
    if index == 5 {
        8
    } else if index == 6 {
        9
    } else {
        index
    }
}

/// The OID of a Matter distinguished name: 1.3.6.1.4.1.37244.1.`n`.
pub open spec fn oid_matter_dn(n: u8) -> Seq<u8> {
    seq![0x2Bu8, 0x06u8, 0x01u8, 0x04u8, 0x01u8, 0x82u8, 0xA2u8, 0x7Cu8, 0x01u8, n]
}

/// The ASCII character of a hexadecimal digit, in upper case.
pub open spec fn hex_digit(n: int) -> u8 {
    if n < 10 {
        (0x30 + n) as u8
    } else {
        (0x41 + n - 10) as u8
    }
}

/// The `width` low hexadecimal digits of `v`, most significant first, in
/// upper case.
pub open spec fn hex_upper(v: nat, width: nat) -> Seq<u8>
    decreases width,
{
    if width == 0 {
        Seq::<u8>::empty()
    } else {
        hex_upper(v / 16, (width - 1) as nat).push(hex_digit((v % 16) as int))
    }
}

/// The text of the value of a distinguished name: sixteen hexadecimal
/// digits, or eight for a CASE authenticated tag, which holds 32 bits.
pub open spec fn dn_value_text(kind: u8, value: u64) -> Seq<u8> {
    if kind == 22 {
        hex_upper((value % 0x1_0000_0000) as nat, 8)
    } else {
        hex_upper(value as nat, 16)
    }
}

/// Whether `kind` is one of the distinguished names that Matter defines.
pub open spec fn is_matter_dn(kind: u8) -> bool {
    17 <= kind <= 22
}

/// The DER of one distinguished name: a SET of a SEQUENCE of the OID of
/// its kind and its value as text. A name of another kind has none.
pub open spec fn dn_entry_der(kind: u8, value: u64) -> Seq<u8> {
    if is_matter_dn(kind) {
        der_tlv(
            TAG_SET,
            der_tlv(
                TAG_SEQUENCE,
                der_tlv(TAG_OID, oid_matter_dn((kind - 16) as u8)) + der_tlv(
                    TAG_UTF8_STRING,
                    dn_value_text(kind, value),
                ),
            ),
        )
    } else {
        Seq::<u8>::empty()
    }
}

/// The DER of the distinguished names one after the other, in their order.
pub open spec fn dn_entries_der(dn: Seq<(u8, u64)>) -> Seq<u8>
    decreases dn.len(),
{
    if dn.len() == 0 {
        Seq::<u8>::empty()
    } else {
        dn_entries_der(dn.drop_last()) + dn_entry_der(dn.last().0, dn.last().1)
    }
}

/// The DER of a list of distinguished names: a SEQUENCE of its entries.
pub open spec fn dn_der(dn: Seq<(u8, u64)>) -> Option<Seq<u8>> {
    tlv_opt(TAG_SEQUENCE, Some(dn_entries_der(dn)))
}

/// The DER of a BOOLEAN that is true.
pub open spec fn der_true() -> Seq<u8> {
    der_tlv(TAG_BOOLEAN, seq![0xffu8])
}

/// The DER of one extension: a SEQUENCE of its OID, the BOOLEAN true where
/// it is critical, and an OCTET STRING around its body.
pub open spec fn extension_der(n: u8, critical: bool, body: Option<Seq<u8>>) -> Option<Seq<u8>> {
    tlv_opt(
        TAG_SEQUENCE,
        cat_opt(
            Some(
                der_tlv(TAG_OID, oid_extension(n)) + (if critical {
                    der_true()
                } else {
                    Seq::<u8>::empty()
                }),
            ),
            tlv_opt(TAG_OCTET_STRING, body),
        ),
    )
}

/// The body of the basic-constraints extension: a SEQUENCE that holds the
/// BOOLEAN true for a CA and nothing otherwise. A path length is not
/// emitted.
pub open spec fn basic_const_body(bc: BasicConstraints) -> Option<Seq<u8>> {
    tlv_opt(
        TAG_SEQUENCE,
        Some(
            if bc.is_ca {
                der_true()
            } else {
                Seq::<u8>::empty()
            },
        ),
    )
}

/// The body of the key-usage extension: the bit mask as a truncated BIT
/// STRING.
pub open spec fn key_usage_body(key_usage: u16) -> Option<Seq<u8>> {
    tlv_opt(TAG_BIT_STRING, Some(bitstr_content(true, key_usage_bits(key_usage))))
}

/// The OIDs of the key purposes that a list of indices names, in order;
/// an index that names none is passed over.
pub open spec fn key_purposes_der(list: Seq<u8>) -> Seq<u8>
    decreases list.len(),
{
    if list.len() == 0 {
        Seq::<u8>::empty()
    } else {
        key_purposes_der(list.drop_last()) + (if 1 <= list.last() <= 6 {
            der_tlv(TAG_OID, oid_key_purpose(key_purpose_arc(list.last())))
        } else {
            Seq::<u8>::empty()
        })
    }
}

/// The body of the extended-key-usage extension.
pub open spec fn ext_key_usage_body(list: Seq<u8>) -> Option<Seq<u8>> {
    tlv_opt(TAG_SEQUENCE, Some(key_purposes_der(list)))
}

/// The body of the subject-key-identifier extension.
pub open spec fn subj_key_id_body(id: Seq<u8>) -> Option<Seq<u8>> {
    tlv_opt(TAG_OCTET_STRING, Some(id))
}

/// The body of the authority-key-identifier extension: a SEQUENCE with the
/// identifier under the implicit context tag 0.
pub open spec fn auth_key_id_body(id: Seq<u8>) -> Option<Seq<u8>> {
    tlv_opt(TAG_SEQUENCE, tlv_opt(0x80u8, Some(id)))
}

/// The DER of an extension that may be absent.
pub open spec fn optional_der(x: Option<Option<Seq<u8>>>) -> Option<Seq<u8>> {
    match x {
        Some(d) => d,
        None => Some(Seq::<u8>::empty()),
    }
}

/// The DER of the extensions that are present, one after the other: basic
/// constraints, key usage and extended key usage, which are critical, then
/// the subject and authority key identifiers, which are not.
pub open spec fn extensions_list_der(x: ExtensionsModel) -> Option<Seq<u8>> {
    cat_opt(
        cat_opt(
            cat_opt(
                cat_opt(
                    optional_der(
                        match x.basic_const {
                            Some(bc) => Some(
                                extension_der(EXT_BASIC_CONSTRAINTS, true, basic_const_body(bc)),
                            ),
                            None => None,
                        },
                    ),
                    optional_der(
                        match x.key_usage {
                            Some(k) => Some(extension_der(EXT_KEY_USAGE, true, key_usage_body(k))),
                            None => None,
                        },
                    ),
                ),
                optional_der(
                    match x.ext_key_usage {
                        Some(l) => Some(
                            extension_der(EXT_EXT_KEY_USAGE, true, ext_key_usage_body(l)),
                        ),
                        None => None,
                    },
                ),
            ),
            optional_der(
                match x.subj_key_id {
                    Some(id) => Some(
                        extension_der(EXT_SUBJ_KEY_IDENTIFIER, false, subj_key_id_body(id)),
                    ),
                    None => None,
                },
            ),
        ),
        optional_der(
            match x.auth_key_id {
                Some(id) => Some(extension_der(EXT_AUTH_KEY_ID, false, auth_key_id_body(id))),
                None => None,
            },
        ),
    )
}

/// The DER of the extensions: the explicit context tag 3 around a SEQUENCE
/// of them.
pub open spec fn extensions_der(x: ExtensionsModel) -> Option<Seq<u8>> {
    tlv_opt(0xa3u8, tlv_opt(TAG_SEQUENCE, extensions_list_der(x)))
}

/// The DER of the version: the explicit context tag 0 around INTEGER 2.
pub open spec fn version_der() -> Seq<u8> {
    der_tlv(0xa0u8, der_tlv(TAG_INTEGER, seq![2u8]))
}

/// The DER of the signature algorithm: a SEQUENCE of its OID.
pub open spec fn sign_algo_der() -> Seq<u8> {
    der_tlv(TAG_SEQUENCE, der_tlv(TAG_OID, oid_ecdsa_with_sha256()))
}

/// The DER of the validity: a SEQUENCE of two UTCTimes.
pub open spec fn validity_der(not_before: u32, not_after: u32) -> Seq<u8> {
    der_tlv(
        TAG_SEQUENCE,
        der_tlv(TAG_UTC_TIME, utctime_content(not_before)) + der_tlv(
            TAG_UTC_TIME,
            utctime_content(not_after),
        ),
    )
}

/// The DER of the algorithm of the public key: a SEQUENCE of the OIDs of
/// EC public keys and of the curve prime256v1.
pub open spec fn pubkey_algo_der() -> Seq<u8> {
    der_tlv(
        TAG_SEQUENCE,
        der_tlv(TAG_OID, oid_pub_key_ecpubkey()) + der_tlv(TAG_OID, oid_ec_type_prime256v1()),
    )
}

/// The DER of the public key: a SEQUENCE of its algorithm and the key as a
/// BIT STRING.
pub open spec fn pubkey_der(pubkey: Seq<u8>) -> Option<Seq<u8>> {
    tlv_opt(
        TAG_SEQUENCE,
        cat_opt(Some(pubkey_algo_der()), tlv_opt(TAG_BIT_STRING, Some(bitstr_content(false, pubkey)))),
    )
}

/// Whether the certificate names the algorithms that this library knows:
/// ECDSA with SHA-256, EC public keys, and the curve prime256v1.
pub open spec fn algorithms_known(m: CertModel) -> bool {
    m.sign_algo == 1 && m.pubkey_algo == 1 && m.ec_curve_id == 1
}

/// What the SEQUENCE of the certificate holds: version, serial number,
/// signature algorithm, issuer, validity, subject, public key, extensions.
/// The signature is no part of it.
pub open spec fn tbs_content(m: CertModel) -> Option<Seq<u8>> {
    cat_opt(
        cat_opt(
            cat_opt(
                cat_opt(
                    cat_opt(
                        cat_opt(
                            cat_opt(
                                Some(version_der()),
                                tlv_opt(TAG_INTEGER, Some(integer_content(m.serial_no))),
                            ),
                            Some(sign_algo_der()),
                        ),
                        dn_der(m.issuer),
                    ),
                    Some(validity_der(m.not_before, m.not_after)),
                ),
                dn_der(m.subject),
            ),
            pubkey_der(m.pubkey),
        ),
        extensions_der(m.extensions),
    )
}

/// The DER that the signature of a certificate is verified over, or
/// nothing where a part is too long for the writer to give it a length.
pub open spec fn tbs_der(m: CertModel) -> Option<Seq<u8>> {
    tlv_opt(TAG_SEQUENCE, tbs_content(m))
}

} // verus!
