//! The names of the key usages of a certificate.

use vstd::prelude::*;

verus! {

pub const KEY_USAGE_DIGITAL_SIGN: u16 = 0x0001;
pub const KEY_USAGE_NON_REPUDIATION: u16 = 0x0002;
pub const KEY_USAGE_KEY_ENCIPHERMENT: u16 = 0x0004;
pub const KEY_USAGE_DATA_ENCIPHERMENT: u16 = 0x0008;
pub const KEY_USAGE_KEY_AGREEMENT: u16 = 0x0010;
pub const KEY_USAGE_KEY_CERT_SIGN: u16 = 0x0020;
pub const KEY_USAGE_CRL_SIGN: u16 = 0x0040;
pub const KEY_USAGE_ENCIPHER_ONLY: u16 = 0x0080;
pub const KEY_USAGE_DECIPHER_ONLY: u16 = 0x0100;

/// The name of a usage where its bit is set in the mask, and nothing where
/// it is not.
pub open spec fn usage_name(key_usage: u16, bit: u16, name: Seq<char>) -> Seq<char> {
    if key_usage & bit != 0 {
        name
    } else {
        Seq::<char>::empty()
    }
}

/// The names of the usages whose bits are set in the mask, each followed
/// by a blank, from the lowest bit up.
pub open spec fn key_usage_text(key_usage: u16) -> Seq<char> {
    usage_name(key_usage, KEY_USAGE_DIGITAL_SIGN, "digitalSignature "@) + usage_name(
        key_usage,
        KEY_USAGE_NON_REPUDIATION,
        "nonRepudiation "@,
    ) + usage_name(key_usage, KEY_USAGE_KEY_ENCIPHERMENT, "keyEncipherment "@) + usage_name(
        key_usage,
        KEY_USAGE_DATA_ENCIPHERMENT,
        "dataEncipherment "@,
    ) + usage_name(key_usage, KEY_USAGE_KEY_AGREEMENT, "keyAgreement "@) + usage_name(
        key_usage,
        KEY_USAGE_KEY_CERT_SIGN,
        "keyCertSign "@,
    ) + usage_name(key_usage, KEY_USAGE_CRL_SIGN, "CRLSign "@) + usage_name(
        key_usage,
        KEY_USAGE_ENCIPHER_ONLY,
        "encipherOnly "@,
    ) + usage_name(key_usage, KEY_USAGE_DECIPHER_ONLY, "decipherOnly "@)
}

fn add_if(out: &mut String, key_usage: u16, bit: u16, name: &str)
    ensures
        final(out)@ == old(out)@ + usage_name(key_usage, bit, name@),
{
    if key_usage & bit != 0 {
        out.append(name);
    } else {
        assert(out@ + Seq::<char>::empty() =~= out@);
    }
}

/// The names of the usages whose bits are set in the mask.
pub fn get_print_str(key_usage: u16) -> (s: String)
    ensures
        s@ == key_usage_text(key_usage),
{
    let mut s = String::new();
    assert(s@ =~= Seq::<char>::empty());
    add_if(&mut s, key_usage, KEY_USAGE_DIGITAL_SIGN, "digitalSignature ");
    add_if(&mut s, key_usage, KEY_USAGE_NON_REPUDIATION, "nonRepudiation ");
    add_if(&mut s, key_usage, KEY_USAGE_KEY_ENCIPHERMENT, "keyEncipherment ");
    add_if(&mut s, key_usage, KEY_USAGE_DATA_ENCIPHERMENT, "dataEncipherment ");
    add_if(&mut s, key_usage, KEY_USAGE_KEY_AGREEMENT, "keyAgreement ");
    add_if(&mut s, key_usage, KEY_USAGE_KEY_CERT_SIGN, "keyCertSign ");
    add_if(&mut s, key_usage, KEY_USAGE_CRL_SIGN, "CRLSign ");
    add_if(&mut s, key_usage, KEY_USAGE_ENCIPHER_ONLY, "encipherOnly ");
    add_if(&mut s, key_usage, KEY_USAGE_DECIPHER_ONLY, "decipherOnly ");
    assert(s@ =~= key_usage_text(key_usage));
    s
}

} // verus!
