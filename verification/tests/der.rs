use matter::bits::{int_to_bitstring, reverse_byte};
use matter::cert::asn1_writer::{utc_time_chars, ASN1Writer};
use matter::cert::emit::{
    encode_auth_key_id, encode_extended_key_usage, encode_extension, encode_key_usage,
    encode_u64_dn, encode_validity, encode_version, hex_text, ExtensionBody,
};
use matter::cert::key_usage::get_print_str;
use matter::cert::model::BasicConstraints;
use matter::cert::time::{civil_from_epoch, CivilTime};
use matter::cert::{
    get_ec_curve_id, get_pubkey_algo, get_sign_algo, Cert, CertTags, DistNames, DnTags,
    EcCurveIdValue, Extensions, PubKeyAlgoValue, SignAlgoValue,
};
use matter::error::Error;

fn sequence_of(n: usize) -> Vec<u8> {
    let mut w = ASN1Writer::new(70000);
    w.start_seq().unwrap();
    // an octet string of n - 4 bytes takes n bytes for n from 132 to 259
    let content = vec![0xabu8; n];
    for b in content.chunks(100) {
        w.ostr(b).unwrap();
    }
    w.end_seq().unwrap();
    w.as_slice().to_vec()
}

#[test]
fn der_length_switches_at_128_and_256() {
    // content of 127 bytes: 100 bytes of payload in an octet string of 102, one of 23 in 25
    let mut w = ASN1Writer::new(400);
    w.start_seq().unwrap();
    w.ostr(&[1; 125]).unwrap();
    w.end_seq().unwrap();
    assert_eq!(&w.as_slice()[..4], &[0x30, 127, 0x04, 125]);
    assert_eq!(w.as_slice().len(), 129);

    let mut w = ASN1Writer::new(400);
    w.start_seq().unwrap();
    w.ostr(&[2; 126]).unwrap();
    w.end_seq().unwrap();
    assert_eq!(&w.as_slice()[..6], &[0x30, 0x81, 128, 0x04, 126, 2]);
    assert_eq!(w.as_slice().len(), 131);
    assert_eq!(w.as_slice()[130], 2);

    // primitives switch too
    let mut w = ASN1Writer::new(400);
    w.ostr(&[3; 127]).unwrap();
    w.ostr(&[4; 128]).unwrap();
    assert_eq!(&w.as_slice()[..3], &[0x04, 127, 3]);
    assert_eq!(&w.as_slice()[129..133], &[0x04, 0x81, 128, 4]);

    let mut w = ASN1Writer::new(1000);
    w.start_seq().unwrap();
    w.ostr(&[5; 252]).unwrap(); // 3 + 252 = 255 bytes of content
    w.end_seq().unwrap();
    assert_eq!(&w.as_slice()[..6], &[0x30, 0x81, 255, 0x04, 0x81, 252]);
    assert_eq!(w.as_slice().len(), 258);

    let mut w = ASN1Writer::new(1000);
    w.start_seq().unwrap();
    w.ostr(&[6; 253]).unwrap(); // 3 + 253 = 256 bytes of content
    w.end_seq().unwrap();
    assert_eq!(&w.as_slice()[..7], &[0x30, 0x82, 1, 0, 0x04, 0x81, 253]);
    assert_eq!(w.as_slice().len(), 260);
    assert_eq!(w.as_slice()[259], 6);

    let mut w = ASN1Writer::new(1000);
    w.ostr(&[7; 255]).unwrap();
    w.ostr(&[8; 256]).unwrap();
    w.ostr(&[9; 0x1234 - 1000]).unwrap_err();
    assert_eq!(&w.as_slice()[..3], &[0x04, 0x81, 255]);
    assert_eq!(&w.as_slice()[258..262], &[0x04, 0x82, 1, 0]);
    assert_eq!(sequence_of(300).len(), 4 + 300 + 3 * 2);
}

#[test]
fn nested_scopes_shift_their_payload() {
    let mut w = ASN1Writer::new(1000);
    w.start_seq().unwrap();
    w.start_set().unwrap();
    w.start_ctx(3).unwrap();
    w.start_compound_ostr().unwrap();
    w.utf8str(&[b'a'; 130]).unwrap();
    w.end_compound_ostr().unwrap();
    w.end_ctx().unwrap();
    w.bool(false).unwrap();
    w.end_set().unwrap();
    w.integer(&[0x80]).unwrap();
    w.integer(&[0x7f, 0xff]).unwrap();
    w.integer(&[]).unwrap();
    w.end_seq().unwrap();
    let out = w.as_slice();
    assert_eq!(
        &out[..16],
        &[0x30, 0x81, 155, 0x31, 0x81, 142, 0xa3, 0x81, 136, 0x04, 0x81, 133, 0x0c, 0x81, 130, b'a']
    );
    assert_eq!(&out[145..], &[0x01, 0x01, 0x00, 0x02, 0x02, 0x00, 0x80, 0x02, 0x02, 0x7f, 0xff, 0x02, 0x00]);
}

#[test]
fn writer_errors() {
    let mut w = ASN1Writer::new(10);
    assert_eq!(w.end_seq(), Err(Error::Invalid));
    assert_eq!(w.start_ctx(32), Err(Error::Invalid));
    assert_eq!(w.ctx(32, &[1]), Err(Error::Invalid));
    assert_eq!(w.ostr(&[0; 9]), Err(Error::NoSpace));
    assert_eq!(w.as_slice().len(), 0);
    w.ostr(&[0; 8]).unwrap();
    assert_eq!(w.start_seq(), Err(Error::NoSpace));
    assert_eq!(w.oid(&[1]), Err(Error::NoSpace));
    let mut w = ASN1Writer::new(70000);
    assert_eq!(w.ostr(&vec![0; 65536]), Err(Error::NoSpace));
    w.ostr(&vec![0; 65535]).unwrap();
    assert_eq!(&w.as_slice()[..4], &[0x04, 0x82, 0xff, 0xff]);
    // a scope whose length needs more room than is left
    let mut w = ASN1Writer::new(130);
    w.start_seq().unwrap();
    w.append_tlv(0x04, &[0; 126]).unwrap();
    assert_eq!(w.end_seq(), Err(Error::NoSpace));
    assert_eq!(w.as_slice().len(), 130);
    // eleven scopes
    let mut w = ASN1Writer::new(100);
    for _ in 0..10 {
        w.start_seq().unwrap();
    }
    assert_eq!(w.start_seq(), Err(Error::NoSpace));
    assert_eq!(w.add_compound(0x31), Err(Error::NoSpace));
    for _ in 0..10 {
        w.end_compound().unwrap();
    }
    assert_eq!(w.as_slice(), &[0x30, 18, 0x30, 16, 0x30, 14, 0x30, 12, 0x30, 10, 0x30, 8, 0x30, 6, 0x30, 4, 0x30, 2, 0x30, 0][..]);
}

#[test]
fn bit_strings() {
    let mut w = ASN1Writer::new(100);
    w.bitstr(false, &[0x04, 0x00]).unwrap();
    w.bitstr(true, &[0x06, 0x00]).unwrap();
    w.bitstr(true, &[0x80, 0x00]).unwrap();
    w.bitstr(true, &[0x00, 0x00]).unwrap();
    w.bitstr(true, &[0x00, 0x01]).unwrap();
    w.bitstr(false, &[]).unwrap();
    w.bitstr(true, &[]).unwrap();
    w.bitstr(true, &[0xff]).unwrap();
    assert_eq!(
        w.as_slice(),
        &[
            0x03, 3, 0, 4, 0, // as given
            0x03, 2, 1, 6, // one unused bit
            0x03, 2, 7, 0x80, // seven unused bits
            0x03, 1, 0, // nothing set
            0x03, 3, 0, 0, 1, //
            0x03, 1, 0, //
            0x03, 1, 0, //
            0x03, 2, 0, 0xff,
        ][..]
    );
}

#[test]
fn key_usage_is_emitted_bit_reversed() {
    assert_eq!(reverse_byte(0x01), 0x80);
    assert_eq!(reverse_byte(0x60), 0x06);
    assert_eq!(reverse_byte(0xff), 0xff);
    assert_eq!(reverse_byte(0x00), 0x00);
    assert_eq!(reverse_byte(0x1e), 0x78);
    for b in 0..=255u8 {
        assert_eq!(reverse_byte(b), b.reverse_bits());
    }
    let mut buf = [0xeeu8; 3];
    int_to_bitstring(0x0160, &mut buf);
    assert_eq!(buf, [0x06, 0x80, 0xee]);
    let mut short = [0xeeu8; 1];
    int_to_bitstring(0x0160, &mut short);
    assert_eq!(short, [0xee]);
    let mut w = ASN1Writer::new(100);
    encode_key_usage(0x0060, &mut w).unwrap();
    encode_key_usage(0x0001, &mut w).unwrap();
    encode_key_usage(0x0100, &mut w).unwrap();
    encode_key_usage(0, &mut w).unwrap();
    assert_eq!(
        w.as_slice(),
        &[0x03, 2, 1, 6, 0x03, 2, 7, 0x80, 0x03, 3, 7, 0, 0x80, 0x03, 1, 0][..]
    );
}

#[test]
fn key_usage_names() {
    assert_eq!(get_print_str(0), "");
    assert_eq!(get_print_str(0x0001), "digitalSignature ");
    assert_eq!(get_print_str(0x0060), "keyCertSign CRLSign ");
    assert_eq!(
        get_print_str(0x01ff),
        "digitalSignature nonRepudiation keyEncipherment dataEncipherment keyAgreement \
         keyCertSign CRLSign encipherOnly decipherOnly "
    );
    assert_eq!(get_print_str(0xfe00), "");
}

#[test]
fn extended_key_usage_passes_over_what_it_does_not_know() {
    let serverauth = [0x06, 8, 0x2b, 0x06, 0x01, 0x05, 0x05, 0x07, 0x03, 0x01];
    let mut w = ASN1Writer::new(200);
    encode_extended_key_usage(&vec![0, 1, 7, 200], &mut w).unwrap();
    let mut expected = vec![0x30, 10];
    expected.extend_from_slice(&serverauth);
    assert_eq!(w.as_slice(), &expected[..]);
    let mut w = ASN1Writer::new(200);
    encode_extended_key_usage(&vec![0, 7, 255], &mut w).unwrap();
    assert_eq!(w.as_slice(), &[0x30, 0]);
    let mut w = ASN1Writer::new(200);
    encode_extended_key_usage(&vec![6, 5, 4, 3, 2, 1], &mut w).unwrap();
    let arcs: Vec<u8> = w.as_slice()[2..].chunks(10).map(|c| c[9]).collect();
    assert_eq!(arcs, vec![9, 8, 4, 3, 2, 1]);
}

#[test]
fn extensions_and_their_criticality() {
    let mut w = ASN1Writer::new(200);
    encode_extension(&ExtensionBody::BasicConst(BasicConstraints { is_ca: true, path: Some(3) }), &mut w).unwrap();
    assert_eq!(
        w.as_slice(),
        &[0x30, 0x0f, 0x06, 3, 0x55, 0x1d, 0x13, 0x01, 1, 0xff, 0x04, 5, 0x30, 3, 0x01, 1, 0xff][..]
    );
    let mut w = ASN1Writer::new(200);
    encode_extension(&ExtensionBody::BasicConst(BasicConstraints { is_ca: false, path: None }), &mut w).unwrap();
    assert_eq!(w.as_slice(), &[0x30, 0x0c, 0x06, 3, 0x55, 0x1d, 0x13, 0x01, 1, 0xff, 0x04, 2, 0x30, 0][..]);
    let id = vec![0xaa, 0xbb];
    let mut w = ASN1Writer::new(200);
    encode_extension(&ExtensionBody::SubjKeyId(&id), &mut w).unwrap();
    assert_eq!(w.as_slice(), &[0x30, 0x0b, 0x06, 3, 0x55, 0x1d, 0x0e, 0x04, 4, 0x04, 2, 0xaa, 0xbb][..]);
    let mut w = ASN1Writer::new(200);
    encode_extension(&ExtensionBody::AuthKeyId(&id), &mut w).unwrap();
    assert_eq!(
        w.as_slice(),
        &[0x30, 0x0d, 0x06, 3, 0x55, 0x1d, 0x23, 0x04, 6, 0x30, 4, 0x80, 2, 0xaa, 0xbb][..]
    );
    let mut w = ASN1Writer::new(200);
    encode_auth_key_id(&id, &mut w).unwrap();
    assert_eq!(w.as_slice(), &[0x30, 4, 0x80, 2, 0xaa, 0xbb][..]);
    let mut w = ASN1Writer::new(12);
    assert_eq!(encode_extension(&ExtensionBody::SubjKeyId(&id), &mut w), Err(Error::NoSpace));
}

#[test]
fn distinguished_names_keep_their_order() {
    let mut w = ASN1Writer::new(200);
    encode_u64_dn(22, 0x169b6, &mut w).unwrap();
    let mut expected = vec![
        0x31, 0x18, 0x30, 0x16, 0x06, 0x0a, 0x2b, 0x06, 0x01, 0x04, 0x01, 0x82, 0xa2, 0x7c, 0x01,
        0x06, 0x0c, 0x08,
    ];
    expected.extend_from_slice(b"000169B6");
    assert_eq!(w.as_slice(), &expected[..]);
    let mut w = ASN1Writer::new(200);
    encode_u64_dn(22, 0xff_0001_b669, &mut w).unwrap();
    assert_eq!(&w.as_slice()[18..], b"0001B669");
    let dn = DistNames { dn: vec![(21, 0xfab), (5, 1), (17, u64::MAX)] };
    let mut w = ASN1Writer::new(200);
    dn.encode(&mut w).unwrap();
    let out = w.as_slice();
    assert_eq!(&out[..2], &[0x30, 68]);
    assert_eq!(out[17], 0x05); // fabric id first
    assert_eq!(&out[20..36], b"0000000000000FAB");
    assert_eq!(out[36 + 15], 0x01); // then the node id; the unknown kind left no trace
    assert_eq!(&out[54..70], b"FFFFFFFFFFFFFFFF");
    assert_eq!(dn.u64(DnTags::FabricId), Some(0xfab));
    assert_eq!(dn.u64(DnTags::NodeId), Some(u64::MAX));
    assert_eq!(dn.u64(DnTags::NocCat), None);
    assert_eq!(DnTags::NocCat.to_u8(), 22);
    assert_eq!(DnTags::NodeId.to_u8(), 17);
    assert_eq!(hex_text(0xabc, 4), b"0ABC");
    assert_eq!(hex_text(0x1_2345, 4), b"2345");
    assert_eq!(hex_text(7, 0), b"");
    assert_eq!(hex_text(0x0123_4567_89ab_cdef, 16), b"0123456789ABCDEF");
}

#[test]
fn times_since_the_matter_epoch() {
    let t = |year, month, day, hour, minute, second| CivilTime { year, month, day, hour, minute, second };
    assert_eq!(civil_from_epoch(0), t(2000, 1, 1, 0, 0, 0));
    assert_eq!(civil_from_epoch(86399), t(2000, 1, 1, 23, 59, 59));
    assert_eq!(civil_from_epoch(86400 * 59), t(2000, 2, 29, 0, 0, 0));
    assert_eq!(civil_from_epoch(86400 * 60), t(2000, 3, 1, 0, 0, 0));
    assert_eq!(civil_from_epoch(86400 * 366 - 1), t(2000, 12, 31, 23, 59, 59));
    assert_eq!(civil_from_epoch(86400 * 366), t(2001, 1, 1, 0, 0, 0));
    assert_eq!(civil_from_epoch(0x27812280), t(2021, 1, 1, 0, 0, 0));
    assert_eq!(civil_from_epoch(0x3a4d2580), t(2030, 12, 30, 0, 0, 0));
    assert_eq!(civil_from_epoch(86400 * (36525 + 59)), t(2100, 3, 1, 0, 0, 0)); // 2100 is no leap year
    assert_eq!(civil_from_epoch(u32::MAX), t(2136, 2, 7, 6, 28, 15));
    assert_eq!(utc_time_chars(t(2021, 1, 1, 0, 0, 0)), b"210101000000Z");
    assert_eq!(utc_time_chars(t(2105, 12, 31, 23, 59, 58)), b"051231235958Z");
    let mut w = ASN1Writer::new(100);
    encode_validity(0, 86400 * 366 + 3661, &mut w).unwrap();
    let mut expected = vec![0x30, 30, 0x17, 13];
    expected.extend_from_slice(b"000101000000Z");
    expected.extend_from_slice(&[0x17, 13]);
    expected.extend_from_slice(b"010101010101Z");
    assert_eq!(w.as_slice(), &expected[..]);
    let mut w = ASN1Writer::new(100);
    encode_version(&mut w).unwrap();
    assert_eq!(w.as_slice(), &[0xa0, 3, 0x02, 1, 2]);
}

#[test]
fn algorithms_by_number() {
    assert_eq!(get_sign_algo(1), Some(SignAlgoValue::ECDSAWithSHA256));
    assert_eq!(get_sign_algo(0), None);
    assert_eq!(get_sign_algo(2), None);
    assert_eq!(get_pubkey_algo(1), Some(PubKeyAlgoValue::EcPubKey));
    assert_eq!(get_pubkey_algo(2), None);
    assert_eq!(get_ec_curve_id(1), Some(EcCurveIdValue::Prime256V1));
    assert_eq!(get_ec_curve_id(255), None);
    assert_eq!(CertTags::SerialNum.to_u8(), 1);
    assert_eq!(CertTags::Signature.to_u8(), 11);
}

fn small_cert() -> Cert {
    Cert {
        serial_no: vec![0x85],
        sign_algo: 1,
        issuer: DistNames { dn: vec![(20, 1)] },
        not_before: 0,
        not_after: 1,
        subject: DistNames { dn: vec![(17, 2), (21, 3)] },
        pubkey_algo: 1,
        ec_curve_id: 1,
        pubkey: vec![4; 65],
        extensions: Extensions {
            basic_const: None,
            key_usage: None,
            ext_key_usage: None,
            subj_key_id: None,
            auth_key_id: None,
            future_extensions: Some(vec![1, 2, 3]),
        },
        signature: vec![9; 64],
    }
}

#[test]
fn a_certificate_in_its_parts() {
    let c = small_cert();
    let mut buf = [0u8; 400];
    let len = c.as_asn1(&mut buf).unwrap();
    let der = &buf[..len];
    // version, then the serial number with a leading zero
    assert_eq!(&der[..3], &[0x30, 0x81, len as u8 - 3]);
    assert_eq!(&der[3..12], &[0xa0, 3, 0x02, 1, 2, 0x02, 2, 0x00, 0x85]);
    // no extension is emitted, and no signature
    assert_eq!(&der[len - 4..], &[0xa3, 2, 0x30, 0]);
    assert!(!der.windows(3).any(|w| w == [9, 9, 9]));
    // the TLV form keeps the future extensions
    let mut tlv = [0u8; 400];
    let n = c.as_tlv(&mut tlv).unwrap();
    let back = Cert::new(&tlv[..n]).unwrap();
    assert_eq!(back.extensions.future_extensions, Some(vec![1, 2, 3]));
    assert_eq!(back.get_signature(), &[9u8; 64][..]);
    assert_eq!(back.get_pubkey(), &[4u8; 65][..]);
    assert_eq!(back.get_subject_key_id().err(), Some(Error::Invalid));
    assert_eq!(back.is_authority(&c), Ok(false));
    // buffers that are too small
    let mut tiny = [0u8; 10];
    assert_eq!(c.as_asn1(&mut tiny), Err(Error::NoSpace));
    assert_eq!(c.as_tlv(&mut tiny), Err(Error::NoSpace));
    assert_eq!(tiny, [0u8; 10]);
    let mut exact = vec![0u8; len];
    assert_eq!(c.as_asn1(&mut exact), Ok(len));
    let mut short = vec![0u8; len - 1];
    assert_eq!(c.as_asn1(&mut short), Err(Error::NoSpace));
}

#[test]
fn a_certificate_with_unknown_algorithms_is_invalid() {
    for (a, b, c) in [(2, 1, 1), (1, 0, 1), (1, 1, 3)] {
        let mut cert = small_cert();
        cert.sign_algo = a;
        cert.pubkey_algo = b;
        cert.ec_curve_id = c;
        let mut buf = [0xeeu8; 400];
        assert_eq!(cert.as_asn1(&mut buf), Err(Error::Invalid));
        assert_eq!(buf[0], 0xee);
        assert!(!cert.knows_algorithms());
        // the TLV form does not mind
        assert!(cert.as_tlv(&mut buf).is_ok());
    }
}

#[test]
fn authority_needs_both_identifiers() {
    let mut child = small_cert();
    let mut parent = small_cert();
    child.extensions.auth_key_id = Some(vec![1, 2]);
    assert_eq!(child.is_authority(&parent), Err(Error::Invalid));
    assert_eq!(child.verify_chain_start().add_cert(&parent).err(), Some(Error::Invalid));
    parent.extensions.subj_key_id = Some(vec![1, 2]);
    assert_eq!(child.is_authority(&parent), Ok(true));
    assert_eq!(parent.get_subject_key_id(), Ok(&[1u8, 2][..]));
    parent.extensions.subj_key_id = Some(vec![1, 3]);
    assert_eq!(child.is_authority(&parent), Ok(false));
    parent.extensions.subj_key_id = Some(vec![1, 2, 0]);
    assert_eq!(child.is_authority(&parent), Ok(false));
    // a signature that is too short is invalid; one that OpenSSL cannot use is its error
    parent.extensions.subj_key_id = Some(vec![1, 2]);
    child.signature = vec![0; 63];
    assert_eq!(child.verify_chain_start().add_cert(&parent).err(), Some(Error::InvalidSignature));
    child.signature = vec![0; 64];
    assert_eq!(child.verify_chain_start().add_cert(&parent).err(), Some(Error::TLSStack));
    // a certificate whose DER does not fit 800 bytes
    child.serial_no = vec![1; 800];
    assert_eq!(child.verify_chain_start().add_cert(&parent).err(), Some(Error::NoSpace));
}

#[test]
fn certificates_that_cannot_be_read() {
    assert_eq!(Cert::new(&[]).err(), Some(Error::InvalidData));
    assert_eq!(Cert::new(&[0x16, 0x18]).err(), Some(Error::TLVTypeMismatch));
    assert_eq!(Cert::new(&[0x15, 0x18]).err(), Some(Error::NoTagFound));
    // the serial number is there, the algorithm is not an integer of one byte
    assert_eq!(
        Cert::new(&[0x15, 0x30, 1, 1, 0, 0x25, 2, 0, 1, 0x18]).err(),
        Some(Error::TLVTypeMismatch)
    );
    // fields out of order
    assert_eq!(Cert::new(&[0x15, 0x24, 2, 1, 0x30, 1, 1, 0, 0x18]).err(), Some(Error::NoTagFound));
}

fn nested(levels: usize) -> ASN1Writer {
    let mut w = ASN1Writer::new(1000);
    for _ in 0..levels {
        w.start_seq().unwrap();
    }
    assert_eq!(w.open_scopes(), levels);
    w
}

#[test]
fn encoders_need_room_to_nest() {
    // a name takes a SET and a SEQUENCE: two scopes of the ten
    let mut w = nested(8);
    let before = w.as_slice().to_vec();
    assert_eq!(encode_u64_dn(17, 1, &mut w), Ok(()));
    assert_eq!(w.open_scopes(), 8);
    assert!(w.as_slice().len() > before.len());
    let mut w = nested(9);
    let before = w.as_slice().to_vec();
    assert_eq!(encode_u64_dn(17, 1, &mut w), Err(Error::NoSpace));
    assert_eq!(w.as_slice(), &before[..]);
    assert_eq!(w.open_scopes(), 9);
    // the version takes one
    let mut w = nested(9);
    assert_eq!(encode_version(&mut w), Ok(()));
    let mut w = nested(10);
    let before = w.as_slice().to_vec();
    assert_eq!(encode_version(&mut w), Err(Error::NoSpace));
    assert_eq!(w.as_slice(), &before[..]);
    // names take their SEQUENCE and, for a name that Matter defines, two more
    let names = DistNames { dn: vec![(17, 1)] };
    assert_eq!(names.nesting(), 3);
    assert_eq!(names.encode(&mut nested(7)), Ok(()));
    assert_eq!(names.encode(&mut nested(8)), Err(Error::NoSpace));
    let others = DistNames { dn: vec![(5, 1)] };
    assert_eq!(others.nesting(), 1);
    assert_eq!(others.encode(&mut nested(9)), Ok(()));
    assert_eq!(others.encode(&mut nested(10)), Err(Error::NoSpace));
    // an extension takes two and those of its body
    let usage = ExtensionBody::KeyUsage(1);
    assert_eq!(usage.nesting(), 0);
    assert_eq!(encode_extension(&usage, &mut nested(8)), Ok(()));
    assert_eq!(encode_extension(&usage, &mut nested(9)), Err(Error::NoSpace));
    let ca = ExtensionBody::BasicConst(BasicConstraints { is_ca: true, path: None });
    assert_eq!(ca.nesting(), 1);
    assert_eq!(encode_extension(&ca, &mut nested(7)), Ok(()));
    assert_eq!(encode_extension(&ca, &mut nested(8)), Err(Error::NoSpace));
    // a certificate takes its SEQUENCE and the most that a part of it takes
    let mut c = small_cert();
    assert_eq!(c.nesting(), 4);
    assert_eq!(c.encode(&mut nested(6)), Ok(()));
    let mut w = nested(7);
    let before = w.as_slice().to_vec();
    assert_eq!(c.encode(&mut w), Err(Error::NoSpace));
    assert_eq!(w.as_slice(), &before[..]);
    c.extensions.key_usage = Some(1);
    assert_eq!(c.extensions.nesting(), 2);
    assert_eq!(c.nesting(), 5);
    assert_eq!(c.encode(&mut nested(5)), Ok(()));
    assert_eq!(c.encode(&mut nested(6)), Err(Error::NoSpace));
    c.extensions.auth_key_id = Some(vec![7; 20]);
    assert_eq!(c.nesting(), 6);
    assert_eq!(c.encode(&mut nested(4)), Ok(()));
    assert_eq!(c.encode(&mut nested(5)), Err(Error::NoSpace));
    // a key usage opens none
    assert_eq!(encode_key_usage(1, &mut nested(10)), Ok(()));
}
