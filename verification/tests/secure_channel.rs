use matter::cert::model::BasicConstraints;
use matter::cert::verify::verify_chain;
use matter::cert::{Cert, DistNames, Extensions};
use matter::crypto::{open, seal, verify_msg};
use matter::error::Error;
use matter::fabric::{Fabric, FabricMgr};
use matter::interaction_model::handlers::Packet;
use matter::secure_channel::case::{
    Case, CaseSession, Sigma1, Sigma1Outcome, Sigma3Outcome, State,
};
use matter::secure_channel::common::{create_sc_status_report, SCStatusCodes};
use matter::tlv::model::TagType;
use matter::tlv::parser::get_root_node_struct;
use matter::tlv::writer::TLVWriter;
use matter::transport::session::{PeerAddr, SessionMgr};
use matter::utils::writebuf::WriteBuf;

use openssl::bn::{BigNum, BigNumContext};
use openssl::ec::{EcGroup, EcKey, EcPoint, PointConversionForm};
use openssl::ecdsa::EcdsaSig;
use openssl::nid::Nid;
use openssl::pkey::{PKey, Private};

const KEY: [u8; 16] = [7; 16];
const NONCE: [u8; 13] = *b"NCASE_Sigma2N";

#[test]
fn aes_ccm_round_trip_and_tamper_detection() {
    let plaintext: Vec<u8> = (0u8..40).collect();
    let sealed = seal(&KEY, &NONCE, &[], &plaintext).unwrap();
    assert_eq!(sealed.len(), plaintext.len() + 16);
    assert_ne!(&sealed[..plaintext.len()], &plaintext[..]);
    assert_eq!(open(&KEY, &NONCE, &[], &sealed), Ok(plaintext.clone()));
    // any single bit of the ciphertext or of the tag
    for byte in 0..sealed.len() {
        for bit in 0..8 {
            let mut bad = sealed.clone();
            bad[byte] ^= 1 << bit;
            assert_eq!(open(&KEY, &NONCE, &[], &bad), Err(Error::Crypto));
        }
    }
    // another key, another nonce
    assert_eq!(open(&[8; 16], &NONCE, &[], &sealed), Err(Error::Crypto));
    assert_eq!(open(&KEY, b"NCASE_Sigma3N", &[], &sealed), Err(Error::Crypto));
}

#[test]
fn aes_ccm_known_answer() {
    // RFC 3610 has no vector with a tag of 16 bytes; this one was computed
    // with the empty plaintext, whose ciphertext is the tag alone.
    let sealed = seal(&KEY, &NONCE, &[], &[]).unwrap();
    assert_eq!(sealed.len(), 16);
    assert_eq!(open(&KEY, &NONCE, &[], &sealed), Ok(vec![]));
    let other = seal(&KEY, &NONCE, &[], &[0]).unwrap();
    assert_eq!(other.len(), 17);
    assert_ne!(&other[1..], &sealed[..]);
}

#[test]
fn aes_ccm_refuses_wrong_lengths() {
    assert_eq!(seal(&[0; 15], &NONCE, &[], &[1]), Err(Error::InvalidKeyLength));
    assert_eq!(seal(&KEY, &[0; 12], &[], &[1]), Err(Error::InvalidKeyLength));
    assert_eq!(open(&[0; 17], &NONCE, &[], &[0; 16]), Err(Error::InvalidKeyLength));
    assert_eq!(open(&KEY, &NONCE, &[], &[0; 15]), Err(Error::Crypto));
}

#[test]
fn status_report_bytes() {
    let mut tx = Packet::new(8);
    create_sc_status_report(&mut tx, SCStatusCodes::NoSharedTrustRoots).unwrap();
    assert_eq!(tx.proto_opcode, 0x40);
    assert_eq!(tx.proto_id, 0);
    assert_eq!(tx.as_slice(), &[1, 0, 0, 0, 0, 0, 1, 0]);
    let mut tx = Packet::new(20);
    create_sc_status_report(&mut tx, SCStatusCodes::SessionEstablishmentSuccess).unwrap();
    assert_eq!(tx.as_slice(), &[0, 0, 0, 0, 0, 0, 0, 0]);
    let mut tx = Packet::new(7);
    assert_eq!(create_sc_status_report(&mut tx, SCStatusCodes::Busy), Err(Error::NoSpace));
    assert_eq!(tx.as_slice().len(), 0);
}

struct TestKey {
    key: EcKey<Private>,
    private: Vec<u8>,
    public: Vec<u8>,
}

fn new_key() -> TestKey {
    let group = EcGroup::from_curve_name(Nid::X9_62_PRIME256V1).unwrap();
    let key = EcKey::generate(&group).unwrap();
    let mut ctx = BigNumContext::new().unwrap();
    let public = key
        .public_key()
        .to_bytes(&group, PointConversionForm::UNCOMPRESSED, &mut ctx)
        .unwrap();
    let private = key.private_key().to_vec_padded(32).unwrap();
    TestKey { key, private, public }
}

fn sign(key: &TestKey, msg: &[u8]) -> Vec<u8> {
    let digest = openssl::sha::sha256(msg);
    let sig = EcdsaSig::sign(&digest, &key.key).unwrap();
    let mut out = sig.r().to_vec_padded(32).unwrap();
    out.extend_from_slice(&sig.s().to_vec_padded(32).unwrap());
    out
}

fn ecdh(own: &TestKey, peer_public: &[u8]) -> Vec<u8> {
    let group = EcGroup::from_curve_name(Nid::X9_62_PRIME256V1).unwrap();
    let mut ctx = BigNumContext::new().unwrap();
    let point = EcPoint::from_bytes(&group, peer_public, &mut ctx).unwrap();
    let peer = PKey::from_ec_key(EcKey::from_public_key(&group, &point).unwrap()).unwrap();
    let own = PKey::from_ec_key(own.key.clone()).unwrap();
    let mut deriver = openssl::derive::Deriver::new(&own).unwrap();
    deriver.set_peer(&peer).unwrap();
    deriver.derive_to_vec().unwrap()
}

fn hkdf(salt: &[u8], ikm: &[u8], info: &[u8], len: usize) -> Vec<u8> {
    let mut okm = vec![0u8; len];
    hkdf::Hkdf::<sha2::Sha256>::new(Some(salt), ikm).expand(info, &mut okm).unwrap();
    okm
}

fn sha256(data: &[u8]) -> Vec<u8> {
    openssl::sha::sha256(data).to_vec()
}

fn make_cert(
    serial: u8,
    issuer: Vec<(u8, u64)>,
    subject: Vec<(u8, u64)>,
    key: &TestKey,
    signer: &TestKey,
    is_ca: bool,
    subj_key_id: u8,
    auth_key_id: u8,
) -> Cert {
    let mut cert = Cert {
        serial_no: vec![serial],
        sign_algo: 1,
        issuer: DistNames { dn: issuer },
        not_before: 0x27812280,
        not_after: 0x3a4d2580,
        subject: DistNames { dn: subject },
        pubkey_algo: 1,
        ec_curve_id: 1,
        pubkey: key.public.clone(),
        extensions: Extensions {
            basic_const: Some(BasicConstraints { is_ca, path: None }),
            key_usage: Some(if is_ca { 0x60 } else { 0x01 }),
            ext_key_usage: if is_ca { None } else { Some(vec![2, 1]) },
            subj_key_id: Some(vec![subj_key_id; 20]),
            auth_key_id: Some(vec![auth_key_id; 20]),
            future_extensions: None,
        },
        signature: vec![],
    };
    let mut der = [0u8; 800];
    let len = cert.as_asn1(&mut der).unwrap();
    cert.signature = sign(signer, &der[..len]);
    cert
}

fn tlv_of(cert: &Cert) -> Vec<u8> {
    let mut buf = [0u8; 800];
    let len = cert.as_tlv(&mut buf).unwrap();
    buf[..len].to_vec()
}

struct World {
    root: Cert,
    icac: Cert,
    initiator_noc: Cert,
    initiator_key: TestKey,
    fabric_mgr: FabricMgr,
    ipk: Vec<u8>,
    root_public: Vec<u8>,
}

const FABRIC_ID: u64 = 0x1122;
const RESPONDER_NODE: u64 = 0x99;

fn world() -> World {
    let root_key = new_key();
    let icac_key = new_key();
    let initiator_key = new_key();
    let responder_key = new_key();
    let root_dn = vec![(20u8, 1u64)];
    let icac_dn = vec![(19u8, 2u64), (21u8, FABRIC_ID)];
    let root = make_cert(1, root_dn.clone(), root_dn.clone(), &root_key, &root_key, true, 0xa1, 0xa1);
    let icac = make_cert(2, root_dn, icac_dn.clone(), &icac_key, &root_key, true, 0xb2, 0xa1);
    let initiator_noc = make_cert(
        3,
        icac_dn.clone(),
        vec![(17u8, 0x77u64), (21u8, FABRIC_ID)],
        &initiator_key,
        &icac_key,
        false,
        0xc3,
        0xb2,
    );
    let responder_noc = make_cert(
        4,
        icac_dn,
        vec![(17u8, RESPONDER_NODE), (21u8, FABRIC_ID)],
        &responder_key,
        &icac_key,
        false,
        0xd4,
        0xb2,
    );
    let ipk = vec![0x5a; 16];
    let mut fabric_mgr = FabricMgr::new();
    fabric_mgr.add(Fabric {
        node_id: RESPONDER_NODE,
        fabric_id: FABRIC_ID,
        ipk: ipk.clone(),
        root_ca: tlv_of(&root),
        icac: tlv_of(&icac),
        noc: tlv_of(&responder_noc),
        noc_key: responder_key.private.clone(),
        root_pubkey: root_key.public.clone(),
    });
    World {
        root,
        icac,
        initiator_noc,
        initiator_key,
        fabric_mgr,
        ipk,
        root_public: root_key.public,
    }
}

fn dest_id(w: &World, random: &[u8]) -> Vec<u8> {
    let mut msg = random.to_vec();
    msg.extend_from_slice(&w.root_public);
    msg.extend_from_slice(&FABRIC_ID.to_le_bytes());
    msg.extend_from_slice(&RESPONDER_NODE.to_le_bytes());
    let pkey = PKey::hmac(&w.ipk).unwrap();
    let mut signer =
        openssl::sign::Signer::new(openssl::hash::MessageDigest::sha256(), &pkey).unwrap();
    signer.update(&msg).unwrap();
    signer.sign_to_vec().unwrap()
}

fn four(a: &[u8], b: &[u8], c: &[u8], d: Option<&[u8]>) -> Vec<u8> {
    let mut tw = TLVWriter::new(WriteBuf::new(2000));
    tw.start_struct(TagType::Anonymous).unwrap();
    tw.octets(TagType::Context(1), a).unwrap();
    tw.octets(TagType::Context(2), b).unwrap();
    tw.octets(TagType::Context(3), c).unwrap();
    if let Some(d) = d {
        tw.octets(TagType::Context(4), d).unwrap();
    }
    tw.end_container().unwrap();
    tw.as_slice().to_vec()
}

fn sigma1(random: &[u8], sessid: u16, dest: &[u8], public: &[u8]) -> Vec<u8> {
    let mut tw = TLVWriter::new(WriteBuf::new(400));
    tw.start_struct(TagType::Anonymous).unwrap();
    tw.octets(TagType::Context(1), random).unwrap();
    tw.u16(TagType::Context(2), sessid).unwrap();
    tw.octets(TagType::Context(3), dest).unwrap();
    tw.octets(TagType::Context(4), public).unwrap();
    tw.end_container().unwrap();
    tw.as_slice().to_vec()
}

#[test]
fn generated_chain_verifies() {
    let w = world();
    let noc = Cert::new(&tlv_of(&w.initiator_noc)).unwrap();
    let icac = Cert::new(&tlv_of(&w.icac)).unwrap();
    let root = Cert::new(&tlv_of(&w.root)).unwrap();
    assert_eq!(noc.get_node_id(), Ok(0x77));
    assert_eq!(noc.get_fabric_id(), Ok(FABRIC_ID));
    assert_eq!(root.get_node_id(), Err(Error::NoNodeId));
    assert_eq!(root.get_fabric_id(), Err(Error::NoFabricId));
    assert_eq!(verify_chain(&vec![noc, icac, root]), Ok(()));
    // the root does not sign the leaf
    let noc = Cert::new(&tlv_of(&w.initiator_noc)).unwrap();
    let root = Cert::new(&tlv_of(&w.root)).unwrap();
    assert_eq!(verify_chain(&vec![noc, root]), Err(Error::InvalidAuthKey));
    assert_eq!(verify_chain(&vec![]), Err(Error::Invalid));
}

#[test]
fn sigma1_without_shared_root_gets_a_status_report() {
    let w = world();
    let case = Case::new(w.fabric_mgr);
    let key = new_key();
    let msg = sigma1(&[1; 32], 5, &[0; 32], &key.public);
    let mut tx = Packet::new(800);
    let r = case.handle_casesigma1(&msg, 9, &mut tx).unwrap();
    assert!(matches!(r, Sigma1Outcome::NoSharedTrustRoots));
    assert_eq!(tx.proto_opcode, 0x40);
    assert_eq!(tx.as_slice(), &[1, 0, 0, 0, 0, 0, 1, 0]);
}

#[test]
fn sigma1_that_cannot_be_read_is_refused() {
    let w = world();
    let case = Case::new(w.fabric_mgr);
    let mut tx = Packet::new(800);
    assert_eq!(case.handle_casesigma1(&[0x15, 0x30], 9, &mut tx).err(), Some(Error::InvalidData));
    assert_eq!(case.handle_casesigma1(&[0x16, 0x18], 9, &mut tx).err(), Some(Error::TLVTypeMismatch));
    assert_eq!(case.handle_casesigma1(&[0x15, 0x18], 9, &mut tx).err(), Some(Error::NoTagFound));
    assert_eq!(tx.as_slice().len(), 0);
    assert_eq!(Sigma1::decode(&[0x15, 0x24, 0x01, 0x05, 0x18]).err(), Some(Error::TLVTypeMismatch));
    let ok = Sigma1::decode(&sigma1(&[3; 32], 0x1234, &[4; 32], &[5; 65])).unwrap();
    assert_eq!(ok.initiator_sessid, 0x1234);
    assert_eq!(ok.initiator_random, vec![3; 32]);
    assert_eq!(ok.dest_id, vec![4; 32]);
    assert_eq!(ok.peer_pub_key, vec![5; 65]);
    let cs = CaseSession::new(7).unwrap();
    assert_eq!(cs.state, State::Sigma1Rx);
    assert_eq!(cs.initiator_sessid, 7);
}

struct Handshake {
    case: Case,
    session: CaseSession,
    sigma3: Vec<u8>,
    session_keys: Vec<u8>,
}

fn handshake(tamper: bool) -> Handshake {
    let w = world();
    let eph = new_key();
    let random = [0x42u8; 32];
    let dest = dest_id(&w, &random);
    let msg1 = sigma1(&random, 0x55, &dest, &eph.public);
    let initiator_noc = tlv_of(&w.initiator_noc);
    let icac = tlv_of(&w.icac);
    let ipk = w.ipk.clone();
    let initiator_key = w.initiator_key;
    let case = Case::new(w.fabric_mgr);
    let mut tx = Packet::new(1200);
    let session = match case.handle_casesigma1(&msg1, 0x66, &mut tx).unwrap() {
        Sigma1Outcome::Responded(cs) => cs,
        Sigma1Outcome::NoSharedTrustRoots => panic!("the fabric was not found"),
    };
    assert_eq!(tx.proto_opcode, 0x31);
    let msg2 = tx.as_slice().to_vec();
    let mut transcript = msg1.clone();
    transcript.extend_from_slice(&msg2);
    assert_eq!(session.tt_hash, transcript);
    assert_eq!(session.initiator_sessid, 0x55);
    assert_eq!(session.local_sessid, 0x66);
    assert_eq!(session.peer_pub_key, eph.public);

    // the initiator reads the message of the responder
    let root = get_root_node_struct(&msg2).unwrap();
    let responder_random = root.find_tag(1).unwrap().slice().unwrap().to_vec();
    assert_eq!(responder_random.len(), 32);
    assert_eq!(root.find_tag(2).unwrap().u16().unwrap(), 0x66);
    let responder_public = root.find_tag(3).unwrap().slice().unwrap().to_vec();
    assert_eq!(responder_public, session.our_pub_key);
    let encrypted2 = root.find_tag(4).unwrap().slice().unwrap().to_vec();
    let secret = ecdh(&eph, &responder_public);
    assert_eq!(secret, session.shared_secret);
    let mut salt = ipk.clone();
    salt.extend_from_slice(&responder_random);
    salt.extend_from_slice(&responder_public);
    salt.extend_from_slice(&sha256(&msg1));
    let s2k = hkdf(&salt, &secret, b"Sigma2", 16);
    assert_eq!(
        Case::get_sigma2_key(&ipk, &responder_random, &responder_public, &sha256(&msg1), &secret),
        Ok(s2k.clone())
    );
    let tbe2 = open(&s2k, b"NCASE_Sigma2N", &[], &encrypted2).unwrap();
    let tbe2 = get_root_node_struct(&tbe2).unwrap();
    let responder_noc = tbe2.find_tag(1).unwrap().slice().unwrap().to_vec();
    let responder_icac = tbe2.find_tag(2).unwrap().slice().unwrap().to_vec();
    let signature2 = tbe2.find_tag(3).unwrap().slice().unwrap().to_vec();
    assert_eq!(tbe2.find_tag(4).unwrap().slice().unwrap().len(), 16);
    let tbs2 = four(&responder_noc, &responder_icac, &responder_public, Some(&eph.public));
    let noc = Cert::new(&responder_noc).unwrap();
    assert_eq!(verify_msg(noc.get_pubkey(), &tbs2, &signature2), Ok(()));

    // the initiator writes its last message
    let tbs3 = four(&initiator_noc, &icac, &eph.public, Some(&responder_public));
    let mut signature3 = sign(&initiator_key, &tbs3);
    if tamper {
        signature3[5] ^= 1;
    }
    let tbe3 = four(&initiator_noc, &icac, &signature3, None);
    let mut salt = ipk.clone();
    salt.extend_from_slice(&sha256(&transcript));
    let s3k = hkdf(&salt, &secret, b"Sigma3", 16);
    let encrypted3 = seal(&s3k, b"NCASE_Sigma3N", &[], &tbe3).unwrap();
    let mut tw = TLVWriter::new(WriteBuf::new(1200));
    tw.start_struct(TagType::Anonymous).unwrap();
    tw.octets(TagType::Context(1), &encrypted3).unwrap();
    tw.end_container().unwrap();
    let sigma3 = tw.as_slice().to_vec();
    transcript.extend_from_slice(&sigma3);
    let mut salt = ipk.clone();
    salt.extend_from_slice(&sha256(&transcript));
    let session_keys = hkdf(&salt, &secret, b"SessionKeys", 48);
    Handshake { case, session, sigma3, session_keys }
}

#[test]
fn case_handshake_establishes_a_session() {
    let h = handshake(false);
    let mut sessions = SessionMgr::new();
    let peer = PeerAddr::V4(0xc0a80001);
    let mut tx = Packet::new(100);
    let r = h.case.handle_casesigma3(&h.session, &h.sigma3, &mut sessions, peer, &mut tx).unwrap();
    match r {
        Sigma3Outcome::Established(challenge) => assert_eq!(challenge, &h.session_keys[32..48]),
        Sigma3Outcome::Failed(code) => panic!("the handshake failed with {:?}", code),
    }
    assert_eq!(tx.proto_opcode, 0x40);
    assert_eq!(tx.as_slice(), &[0, 0, 0, 0, 0, 0, 0, 0]);
    assert_eq!(sessions.len(), 1);
    let s = sessions.get(0x66, peer).unwrap();
    assert_eq!(&s.dec_key[..], &h.session_keys[0..16]);
    assert_eq!(&s.enc_key[..], &h.session_keys[16..32]);
}

#[test]
fn case_handshake_with_a_bad_signature_fails() {
    let h = handshake(true);
    let mut sessions = SessionMgr::new();
    let peer = PeerAddr::V4(0xc0a80001);
    let mut tx = Packet::new(100);
    let r = h.case.handle_casesigma3(&h.session, &h.sigma3, &mut sessions, peer, &mut tx).unwrap();
    assert!(matches!(r, Sigma3Outcome::Failed(SCStatusCodes::InvalidParameter)));
    assert_eq!(tx.as_slice(), &[1, 0, 0, 0, 0, 0, 2, 0]);
    assert_eq!(sessions.len(), 0);
}

#[test]
fn case_handshake_with_a_full_table_is_busy() {
    let h = handshake(false);
    let mut sessions = SessionMgr::new();
    let peer = PeerAddr::V4(0xc0a80001);
    for i in 0..16 {
        sessions.add(i, [0; 16], [0; 16], peer).unwrap();
    }
    let mut tx = Packet::new(100);
    let r = h.case.handle_casesigma3(&h.session, &h.sigma3, &mut sessions, peer, &mut tx).unwrap();
    assert!(matches!(r, Sigma3Outcome::Failed(SCStatusCodes::Busy)));
    assert_eq!(tx.as_slice(), &[1, 0, 0, 0, 0, 0, 4, 0]);
    assert_eq!(sessions.len(), 16);
    // a garbled last message is an invalid parameter
    let mut sessions = SessionMgr::new();
    let mut tx = Packet::new(100);
    let mut bad = h.sigma3.clone();
    let at = bad.len() - 3;
    bad[at] ^= 0x80;
    let r = h.case.handle_casesigma3(&h.session, &bad, &mut sessions, peer, &mut tx).unwrap();
    assert!(matches!(r, Sigma3Outcome::Failed(SCStatusCodes::InvalidParameter)));
    // without room for the status report nothing happens
    let mut tx = Packet::new(7);
    let r = h.case.handle_casesigma3(&h.session, &h.sigma3, &mut sessions, peer, &mut tx);
    assert_eq!(r.err(), Some(Error::NoSpace));
    assert_eq!(sessions.len(), 0);
}

#[test]
fn big_number_helpers_are_consistent() {
    // the private scalar that the tests hand to the library is the one of the key
    let k = new_key();
    let n = BigNum::from_slice(&k.private).unwrap();
    assert_eq!(n.to_vec_padded(32).unwrap(), k.private);
    assert_eq!(k.public.len(), 65);
}

#[test]
fn responder_message_with_short_credentials() {
    let fabric = Fabric {
        node_id: 1,
        fabric_id: 2,
        ipk: vec![3; 16],
        root_ca: vec![],
        icac: vec![0xa0, 0xa1],
        noc: vec![0xb0],
        noc_key: vec![4; 32],
        root_pubkey: vec![],
    };
    let random = [5u8; 32];
    let public = [6u8; 65];
    let secret = [7u8; 32];
    let signature = [8u8; 64];
    let resumption = [9u8; 16];
    let hash = sha256(b"first message");
    let mut tx = Packet::new(400);
    assert_eq!(
        Case::sigma2_respond(&fabric, 0x0102, &random, &public, &secret, &signature, &resumption, &hash, &mut tx),
        Ok(())
    );
    assert_eq!(tx.proto_opcode, 0x31);
    let root = get_root_node_struct(tx.as_slice()).unwrap();
    assert_eq!(root.find_tag(1).unwrap().slice().unwrap(), &random);
    assert_eq!(root.find_tag(2).unwrap().u16(), Ok(0x0102));
    assert_eq!(root.find_tag(3).unwrap().slice().unwrap(), &public);
    // what is encrypted has a length field of two bytes, however short it is
    let encrypted = root.find_tag(4).unwrap();
    assert_eq!(encrypted.code, 0x11);
    // the key of the message opens it: the credentials in a structure of four strings
    let mut salt = fabric.ipk.clone();
    salt.extend_from_slice(&random);
    salt.extend_from_slice(&public);
    salt.extend_from_slice(&hash);
    let key = hkdf(&salt, &secret, b"Sigma2", 16);
    assert_eq!(Case::get_sigma2_key(&fabric.ipk, &random, &public, &hash, &secret), Ok(key.clone()));
    let plain = open(&key, b"NCASE_Sigma2N", &[], encrypted.slice().unwrap()).unwrap();
    assert_eq!(plain, four(&fabric.noc, &fabric.icac, &signature, Some(&resumption)));
    assert_eq!(encrypted.slice().unwrap().len(), plain.len() + 16);
    assert!(plain.len() + 16 < 256);
    // without room nothing is written
    let mut tx = Packet::new(20);
    assert_eq!(
        Case::sigma2_respond(&fabric, 0x0102, &random, &public, &secret, &signature, &resumption, &hash, &mut tx),
        Err(Error::NoSpace)
    );
    assert_eq!(tx.as_slice().len(), 0);
}
