//! CASE: the handshake of three messages that establishes a session from
//! the operational credentials of a fabric.

use vstd::prelude::*;
use crate::cert::model::{elem_octets, elem_u16};
use crate::crypto::{
    ec_generate, ec_public, ecdh_p256, ecdh_p256_secret, hkdf_okm, hkdf_sha256, opened_bytes,
    p256_public_of, random_bytes, sha2_digest, sha2_sha256, signed_by,
};
use crate::error::Error;
use crate::fabric::{extend, Fabric, FabricMgr};
use crate::interaction_model::handlers::Packet;
use crate::secure_channel::common::{
    create_sc_status_report, sc_status_report_bytes, SCStatusCodes, OPCODE_CASE_SIGMA2,
    OPCODE_STATUS_REPORT, PROTO_ID_SECURE_CHANNEL,
};
use crate::tlv::model::{
    container, elem_bytes, is_container, parse_elem, Elem, TagType, TYPE_STRUCT,
};
use crate::tlv::parser::{
    elems_view, find_ctx, get_root_node_struct, lemma_children_view, lemma_find_ctx, TLVElement,
};
use crate::tlv::writer::{octets_elem, uint_elem, write_outcome, TLVWriter};

verus! {

/// How far a handshake has come.
#[derive(Debug, PartialEq, Eq, Clone, Copy, Structural)]
pub enum State {
    Sigma1Rx,
    Sigma3Rx,
}

/// The state of a handshake, kept on its exchange: how far it has come,
/// the session identifier of the initiator, every message of the handshake
/// so far, which is what the transcript hash is taken over, and the keys
/// of the key agreement.
#[derive(Debug)]
pub struct CaseSession {
    pub state: State,
    pub initiator_sessid: u16,
    pub local_sessid: u16,
    pub local_fabric_idx: usize,
    pub tt_hash: Vec<u8>,
    pub our_key: Vec<u8>,
    pub our_pub_key: Vec<u8>,
    pub peer_pub_key: Vec<u8>,
    pub shared_secret: Vec<u8>,
}

impl CaseSession {
    /// The state of a handshake of which nothing was received yet.
    pub fn new(initiator_sessid: u16) -> (r: Result<CaseSession, Error>)
        ensures
            r is Ok,
            r->Ok_0.state == State::Sigma1Rx,
            r->Ok_0.initiator_sessid == initiator_sessid,
            r->Ok_0.tt_hash@ == Seq::<u8>::empty(),
    {
        Ok(
            CaseSession {
                state: State::Sigma1Rx,
                initiator_sessid,
                local_sessid: 0,
                local_fabric_idx: 0,
                tt_hash: Vec::new(),
                our_key: Vec::new(),
                our_pub_key: Vec::new(),
                peer_pub_key: Vec::new(),
                shared_secret: Vec::new(),
            },
        )
    }
}

/// What the first message of an initiator holds.
pub struct Sigma1Model {
    pub initiator_random: Seq<u8>,
    pub initiator_sessid: u16,
    pub dest_id: Seq<u8>,
    pub peer_pub_key: Seq<u8>,
}

/// What the first message of an initiator holds.
#[derive(Debug)]
pub struct Sigma1 {
    pub initiator_random: Vec<u8>,
    pub initiator_sessid: u16,
    pub dest_id: Vec<u8>,
    pub peer_pub_key: Vec<u8>,
}

impl View for Sigma1 {
    type V = Sigma1Model;

    open spec fn view(&self) -> Sigma1Model {
        Sigma1Model {
            initiator_random: self.initiator_random@,
            initiator_sessid: self.initiator_sessid,
            dest_id: self.dest_id@,
            peer_pub_key: self.peer_pub_key@,
        }
    }
}

/// The member of a container under a context tag: `NoTagFound` where
/// there is none.
pub open spec fn tagged(e: Elem, tag: u8) -> Result<Elem, Error> {
    if !is_container(e.code) {
        Err(Error::TLVTypeMismatch)
    } else {
        match find_ctx(e.children, tag) {
            None => Err(Error::NoTagFound),
            Some(i) => Ok(e.children[i]),
        }
    }
}

/// The string under a context tag of a container.
pub open spec fn tagged_octets(e: Elem, tag: u8) -> Result<Seq<u8>, Error> {
    match tagged(e, tag) {
        Err(x) => Err(x),
        Ok(m) => elem_octets(m),
    }
}

/// The first message that a structure element is read as: the random
/// number of the initiator under the context tag 1, its session
/// identifier under 2, the destination identifier under 3 and its
/// ephemeral public key under 4. The first that is missing or of another
/// type gives the error.
pub open spec fn sigma1_of_elem(e: Elem) -> Result<Sigma1Model, Error> {
    match tagged_octets(e, 1) {
        Err(x) => Err(x),
        Ok(initiator_random) => match tagged(e, 2) {
            Err(x) => Err(x),
            Ok(m) => match elem_u16(m) {
                Err(x) => Err(x),
                Ok(initiator_sessid) => match tagged_octets(e, 3) {
                    Err(x) => Err(x),
                    Ok(dest_id) => match tagged_octets(e, 4) {
                        Err(x) => Err(x),
                        Ok(peer_pub_key) => Ok(
                            Sigma1Model { initiator_random, initiator_sessid, dest_id, peer_pub_key },
                        ),
                    },
                },
            },
        },
    }
}

/// The first message that a byte string is read as.
pub open spec fn sigma1_of(b: Seq<u8>) -> Result<Sigma1Model, Error> {
    match parse_elem(b) {
        None => Err(Error::InvalidData),
        Some((e, _)) => if e.code != TYPE_STRUCT {
            Err(Error::TLVTypeMismatch)
        } else {
            sigma1_of_elem(e)
        },
    }
}

/// The member of a container under a context tag.
pub fn get_tagged(e: &TLVElement, tag: u8) -> (r: Result<&TLVElement, Error>)
    ensures
        match r {
            Ok(m) => tagged(e@, tag) == Ok::<Elem, Error>(m@),
            Err(x) => tagged(e@, tag) == Err::<Elem, Error>(x),
        },
{
    proof {
        lemma_children_view(*e);
        lemma_find_ctx(e@.children, tag);
    }
    match e.find_tag(tag as u32) {
        Err(x) => Err(x),
        Ok(m) => {
            proof {
                let i = find_ctx(e@.children, tag)->Some_0;
                assert(e@.children[i] == e.children@[i]@);
            }
            Ok(m)
        },
    }
}

/// The string under a context tag of a container, copied.
pub fn get_tagged_octets(e: &TLVElement, tag: u8) -> (r: Result<Vec<u8>, Error>)
    ensures
        match r {
            Ok(v) => tagged_octets(e@, tag) == Ok::<Seq<u8>, Error>(v@),
            Err(x) => tagged_octets(e@, tag) == Err::<Seq<u8>, Error>(x),
        },
{
    match get_tagged(e, tag) {
        Err(x) => Err(x),
        Ok(m) => crate::cert::decode::octets_from(m),
    }
}

impl Sigma1 {
    /// Reads the first message of an initiator.
    pub fn decode(buf: &[u8]) -> (r: Result<Sigma1, Error>)
        ensures
            match r {
                Ok(s) => sigma1_of(buf@) == Ok::<Sigma1Model, Error>(s@),
                Err(x) => sigma1_of(buf@) == Err::<Sigma1Model, Error>(x),
            },
    {
        let root = match get_root_node_struct(buf) {
            Ok(e) => e,
            Err(x) => {
                return Err(x);
            },
        };
        let initiator_random = match get_tagged_octets(&root, 1) {
            Ok(v) => v,
            Err(x) => {
                return Err(x);
            },
        };
        let initiator_sessid: u16 = match get_tagged(&root, 2) {
            Ok(m) => match m.u16() {
                Ok(v) => v,
                Err(x) => {
                    return Err(x);
                },
            },
            Err(x) => {
                return Err(x);
            },
        };
        let dest_id = match get_tagged_octets(&root, 3) {
            Ok(v) => v,
            Err(x) => {
                return Err(x);
            },
        };
        let peer_pub_key = match get_tagged_octets(&root, 4) {
            Ok(v) => v,
            Err(x) => {
                return Err(x);
            },
        };
        Ok(Sigma1 { initiator_random, initiator_sessid, dest_id, peer_pub_key })
    }
}

/// The structure of four strings under the context tags 1 to 4.
pub open spec fn four_strings(a: Seq<u8>, b: Seq<u8>, c: Seq<u8>, d: Seq<u8>) -> Elem {
    container(
        TagType::Anonymous,
        TYPE_STRUCT,
        seq![
            octets_elem(TagType::Context(1), a),
            octets_elem(TagType::Context(2), b),
            octets_elem(TagType::Context(3), c),
            octets_elem(TagType::Context(4), d),
        ],
    )
}

/// What the responder encrypts in its message: its operational and
/// intermediate certificates, its signature, and a resumption identifier.
pub open spec fn sigma2_tbe_elem(
    noc: Seq<u8>,
    icac: Seq<u8>,
    signature: Seq<u8>,
    resumption_id: Seq<u8>,
) -> Elem {
    four_strings(noc, icac, signature, resumption_id)
}

/// The message of the responder: its random number under the context tag
/// 1, its session identifier under 2, its ephemeral public key under 3,
/// and what it encrypted, with the tag, under 4 and with a length field of
/// two bytes.
pub open spec fn sigma2_elem(
    our_random: Seq<u8>,
    local_sessid: u16,
    our_pub_key: Seq<u8>,
    encrypted: Seq<u8>,
) -> Elem {
    container(
        TagType::Anonymous,
        TYPE_STRUCT,
        seq![
            octets_elem(TagType::Context(1), our_random),
            uint_elem(TagType::Context(2), local_sessid as u64),
            octets_elem(TagType::Context(3), our_pub_key),
            crate::tlv::writer::leaf(
                TagType::Context(4),
                crate::tlv::model::TYPE_STR16L,
                0,
                encrypted,
            ),
        ],
    )
}

/// Whether a byte string fits the length field of a TLV string.
pub open spec fn fits(s: Seq<u8>) -> bool {
    s.len() < 0x1_0000_0000
}

/// The octet string element with the narrowest length field that holds
/// `data`, or nothing for a string of four gigabytes or more.
pub fn octets_element(tag: TagType, data: &[u8]) -> (r: Option<TLVElement>)
    requires
        tag.wf(),
    ensures
        match r {
            Some(e) => fits(data@) && e@ == octets_elem(tag, data@) && e@.wf(),
            None => !fits(data@),
        },
{
    if data.len() as u64 >= 0x1_0000_0000 {
        return None;
    }
    let code: u8 = if data.len() <= 0xff {
        crate::tlv::model::TYPE_STR8L
    } else if data.len() <= 0xffff {
        crate::tlv::model::TYPE_STR16L
    } else {
        crate::tlv::model::TYPE_STR32L
    };
    proof {
        crate::utils::bytes::lemma_pow256_values();
    }
    Some(TLVElement::new_string(tag, code, vstd::slice::slice_to_vec(data)))
}

/// The bytes of an anonymous structure of four members.
fn struct_of_four(a: TLVElement, b: TLVElement, c: TLVElement, d: TLVElement) -> (r: Result<
    Vec<u8>,
    Error,
>)
    requires
        a@.wf(),
        b@.wf(),
        c@.wf(),
        d@.wf(),
    ensures
        match r {
            Ok(v) => v@ == elem_bytes(
                container(TagType::Anonymous, TYPE_STRUCT, seq![a@, b@, c@, d@]),
            ) && v@.len() <= usize::MAX,
            Err(x) => x == Error::NoSpace && elem_bytes(
                container(TagType::Anonymous, TYPE_STRUCT, seq![a@, b@, c@, d@]),
            ).len() > usize::MAX,
        },
{
    let ghost members = seq![a@, b@, c@, d@];
    let mut v: Vec<TLVElement> = Vec::new();
    v.push(a);
    v.push(b);
    v.push(c);
    v.push(d);
    assert(elems_view(v@) =~= members);
    let e = TLVElement::new_container(TagType::Anonymous, TYPE_STRUCT, v);
    proof {
        let m = container(TagType::Anonymous, TYPE_STRUCT, members);
        assert forall|i: int| 0 <= i < m.children.len() implies (#[trigger] m.children[i]).wf() by {}
    }
    let mut tw = TLVWriter::new(crate::utils::writebuf::WriteBuf::new(usize::MAX));
    match tw.element(&e) {
        Ok(()) => {
            let out = vstd::slice::slice_to_vec(tw.as_slice());
            assert(Seq::<u8>::empty() + elem_bytes(e@) =~= elem_bytes(e@));
            Ok(out)
        },
        Err(x) => Err(x),
    }
}

/// Whether the structure of four strings can be written: `Invalid` where
/// a string has four gigabytes or more, `NoSpace` where the structure is
/// longer than memory.
pub open spec fn four_strings_fit(a: Seq<u8>, b: Seq<u8>, c: Seq<u8>, d: Seq<u8>) -> Result<
    (),
    Error,
> {
    if !(fits(a) && fits(b) && fits(c) && fits(d)) {
        Err(Error::Invalid)
    } else if elem_bytes(four_strings(a, b, c, d)).len() > usize::MAX {
        Err(Error::NoSpace)
    } else {
        Ok(())
    }
}

/// The bytes of the structure of four strings under the context tags 1 to
/// 4.
pub fn four_strings_bytes(a: &[u8], b: &[u8], c: &[u8], d: &[u8]) -> (r: Result<Vec<u8>, Error>)
    ensures
        match r {
            Ok(v) => four_strings_fit(a@, b@, c@, d@) is Ok && v@ == elem_bytes(
                four_strings(a@, b@, c@, d@),
            ),
            Err(x) => four_strings_fit(a@, b@, c@, d@) == Err::<(), Error>(x),
        },
{
    let ea = match octets_element(TagType::Context(1), a) {
        Some(e) => e,
        None => {
            return Err(Error::Invalid);
        },
    };
    let eb = match octets_element(TagType::Context(2), b) {
        Some(e) => e,
        None => {
            return Err(Error::Invalid);
        },
    };
    let ec = match octets_element(TagType::Context(3), c) {
        Some(e) => e,
        None => {
            return Err(Error::Invalid);
        },
    };
    let ed = match octets_element(TagType::Context(4), d) {
        Some(e) => e,
        None => {
            return Err(Error::Invalid);
        },
    };
    struct_of_four(ea, eb, ec, ed)
}

/// The text that names the key of the message of the responder.
pub open spec fn s2k_info() -> Seq<u8> {
    seq![0x53u8, 0x69u8, 0x67u8, 0x6du8, 0x61u8, 0x32u8]
}

/// The nonce of the encryption in the message of the responder:
/// `NCASE_Sigma2N`.
pub open spec fn sigma2_nonce() -> Seq<u8> {
    seq![
        0x4eu8,
        0x43u8,
        0x41u8,
        0x53u8,
        0x45u8,
        0x5fu8,
        0x53u8,
        0x69u8,
        0x67u8,
        0x6du8,
        0x61u8,
        0x32u8,
        0x4eu8,
    ]
}

/// The salt of the key of the message of the responder: the identity
/// protection key, the random number and the ephemeral public key of the
/// responder, and the hash of the transcript.
pub open spec fn sigma2_salt(
    ipk: Seq<u8>,
    our_random: Seq<u8>,
    our_pub_key: Seq<u8>,
    tt_hash: Seq<u8>,
) -> Seq<u8> {
    ipk + our_random + our_pub_key + tt_hash
}

/// The key of the message of the responder: sixteen bytes that HKDF
/// derives from the shared secret under the salt and the text `Sigma2`.
pub open spec fn sigma2_key(
    ipk: Seq<u8>,
    our_random: Seq<u8>,
    our_pub_key: Seq<u8>,
    tt_hash: Seq<u8>,
    shared_secret: Seq<u8>,
) -> Seq<u8> {
    hkdf_okm(sigma2_salt(ipk, our_random, our_pub_key, tt_hash), shared_secret, s2k_info(), 16)->Some_0
}

/// What the responder sends encrypted: the ciphertext of what is to be
/// encrypted, followed by the tag; or nothing where the cipher refuses.
pub open spec fn sigma2_encrypted(key: Seq<u8>, tbe: Seq<u8>) -> Option<Seq<u8>> {
    crate::crypto::sealed_bytes(key, sigma2_nonce(), Seq::empty(), tbe)
}

/// Whether the state of a handshake is what the message of the responder
/// was made from, with the given random number, signature and resumption
/// identifier: the random number has 32 bytes, the resumption identifier
/// 16; the signature has 64 bytes and verifies, under the public key of
/// the operational key of the fabric, over its certificates and the two
/// ephemeral public keys; and what the transcript holds after the message
/// of the initiator is the message of the responder, made from these, the
/// shared secret and the hash of the message of the initiator.
pub open spec fn sigma2_sent(
    fabric: Fabric,
    cs: CaseSession,
    rx: Seq<u8>,
    our_random: Seq<u8>,
    signature: Seq<u8>,
    resumption_id: Seq<u8>,
) -> bool {
    &&& our_random.len() == 32
    &&& signature.len() == 64
    &&& resumption_id.len() == 16
    &&& signed_by(
        fabric.noc_key@,
        elem_bytes(four_strings(fabric.noc@, fabric.icac@, cs.our_pub_key@, cs.peer_pub_key@)),
        signature,
    )
    &&& rx.len() <= cs.tt_hash@.len()
    &&& sigma2_out(
        fabric,
        cs.local_sessid,
        our_random,
        cs.our_pub_key@,
        cs.shared_secret@,
        signature,
        resumption_id,
        sha2_digest(rx),
    ) == Ok::<Seq<u8>, Error>(cs.tt_hash@.subrange(rx.len() as int, cs.tt_hash@.len() as int))
}

/// The responder of the CASE handshake.
pub struct Case {
    pub fabric_mgr: FabricMgr,
}

/// How the handling of the first message ended.
#[derive(Debug)]
pub enum Sigma1Outcome {
    /// No fabric of ours has the destination identifier: a status report
    /// says so, and the exchange is to be closed.
    NoSharedTrustRoots,
    /// The message of the responder is written: the state of the handshake
    /// is to be kept on the exchange.
    Responded(CaseSession),
}

impl Case {
    /// A responder for the fabrics of a manager.
    pub fn new(fabric_mgr: FabricMgr) -> (c: Case)
        ensures
            c.fabric_mgr == fabric_mgr,
    {
        Case { fabric_mgr }
    }

    /// The key of the message of the responder.
    pub fn get_sigma2_key(
        ipk: &[u8],
        our_random: &[u8],
        our_pub_key: &[u8],
        tt_hash: &[u8],
        shared_secret: &[u8],
    ) -> (r: Result<Vec<u8>, Error>)
        ensures
            r is Ok,
            r->Ok_0@ == sigma2_key(ipk@, our_random@, our_pub_key@, tt_hash@, shared_secret@),
            r->Ok_0@.len() == 16,
    {
        let info: Vec<u8> = vec![0x53, 0x69, 0x67, 0x6d, 0x61, 0x32];
        assert(info@ =~= s2k_info());
        let mut salt: Vec<u8> = Vec::new();
        extend(&mut salt, ipk);
        extend(&mut salt, our_random);
        extend(&mut salt, our_pub_key);
        extend(&mut salt, tt_hash);
        assert(salt@ =~= sigma2_salt(ipk@, our_random@, our_pub_key@, tt_hash@));
        match hkdf_sha256(salt.as_slice(), shared_secret, info.as_slice(), 16) {
            Some(key) => Ok(key),
            None => Err(Error::NoSpace),
        }
    }

    /// What the responder sends encrypted: its certificates, its signature
    /// and a resumption identifier in TLV, encrypted with AES-128-CCM under
    /// the key of the message and the nonce `NCASE_Sigma2N`, followed by the
    /// tag of 16 bytes; under the same key and nonce it opens as what was
    /// encrypted. Fails with `Crypto` where the cipher refuses.
    pub fn get_sigma2_encryption(
        fabric: &Fabric,
        key: &[u8],
        signature: &[u8],
        resumption_id: &[u8],
    ) -> (r: Result<Vec<u8>, Error>)
        requires
            key@.len() == 16,
        ensures
            match four_strings_fit(fabric.noc@, fabric.icac@, signature@, resumption_id@) {
                Err(x) => r == Err::<Vec<u8>, Error>(x),
                Ok(_) => match sigma2_encrypted(
                    key@,
                    elem_bytes(
                        sigma2_tbe_elem(fabric.noc@, fabric.icac@, signature@, resumption_id@),
                    ),
                ) {
                    Some(e) => {
                        let tbe = elem_bytes(
                            sigma2_tbe_elem(fabric.noc@, fabric.icac@, signature@, resumption_id@),
                        );
                        &&& r is Ok
                        &&& r->Ok_0@ == e
                        &&& e.len() == tbe.len() + 16
                        &&& opened_bytes(key@, sigma2_nonce(), Seq::empty(), e) == Some(tbe)
                    },
                    None => r is Err && r->Err_0 == Error::Crypto,
                },
            },
    {
        let tbe = match four_strings_bytes(
            fabric.noc.as_slice(),
            fabric.icac.as_slice(),
            signature,
            resumption_id,
        ) {
            Ok(v) => v,
            Err(x) => {
                return Err(x);
            },
        };
        let nonce: Vec<u8> = vec![
            0x4e,
            0x43,
            0x41,
            0x53,
            0x45,
            0x5f,
            0x53,
            0x69,
            0x67,
            0x6d,
            0x61,
            0x32,
            0x4e,
        ];
        assert(nonce@ =~= sigma2_nonce());
        let none: Vec<u8> = Vec::new();
        assert(none@ =~= Seq::<u8>::empty());
        crate::crypto::seal(key, nonce.as_slice(), none.as_slice(), tbe.as_slice())
    }
}

} // verus!

verus! {

/// What writing the message of the responder comes to, given everything
/// that goes into it.
pub open spec fn sigma2_out(
    fabric: Fabric,
    local_sessid: u16,
    our_random: Seq<u8>,
    our_pub_key: Seq<u8>,
    shared_secret: Seq<u8>,
    signature: Seq<u8>,
    resumption_id: Seq<u8>,
    tt_hash: Seq<u8>,
) -> Result<Seq<u8>, Error> {
    match four_strings_fit(fabric.noc@, fabric.icac@, signature, resumption_id) {
        Err(x) => Err(x),
        Ok(_) => match sigma2_encrypted(
            sigma2_key(fabric.ipk@, our_random, our_pub_key, tt_hash, shared_secret),
            elem_bytes(sigma2_tbe_elem(fabric.noc@, fabric.icac@, signature, resumption_id)),
        ) {
            None => Err(Error::Crypto),
            Some(encrypted) => if !(fits(our_random) && fits(our_pub_key) && encrypted.len()
                < 0x1_0000) {
                Err(Error::Invalid)
            } else {
                Ok(elem_bytes(sigma2_elem(our_random, local_sessid, our_pub_key, encrypted)))
            },
        },
    }
}

impl Case {
    /// The signature of the responder: 64 bytes that verify, under the
    /// public key of its operational key, over the structure of its
    /// operational and intermediate certificates, its ephemeral public key
    /// and that of the initiator.
    pub fn get_sigma2_signature(fabric: &Fabric, our_pub_key: &[u8], peer_pub_key: &[u8]) -> (r:
        Result<Vec<u8>, Error>)
        requires
            fabric.wf(),
        ensures
            match four_strings_fit(fabric.noc@, fabric.icac@, our_pub_key@, peer_pub_key@) {
                Err(x) => r == Err::<Vec<u8>, Error>(x),
                Ok(_) => match r {
                    Ok(signature) => signature@.len() == 64 && signed_by(
                        fabric.noc_key@,
                        elem_bytes(
                            four_strings(fabric.noc@, fabric.icac@, our_pub_key@, peer_pub_key@),
                        ),
                        signature@,
                    ),
                    Err(x) => x == Error::TLSStack,
                },
            },
    {
        let tbs = match four_strings_bytes(
            fabric.noc.as_slice(),
            fabric.icac.as_slice(),
            our_pub_key,
            peer_pub_key,
        ) {
            Ok(v) => v,
            Err(x) => {
                return Err(x);
            },
        };
        fabric.sign_msg(tbs.as_slice())
    }

    /// Writes the message of the responder from everything that goes into
    /// it. On failure nothing is written.
    pub fn sigma2_respond(
        fabric: &Fabric,
        local_sessid: u16,
        our_random: &[u8],
        our_pub_key: &[u8],
        shared_secret: &[u8],
        signature: &[u8],
        resumption_id: &[u8],
        tt_hash: &[u8],
        proto_tx: &mut Packet,
    ) -> (r: Result<(), Error>)
        requires
            fabric.wf(),
        ensures
            final(proto_tx).tw.capacity() == old(proto_tx).tw.capacity(),
            match sigma2_out(
                *fabric,
                local_sessid,
                our_random@,
                our_pub_key@,
                shared_secret@,
                signature@,
                resumption_id@,
                tt_hash@,
            ) {
                Err(x) => r == Err::<(), Error>(x) && final(proto_tx).tw@ == old(proto_tx).tw@,
                Ok(msg) => write_outcome(
                    old(proto_tx).tw@,
                    old(proto_tx).tw.capacity(),
                    msg,
                    r,
                    final(proto_tx).tw@,
                ),
            },
            r is Ok ==> final(proto_tx).proto_id == PROTO_ID_SECURE_CHANNEL && final(proto_tx).proto_opcode == OPCODE_CASE_SIGMA2,
    {
        let key = match Self::get_sigma2_key(
            fabric.ipk.as_slice(),
            our_random,
            our_pub_key,
            tt_hash,
            shared_secret,
        ) {
            Ok(k) => k,
            Err(x) => {
                return Err(x);
            },
        };
        let encrypted = match Self::get_sigma2_encryption(
            fabric,
            key.as_slice(),
            signature,
            resumption_id,
        ) {
            Ok(v) => v,
            Err(x) => {
                return Err(x);
            },
        };
        let e1 = match octets_element(TagType::Context(1), our_random) {
            Some(e) => e,
            None => {
                return Err(Error::Invalid);
            },
        };
        let e3 = match octets_element(TagType::Context(3), our_pub_key) {
            Some(e) => e,
            None => {
                return Err(Error::Invalid);
            },
        };
        if encrypted.len() >= 0x1_0000 {
            return Err(Error::Invalid);
        }
        let e4 = TLVElement::new_string(
            TagType::Context(4),
            crate::tlv::model::TYPE_STR16L,
            encrypted,
        );
        let e2 = TLVElement::new_uint(TagType::Context(2), local_sessid as u64);
        let ghost members = seq![e1@, e2@, e3@, e4@];
        let mut v: Vec<TLVElement> = Vec::new();
        v.push(e1);
        v.push(e2);
        v.push(e3);
        v.push(e4);
        assert(elems_view(v@) =~= members);
        let msg = TLVElement::new_container(TagType::Anonymous, TYPE_STRUCT, v);
        proof {
            crate::utils::bytes::lemma_pow256_values();
            let m = container(TagType::Anonymous, TYPE_STRUCT, members);
            assert forall|i: int| 0 <= i < m.children.len() implies (
            #[trigger] m.children[i]).wf() by {}
        }
        match proto_tx.tw.element(&msg) {
            Ok(()) => {
                proto_tx.set_proto_id(PROTO_ID_SECURE_CHANNEL);
                proto_tx.set_proto_opcode(OPCODE_CASE_SIGMA2);
                Ok(())
            },
            Err(x) => Err(x),
        }
    }

    /// Handles the first message of an initiator. Where no fabric has the
    /// destination identifier of the message, a status report says so and
    /// the exchange is to be closed. Else the responder makes an ephemeral
    /// key pair, agrees on a secret with the public key of the initiator,
    /// draws its random numbers, signs, and writes its message; the state
    /// of the handshake that it returns holds both messages as the
    /// transcript, and the message is the one that `sigma2_out` gives for
    /// what was generated and drawn. Where a primitive reports an error the
    /// handling fails with `TLSStack` or `Crypto`, where the message cannot
    /// be written with `Invalid` or `NoSpace`; nothing is written then.
    pub fn handle_casesigma1(&self, rx_buf: &[u8], local_sessid: u16, proto_tx: &mut Packet) -> (r:
        Result<Sigma1Outcome, Error>)
        requires
            self.fabric_mgr.wf(),
        ensures
            final(proto_tx).tw.capacity() == old(proto_tx).tw.capacity(),
            match sigma1_of(rx_buf@) {
                Err(x) => r is Err && r->Err_0 == x && final(proto_tx).tw@ == old(proto_tx).tw@,
                Ok(s1) => match crate::fabric::first_dest(
                    self.fabric_mgr.fabrics@,
                    s1.initiator_random,
                    s1.dest_id,
                    self.fabric_mgr.fabrics@.len() as int,
                ) {
                    None => {
                        &&& write_outcome(
                            old(proto_tx).tw@,
                            old(proto_tx).tw.capacity(),
                            sc_status_report_bytes(SCStatusCodes::NoSharedTrustRoots),
                            match r {
                                Ok(_) => Ok(()),
                                Err(e) => Err(e),
                            },
                            final(proto_tx).tw@,
                        )
                        &&& r is Ok ==> r->Ok_0 is NoSharedTrustRoots && final(proto_tx).proto_opcode == OPCODE_STATUS_REPORT
                    },
                    Some(idx) => match r {
                        Ok(outcome) => {
                            &&& outcome is Responded
                            &&& outcome->Responded_0.state == State::Sigma1Rx
                            &&& outcome->Responded_0.initiator_sessid == s1.initiator_sessid
                            &&& outcome->Responded_0.local_sessid == local_sessid
                            &&& outcome->Responded_0.local_fabric_idx == idx
                            &&& outcome->Responded_0.peer_pub_key@ == s1.peer_pub_key
                            &&& outcome->Responded_0.our_key@.len() == 32
                            &&& final(proto_tx).proto_opcode == OPCODE_CASE_SIGMA2
                            &&& old(proto_tx).tw@ + outcome->Responded_0.tt_hash@.subrange(
                                rx_buf@.len() as int,
                                outcome->Responded_0.tt_hash@.len() as int,
                            ) == final(proto_tx).tw@
                            &&& outcome->Responded_0.tt_hash@.subrange(0, rx_buf@.len() as int)
                                == rx_buf@
                            &&& p256_public_of(outcome->Responded_0.our_key@) == Some(
                                outcome->Responded_0.our_pub_key@,
                            )
                            &&& ecdh_p256_secret(outcome->Responded_0.our_key@, s1.peer_pub_key)
                                == Some(outcome->Responded_0.shared_secret@)
                            &&& exists|random: Seq<u8>, signature: Seq<u8>, resumption: Seq<u8>|
                                #[trigger] sigma2_sent(
                                    self.fabric_mgr.fabrics@[idx]->Some_0,
                                    outcome->Responded_0,
                                    rx_buf@,
                                    random,
                                    signature,
                                    resumption,
                                )
                        },
                        Err(e) => final(proto_tx).tw@ == old(proto_tx).tw@ && (e
                            == Error::TLSStack || e == Error::Crypto || e == Error::Invalid || e
                            == Error::NoSpace),
                    },
                },
            },
    {
        let s1 = match Sigma1::decode(rx_buf) {
            Ok(s) => s,
            Err(x) => {
                return Err(x);
            },
        };
        let local_fabric = match self.fabric_mgr.match_dest_id(
            s1.initiator_random.as_slice(),
            s1.dest_id.as_slice(),
        ) {
            Ok(idx) => idx,
            Err(_) => {
                match create_sc_status_report(proto_tx, SCStatusCodes::NoSharedTrustRoots) {
                    Ok(()) => {
                        return Ok(Sigma1Outcome::NoSharedTrustRoots);
                    },
                    Err(x) => {
                        return Err(x);
                    },
                }
            },
        };
        let fabric = match self.fabric_mgr.get_fabric(local_fabric) {
            Some(f) => f,
            None => {
                return Err(Error::NotFound);
            },
        };
        let our_key = match ec_generate() {
            Ok(k) => k,
            Err(_) => {
                return Err(Error::TLSStack);
            },
        };
        let our_pub_key = match ec_public(our_key.as_slice()) {
            Ok(p) => p,
            Err(_) => {
                return Err(Error::TLSStack);
            },
        };
        let secret = match ecdh_p256(our_key.as_slice(), s1.peer_pub_key.as_slice()) {
            Ok(s) => s,
            Err(_) => {
                return Err(Error::TLSStack);
            },
        };
        let our_random = random_bytes(32);
        let resumption_id = random_bytes(16);
        let tt_hash = sha2_sha256(rx_buf);
        let signature = match Self::get_sigma2_signature(
            fabric,
            our_pub_key.as_slice(),
            s1.peer_pub_key.as_slice(),
        ) {
            Ok(s) => s,
            Err(x) => {
                return Err(x);
            },
        };
        let anchor: usize = proto_tx.tw.get_tail();
        let ghost before = proto_tx.tw@;
        let ghost made = sigma2_out(
            *fabric,
            local_sessid,
            our_random@,
            our_pub_key@,
            secret@,
            signature@,
            resumption_id@,
            tt_hash@,
        );
        match Self::sigma2_respond(
            fabric,
            local_sessid,
            our_random.as_slice(),
            our_pub_key.as_slice(),
            secret.as_slice(),
            signature.as_slice(),
            resumption_id.as_slice(),
            tt_hash.as_slice(),
            proto_tx,
        ) {
            Ok(()) => {},
            Err(x) => {
                return Err(x);
            },
        }
        let mut transcript: Vec<u8> = Vec::new();
        extend(&mut transcript, rx_buf);
        let out = proto_tx.tw.as_slice();
        let sent = vstd::slice::slice_subrange(out, anchor, out.len());
        extend(&mut transcript, sent);
        proof {
            assert(transcript@.subrange(0, rx_buf@.len() as int) =~= rx_buf@);
            assert(old(proto_tx).tw@ + transcript@.subrange(
                rx_buf@.len() as int,
                transcript@.len() as int,
            ) =~= proto_tx.tw@);
        }
        let cs = CaseSession {
            state: State::Sigma1Rx,
            initiator_sessid: s1.initiator_sessid,
            local_sessid,
            local_fabric_idx: local_fabric,
            tt_hash: transcript,
            our_key,
            our_pub_key,
            peer_pub_key: s1.peer_pub_key,
            shared_secret: secret,
        };
        proof {
            let written = cs.tt_hash@.subrange(rx_buf@.len() as int, cs.tt_hash@.len() as int);
            assert(made is Ok);
            assert(proto_tx.tw@ == before + made->Ok_0);
            assert(sent@ =~= made->Ok_0);
            assert(written =~= sent@);
            assert(made == Ok::<Seq<u8>, Error>(written));
            assert(sigma2_sent(
                *fabric,
                cs,
                rx_buf@,
                our_random@,
                signature@,
                resumption_id@,
            ));
        }
        Ok(Sigma1Outcome::Responded(cs))
    }
}

} // verus!

verus! {

/// The text that names the key of the last message of the initiator:
/// `Sigma3`.
pub open spec fn s3k_info() -> Seq<u8> {
    seq![0x53u8, 0x69u8, 0x67u8, 0x6du8, 0x61u8, 0x33u8]
}

/// The nonce of the encryption in the last message of the initiator:
/// `NCASE_Sigma3N`.
pub open spec fn sigma3_nonce() -> Seq<u8> {
    seq![
        0x4eu8,
        0x43u8,
        0x41u8,
        0x53u8,
        0x45u8,
        0x5fu8,
        0x53u8,
        0x69u8,
        0x67u8,
        0x6du8,
        0x61u8,
        0x33u8,
        0x4eu8,
    ]
}

/// The text that names the keys of the session: `SessionKeys`.
pub open spec fn sek_info() -> Seq<u8> {
    seq![
        0x53u8,
        0x65u8,
        0x73u8,
        0x73u8,
        0x69u8,
        0x6fu8,
        0x6eu8,
        0x4bu8,
        0x65u8,
        0x79u8,
        0x73u8,
    ]
}

/// The key of the last message of the initiator: sixteen bytes that HKDF
/// derives from the shared secret under the identity protection key and
/// the hash of the transcript, and the text `Sigma3`.
pub open spec fn sigma3_key(ipk: Seq<u8>, transcript: Seq<u8>, shared_secret: Seq<u8>) -> Seq<u8> {
    hkdf_okm(ipk + sha2_digest(transcript), shared_secret, s3k_info(), 16)->Some_0
}

/// The 48 bytes of keys of the session: HKDF derives them from the shared
/// secret under the identity protection key and the hash of the whole
/// transcript, and the text `SessionKeys`. The first sixteen bytes are the
/// key from initiator to responder, the next sixteen the key from
/// responder to initiator, the last sixteen the attestation challenge.
pub open spec fn session_keys(ipk: Seq<u8>, transcript: Seq<u8>, shared_secret: Seq<u8>) -> Seq<
    u8,
> {
    hkdf_okm(ipk + sha2_digest(transcript), shared_secret, sek_info(), 48)->Some_0
}

/// What the initiator encrypted in its last message, decrypted: the
/// message holds, under the context tag 1, a ciphertext followed by a tag
/// of sixteen bytes, which opens under the key of the message.
pub open spec fn sigma3_plain(
    ipk: Seq<u8>,
    transcript: Seq<u8>,
    shared_secret: Seq<u8>,
    rx: Seq<u8>,
) -> Option<Seq<u8>> {
    match parse_elem(rx) {
        None => None,
        Some((e, _)) => if e.code != TYPE_STRUCT {
            None
        } else {
            match tagged_octets(e, 1) {
                Err(_) => None,
                Ok(enc) => crate::crypto::opened_bytes(
                    sigma3_key(ipk, transcript, shared_secret),
                    sigma3_nonce(),
                    Seq::empty(),
                    enc,
                ),
            }
        },
    }
}

/// The credentials of the initiator: its operational certificate, its
/// intermediate certificate, and its signature.
pub struct Sigma3Creds {
    pub noc: Seq<u8>,
    pub icac: Seq<u8>,
    pub signature: Seq<u8>,
}

/// The credentials that the decrypted bytes are read as: a structure with
/// the three strings under the context tags 1, 2 and 3.
pub open spec fn sigma3_creds(pt: Seq<u8>) -> Option<Sigma3Creds> {
    match parse_elem(pt) {
        None => None,
        Some((e, _)) => if e.code != TYPE_STRUCT {
            None
        } else {
            match (tagged_octets(e, 1), tagged_octets(e, 2), tagged_octets(e, 3)) {
                (Ok(noc), Ok(icac), Ok(signature)) => Some(Sigma3Creds { noc, icac, signature }),
                _ => None,
            }
        },
    }
}

/// Whether the credentials of the initiator are to be trusted: the three
/// certificates can be read; the signature of the initiator over its
/// certificates and the two ephemeral public keys verifies under the
/// public key of its operational certificate; and the chain from the
/// operational certificate over the intermediate one to the root of the
/// fabric verifies.
pub open spec fn sigma3_trusted(
    root_ca: Seq<u8>,
    creds: Sigma3Creds,
    initiator_pub: Seq<u8>,
    responder_pub: Seq<u8>,
) -> bool {
    match (
        crate::cert::cert_of_bytes(creds.noc),
        crate::cert::cert_of_bytes(creds.icac),
        crate::cert::cert_of_bytes(root_ca),
    ) {
        (Ok(noc), Ok(icac), Ok(root)) => {
            &&& four_strings_fit(creds.noc, creds.icac, initiator_pub, responder_pub) is Ok
            &&& crate::crypto::signature_check(
                noc.pubkey,
                elem_bytes(four_strings(creds.noc, creds.icac, initiator_pub, responder_pub)),
                creds.signature,
            ) is Ok
            &&& crate::cert::verify::chain_check(seq![noc, icac, root]) is Ok
        },
        _ => false,
    }
}

/// Whether the last message of the initiator establishes the session.
pub open spec fn sigma3_verified(fabric: Fabric, cs: CaseSession, rx: Seq<u8>) -> bool {
    match sigma3_plain(fabric.ipk@, cs.tt_hash@, cs.shared_secret@, rx) {
        None => false,
        Some(pt) => match sigma3_creds(pt) {
            None => false,
            Some(creds) => sigma3_trusted(
                fabric.root_ca@,
                creds,
                cs.peer_pub_key@,
                cs.our_pub_key@,
            ),
        },
    }
}

/// The fabric at an index, where there is one.
pub open spec fn fabric_at(fabrics: Seq<Option<Fabric>>, idx: usize) -> Option<Fabric> {
    if idx < fabrics.len() {
        fabrics[idx as int]
    } else {
        None
    }
}

/// How the handling of the last message ended.
#[derive(Debug)]
pub enum Sigma3Outcome {
    /// The handshake failed: a status report says so, and the exchange is
    /// to be closed and the state of the handshake discarded.
    Failed(SCStatusCodes),
    /// The session is established and installed; the attestation challenge
    /// goes with it.
    Established(Vec<u8>),
}

/// Sixteen bytes of `v` from `off` as a key.
pub fn key16(v: &[u8], off: usize) -> (k: [u8; 16])
    requires
        off + 16 <= v.len(),
    ensures
        k@ == v@.subrange(off as int, off + 16),
{
    let mut k: [u8; 16] = [0, 0, 0, 0, 0, 0, 0, 0, 0, 0, 0, 0, 0, 0, 0, 0];
    let mut i: usize = 0;
    while i < 16
        invariant
            i <= 16,
            off + 16 <= v.len(),
            forall|j: int| 0 <= j < i ==> k@[j] == v@[off + j],
        decreases 16 - i,
    {
        k[i] = v[off + i];
        i = i + 1;
    }
    assert(k@ =~= v@.subrange(off as int, off + 16));
    k
}

/// The credentials of the initiator, read from the decrypted bytes.
fn creds_from(pt: &[u8]) -> (r: Option<(Vec<u8>, Vec<u8>, Vec<u8>)>)
    ensures
        match r {
            Some((noc, icac, signature)) => sigma3_creds(pt@) == Some(
                Sigma3Creds { noc: noc@, icac: icac@, signature: signature@ },
            ),
            None => sigma3_creds(pt@) is None,
        },
{
    let root = match get_root_node_struct(pt) {
        Ok(e) => e,
        Err(_) => {
            return None;
        },
    };
    let noc = get_tagged_octets(&root, 1);
    let icac = get_tagged_octets(&root, 2);
    let signature = get_tagged_octets(&root, 3);
    match (noc, icac, signature) {
        (Ok(a), Ok(b), Ok(c)) => Some((a, b, c)),
        _ => None,
    }
}

/// Whether the credentials of the initiator are to be trusted.
fn creds_trusted(
    root_ca: &[u8],
    noc: &[u8],
    icac: &[u8],
    signature: &[u8],
    initiator_pub: &[u8],
    responder_pub: &[u8],
) -> (b: bool)
    ensures
        b == sigma3_trusted(
            root_ca@,
            Sigma3Creds { noc: noc@, icac: icac@, signature: signature@ },
            initiator_pub@,
            responder_pub@,
        ),
{
    let noc_cert = match crate::cert::Cert::new(noc) {
        Ok(c) => c,
        Err(_) => {
            return false;
        },
    };
    let icac_cert = match crate::cert::Cert::new(icac) {
        Ok(c) => c,
        Err(_) => {
            return false;
        },
    };
    let root_cert = match crate::cert::Cert::new(root_ca) {
        Ok(c) => c,
        Err(_) => {
            return false;
        },
    };
    let tbs = match four_strings_bytes(noc, icac, initiator_pub, responder_pub) {
        Ok(v) => v,
        Err(_) => {
            return false;
        },
    };
    if crate::crypto::verify_msg(noc_cert.get_pubkey(), tbs.as_slice(), signature).is_err() {
        return false;
    }
    let ghost models = seq![noc_cert@, icac_cert@, root_cert@];
    let mut chain: Vec<crate::cert::Cert> = Vec::new();
    chain.push(noc_cert);
    chain.push(icac_cert);
    chain.push(root_cert);
    assert(crate::cert::verify::certs_view(chain@) =~= models);
    crate::cert::verify::verify_chain(&chain).is_ok()
}

impl Case {
    /// The bytes that the initiator encrypted in its last message.
    pub fn sigma3_decrypt(fabric: &Fabric, cs: &CaseSession, rx_buf: &[u8]) -> (r: Option<Vec<u8>>)
        ensures
            match r {
                Some(pt) => sigma3_plain(fabric.ipk@, cs.tt_hash@, cs.shared_secret@, rx_buf@)
                    == Some(pt@),
                None => sigma3_plain(fabric.ipk@, cs.tt_hash@, cs.shared_secret@, rx_buf@) is None,
            },
    {
        let root = match get_root_node_struct(rx_buf) {
            Ok(e) => e,
            Err(_) => {
                return None;
            },
        };
        let enc = match get_tagged_octets(&root, 1) {
            Ok(v) => v,
            Err(_) => {
                return None;
            },
        };
        let digest = sha2_sha256(cs.tt_hash.as_slice());
        let mut salt: Vec<u8> = Vec::new();
        extend(&mut salt, fabric.ipk.as_slice());
        extend(&mut salt, digest.as_slice());
        let info: Vec<u8> = vec![0x53, 0x69, 0x67, 0x6d, 0x61, 0x33];
        assert(info@ =~= s3k_info());
        assert(salt@ =~= fabric.ipk@ + sha2_digest(cs.tt_hash@));
        let key = match hkdf_sha256(
            salt.as_slice(),
            cs.shared_secret.as_slice(),
            info.as_slice(),
            16,
        ) {
            Some(k) => k,
            None => {
                return None;
            },
        };
        let nonce: Vec<u8> = vec![
            0x4e,
            0x43,
            0x41,
            0x53,
            0x45,
            0x5f,
            0x53,
            0x69,
            0x67,
            0x6d,
            0x61,
            0x33,
            0x4e,
        ];
        assert(nonce@ =~= sigma3_nonce());
        let none: Vec<u8> = Vec::new();
        assert(none@ =~= Seq::<u8>::empty());
        match crate::crypto::open(key.as_slice(), nonce.as_slice(), none.as_slice(), enc.as_slice()) {
            Ok(p) => Some(p),
            Err(_) => None,
        }
    }

    /// Whether the last message of the initiator establishes the session.
    pub fn sigma3_verify(fabric: &Fabric, cs: &CaseSession, rx_buf: &[u8]) -> (b: bool)
        ensures
            b == sigma3_verified(*fabric, *cs, rx_buf@),
    {
        match Self::sigma3_decrypt(fabric, cs, rx_buf) {
            None => false,
            Some(pt) => match creds_from(pt.as_slice()) {
                None => false,
                Some((noc, icac, signature)) => creds_trusted(
                    fabric.root_ca.as_slice(),
                    noc.as_slice(),
                    icac.as_slice(),
                    signature.as_slice(),
                    cs.peer_pub_key.as_slice(),
                    cs.our_pub_key.as_slice(),
                ),
            },
        }
    }

    /// The 48 bytes of keys of the session.
    pub fn derive_session_keys(fabric: &Fabric, cs: &CaseSession, rx_buf: &[u8]) -> (keys: Vec<u8>)
        ensures
            keys@ == session_keys(fabric.ipk@, cs.tt_hash@ + rx_buf@, cs.shared_secret@),
            keys@.len() == 48,
    {
        let mut transcript: Vec<u8> = Vec::new();
        extend(&mut transcript, cs.tt_hash.as_slice());
        extend(&mut transcript, rx_buf);
        let digest = sha2_sha256(transcript.as_slice());
        let mut salt: Vec<u8> = Vec::new();
        extend(&mut salt, fabric.ipk.as_slice());
        extend(&mut salt, digest.as_slice());
        let info: Vec<u8> = vec![
            0x53,
            0x65,
            0x73,
            0x73,
            0x69,
            0x6f,
            0x6e,
            0x4b,
            0x65,
            0x79,
            0x73,
        ];
        assert(info@ =~= sek_info());
        assert(transcript@ =~= cs.tt_hash@ + rx_buf@);
        assert(salt@ =~= fabric.ipk@ + sha2_digest(cs.tt_hash@ + rx_buf@));
        match hkdf_sha256(salt.as_slice(), cs.shared_secret.as_slice(), info.as_slice(), 48) {
            Some(k) => k,
            None => Vec::new(),
        }
    }

    /// Handles the last message of the initiator. Where the handshake
    /// names no fabric of the manager, the handling fails with `NotFound`
    /// and nothing changes. Where the credentials of the initiator
    /// verify, the keys of the session are derived and the session is
    /// installed in the table, with the key from initiator to responder to
    /// decrypt and the key from responder to initiator to encrypt, and a
    /// status report says that the session is established. Where they do
    /// not verify, a status report says that a parameter is invalid; where
    /// the table is full, that the responder is busy. Where the status
    /// report does not fit, the handling fails with `NoSpace`. In all these
    /// cases the table stays as it is.
    pub fn handle_casesigma3(
        &self,
        cs: &CaseSession,
        rx_buf: &[u8],
        sessions: &mut crate::transport::session::SessionMgr,
        peer_addr: crate::transport::session::PeerAddr,
        proto_tx: &mut Packet,
    ) -> (r: Result<Sigma3Outcome, Error>)
        ensures
            final(proto_tx).tw.capacity() == old(proto_tx).tw.capacity(),
            match fabric_at(self.fabric_mgr.fabrics@, cs.local_fabric_idx) {
                None => r is Err && r->Err_0 == Error::NotFound && final(sessions)@ == old(
                    sessions,
                )@ && final(proto_tx).tw@ == old(proto_tx).tw@,
                Some(fabric) => sigma3_done(
                    fabric,
                    *cs,
                    rx_buf@,
                    peer_addr,
                    old(sessions)@,
                    final(sessions)@,
                    old(proto_tx).tw@,
                    old(proto_tx).tw.capacity(),
                    final(proto_tx).tw@,
                    r,
                ),
            },
    {
        let fabric = match self.fabric_mgr.get_fabric(cs.local_fabric_idx) {
            Some(f) => f,
            None => {
                return Err(Error::NotFound);
            },
        };
        if !Self::sigma3_verify(fabric, cs, rx_buf) {
            return match create_sc_status_report(proto_tx, SCStatusCodes::InvalidParameter) {
                Ok(()) => Ok(Sigma3Outcome::Failed(SCStatusCodes::InvalidParameter)),
                Err(x) => Err(x),
            };
        }
        if sessions.len() >= crate::transport::session::MAX_SESSIONS {
            return match create_sc_status_report(proto_tx, SCStatusCodes::Busy) {
                Ok(()) => Ok(Sigma3Outcome::Failed(SCStatusCodes::Busy)),
                Err(x) => Err(x),
            };
        }
        let keys = Self::derive_session_keys(fabric, cs, rx_buf);
        let dec_key = key16(keys.as_slice(), 0);
        let enc_key = key16(keys.as_slice(), 16);
        let challenge = crate::utils::bytes::copy_range(keys.as_slice(), 32, 48);
        match create_sc_status_report(proto_tx, SCStatusCodes::SessionEstablishmentSuccess) {
            Ok(()) => {},
            Err(x) => {
                return Err(x);
            },
        }
        match sessions.add(cs.local_sessid, dec_key, enc_key, peer_addr) {
            Ok(()) => Ok(Sigma3Outcome::Established(challenge)),
            Err(x) => Err(x),
        }
    }
}

/// The status code that answers the last message of the initiator.
pub open spec fn sigma3_code(verified: bool, full: bool) -> SCStatusCodes {
    if !verified {
        SCStatusCodes::InvalidParameter
    } else if full {
        SCStatusCodes::Busy
    } else {
        SCStatusCodes::SessionEstablishmentSuccess
    }
}

/// How the handling of the last message of the initiator ends.
pub open spec fn sigma3_done(
    fabric: Fabric,
    cs: CaseSession,
    rx: Seq<u8>,
    peer_addr: crate::transport::session::PeerAddr,
    before: Seq<crate::transport::session::Session>,
    after: Seq<crate::transport::session::Session>,
    tx_before: Seq<u8>,
    cap: nat,
    tx_after: Seq<u8>,
    r: Result<Sigma3Outcome, Error>,
) -> bool {
    let verified = sigma3_verified(fabric, cs, rx);
    let full = before.len() >= crate::transport::session::MAX_SESSIONS;
    let code = sigma3_code(verified, full);
    let report = sc_status_report_bytes(code);
    let keys = session_keys(fabric.ipk@, cs.tt_hash@ + rx, cs.shared_secret@);
    if tx_before.len() + report.len() > cap {
        r is Err && r->Err_0 == Error::NoSpace && tx_after == tx_before && after == before
    } else {
        &&& r is Ok
        &&& tx_after == tx_before + report
        &&& if verified && !full {
            &&& after.len() == before.len() + 1
            &&& after.subrange(0, before.len() as int) == before
            &&& after.last().id() == cs.local_sessid
            &&& after.last().peer() == Some(peer_addr)
            &&& after.last().dec_key@ == keys.subrange(0, 16)
            &&& after.last().enc_key@ == keys.subrange(16, 32)
            &&& r->Ok_0 is Established
            &&& r->Ok_0->Established_0@ == keys.subrange(32, 48)
        } else {
            after == before && r->Ok_0 == Sigma3Outcome::Failed(code)
        }
    }
}

} // verus!
