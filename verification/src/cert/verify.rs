//! Chains of certificates: each one signed by the next, up to one that
//! signs itself.

use vstd::prelude::*;
use crate::utils::bytes::bytes_equal;
use crate::cert::der_cert::tbs_der;
use crate::cert::emit::as_asn1_result;
use crate::cert::model::CertModel;
use crate::cert::{Cert, DistNames, DnTags};
use crate::crypto::{signature_check, verify_msg};
use crate::error::Error;

verus! {

/// The most bytes of DER that a certificate may take to be verified.
pub const MAX_ASN1_CERT_SIZE: usize = 800;

/// The value of the first distinguished name of the given kind.
pub open spec fn dn_find(dn: Seq<(u8, u64)>, kind: u8) -> Option<u64>
    decreases dn.len(),
{
    if dn.len() == 0 {
        None
    } else if dn[0].0 == kind {
        Some(dn[0].1)
    } else {
        dn_find(dn.subrange(1, dn.len() as int), kind)
    }
}

impl DistNames {
    /// The value of the first name of the given kind.
    pub fn u64(&self, match_id: DnTags) -> (r: Option<u64>)
        ensures
            r == dn_find(self@, match_id.number()),
    {
        let kind: u8 = match_id.to_u8();
        let mut i: usize = 0;
        assert(self@.subrange(0, self@.len() as int) =~= self@);
        while i < self.dn.len()
            invariant
                i <= self.dn.len(),
                kind == match_id.number(),
                dn_find(self@, kind) == dn_find(
                    self@.subrange(i as int, self@.len() as int),
                    kind,
                ),
            decreases self.dn.len() - i,
        {
            let ghost cur = self@.subrange(i as int, self@.len() as int);
            assert(cur[0] == self.dn@[i as int]);
            assert(cur.subrange(1, cur.len() as int) =~= self@.subrange(
                i + 1,
                self@.len() as int,
            ));
            let (id, value) = self.dn[i];
            if id == kind {
                return Some(value);
            }
            i = i + 1;
        }
        None
    }
}

/// Whether `child` names `parent` as its authority: false where `child`
/// has no authority key identifier; `Invalid` where it has one and `parent`
/// has no subject key identifier; else whether the two are equal.
pub open spec fn authority_check(child: CertModel, parent: CertModel) -> Result<bool, Error> {
    match child.extensions.auth_key_id {
        None => Ok(false),
        Some(ours) => match parent.extensions.subj_key_id {
            None => Err(Error::Invalid),
            Some(theirs) => Ok(ours == theirs),
        },
    }
}

/// What one step of a chain comes to: `InvalidAuthKey` where `child` does
/// not name `parent` as its authority; the error of the DER emission where
/// the part of `child` that is signed cannot be written in 800 bytes; else
/// what the verification of the signature of `child` over that part under
/// the public key of `parent` comes to.
#[verifier::opaque]
pub open spec fn link_check(child: CertModel, parent: CertModel) -> Result<(), Error> {
    match authority_check(child, parent) {
        Err(e) => Err(e),
        Ok(false) => Err(Error::InvalidAuthKey),
        Ok(true) => match as_asn1_result(child, MAX_ASN1_CERT_SIZE as nat) {
            Err(e) => Err(e),
            Ok(_) => signature_check(parent.pubkey, tbs_der(child)->Some_0, child.signature),
        },
    }
}

impl Cert {
    /// The node identifier among the names of the subject.
    pub fn get_node_id(&self) -> (r: Result<u64, Error>)
        ensures
            r == match dn_find(self@.subject, 17) {
                Some(v) => Ok::<u64, Error>(v),
                None => Err::<u64, Error>(Error::NoNodeId),
            },
    {
        match self.subject.u64(DnTags::NodeId) {
            Some(v) => Ok(v),
            None => Err(Error::NoNodeId),
        }
    }

    /// The fabric identifier among the names of the subject.
    pub fn get_fabric_id(&self) -> (r: Result<u64, Error>)
        ensures
            r == match dn_find(self@.subject, 21) {
                Some(v) => Ok::<u64, Error>(v),
                None => Err::<u64, Error>(Error::NoFabricId),
            },
    {
        match self.subject.u64(DnTags::FabricId) {
            Some(v) => Ok(v),
            None => Err(Error::NoFabricId),
        }
    }

    /// The public key.
    pub fn get_pubkey(&self) -> (r: &[u8])
        ensures
            r@ == self@.pubkey,
    {
        self.pubkey.as_slice()
    }

    /// The subject key identifier, or `Invalid` where there is none.
    pub fn get_subject_key_id(&self) -> (r: Result<&[u8], Error>)
        ensures
            match self@.extensions.subj_key_id {
                Some(id) => r is Ok && r->Ok_0@ == id,
                None => r is Err && r->Err_0 == Error::Invalid,
            },
    {
        match &self.extensions.subj_key_id {
            Some(id) => Ok(id.as_slice()),
            None => Err(Error::Invalid),
        }
    }

    /// Whether this certificate names `their` as its authority.
    pub fn is_authority(&self, their: &Cert) -> (r: Result<bool, Error>)
        ensures
            r == authority_check(self@, their@),
    {
        match &self.extensions.auth_key_id {
            Some(our_auth_key) => {
                match their.get_subject_key_id() {
                    Ok(their_subject) => Ok(bytes_equal(our_auth_key.as_slice(), their_subject)),
                    Err(e) => Err(e),
                }
            },
            None => Ok(false),
        }
    }

    /// The signature.
    pub fn get_signature(&self) -> (r: &[u8])
        ensures
            r@ == self@.signature,
    {
        self.signature.as_slice()
    }

    /// A verifier of the chain that starts with this certificate.
    pub fn verify_chain_start(&self) -> (v: CertVerifier<'_>)
        ensures
            v@ == self@,
    {
        CertVerifier::new(self)
    }
}

/// A walk up a chain of certificates: it holds the certificate whose
/// signature is to be verified next.
pub struct CertVerifier<'a> {
    cert: &'a Cert,
}

impl<'a> View for CertVerifier<'a> {
    type V = CertModel;

    closed spec fn view(&self) -> CertModel {
        self.cert@
    }
}

impl<'a> CertVerifier<'a> {
    /// A verifier that holds `cert`.
    pub fn new(cert: &'a Cert) -> (v: Self)
        ensures
            v@ == cert@,
    {
        CertVerifier { cert }
    }

    /// Takes one step up the chain: verifies that the certificate held
    /// names `parent` as its authority and is signed by it, and then holds
    /// `parent`.
    pub fn add_cert(self, parent: &'a Cert) -> (r: Result<CertVerifier<'a>, Error>)
        ensures
            match r {
                Ok(v) => link_check(self@, parent@) is Ok && v@ == parent@,
                Err(e) => link_check(self@, parent@) == Err::<(), Error>(e),
            },
    {
        reveal(link_check);
        match self.cert.is_authority(parent) {
            Err(e) => {
                return Err(e);
            },
            Ok(false) => {
                return Err(Error::InvalidAuthKey);
            },
            Ok(true) => {},
        }
        let mut asn1: Vec<u8> = Vec::new();
        let mut k: usize = 0;
        while k < MAX_ASN1_CERT_SIZE
            invariant
                k <= MAX_ASN1_CERT_SIZE,
                asn1@.len() == k,
            decreases MAX_ASN1_CERT_SIZE - k,
        {
            asn1.push(0);
            k = k + 1;
        }
        let ghost before = asn1@;
        let len: usize = match self.cert.as_asn1(asn1.as_mut_slice()) {
            Ok(n) => n,
            Err(e) => {
                return Err(e);
            },
        };
        let der = vstd::slice::slice_subrange(asn1.as_slice(), 0, len);
        assert(der@ =~= tbs_der(self@)->Some_0);
        match verify_msg(parent.get_pubkey(), der, self.cert.get_signature()) {
            Ok(()) => Ok(CertVerifier::new(parent)),
            Err(e) => Err(e),
        }
    }

    /// Ends the walk: the certificate held must name itself as its
    /// authority and be signed by itself.
    pub fn finalise(self) -> (r: Result<(), Error>)
        ensures
            r == link_check(self@, self@),
    {
        let cert = self.cert;
        proof {
            match link_check(self@, self@) {
                Ok(u) => {
                    assert(u == ());
                },
                Err(_) => {},
            }
        }
        match self.add_cert(cert) {
            Ok(_) => Ok(()),
            Err(e) => Err(e),
        }
    }
}

} // verus!

verus! {

/// Whether `child` has an authority key identifier, `parent` a subject key
/// identifier, and the two are equal.
pub open spec fn names_authority(child: CertModel, parent: CertModel) -> bool {
    &&& child.extensions.auth_key_id is Some
    &&& parent.extensions.subj_key_id is Some
    &&& child.extensions.auth_key_id->Some_0 == parent.extensions.subj_key_id->Some_0
}

/// Whether the part of `child` that is signed can be written as DER in 800
/// bytes and the signature of `child` over it verifies under the public
/// key of `parent`.
pub open spec fn signature_passes(child: CertModel, parent: CertModel) -> bool {
    &&& as_asn1_result(child, MAX_ASN1_CERT_SIZE as nat) is Ok
    &&& signature_check(parent.pubkey, tbs_der(child)->Some_0, child.signature) is Ok
}

/// Whether `child` names `parent` as its authority and is signed by it.
pub open spec fn link_ok(child: CertModel, parent: CertModel) -> bool {
    names_authority(child, parent) && signature_passes(child, parent)
}

/// What the walk over a chain comes to: each certificate is verified
/// against the next, the last against itself; the first step that fails
/// gives the error.
pub open spec fn chain_check(chain: Seq<CertModel>) -> Result<(), Error>
    decreases chain.len(),
{
    if chain.len() == 0 {
        Err(Error::Invalid)
    } else if chain.len() == 1 {
        link_check(chain[0], chain[0])
    } else {
        match link_check(chain[0], chain[1]) {
            Err(e) => Err(e),
            Ok(_) => chain_check(chain.subrange(1, chain.len() as int)),
        }
    }
}

/// A step of a chain succeeds if and only if the certificate names the
/// next one as its authority and its signature verifies under the public
/// key of that one.
pub proof fn law_link_accepted_iff(child: CertModel, parent: CertModel)
    ensures
        link_check(child, parent) is Ok <==> link_ok(child, parent),
{
    reveal(link_check);
}

/// Whether the certificate at place `i` of a chain names the next one as
/// its authority and is signed by it.
pub open spec fn link_at(chain: Seq<CertModel>, i: int) -> bool {
    link_ok(chain[i], chain[i + 1])
}

/// The walk over a chain succeeds if and only if every certificate names
/// the next one as its authority and is signed by it, and the last one
/// names itself and is signed by itself.
pub proof fn law_chain_accepted_iff(chain: Seq<CertModel>)
    requires
        chain.len() >= 1,
    ensures
        chain_check(chain) is Ok <==> ((forall|i: int|
            0 <= i < chain.len() - 1 ==> #[trigger] link_at(chain, i)) && link_ok(
            chain.last(),
            chain.last(),
        )),
    decreases chain.len(),
{
    if chain.len() == 1 {
        law_link_accepted_iff(chain[0], chain[0]);
    } else {
        let tail = chain.subrange(1, chain.len() as int);
        law_link_accepted_iff(chain[0], chain[1]);
        law_chain_accepted_iff(tail);
        assert(tail.last() == chain.last());
        if chain_check(chain) is Ok {
            assert forall|i: int| 0 <= i < chain.len() - 1 implies #[trigger] link_at(chain, i) by {
                if i > 0 {
                    assert(link_at(tail, i - 1));
                    assert(tail[i - 1] == chain[i]);
                    assert(tail[i] == chain[i + 1]);
                }
            }
        }
        if (forall|i: int| 0 <= i < chain.len() - 1 ==> #[trigger] link_at(chain, i)) && link_ok(
            chain.last(),
            chain.last(),
        ) {
            assert(link_at(chain, 0));
            assert forall|i: int| 0 <= i < tail.len() - 1 implies #[trigger] link_at(tail, i) by {
                assert(link_at(chain, i + 1));
                assert(tail[i] == chain[i + 1]);
                assert(tail[i + 1] == chain[i + 2]);
            }
        }
    }
}

/// The models of a run of certificates.
pub open spec fn certs_view(s: Seq<Cert>) -> Seq<CertModel> {
    Seq::new(s.len(), |i: int| s[i]@)
}

/// Walks a whole chain, from its first certificate up to its last, which
/// must sign itself. An empty chain is `Invalid`.
pub fn verify_chain(chain: &Vec<Cert>) -> (r: Result<(), Error>)
    ensures
        r == chain_check(certs_view(chain@)),
{
    if chain.len() == 0 {
        return Err(Error::Invalid);
    }
    let ghost all = certs_view(chain@);
    let mut verifier = chain[0].verify_chain_start();
    let mut i: usize = 1;
    assert(all.subrange(0, all.len() as int) =~= all);
    while i < chain.len()
        invariant
            1 <= i <= chain.len(),
            all == certs_view(chain@),
            verifier@ == all[i - 1],
            chain_check(all) == chain_check(all.subrange(i - 1, all.len() as int)),
        decreases chain.len() - i,
    {
        let ghost cur = all.subrange(i - 1, all.len() as int);
        proof {
            assert(cur[0] == all[i - 1]);
            assert(cur[1] == all[i as int]);
            assert(cur.subrange(1, cur.len() as int) =~= all.subrange(i as int, all.len() as int));
        }
        verifier = match verifier.add_cert(&chain[i]) {
            Ok(v) => v,
            Err(e) => {
                return Err(e);
            },
        };
        i = i + 1;
    }
    proof {
        let cur = all.subrange(i - 1, all.len() as int);
        assert(cur.len() == 1);
        assert(cur[0] == all[i - 1]);
    }
    verifier.finalise()
}

} // verus!
