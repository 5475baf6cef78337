//! Fabrics: the trust domains that a node has joined.

use vstd::prelude::*;
use crate::crypto::{
    ec_public, ecdsa_sign_digest, hmac_sha256, hmac_sha256_tag, sha256, signed_by, verify_msg,
};
use crate::error::Error;
use crate::utils::bytes::{le_bytes, push_le};

verus! {

/// What a node holds of a fabric: its identifiers in it, the identity
/// protection key, its certificates in Matter TLV, the private scalar of
/// its operational key, and the public key of the root.
#[derive(Debug)]
pub struct Fabric {
    pub node_id: u64,
    pub fabric_id: u64,
    pub ipk: Vec<u8>,
    pub root_ca: Vec<u8>,
    pub icac: Vec<u8>,
    pub noc: Vec<u8>,
    pub noc_key: Vec<u8>,
    pub root_pubkey: Vec<u8>,
}

/// The message that the destination identifier of a fabric is computed
/// over: the random number of the initiator, the public key of the root,
/// and the identifiers of fabric and node, least significant byte first.
pub open spec fn dest_id_message(
    random: Seq<u8>,
    root_pubkey: Seq<u8>,
    fabric_id: u64,
    node_id: u64,
) -> Seq<u8> {
    random + root_pubkey + le_bytes(fabric_id as nat, 8) + le_bytes(node_id as nat, 8)
}

/// Appends `src` to `out`.
pub fn extend(out: &mut Vec<u8>, src: &[u8])
    ensures
        final(out)@ == old(out)@ + src@,
{
    let mut i: usize = 0;
    while i < src.len()
        invariant
            i <= src.len(),
            out@ == old(out)@ + src@.subrange(0, i as int),
        decreases src.len() - i,
    {
        out.push(src[i]);
        i = i + 1;
        assert(out@ =~= old(out)@ + src@.subrange(0, i as int));
    }
    assert(src@.subrange(0, src.len() as int) =~= src@);
}

impl Fabric {
    /// The identity protection key has 16 bytes and the private scalar 32.
    pub open spec fn wf(&self) -> bool {
        self.ipk@.len() == 16 && self.noc_key@.len() == 32
    }

    /// Whether the keys have the lengths that a fabric asks for.
    pub fn is_wf(&self) -> (b: bool)
        ensures
            b == self.wf(),
    {
        self.ipk.len() == 16 && self.noc_key.len() == 32
    }

    /// Whether `target` is the destination identifier of this fabric for
    /// the random number of an initiator: the HMAC, under the identity
    /// protection key, of the destination message.
    pub open spec fn is_dest(&self, random: Seq<u8>, target: Seq<u8>) -> bool {
        hmac_sha256_tag(
            self.ipk@,
            dest_id_message(random, self.root_pubkey@, self.fabric_id, self.node_id),
        ) == Some(target)
    }

    /// Succeeds where `target` is the destination identifier of this
    /// fabric, and fails with `NotFound` where it is not.
    pub fn match_dest_id(&self, random: &[u8], target: &[u8]) -> (r: Result<(), Error>)
        requires
            self.ipk@.len() <= 0x7fff_ffff,
        ensures
            self.is_dest(random@, target@) ==> r is Ok,
            !self.is_dest(random@, target@) ==> r == Err::<(), Error>(Error::NotFound),
    {
        let mut msg: Vec<u8> = Vec::new();
        extend(&mut msg, random);
        extend(&mut msg, self.root_pubkey.as_slice());
        push_le(&mut msg, self.fabric_id, 8);
        push_le(&mut msg, self.node_id, 8);
        assert(msg@ =~= dest_id_message(
            random@,
            self.root_pubkey@,
            self.fabric_id,
            self.node_id,
        ));
        match hmac_sha256(self.ipk.as_slice(), msg.as_slice()) {
            Ok(tag) => {
                if crate::utils::bytes::bytes_equal(tag.as_slice(), target) {
                    Ok(())
                } else {
                    Err(Error::NotFound)
                }
            },
            Err(_) => Err(Error::NotFound),
        }
    }

    /// Signs the SHA-256 digest of `msg` with the operational key of the
    /// node, and verifies the signature under the public key of that key
    /// before it hands it out: a signature of 64 bytes that verifies, or
    /// `TLSStack` where a primitive reports an error or the signature is
    /// refused.
    pub fn sign_msg(&self, msg: &[u8]) -> (r: Result<Vec<u8>, Error>)
        requires
            self.noc_key@.len() == 32,
        ensures
            match r {
                Ok(signature) => signature@.len() == 64 && signed_by(
                    self.noc_key@,
                    msg@,
                    signature@,
                ),
                Err(e) => e == Error::TLSStack,
            },
    {
        let digest = sha256(msg);
        let signature = match signature_outcome(
            ecdsa_sign_digest(self.noc_key.as_slice(), digest.as_slice()),
        ) {
            Ok(s) => s,
            Err(e) => {
                return Err(e);
            },
        };
        let public = match ec_public(self.noc_key.as_slice()) {
            Ok(p) => p,
            Err(_) => {
                return Err(Error::TLSStack);
            },
        };
        match verify_msg(public.as_slice(), msg, signature.as_slice()) {
            Ok(()) => Ok(signature),
            Err(_) => Err(Error::TLSStack),
        }
    }
}

/// What signing comes to, given what the ECDSA primitive returned: the
/// signature, or `TLSStack` where the primitive reported an error.
pub fn signature_outcome(outcome: Result<Vec<u8>, openssl::error::ErrorStack>) -> (r: Result<
    Vec<u8>,
    Error,
>)
    ensures
        match outcome {
            Ok(s) => r is Ok && r->Ok_0 == s,
            Err(_) => r is Err && r->Err_0 == Error::TLSStack,
        },
{
    match outcome {
        Ok(s) => Ok(s),
        Err(_) => Err(Error::TLSStack),
    }
}

/// The fabrics of a node; the index of a fabric is its place.
pub struct FabricMgr {
    pub fabrics: Vec<Option<Fabric>>,
}

/// The first place among the first `upto` at which a fabric stands whose
/// destination identifier is `target`.
pub open spec fn first_dest(
    fabrics: Seq<Option<Fabric>>,
    random: Seq<u8>,
    target: Seq<u8>,
    upto: int,
) -> Option<int>
    decreases upto,
{
    if upto <= 0 {
        None
    } else {
        match first_dest(fabrics, random, target, upto - 1) {
            Some(i) => Some(i),
            None => match fabrics[upto - 1] {
                Some(f) => if f.is_dest(random, target) {
                    Some(upto - 1)
                } else {
                    None
                },
                None => None,
            },
        }
    }
}

impl FabricMgr {
    /// Every fabric is well formed.
    pub open spec fn wf(&self) -> bool {
        forall|i: int|
            0 <= i < self.fabrics@.len() ==> ((#[trigger] self.fabrics@[i]) matches Some(f)
                ==> f.wf())
    }

    /// Whether every fabric is well formed.
    pub fn is_wf(&self) -> (b: bool)
        ensures
            b == self.wf(),
    {
        let mut i: usize = 0;
        while i < self.fabrics.len()
            invariant
                i <= self.fabrics.len(),
                forall|k: int|
                    0 <= k < i ==> ((#[trigger] self.fabrics@[k]) matches Some(f) ==> f.wf()),
            decreases self.fabrics.len() - i,
        {
            match &self.fabrics[i] {
                Some(f) => {
                    if !f.is_wf() {
                        return false;
                    }
                },
                None => {},
            }
            i = i + 1;
        }
        true
    }

    /// A manager without fabrics.
    pub fn new() -> (m: FabricMgr)
        ensures
            m.fabrics@.len() == 0,
            m.wf(),
    {
        FabricMgr { fabrics: Vec::new() }
    }

    /// Adds a fabric and returns its index.
    pub fn add(&mut self, fabric: Fabric) -> (idx: usize)
        requires
            old(self).wf(),
            fabric.wf(),
        ensures
            final(self).wf(),
            idx == old(self).fabrics@.len(),
            final(self).fabrics@ == old(self).fabrics@.push(Some(fabric)),
    {
        let idx: usize = self.fabrics.len();
        self.fabrics.push(Some(fabric));
        idx
    }

    /// The index of the first fabric whose destination identifier is
    /// `target`, or `NotFound`.
    pub fn match_dest_id(&self, random: &[u8], target: &[u8]) -> (r: Result<usize, Error>)
        requires
            self.wf(),
        ensures
            match first_dest(self.fabrics@, random@, target@, self.fabrics@.len() as int) {
                Some(i) => r is Ok && r->Ok_0 == i && 0 <= i < self.fabrics@.len()
                    && self.fabrics@[i] is Some,
                None => r == Err::<usize, Error>(Error::NotFound),
            },
    {
        let mut i: usize = 0;
        while i < self.fabrics.len()
            invariant
                i <= self.fabrics.len(),
                self.wf(),
                first_dest(self.fabrics@, random@, target@, i as int) is None,
            decreases self.fabrics.len() - i,
        {
            match &self.fabrics[i] {
                Some(f) => {
                    if f.match_dest_id(random, target).is_ok() {
                        proof {
                            lemma_first_dest_stays(
                                self.fabrics@,
                                random@,
                                target@,
                                i + 1,
                                self.fabrics@.len() as int,
                            );
                        }
                        return Ok(i);
                    }
                },
                None => {},
            }
            i = i + 1;
        }
        Err(Error::NotFound)
    }

    /// The fabric with the given index.
    pub fn get_fabric(&self, idx: usize) -> (r: Option<&Fabric>)
        ensures
            match r {
                Some(f) => idx < self.fabrics@.len() && self.fabrics@[idx as int] == Some(*f),
                None => idx >= self.fabrics@.len() || self.fabrics@[idx as int] is None,
            },
    {
        if idx >= self.fabrics.len() {
            return None;
        }
        match &self.fabrics[idx] {
            Some(f) => Some(f),
            None => None,
        }
    }
}

/// What is found among the first fabrics is found at the same place among
/// more of them.
pub proof fn lemma_first_dest_stays(
    fabrics: Seq<Option<Fabric>>,
    random: Seq<u8>,
    target: Seq<u8>,
    n: int,
    upto: int,
)
    requires
        0 <= n <= upto,
        first_dest(fabrics, random, target, n) is Some,
    ensures
        first_dest(fabrics, random, target, upto) == first_dest(fabrics, random, target, n),
    decreases upto - n,
{
    if n < upto {
        lemma_first_dest_stays(fabrics, random, target, n, upto - 1);
    }
}

} // verus!
