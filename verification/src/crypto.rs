//! The cryptographic primitives, which this library takes from OpenSSL and
//! the RustCrypto crates and does not verify.

use vstd::prelude::*;
use ccm::aead::generic_array::GenericArray;
use ccm::aead::{AeadInPlace, NewAead};
use openssl::bn::{BigNum, BigNumContext};
use openssl::derive::Deriver;
use openssl::ec::{EcGroup, EcKey, EcPoint, PointConversionForm};
use openssl::ecdsa::EcdsaSig;
use openssl::error::ErrorStack;
use openssl::hash::MessageDigest;
use openssl::nid::Nid;
use openssl::pkey::PKey;
use openssl::sign::Signer;
use rand::RngCore;
use sha2::Digest;
use crate::error::Error;

verus! {

#[verifier::external_type_specification]
#[verifier::external_body]
pub struct ExErrorStack(openssl::error::ErrorStack);

/// The SHA-256 digest of a byte string, as OpenSSL computes it.
pub uninterp spec fn sha256_digest(data: Seq<u8>) -> Seq<u8>;

/// Whether OpenSSL accepts `signature`, as the 32 bytes of `r` followed by
/// the 32 bytes of `s`, as an ECDSA signature of `digest` under the P-256
/// public key `pubkey`, given as an encoded curve point; or nothing where
/// OpenSSL reports an error, as for a point that is not on the curve.
pub uninterp spec fn ecdsa_p256_verifies(
    pubkey: Seq<u8>,
    digest: Seq<u8>,
    signature: Seq<u8>,
) -> Option<bool>;

/// `openssl::sha::sha256`: the contract names its result and says that a
/// digest has 32 bytes.
#[verifier::external_body]
pub(crate) fn sha256(data: &[u8]) -> (digest: Vec<u8>)
    ensures
        digest@ == sha256_digest(data@),
        digest@.len() == 32,
{
    openssl::sha::sha256(data).to_vec()
}

/// `EcdsaSigRef::verify`, on a key and a signature that
/// OpenSSL builds from the bytes given: the contract names the result, with
/// every error of OpenSSL on the way taken as one.
#[verifier::external_body]
pub(crate) fn ecdsa_verify_digest(pubkey: &[u8], digest: &[u8], signature: &[u8]) -> (r: Result<
    bool,
    ErrorStack,
>)
    requires
        digest@.len() == 32,
        signature@.len() == 64,
    ensures
        match r {
            Ok(b) => ecdsa_p256_verifies(pubkey@, digest@, signature@) == Some(b),
            Err(_) => ecdsa_p256_verifies(pubkey@, digest@, signature@) is None,
        },
{
    let group = EcGroup::from_curve_name(Nid::X9_62_PRIME256V1)?;
    let mut ctx = BigNumContext::new()?;
    let point = EcPoint::from_bytes(&group, pubkey, &mut ctx)?;
    let key = EcKey::from_public_key(&group, &point)?;
    let r = BigNum::from_slice(&signature[0..32])?;
    let s = BigNum::from_slice(&signature[32..64])?;
    EcdsaSig::from_private_components(r, s)?.verify(digest, &key)
}

/// What the verification of a signature comes to, given what the ECDSA
/// primitive said: accepted, `InvalidSignature` where it was refused,
/// `TLSStack` where the primitive reported an error.
pub open spec fn verdict_of(outcome: Option<bool>) -> Result<(), Error> {
    match outcome {
        Some(true) => Ok(()),
        Some(false) => Err(Error::InvalidSignature),
        None => Err(Error::TLSStack),
    }
}

/// What the verification of a signature comes to, given what the ECDSA
/// primitive returned.
pub fn signature_verdict(outcome: Result<bool, ErrorStack>) -> (r: Result<
    (),
    Error,
>)
    ensures
        r == verdict_of(
            match outcome {
                Ok(b) => Some(b),
                Err(_) => None,
            },
        ),
{
    match outcome {
        Ok(true) => Ok(()),
        Ok(false) => Err(Error::InvalidSignature),
        Err(_) => Err(Error::TLSStack),
    }
}

/// What the verification of `signature` over `msg` under `pubkey` comes
/// to: a signature of fewer than 64 bytes is invalid; of a longer one the
/// first 64 bytes count; the message is hashed with SHA-256.
pub open spec fn signature_check(pubkey: Seq<u8>, msg: Seq<u8>, signature: Seq<u8>) -> Result<
    (),
    Error,
> {
    if signature.len() < 64 {
        Err(Error::InvalidSignature)
    } else {
        verdict_of(ecdsa_p256_verifies(pubkey, sha256_digest(msg), signature.subrange(0, 64)))
    }
}

/// Whether `signature` verifies over `msg` under the public key that
/// belongs to the private scalar `private`.
pub open spec fn signed_by(private: Seq<u8>, msg: Seq<u8>, signature: Seq<u8>) -> bool {
    match p256_public_of(private) {
        Some(public) => signature_check(public, msg, signature) is Ok,
        None => false,
    }
}

/// Verifies an ECDSA P-256 signature over the SHA-256 digest of `msg`.
pub fn verify_msg(pubkey: &[u8], msg: &[u8], signature: &[u8]) -> (r: Result<(), Error>)
    ensures
        r == signature_check(pubkey@, msg@, signature@),
{
    if signature.len() < 64 {
        return Err(Error::InvalidSignature);
    }
    let digest = sha256(msg);
    let sig = vstd::slice::slice_subrange(signature, 0, 64);
    signature_verdict(ecdsa_verify_digest(pubkey, digest.as_slice(), sig))
}

} // verus!

verus! {

/// The SHA-256 digest of a byte string, as the `sha2` crate computes it.
pub uninterp spec fn sha2_digest(data: Seq<u8>) -> Seq<u8>;

/// The output keying material of HKDF with SHA-256, as the `hkdf` crate
/// derives it, or nothing where more is asked for than it gives.
pub uninterp spec fn hkdf_okm(salt: Seq<u8>, ikm: Seq<u8>, info: Seq<u8>, len: nat) -> Option<
    Seq<u8>,
>;

/// The ciphertext and the tag of AES-128-CCM with a tag of 16 bytes and a
/// nonce of 13 bytes, as the `ccm` crate computes them, or nothing where
/// it refuses the lengths.
pub uninterp spec fn aes_ccm_sealed(
    key: Seq<u8>,
    nonce: Seq<u8>,
    aad: Seq<u8>,
    plaintext: Seq<u8>,
) -> Option<(Seq<u8>, Seq<u8>)>;

/// The plaintext that the `ccm` crate recovers from a ciphertext and its
/// tag, or nothing where the tag does not verify.
pub uninterp spec fn aes_ccm_opened(
    key: Seq<u8>,
    nonce: Seq<u8>,
    aad: Seq<u8>,
    ciphertext: Seq<u8>,
    tag: Seq<u8>,
) -> Option<Seq<u8>>;

/// The shared secret of ECDH on P-256 between a private scalar and the
/// encoded public point of a peer, as OpenSSL derives it, or nothing where
/// OpenSSL reports an error.
pub uninterp spec fn ecdh_p256_secret(private: Seq<u8>, peer_public: Seq<u8>) -> Option<Seq<u8>>;

/// The HMAC with SHA-256 of a byte string under a key, as OpenSSL computes
/// it, or nothing where OpenSSL reports an error.
pub uninterp spec fn hmac_sha256_tag(key: Seq<u8>, data: Seq<u8>) -> Option<Seq<u8>>;

/// The encoded public point of the P-256 key with the given private scalar,
/// as OpenSSL computes it, or nothing where OpenSSL reports an error.
pub uninterp spec fn p256_public_of(private: Seq<u8>) -> Option<Seq<u8>>;

/// `sha2::Sha256::digest`: the contract names its result.
#[verifier::external_body]
pub(crate) fn sha2_sha256(data: &[u8]) -> (digest: Vec<u8>)
    ensures
        digest@ == sha2_digest(data@),
{
    sha2::Sha256::digest(data).to_vec()
}

/// `hkdf::Hkdf::<Sha256>::new` and `expand`: the contract names the
/// result; the source shows that it is there where at most 255 times 32
/// bytes are asked for, and has the length asked for.
#[verifier::external_body]
pub(crate) fn hkdf_sha256(salt: &[u8], ikm: &[u8], info: &[u8], len: usize) -> (r: Option<Vec<u8>>)
    requires
        len <= 8160,
    ensures
        r is Some,
        match r {
            Some(okm) => hkdf_okm(salt@, ikm@, info@, len as nat) == Some(okm@) && okm@.len()
                == len,
            None => hkdf_okm(salt@, ikm@, info@, len as nat) is None,
        },
{
    let mut okm = vec![0u8; len];
    hkdf::Hkdf::<sha2::Sha256>::new(Some(salt), ikm).expand(info, &mut okm).ok()?;
    Some(okm)
}

/// `encrypt_in_place_detached` of `ccm::Ccm<Aes128, U16, U13>`: the
/// contract names the result; the source shows that the ciphertext is as
/// long as the plaintext and the tag has 16 bytes, and that decryption
/// undoes the key stream and recomputes this very tag, so that what was
/// sealed opens as the plaintext, and with no other tag.
#[verifier::external_body]
#[allow(deprecated)]
pub(crate) fn aes_ccm_encrypt(key: &[u8], nonce: &[u8], aad: &[u8], plaintext: &[u8]) -> (r: Option<
    (Vec<u8>, Vec<u8>),
>)
    requires
        key@.len() == 16,
        nonce@.len() == 13,
    ensures
        match r {
            Some((ct, tag)) => aes_ccm_sealed(key@, nonce@, aad@, plaintext@) == Some((ct@, tag@))
                && ct@.len() == plaintext@.len() && tag@.len() == 16 && aes_ccm_opened(
                key@,
                nonce@,
                aad@,
                ct@,
                tag@,
            ) == Some(plaintext@) && forall|other: Seq<u8>|
                other.len() == 16 && other != tag@ ==> (#[trigger] aes_ccm_opened(
                    key@,
                    nonce@,
                    aad@,
                    ct@,
                    other,
                )) is None,
            None => aes_ccm_sealed(key@, nonce@, aad@, plaintext@) is None,
        },
{
    let cipher = ccm::Ccm::<aes::Aes128, ccm::consts::U16, ccm::consts::U13>::new(
        GenericArray::from_slice(key),
    );
    let mut buf = plaintext.to_vec();
    let tag = cipher.encrypt_in_place_detached(GenericArray::from_slice(nonce), aad, &mut buf);
    Some((buf, tag.ok()?.to_vec()))
}

/// `decrypt_in_place_detached` of `ccm::Ccm<Aes128, U16, U13>`: the
/// contract names the result; the source shows that the plaintext is as
/// long as the ciphertext, and that it is released only where the tag
/// given equals the one tag that it computes from key, nonce, associated
/// data and ciphertext, so that no other tag opens the same ciphertext.
#[verifier::external_body]
#[allow(deprecated)]
pub(crate) fn aes_ccm_decrypt(
    key: &[u8],
    nonce: &[u8],
    aad: &[u8],
    ciphertext: &[u8],
    tag: &[u8],
) -> (r: Option<Vec<u8>>)
    requires
        key@.len() == 16,
        nonce@.len() == 13,
        tag@.len() == 16,
    ensures
        match r {
            Some(pt) => aes_ccm_opened(key@, nonce@, aad@, ciphertext@, tag@) == Some(pt@)
                && pt@.len() == ciphertext@.len() && forall|other: Seq<u8>|
                other.len() == 16 && other != tag@ ==> (#[trigger] aes_ccm_opened(
                    key@,
                    nonce@,
                    aad@,
                    ciphertext@,
                    other,
                )) is None,
            None => aes_ccm_opened(key@, nonce@, aad@, ciphertext@, tag@) is None,
        },
{
    let cipher = ccm::Ccm::<aes::Aes128, ccm::consts::U16, ccm::consts::U13>::new(
        GenericArray::from_slice(key),
    );
    let mut buf = ciphertext.to_vec();
    let nonce = GenericArray::from_slice(nonce);
    cipher.decrypt_in_place_detached(nonce, aad, &mut buf, GenericArray::from_slice(tag)).ok()?;
    Some(buf)
}

/// `rand::thread_rng().fill_bytes`: of bytes that chance decides, the
/// contract says only how many they are.
#[verifier::external_body]
pub(crate) fn random_bytes(n: usize) -> (v: Vec<u8>)
    requires
        n <= isize::MAX,
    ensures
        v@.len() == n,
{
    let mut v = vec![0u8; n];
    rand::thread_rng().fill_bytes(&mut v);
    v
}

/// `EcKey::generate` on P-256: the private scalar of a new key, padded to
/// 32 bytes as `to_vec_padded` pads it. Chance decides the key: the
/// contract says only the length of the scalar.
#[verifier::external_body]
pub(crate) fn ec_generate() -> (r: Result<Vec<u8>, ErrorStack>)
    ensures
        r matches Ok(private) ==> private@.len() == 32,
{
    let group = EcGroup::from_curve_name(Nid::X9_62_PRIME256V1)?;
    let key = EcKey::generate(&group)?;
    key.private_key().to_vec_padded(32)
}

/// `EcPointRef::mul_generator2` and `to_bytes`: the generator times a
/// private scalar, which is the public point of the key, encoded without
/// compression. The contract names the result, with every error of OpenSSL
/// on the way taken as one.
#[verifier::external_body]
pub(crate) fn ec_public(private: &[u8]) -> (r: Result<Vec<u8>, ErrorStack>)
    requires
        private@.len() == 32,
    ensures
        match r {
            Ok(public) => p256_public_of(private@) == Some(public@),
            Err(_) => p256_public_of(private@) is None,
        },
{
    let group = EcGroup::from_curve_name(Nid::X9_62_PRIME256V1)?;
    let mut ctx = BigNumContext::new()?;
    let scalar = BigNum::from_slice(private)?;
    let mut point = EcPoint::new(&group)?;
    point.mul_generator2(&group, &scalar, &mut ctx)?;
    point.to_bytes(&group, PointConversionForm::UNCOMPRESSED, &mut ctx)
}

/// `Deriver::derive_to_vec`, between the key that OpenSSL
/// builds from a private scalar and the key that it builds from the
/// encoded public point of the peer: the contract names the result, with
/// every error of OpenSSL on the way taken as one.
#[verifier::external_body]
#[allow(deprecated)]
pub(crate) fn ecdh_p256(private: &[u8], peer_public: &[u8]) -> (r: Result<
    Vec<u8>,
    ErrorStack,
>)
    requires
        private@.len() == 32,
    ensures
        match r {
            Ok(secret) => ecdh_p256_secret(private@, peer_public@) == Some(secret@),
            Err(_) => ecdh_p256_secret(private@, peer_public@) is None,
        },
{
    let group = EcGroup::from_curve_name(Nid::X9_62_PRIME256V1)?;
    let mut ctx = BigNumContext::new()?;
    let scalar = BigNum::from_slice(private)?;
    let mut own = EcPoint::new(&group)?;
    own.mul_generator(&group, &scalar, &ctx)?;
    let key = EcKey::from_private_components(&group, &scalar, &own)?;
    let key = PKey::from_ec_key(key)?;
    let peer = EcPoint::from_bytes(&group, peer_public, &mut ctx)?;
    let peer = PKey::from_ec_key(EcKey::from_public_key(&group, &peer)?)?;
    let mut deriver = Deriver::new(&key)?;
    deriver.set_peer(&peer)?;
    deriver.derive_to_vec()
}

/// `EcdsaSig::sign` under the key that OpenSSL builds from
/// a private scalar: the two numbers of the signature, each padded to 32
/// bytes as `to_vec_padded` pads it. A signature depends on chance: the
/// contract says only its length.
#[verifier::external_body]
#[allow(deprecated)]
pub(crate) fn ecdsa_sign_digest(private: &[u8], digest: &[u8]) -> (r: Result<
    Vec<u8>,
    ErrorStack,
>)
    requires
        private@.len() == 32,
        digest@.len() == 32,
    ensures
        r matches Ok(signature) ==> signature@.len() == 64,
{
    let group = EcGroup::from_curve_name(Nid::X9_62_PRIME256V1)?;
    let ctx = BigNumContext::new()?;
    let scalar = BigNum::from_slice(private)?;
    let mut own = EcPoint::new(&group)?;
    own.mul_generator(&group, &scalar, &ctx)?;
    let key = EcKey::from_private_components(&group, &scalar, &own)?;
    let sig = EcdsaSig::sign(digest, &key)?;
    let mut out = sig.r().to_vec_padded(32)?;
    out.extend_from_slice(&sig.s().to_vec_padded(32)?);
    Ok(out)
}

/// `Signer::sign_to_vec` with an HMAC key and SHA-256: the
/// contract names the result.
#[verifier::external_body]
pub(crate) fn hmac_sha256(key: &[u8], data: &[u8]) -> (r: Result<
    Vec<u8>,
    ErrorStack,
>)
    requires
        key@.len() <= 0x7fff_ffff,
    ensures
        match r {
            Ok(tag) => hmac_sha256_tag(key@, data@) == Some(tag@),
            Err(_) => hmac_sha256_tag(key@, data@) is None,
        },
{
    let pkey = PKey::hmac(key)?;
    let mut signer = Signer::new(MessageDigest::sha256(), &pkey)?;
    signer.update(data)?;
    signer.sign_to_vec()
}

} // verus!

verus! {

/// What AES-128-CCM with a tag of 16 bytes makes of a plaintext: the
/// ciphertext followed by the tag, or nothing where the cipher refuses.
pub open spec fn sealed_bytes(key: Seq<u8>, nonce: Seq<u8>, aad: Seq<u8>, plaintext: Seq<u8>)
    -> Option<Seq<u8>> {
    match aes_ccm_sealed(key, nonce, aad, plaintext) {
        Some((ct, tag)) => Some(ct + tag),
        None => None,
    }
}

/// What AES-128-CCM with a tag of 16 bytes recovers from a ciphertext
/// followed by its tag, or nothing where the tag does not verify or there
/// are fewer than 16 bytes.
pub open spec fn opened_bytes(key: Seq<u8>, nonce: Seq<u8>, aad: Seq<u8>, sealed: Seq<u8>)
    -> Option<Seq<u8>> {
    if sealed.len() < 16 {
        None
    } else {
        aes_ccm_opened(
            key,
            nonce,
            aad,
            sealed.subrange(0, sealed.len() - 16),
            sealed.subrange(sealed.len() - 16, sealed.len() as int),
        )
    }
}

/// Encrypts with AES-128-CCM under a key of 16 bytes and a nonce of 13
/// bytes, and returns the ciphertext followed by the tag of 16 bytes.
/// What it returns opens, under the same key, nonce and associated data,
/// as the plaintext, and its ciphertext opens with no other tag. Fails with `InvalidKeyLength` for a key or nonce of
/// another length, and with `Crypto` where the cipher refuses.
pub fn seal(key: &[u8], nonce: &[u8], aad: &[u8], plaintext: &[u8]) -> (r: Result<Vec<u8>, Error>)
    ensures
        key@.len() != 16 || nonce@.len() != 13 ==> r is Err && r->Err_0
            == Error::InvalidKeyLength,
        key@.len() == 16 && nonce@.len() == 13 ==> match sealed_bytes(
            key@,
            nonce@,
            aad@,
            plaintext@,
        ) {
            Some(s) => r is Ok && r->Ok_0@ == s && s.len() == plaintext@.len() + 16
                && opened_bytes(key@, nonce@, aad@, s) == Some(plaintext@) && forall|
                other: Seq<u8>,
            |
                other.len() == 16 && other != s.subrange(s.len() - 16, s.len() as int)
                    ==> (#[trigger] aes_ccm_opened(
                    key@,
                    nonce@,
                    aad@,
                    s.subrange(0, s.len() - 16),
                    other,
                )) is None,
            None => r is Err && r->Err_0 == Error::Crypto,
        },
{
    if key.len() != 16 || nonce.len() != 13 {
        return Err(Error::InvalidKeyLength);
    }
    match aes_ccm_encrypt(key, nonce, aad, plaintext) {
        Some((ct, tag)) => {
            let mut out = ct;
            let mut i: usize = 0;
            let ghost base = out@;
            while i < tag.len()
                invariant
                    i <= tag.len(),
                    out@ == base + tag@.subrange(0, i as int),
                decreases tag.len() - i,
            {
                out.push(tag[i]);
                i = i + 1;
                assert(out@ =~= base + tag@.subrange(0, i as int));
            }
            assert(tag@.subrange(0, tag.len() as int) =~= tag@);
            assert(out@.subrange(0, out@.len() - 16) =~= base);
            assert(out@.subrange(out@.len() - 16, out@.len() as int) =~= tag@);
            Ok(out)
        },
        None => Err(Error::Crypto),
    }
}

/// Decrypts a ciphertext followed by its tag with AES-128-CCM under a key
/// of 16 bytes and a nonce of 13 bytes. Where it succeeds, the same
/// ciphertext opens with no other tag. Fails with `InvalidKeyLength` for
/// a key or nonce of another length, and with `Crypto` where there are
/// fewer than 16 bytes or the tag does not verify.
pub fn open(key: &[u8], nonce: &[u8], aad: &[u8], sealed: &[u8]) -> (r: Result<Vec<u8>, Error>)
    ensures
        key@.len() != 16 || nonce@.len() != 13 ==> r is Err && r->Err_0
            == Error::InvalidKeyLength,
        key@.len() == 16 && nonce@.len() == 13 ==> match opened_bytes(
            key@,
            nonce@,
            aad@,
            sealed@,
        ) {
            Some(p) => r is Ok && r->Ok_0@ == p && p.len() + 16 == sealed@.len()
                && forall|other: Seq<u8>|
                other.len() == 16 && other != sealed@.subrange(
                    sealed@.len() - 16,
                    sealed@.len() as int,
                ) ==> (#[trigger] aes_ccm_opened(
                    key@,
                    nonce@,
                    aad@,
                    sealed@.subrange(0, sealed@.len() - 16),
                    other,
                )) is None,
            None => r is Err && r->Err_0 == Error::Crypto,
        },
{
    if key.len() != 16 || nonce.len() != 13 {
        return Err(Error::InvalidKeyLength);
    }
    if sealed.len() < 16 {
        return Err(Error::Crypto);
    }
    let split: usize = sealed.len() - 16;
    let ct = vstd::slice::slice_subrange(sealed, 0, split);
    let tag = vstd::slice::slice_subrange(sealed, split, sealed.len());
    match aes_ccm_decrypt(key, nonce, aad, ct, tag) {
        Some(p) => Ok(p),
        None => Err(Error::Crypto),
    }
}

} // verus!
