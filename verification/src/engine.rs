//! The signature engine.
//!
//! Stateless signing and verification over the canonical signing string. The
//! cryptographic primitives are external collaborators: each is reached
//! through one trusted wrapper whose result is named, and everything the
//! library promises about signing and verification is stated over those
//! names.

use vstd::prelude::*;

use crate::algorithm::{KeyFamily, ShaSize, SignatureAlgorithm};
use crate::error::Error;
use crate::headers::bytes_eq;

verus! {

/// The HMAC-SHA-256 tag of a key and a message; a function of both alone.
pub uninterp spec fn hmac_sha256_of(key: Seq<u8>, msg: Seq<u8>) -> Seq<u8>;

/// The HMAC-SHA-384 tag of a key and a message; a function of both alone.
pub uninterp spec fn hmac_sha384_of(key: Seq<u8>, msg: Seq<u8>) -> Seq<u8>;

/// The HMAC-SHA-512 tag of a key and a message; a function of both alone.
pub uninterp spec fn hmac_sha512_of(key: Seq<u8>, msg: Seq<u8>) -> Seq<u8>;

/// The PKCS#1 v1.5 RSA signature with SHA-256 over a message, by the private
/// key in the given PKCS#8 DER document; `None` when the document does not
/// parse or the key cannot sign the digest. Deterministic in both arguments.
pub uninterp spec fn rsa_sha256_sig_of(key_der: Seq<u8>, msg: Seq<u8>) -> Option<Seq<u8>>;

/// As `rsa_sha256_sig_of`, with SHA-384.
pub uninterp spec fn rsa_sha384_sig_of(key_der: Seq<u8>, msg: Seq<u8>) -> Option<Seq<u8>>;

/// As `rsa_sha256_sig_of`, with SHA-512.
pub uninterp spec fn rsa_sha512_sig_of(key_der: Seq<u8>, msg: Seq<u8>) -> Option<Seq<u8>>;

/// Whether a signature verifies as PKCS#1 v1.5 RSA with SHA-256 under the
/// public key in the given SPKI DER document; false on any malformed input.
pub uninterp spec fn rsa_sha256_verifies(pub_der: Seq<u8>, sig: Seq<u8>, msg: Seq<u8>) -> bool;

/// As `rsa_sha256_verifies`, with SHA-384.
pub uninterp spec fn rsa_sha384_verifies(pub_der: Seq<u8>, sig: Seq<u8>, msg: Seq<u8>) -> bool;

/// As `rsa_sha256_verifies`, with SHA-512.
pub uninterp spec fn rsa_sha512_verifies(pub_der: Seq<u8>, sig: Seq<u8>, msg: Seq<u8>) -> bool;

/// Relies on hmac's `Hmac<Sha256>` (`Mac::new_from_slice`, `update`,
/// `finalize`): the tag is a deterministic function of key and message, and
/// `new_from_slice` accepts a key of any length, so it cannot fail.
#[verifier::external_body]
fn hmac_sha256(key: &Vec<u8>, msg: &Vec<u8>) -> (r: Vec<u8>)
    ensures
        r@ == hmac_sha256_of(key@, msg@),
{
    let mut m = <hmac::Hmac<sha2::Sha256> as hmac::Mac>::new_from_slice(key.as_slice()).unwrap();
    hmac::Mac::update(&mut m, msg.as_slice());
    hmac::Mac::finalize(m).into_bytes().to_vec()
}

/// Relies on hmac's `Hmac<Sha384>`; see `hmac_sha256`.
#[verifier::external_body]
fn hmac_sha384(key: &Vec<u8>, msg: &Vec<u8>) -> (r: Vec<u8>)
    ensures
        r@ == hmac_sha384_of(key@, msg@),
{
    let mut m = <hmac::Hmac<sha2::Sha384> as hmac::Mac>::new_from_slice(key.as_slice()).unwrap();
    hmac::Mac::update(&mut m, msg.as_slice());
    hmac::Mac::finalize(m).into_bytes().to_vec()
}

/// Relies on hmac's `Hmac<Sha512>`; see `hmac_sha256`.
#[verifier::external_body]
fn hmac_sha512(key: &Vec<u8>, msg: &Vec<u8>) -> (r: Vec<u8>)
    ensures
        r@ == hmac_sha512_of(key@, msg@),
{
    let mut m = <hmac::Hmac<sha2::Sha512> as hmac::Mac>::new_from_slice(key.as_slice()).unwrap();
    hmac::Mac::update(&mut m, msg.as_slice());
    hmac::Mac::finalize(m).into_bytes().to_vec()
}

/// Relies on rsa's `RsaPrivateKey::from_pkcs8_der`,
/// `pkcs1v15::SigningKey::<Sha256>::new` and `Signer::try_sign`: PKCS#1 v1.5
/// signing is deterministic in the key document and the message, and fails
/// only on unusable key material.
#[verifier::external_body]
fn rsa_sign_sha256(key_der: &Vec<u8>, msg: &Vec<u8>) -> (r: Option<Vec<u8>>)
    ensures
        (match r {
            Some(v) => rsa_sha256_sig_of(key_der@, msg@) == Some(v@),
            None => rsa_sha256_sig_of(key_der@, msg@) is None,
        }),
{
    let key = match <rsa::RsaPrivateKey as rsa::pkcs8::DecodePrivateKey>::from_pkcs8_der(
        key_der.as_slice(),
    ) {
        Ok(k) => k,
        Err(_) => return None,
    };
    let sk = rsa::pkcs1v15::SigningKey::<rsa::sha2::Sha256>::new(key);
    match rsa::signature::Signer::try_sign(&sk, msg.as_slice()) {
        Ok(sig) => Some(rsa::signature::SignatureEncoding::to_vec(&sig)),
        Err(_) => None,
    }
}

/// As `rsa_sign_sha256`, with SHA-384.
#[verifier::external_body]
fn rsa_sign_sha384(key_der: &Vec<u8>, msg: &Vec<u8>) -> (r: Option<Vec<u8>>)
    ensures
        (match r {
            Some(v) => rsa_sha384_sig_of(key_der@, msg@) == Some(v@),
            None => rsa_sha384_sig_of(key_der@, msg@) is None,
        }),
{
    let key = match <rsa::RsaPrivateKey as rsa::pkcs8::DecodePrivateKey>::from_pkcs8_der(
        key_der.as_slice(),
    ) {
        Ok(k) => k,
        Err(_) => return None,
    };
    let sk = rsa::pkcs1v15::SigningKey::<rsa::sha2::Sha384>::new(key);
    match rsa::signature::Signer::try_sign(&sk, msg.as_slice()) {
        Ok(sig) => Some(rsa::signature::SignatureEncoding::to_vec(&sig)),
        Err(_) => None,
    }
}

/// As `rsa_sign_sha256`, with SHA-512.
#[verifier::external_body]
fn rsa_sign_sha512(key_der: &Vec<u8>, msg: &Vec<u8>) -> (r: Option<Vec<u8>>)
    ensures
        (match r {
            Some(v) => rsa_sha512_sig_of(key_der@, msg@) == Some(v@),
            None => rsa_sha512_sig_of(key_der@, msg@) is None,
        }),
{
    let key = match <rsa::RsaPrivateKey as rsa::pkcs8::DecodePrivateKey>::from_pkcs8_der(
        key_der.as_slice(),
    ) {
        Ok(k) => k,
        Err(_) => return None,
    };
    let sk = rsa::pkcs1v15::SigningKey::<rsa::sha2::Sha512>::new(key);
    match rsa::signature::Signer::try_sign(&sk, msg.as_slice()) {
        Ok(sig) => Some(rsa::signature::SignatureEncoding::to_vec(&sig)),
        Err(_) => None,
    }
}

/// Relies on rsa's `RsaPublicKey::from_public_key_der`,
/// `pkcs1v15::VerifyingKey::<Sha256>::new`, `Signature::try_from` and
/// `Verifier::verify`: the outcome is a deterministic function of the three
/// byte strings; malformed keys or signatures verify as false, no panic.
#[verifier::external_body]
fn rsa_verify_sha256(pub_der: &Vec<u8>, signature: &Vec<u8>, msg: &Vec<u8>) -> (r: bool)
    ensures
        r == rsa_sha256_verifies(pub_der@, signature@, msg@),
{
    let key = match <rsa::RsaPublicKey as rsa::pkcs8::DecodePublicKey>::from_public_key_der(
        pub_der.as_slice(),
    ) {
        Ok(k) => k,
        Err(_) => return false,
    };
    let vk = rsa::pkcs1v15::VerifyingKey::<rsa::sha2::Sha256>::new(key);
    let sig = match <rsa::pkcs1v15::Signature as TryFrom<&[u8]>>::try_from(signature.as_slice()) {
        Ok(s) => s,
        Err(_) => return false,
    };
    rsa::signature::Verifier::verify(&vk, msg.as_slice(), &sig).is_ok()
}

/// As `rsa_verify_sha256`, with SHA-384.
#[verifier::external_body]
fn rsa_verify_sha384(pub_der: &Vec<u8>, signature: &Vec<u8>, msg: &Vec<u8>) -> (r: bool)
    ensures
        r == rsa_sha384_verifies(pub_der@, signature@, msg@),
{
    let key = match <rsa::RsaPublicKey as rsa::pkcs8::DecodePublicKey>::from_public_key_der(
        pub_der.as_slice(),
    ) {
        Ok(k) => k,
        Err(_) => return false,
    };
    let vk = rsa::pkcs1v15::VerifyingKey::<rsa::sha2::Sha384>::new(key);
    let sig = match <rsa::pkcs1v15::Signature as TryFrom<&[u8]>>::try_from(signature.as_slice()) {
        Ok(s) => s,
        Err(_) => return false,
    };
    rsa::signature::Verifier::verify(&vk, msg.as_slice(), &sig).is_ok()
}

/// As `rsa_verify_sha256`, with SHA-512.
#[verifier::external_body]
fn rsa_verify_sha512(pub_der: &Vec<u8>, signature: &Vec<u8>, msg: &Vec<u8>) -> (r: bool)
    ensures
        r == rsa_sha512_verifies(pub_der@, signature@, msg@),
{
    let key = match <rsa::RsaPublicKey as rsa::pkcs8::DecodePublicKey>::from_public_key_der(
        pub_der.as_slice(),
    ) {
        Ok(k) => k,
        Err(_) => return false,
    };
    let vk = rsa::pkcs1v15::VerifyingKey::<rsa::sha2::Sha512>::new(key);
    let sig = match <rsa::pkcs1v15::Signature as TryFrom<&[u8]>>::try_from(signature.as_slice()) {
        Ok(s) => s,
        Err(_) => return false,
    };
    rsa::signature::Verifier::verify(&vk, msg.as_slice(), &sig).is_ok()
}

/// The tag of the symmetric family, by digest size.
pub open spec fn hmac_tag(sz: ShaSize, key: Seq<u8>, msg: Seq<u8>) -> Seq<u8> {
    match sz {
        ShaSize::TwoFiftySix => hmac_sha256_of(key, msg),
        ShaSize::ThreeEightyFour => hmac_sha384_of(key, msg),
        ShaSize::FiveTwelve => hmac_sha512_of(key, msg),
    }
}

/// The RSA signature, by digest size.
pub open spec fn rsa_sig(sz: ShaSize, key_der: Seq<u8>, msg: Seq<u8>) -> Option<Seq<u8>> {
    match sz {
        ShaSize::TwoFiftySix => rsa_sha256_sig_of(key_der, msg),
        ShaSize::ThreeEightyFour => rsa_sha384_sig_of(key_der, msg),
        ShaSize::FiveTwelve => rsa_sha512_sig_of(key_der, msg),
    }
}

/// The RSA verification outcome, by digest size.
pub open spec fn rsa_ok(sz: ShaSize, pub_der: Seq<u8>, sig: Seq<u8>, msg: Seq<u8>) -> bool {
    match sz {
        ShaSize::TwoFiftySix => rsa_sha256_verifies(pub_der, sig, msg),
        ShaSize::ThreeEightyFour => rsa_sha384_verifies(pub_der, sig, msg),
        ShaSize::FiveTwelve => rsa_sha512_verifies(pub_der, sig, msg),
    }
}

/// What signing returns for given key material, message and algorithm, once
/// the key family matches: a tag for the symmetric family (always), an RSA
/// signature or nothing for unusable key material.
pub open spec fn spec_signature(
    alg: SignatureAlgorithm,
    key: Seq<u8>,
    msg: Seq<u8>,
) -> Option<Seq<u8>> {
    match alg {
        SignatureAlgorithm::HMAC(sz) => Some(hmac_tag(sz, key, msg)),
        SignatureAlgorithm::RSA(sz) => rsa_sig(sz, key, msg),
    }
}

/// What verification returns for given key material, signature, message and
/// algorithm, once the key family matches.
pub open spec fn spec_verifies(
    alg: SignatureAlgorithm,
    key: Seq<u8>,
    sig: Seq<u8>,
    msg: Seq<u8>,
) -> bool {
    match alg {
        SignatureAlgorithm::HMAC(sz) => sig == hmac_tag(sz, key, msg),
        SignatureAlgorithm::RSA(sz) => rsa_ok(sz, key, sig, msg),
    }
}

/// A key handle: the key family plus the raw key material — the shared
/// secret for the symmetric family, a PKCS#8 DER document for an RSA private
/// key, an SPKI DER document for an RSA public key.
pub struct Key {
    pub family: KeyFamily,
    pub material: Vec<u8>,
}

/// Signs a byte string. The key family must match the requested algorithm,
/// else the key error; the symmetric family always succeeds; RSA fails with
/// the signing error exactly when the primitive rejects the key material.
pub fn sign(msg: &Vec<u8>, key: &Key, algorithm: SignatureAlgorithm) -> (r: Result<Vec<u8>, Error>)
    ensures
        key.family != algorithm.spec_family() ==> r == Err::<Vec<u8>, Error>(Error::Key),
        key.family == algorithm.spec_family() ==> (match spec_signature(
            algorithm,
            key.material@,
            msg@,
        ) {
            Some(s) => r matches Ok(v) && v@ == s,
            None => r == Err::<Vec<u8>, Error>(Error::Signing),
        }),
{
    let fam = algorithm.family();
    if !(key.family == fam) {
        return Err(Error::Key);
    }
    match algorithm {
        SignatureAlgorithm::HMAC(ShaSize::TwoFiftySix) => Ok(hmac_sha256(&key.material, msg)),
        SignatureAlgorithm::HMAC(ShaSize::ThreeEightyFour) => Ok(hmac_sha384(&key.material, msg)),
        SignatureAlgorithm::HMAC(ShaSize::FiveTwelve) => Ok(hmac_sha512(&key.material, msg)),
        SignatureAlgorithm::RSA(sz) => {
            let signed = match sz {
                ShaSize::TwoFiftySix => rsa_sign_sha256(&key.material, msg),
                ShaSize::ThreeEightyFour => rsa_sign_sha384(&key.material, msg),
                ShaSize::FiveTwelve => rsa_sign_sha512(&key.material, msg),
            };
            match signed {
                Some(v) => Ok(v),
                None => Err(Error::Signing),
            }
        },
    }
}

/// Verifies a signature over a byte string. The key family must match the
/// requested algorithm, else the key error; any malformed signature yields
/// `Ok(false)`, never a panic.
pub fn verify(msg: &Vec<u8>, signature: &Vec<u8>, key: &Key, algorithm: SignatureAlgorithm) -> (r:
    Result<bool, Error>)
    ensures
        key.family != algorithm.spec_family() ==> r == Err::<bool, Error>(Error::Key),
        key.family == algorithm.spec_family() ==> r == Ok::<bool, Error>(
            spec_verifies(algorithm, key.material@, signature@, msg@),
        ),
{
    let fam = algorithm.family();
    if !(key.family == fam) {
        return Err(Error::Key);
    }
    match algorithm {
        SignatureAlgorithm::HMAC(sz) => {
            let tag = match sz {
                ShaSize::TwoFiftySix => hmac_sha256(&key.material, msg),
                ShaSize::ThreeEightyFour => hmac_sha384(&key.material, msg),
                ShaSize::FiveTwelve => hmac_sha512(&key.material, msg),
            };
            Ok(bytes_eq(signature, &tag))
        },
        SignatureAlgorithm::RSA(sz) => {
            let ok = match sz {
                ShaSize::TwoFiftySix => rsa_verify_sha256(&key.material, signature, msg),
                ShaSize::ThreeEightyFour => rsa_verify_sha384(&key.material, signature, msg),
                ShaSize::FiveTwelve => rsa_verify_sha512(&key.material, signature, msg),
            };
            Ok(ok)
        },
    }
}

/// Signing is deterministic: the signature is a function of the algorithm,
/// the key material and the canonical message alone, so two signing results
/// over the same inputs are identical, byte for byte.
pub proof fn lemma_sign_deterministic(
    algorithm: SignatureAlgorithm,
    key: Seq<u8>,
    msg: Seq<u8>,
    r1: Option<Seq<u8>>,
    r2: Option<Seq<u8>>,
)
    requires
        r1 == spec_signature(algorithm, key, msg),
        r2 == spec_signature(algorithm, key, msg),
    ensures
        r1 == r2,
{
}

/// Round trip for the symmetric family: a tag produced by signing verifies
/// under the same key and algorithm, and any altered signature fails
/// verification (it yields false, not an error).
pub proof fn lemma_hmac_round_trip(
    sz: ShaSize,
    key: Seq<u8>,
    msg: Seq<u8>,
    sig: Seq<u8>,
    altered: Seq<u8>,
)
    requires
        spec_signature(SignatureAlgorithm::HMAC(sz), key, msg) == Some(sig),
    ensures
        spec_verifies(SignatureAlgorithm::HMAC(sz), key, sig, msg),
        altered != sig ==> !spec_verifies(SignatureAlgorithm::HMAC(sz), key, altered, msg),
{
}

} // verus!
