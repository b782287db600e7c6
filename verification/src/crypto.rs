//! Digests and signatures, as the `sha2` and `ring` crates compute them.
use crate::object::optional;
use vstd::prelude::*;

verus! {

/// The SHA-256 digest of a message.
pub uninterp spec fn sha256_digest(message: Seq<u8>) -> Seq<u8>;

/// The SHA-384 digest of a message.
pub uninterp spec fn sha384_digest(message: Seq<u8>) -> Seq<u8>;

/// The SHA-512 digest of a message.
pub uninterp spec fn sha512_digest(message: Seq<u8>) -> Seq<u8>;

/// The modulus of an RSA private key in PKCS#8 format, the highest byte first
/// and without leading zeros, where the `ring` crate accepts the key.
pub uninterp spec fn rsa_modulus(pkcs8: Seq<u8>) -> Option<Seq<u8>>;

/// The PKCS#1 v1.5 signature of a message with SHA-512 under an RSA private key
/// in PKCS#8 format, where it can be computed.
pub uninterp spec fn rsa_signature(pkcs8: Seq<u8>, message: Seq<u8>) -> Option<Seq<u8>>;

/// Calls `sha2::Sha256::digest`.
///
/// The contract says that the digest depends on the message alone and has 32
/// bytes.
#[verifier::external_body]
pub(crate) fn sha256(message: &[u8]) -> (digest: Vec<u8>)
    ensures
        digest@ == sha256_digest(message@),
        digest@.len() == 32,
{
    <sha2::Sha256 as sha2::Digest>::digest(message).to_vec()
}

/// Calls `sha2::Sha384::digest`.
///
/// The contract says that the digest depends on the message alone and has 48
/// bytes.
#[verifier::external_body]
pub(crate) fn sha384(message: &[u8]) -> (digest: Vec<u8>)
    ensures
        digest@ == sha384_digest(message@),
        digest@.len() == 48,
{
    <sha2::Sha384 as sha2::Digest>::digest(message).to_vec()
}

/// Calls `sha2::Sha512::digest`.
///
/// The contract says that the digest depends on the message alone and has 64
/// bytes.
#[verifier::external_body]
pub(crate) fn sha512(message: &[u8]) -> (digest: Vec<u8>)
    ensures
        digest@ == sha512_digest(message@),
        digest@.len() == 64,
{
    <sha2::Sha512 as sha2::Digest>::digest(message).to_vec()
}

/// Calls `ring::signature::RsaKeyPair::from_pkcs8` and reads the modulus of the
/// public key.
///
/// The contract says that the modulus, or the refusal of the key, depends on
/// the encoded key alone.
#[verifier::external_body]
pub(crate) fn rsa_public_modulus(pkcs8: &[u8]) -> (modulus: Option<Vec<u8>>)
    ensures
        optional(modulus) == rsa_modulus(pkcs8@),
{
    let key = ring::signature::RsaKeyPair::from_pkcs8(pkcs8).ok()?;
    let public = ring::signature::KeyPair::public_key(&key);
    Some(public.modulus().big_endian_without_leading_zero().to_vec())
}

/// Calls `ring::signature::RsaKeyPair::sign` with `RSA_PKCS1_SHA512`.
///
/// The contract says that the signature, or the failure to compute one, depends
/// on the encoded key and the message alone: this padding uses no random
/// numbers. A signature is as long as the modulus of the key.
#[verifier::external_body]
pub(crate) fn rsa_sign(pkcs8: &[u8], message: &[u8]) -> (signature: Option<Vec<u8>>)
    ensures
        optional(signature) == rsa_signature(pkcs8@, message@),
        signature matches Some(s) ==> rsa_modulus(pkcs8@) matches Some(n) && s@.len() == n.len(),
{
    let key = ring::signature::RsaKeyPair::from_pkcs8(pkcs8).ok()?;
    let rng = ring::rand::SystemRandom::new();
    let mut signature = vec![0u8; key.public_modulus_len()];
    key.sign(&ring::signature::RSA_PKCS1_SHA512, &rng, message, &mut signature).ok()?;
    Some(signature)
}

} // verus!
