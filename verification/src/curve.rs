//! Trusted wrappers around the outside signature collaborator (Ed25519).

use ed25519_dalek::{Signer, Verifier};
use vstd::prelude::*;

verus! {

/// The 32-byte public key belonging to a 32-byte secret signing seed.
/// A function of the seed alone.
pub uninterp spec fn pub_of_seed(seed: Seq<u8>) -> Seq<u8>;

/// The 64-byte signature that the key with secret seed `seed` puts on
/// `message`. Ed25519 signing is deterministic (RFC 8032), so this is a
/// function of seed and message alone.
pub uninterp spec fn sign_of(seed: Seq<u8>, message: Seq<u8>) -> Seq<u8>;

/// Whether `signature` verifies for `message` under `public_key`.
/// Verification is deterministic in its three arguments.
pub uninterp spec fn verifies(public_key: Seq<u8>, message: Seq<u8>, signature: Seq<u8>) -> bool;

/// Relies on ed25519_dalek's `SigningKey::from_bytes` and `verifying_key`:
/// the public key is derived from the 32-byte seed alone and is 32 bytes.
#[verifier::external_body]
pub(crate) fn signing_public_key(seed: &[u8]) -> (r: Vec<u8>)
    requires
        seed@.len() == 32,
    ensures
        r@ == pub_of_seed(seed@),
        r@.len() == 32,
{
    let secret: [u8; 32] = seed.try_into().expect("the caller hands a 32-byte seed");
    let key = ed25519_dalek::SigningKey::from_bytes(&secret);
    key.verifying_key().to_bytes().to_vec()
}

/// Relies on ed25519_dalek's `SigningKey::sign`: deterministic (RFC 8032),
/// 64 bytes long, and `VerifyingKey::verify` accepts what it produced under
/// the matching public key.
#[verifier::external_body]
pub(crate) fn sign(seed: &[u8], message: &[u8]) -> (r: Vec<u8>)
    requires
        seed@.len() == 32,
    ensures
        r@ == sign_of(seed@, message@),
        r@.len() == 64,
        verifies(pub_of_seed(seed@), message@, r@),
{
    let secret: [u8; 32] = seed.try_into().expect("the caller hands a 32-byte seed");
    let key = ed25519_dalek::SigningKey::from_bytes(&secret);
    key.sign(message).to_bytes().to_vec()
}

/// Relies on ed25519_dalek's `VerifyingKey::verify`: deterministic in key,
/// message and signature; a byte string that is no valid public key
/// verifies nothing.
#[verifier::external_body]
pub(crate) fn verify_signature(public_key: &[u8], message: &[u8], signature: &[u8]) -> (r: bool)
    requires
        public_key@.len() == 32,
        signature@.len() == 64,
    ensures
        r == verifies(public_key@, message@, signature@),
{
    let pk_bytes: [u8; 32] = public_key.try_into().expect("the caller hands a 32-byte key");
    let sig_bytes: [u8; 64] = signature.try_into().expect("the caller hands a 64-byte signature");
    let sig = ed25519_dalek::Signature::from_bytes(&sig_bytes);
    match ed25519_dalek::VerifyingKey::from_bytes(&pk_bytes) {
        Ok(pk) => pk.verify(message, &sig).is_ok(),
        Err(_) => false,
    }
}

} // verus!
