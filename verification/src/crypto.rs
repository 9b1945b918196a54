//! Trusted wrappers around the outside cryptographic collaborators: the MAC
//! used for key derivation and the symmetric block cipher.

use aes::cipher::block_padding::Pkcs7;
use aes::cipher::{BlockDecryptMut, BlockEncryptMut, KeyIvInit};
use hmac::{Hmac, Mac};
use sha2::Sha256;
use vstd::prelude::*;

verus! {

/// The 32-byte tag that HMAC-SHA-256 computes for a key and a message.
/// A function of its arguments alone; its value is not written out here.
pub uninterp spec fn hmac_of(key: Seq<u8>, data: Seq<u8>) -> Seq<u8>;

/// What AES-256-CBC with PKCS#7 padding produces for a key, an IV and a
/// plaintext. A function of its arguments alone.
pub uninterp spec fn cbc_enc(key: Seq<u8>, iv: Seq<u8>, plaintext: Seq<u8>) -> Seq<u8>;

/// What AES-256-CBC with PKCS#7 padding recovers from a key, an IV and a
/// ciphertext: `None` exactly where unpadding fails.
pub uninterp spec fn cbc_dec(key: Seq<u8>, iv: Seq<u8>, ciphertext: Seq<u8>) -> Option<Seq<u8>>;

/// Relies on hmac's `Hmac::<Sha256>`: the tag is a deterministic function of
/// key and message, 32 bytes long, and any key length is accepted.
#[verifier::external_body]
pub(crate) fn hmac_sha256(key: &[u8], data: &[u8]) -> (r: Vec<u8>)
    ensures
        r@ == hmac_of(key@, data@),
        r@.len() == 32,
{
    let mut mac = <Hmac<Sha256> as Mac>::new_from_slice(key).expect("any key length is accepted");
    mac.update(data);
    mac.finalize().into_bytes().to_vec()
}

/// Relies on cbc's `Encryptor<aes::Aes256>` with PKCS#7 padding: encryption
/// is deterministic in key, IV and plaintext, and the matching `Decryptor`
/// recovers exactly the plaintext from what it produced.
#[verifier::external_body]
pub(crate) fn aes_256_cbc_encrypt(plaintext: &[u8], key: &[u8], iv: &[u8]) -> (r: Vec<u8>)
    requires
        key@.len() == 32,
        iv@.len() == 16,
    ensures
        r@ == cbc_enc(key@, iv@, plaintext@),
        cbc_dec(key@, iv@, r@) == Some(plaintext@),
{
    let enc = cbc::Encryptor::<aes::Aes256>::new_from_slices(key, iv)
        .expect("the caller hands a 32-byte key and a 16-byte IV");
    enc.encrypt_padded_vec_mut::<Pkcs7>(plaintext)
}

/// Relies on cbc's `Decryptor<aes::Aes256>` with PKCS#7 padding: decryption
/// is deterministic, and fails exactly where the recovered padding is bad.
#[verifier::external_body]
pub(crate) fn aes_256_cbc_decrypt(ciphertext: &[u8], key: &[u8], iv: &[u8]) -> (r: Option<Vec<u8>>)
    requires
        key@.len() == 32,
        iv@.len() == 16,
    ensures
        match r {
            Some(p) => cbc_dec(key@, iv@, ciphertext@) == Some(p@),
            None => cbc_dec(key@, iv@, ciphertext@) is None,
        },
{
    let dec = cbc::Decryptor::<aes::Aes256>::new_from_slices(key, iv)
        .expect("the caller hands a 32-byte key and a 16-byte IV");
    match dec.decrypt_padded_vec_mut::<Pkcs7>(ciphertext) {
        Ok(p) => Some(p),
        Err(_) => None,
    }
}

} // verus!
