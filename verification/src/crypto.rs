//! Authenticated encryption of cache payloads: AES-256-GCM with a
//! 96-bit nonce, behind trusted wrappers. Sealing and opening are
//! functions of key, nonce and input; nothing is assumed of a fresh
//! nonce's value beyond its length.

use aes_gcm::aead::Aead;
use aes_gcm::KeyInit;
use rand::RngCore;
use vstd::prelude::*;

verus! {

/// The AES-256-GCM ciphertext (with appended tag) for a key, nonce and
/// plaintext: a function of those three inputs alone.
pub uninterp spec fn spec_gcm_seal(key: Seq<u8>, nonce: Seq<u8>, plaintext: Seq<u8>) -> Seq<u8>;

/// What AES-256-GCM decryption yields for a key, nonce and ciphertext:
/// the recovered plaintext, or nothing when authentication fails.
pub uninterp spec fn spec_gcm_unseal(key: Seq<u8>, nonce: Seq<u8>, ciphertext: Seq<u8>) -> Option<
    Seq<u8>,
>;

/// Relies on aes_gcm::Aes256Gcm (aead::Aead::encrypt): the ciphertext is
/// a function of key, nonce and plaintext, and decrypting it with the
/// same key and nonce returns the plaintext (AEAD correctness). With no
/// associated data, encryption fails only when the plaintext exceeds the
/// cipher's length bound of 2^36 bytes.
#[verifier::external_body]
pub fn gcm_encrypt(key: &[u8], nonce: &[u8], plaintext: &[u8]) -> (r: Option<Vec<u8>>)
    requires
        key@.len() == 32,
        nonce@.len() == 12,
    ensures
        match r {
            Some(ct) => ct@ == spec_gcm_seal(key@, nonce@, plaintext@) && spec_gcm_unseal(
                key@,
                nonce@,
                ct@,
            ) == Some(plaintext@),
            None => plaintext@.len() > 0x10_0000_0000,
        },
{
    let cipher = aes_gcm::Aes256Gcm::new(aes_gcm::Key::<aes_gcm::Aes256Gcm>::from_slice(key));
    cipher.encrypt(aes_gcm::Nonce::from_slice(nonce), plaintext).ok()
}

/// Relies on aes_gcm::Aes256Gcm (aead::Aead::decrypt): returns the
/// plaintext exactly when the ciphertext authenticates under the key and
/// nonce, and fails otherwise.
#[verifier::external_body]
pub fn gcm_decrypt(key: &[u8], nonce: &[u8], ciphertext: &[u8]) -> (r: Option<Vec<u8>>)
    requires
        key@.len() == 32,
        nonce@.len() == 12,
    ensures
        match r {
            Some(pt) => spec_gcm_unseal(key@, nonce@, ciphertext@) == Some(pt@),
            None => spec_gcm_unseal(key@, nonce@, ciphertext@) is None,
        },
{
    let cipher = aes_gcm::Aes256Gcm::new(aes_gcm::Key::<aes_gcm::Aes256Gcm>::from_slice(key));
    cipher.decrypt(aes_gcm::Nonce::from_slice(nonce), ciphertext).ok()
}

/// Relies on rand_core::OsRng (RngCore::fill_bytes): fills the buffer
/// from the operating system; nothing is assumed of the drawn values.
#[verifier::external_body]
pub fn fresh_nonce() -> (r: Vec<u8>)
    ensures
        r@.len() == 12,
{
    let mut bytes = [0u8; 12];
    aes_gcm::aead::OsRng.fill_bytes(&mut bytes);
    bytes.to_vec()
}

} // verus!
