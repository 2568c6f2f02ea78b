//! Trusted boundary around the AEAD cipher and the system random source.
//!
//! The netcode wire formats seal bytes with an AEAD: connect-token private
//! sections with the extended-nonce variant, packets and challenge tokens
//! with the plain variant. What those ciphers compute is named here and
//! believed, not proved; everything built on top is verified against these
//! contracts.

use vstd::prelude::*;

use chacha20poly1305::aead::{Aead, KeyInit, Payload};
use chacha20poly1305::{ChaCha20Poly1305, XChaCha20Poly1305};
use rand::rngs::OsRng;
use rand::RngCore;

use crate::NETCODE_KEY_BYTES;
use crate::NETCODE_MAC_BYTES;

verus! {

/// Largest plaintext or ciphertext the sealing wrappers accept. Far below the
/// AEAD's own length limit, so sealing cannot fail, and small enough that a
/// sealed result always fits in a vector.
pub const CRYPTO_MAX_SEAL_BYTES: usize = 0x10_0000;

/// What `XChaCha20Poly1305::encrypt` returns: ciphertext followed by the
/// 16-byte tag, a function of key, 24-byte nonce, associated data and message.
pub uninterp spec fn xseal_of(key: Seq<u8>, nonce: Seq<u8>, aad: Seq<u8>, msg: Seq<u8>) -> Seq<u8>;

/// What `XChaCha20Poly1305::decrypt` returns: the plaintext when the tag
/// authenticates the ciphertext under key, nonce and associated data, and
/// nothing otherwise.
pub uninterp spec fn xopen_of(key: Seq<u8>, nonce: Seq<u8>, aad: Seq<u8>, ct: Seq<u8>) -> Option<
    Seq<u8>,
>;

/// What `ChaCha20Poly1305::encrypt` returns: ciphertext followed by the
/// 16-byte tag, a function of key, 12-byte nonce, associated data and message.
pub uninterp spec fn cseal_of(key: Seq<u8>, nonce: Seq<u8>, aad: Seq<u8>, msg: Seq<u8>) -> Seq<u8>;

/// What `ChaCha20Poly1305::decrypt` returns: the plaintext when the tag
/// authenticates the ciphertext under key, nonce and associated data, and
/// nothing otherwise.
pub uninterp spec fn copen_of(key: Seq<u8>, nonce: Seq<u8>, aad: Seq<u8>, ct: Seq<u8>) -> Option<
    Seq<u8>,
>;

/// Relies on `XChaCha20Poly1305::encrypt` (chacha20poly1305): it appends the
/// 16-byte tag to the ciphertext, the result is a function of its arguments
/// alone, and `decrypt` of the result under the same key, nonce and
/// associated data yields the message back. It only fails beyond the AEAD
/// length limit, which the `requires` keeps far away.
#[verifier::external_body]
pub(crate) fn xseal(key: &Vec<u8>, nonce: &Vec<u8>, aad: &Vec<u8>, msg: &Vec<u8>) -> (r: Vec<u8>)
    requires
        key@.len() == NETCODE_KEY_BYTES,
        nonce@.len() == 24,
        msg@.len() <= CRYPTO_MAX_SEAL_BYTES,
        aad@.len() <= CRYPTO_MAX_SEAL_BYTES,
    ensures
        r@ == xseal_of(key@, nonce@, aad@, msg@),
        r@.len() == msg@.len() + NETCODE_MAC_BYTES,
        xopen_of(key@, nonce@, aad@, r@) == Some(msg@),
{
    let cipher = XChaCha20Poly1305::new(key.as_slice().into());
    let payload = Payload { msg: msg.as_slice(), aad: aad.as_slice() };
    cipher.encrypt(nonce.as_slice().into(), payload).expect("plaintext within AEAD limits")
}

/// Relies on `XChaCha20Poly1305::decrypt` (chacha20poly1305): it returns the
/// plaintext, 16 bytes shorter than the ciphertext, when the tag
/// authenticates, and an error otherwise; the outcome is a function of its
/// arguments alone.
#[verifier::external_body]
pub(crate) fn xopen(key: &Vec<u8>, nonce: &Vec<u8>, aad: &Vec<u8>, ct: &Vec<u8>) -> (r: Option<Vec<u8>>)
    requires
        key@.len() == NETCODE_KEY_BYTES,
        nonce@.len() == 24,
    ensures
        r matches Some(m) ==> xopen_of(key@, nonce@, aad@, ct@) == Some(m@),
        r is Some == xopen_of(key@, nonce@, aad@, ct@) is Some,
        r matches Some(m) ==> m@.len() + NETCODE_MAC_BYTES == ct@.len(),
{
    let cipher = XChaCha20Poly1305::new(key.as_slice().into());
    let payload = Payload { msg: ct.as_slice(), aad: aad.as_slice() };
    cipher.decrypt(nonce.as_slice().into(), payload).ok()
}

/// Relies on `ChaCha20Poly1305::encrypt` (chacha20poly1305): it appends the
/// 16-byte tag to the ciphertext, the result is a function of its arguments
/// alone, and `decrypt` of the result under the same key, nonce and
/// associated data yields the message back. It only fails beyond the AEAD
/// length limit, which the `requires` keeps far away.
#[verifier::external_body]
pub(crate) fn cseal(key: &Vec<u8>, nonce: &Vec<u8>, aad: &Vec<u8>, msg: &Vec<u8>) -> (r: Vec<u8>)
    requires
        key@.len() == NETCODE_KEY_BYTES,
        nonce@.len() == 12,
        msg@.len() <= CRYPTO_MAX_SEAL_BYTES,
        aad@.len() <= CRYPTO_MAX_SEAL_BYTES,
    ensures
        r@ == cseal_of(key@, nonce@, aad@, msg@),
        r@.len() == msg@.len() + NETCODE_MAC_BYTES,
        copen_of(key@, nonce@, aad@, r@) == Some(msg@),
{
    let cipher = ChaCha20Poly1305::new(key.as_slice().into());
    let payload = Payload { msg: msg.as_slice(), aad: aad.as_slice() };
    cipher.encrypt(nonce.as_slice().into(), payload).expect("plaintext within AEAD limits")
}

/// Relies on `ChaCha20Poly1305::decrypt` (chacha20poly1305): it returns the
/// plaintext, 16 bytes shorter than the ciphertext, when the tag
/// authenticates, and an error otherwise; the outcome is a function of its
/// arguments alone.
#[verifier::external_body]
pub(crate) fn copen(key: &Vec<u8>, nonce: &Vec<u8>, aad: &Vec<u8>, ct: &Vec<u8>) -> (r: Option<Vec<u8>>)
    requires
        key@.len() == NETCODE_KEY_BYTES,
        nonce@.len() == 12,
    ensures
        r matches Some(m) ==> copen_of(key@, nonce@, aad@, ct@) == Some(m@),
        r is Some == copen_of(key@, nonce@, aad@, ct@) is Some,
        r matches Some(m) ==> m@.len() + NETCODE_MAC_BYTES == ct@.len(),
{
    let cipher = ChaCha20Poly1305::new(key.as_slice().into());
    let payload = Payload { msg: ct.as_slice(), aad: aad.as_slice() };
    cipher.decrypt(nonce.as_slice().into(), payload).ok()
}

/// Relies on `rand::rngs::OsRng::fill_bytes`: it fills the buffer from the
/// operating system's random source. Nothing is promised of the values, only
/// the length of the result.
#[verifier::external_body]
pub fn generate_random_bytes(n: usize) -> (r: Vec<u8>)
    ensures
        r@.len() == n,
{
    let mut buf = vec![0u8; n];
    OsRng.fill_bytes(&mut buf);
    buf
}

} // verus!
