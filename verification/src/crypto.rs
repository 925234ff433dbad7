//! The AES-128-GCM primitives the protocol rests on, from the `aes_gcm` crate.
//!
//! Everything here is trusted: each function below makes one call into
//! `aes_gcm` and its contract restates what that crate's source and
//! documentation show. What the cipher computes is not written out; it is
//! named by `aes128gcm_seal` and `aes128gcm_open`.

use vstd::prelude::*;
use aes_gcm::aead::{AeadInOut, Generate, KeyInit};
use aes_gcm::Aes128Gcm;

verus! {

/// The error of `aes_gcm`'s in-place encryption and decryption: deliberately
/// opaque, it tells nothing of why an operation failed.
#[verifier::external_type_specification]
#[verifier::external_body]
pub struct ExAeadError(aes_gcm::Error);

/// The largest plaintext (in bytes) that AES-GCM encrypts or decrypts (`aes_gcm::P_MAX`).
pub const P_MAX: u64 = 68719476704;

/// The largest associated data (in bytes) that AES-GCM accepts (`aes_gcm::A_MAX`).
pub const A_MAX: u64 = 2305843009213693951;

/// The ciphertext, tag appended, that AES-128-GCM makes of `plaintext` under
/// `key`, `nonce` and associated data `aad`.
pub uninterp spec fn aes128gcm_seal(key: Seq<u8>, nonce: Seq<u8>, aad: Seq<u8>, plaintext: Seq<u8>) -> Seq<u8>;

/// What AES-128-GCM decryption of `ciphertext` (tag appended) under `key`,
/// `nonce` and associated data `aad` gives: the plaintext, or `None` when the
/// tag does not authenticate the input.
pub uninterp spec fn aes128gcm_open(key: Seq<u8>, nonce: Seq<u8>, aad: Seq<u8>, ciphertext: Seq<u8>) -> Option<Seq<u8>>;

/// Calls `AeadInOut::encrypt_in_place` of `aes_gcm::Aes128Gcm` (key set by
/// `KeyInit::new`) on a copy of `plaintext`.
///
/// Trusted: the source refuses a plaintext longer than `P_MAX` or associated
/// data longer than `A_MAX`, and otherwise appends the 16-byte tag to the
/// encrypted bytes; as the crate's documentation shows, decrypting that
/// ciphertext with the same key, nonce and associated data gives the plaintext back.
#[verifier::external_body]
pub(crate) fn aes128gcm_encrypt(key: &[u8; 16], nonce: &[u8; 12], aad: &[u8], plaintext: &[u8]) -> (r: Result<Vec<u8>, aes_gcm::Error>)
    ensures
        r is Ok <==> (plaintext@.len() <= P_MAX && aad@.len() <= A_MAX),
        r matches Ok(c) ==> c@ == aes128gcm_seal(key@, nonce@, aad@, plaintext@),
        r matches Ok(c) ==> c@.len() == plaintext@.len() + 16,
        r matches Ok(c) ==> aes128gcm_open(key@, nonce@, aad@, c@) == Some(plaintext@),
{
    let cipher = Aes128Gcm::new(&aes_gcm::Key::<Aes128Gcm>::from(*key));
    let mut buffer = plaintext.to_vec();
    match cipher.encrypt_in_place(&aes_gcm::aead::Nonce::<Aes128Gcm>::from(*nonce), aad, &mut buffer) {
        Ok(()) => Ok(buffer),
        Err(e) => Err(e),
    }
}

/// Calls `AeadInOut::decrypt_in_place` of `aes_gcm::Aes128Gcm` (key set by
/// `KeyInit::new`) on a copy of `ciphertext`.
///
/// Trusted: the result is what `aes128gcm_open` names; the source fails on an
/// input shorter than the 16-byte tag and, on success, leaves the input less
/// its tag, decrypted.
#[verifier::external_body]
pub(crate) fn aes128gcm_decrypt(key: &[u8; 16], nonce: &[u8; 12], aad: &[u8], ciphertext: &[u8]) -> (r: Result<Vec<u8>, aes_gcm::Error>)
    ensures
        r is Ok <==> aes128gcm_open(key@, nonce@, aad@, ciphertext@) is Some,
        r matches Ok(p) ==> aes128gcm_open(key@, nonce@, aad@, ciphertext@) == Some(p@),
        r matches Ok(p) ==> p@.len() + 16 == ciphertext@.len(),
        ciphertext@.len() < 16 ==> r is Err,
{
    let cipher = Aes128Gcm::new(&aes_gcm::Key::<Aes128Gcm>::from(*key));
    let mut buffer = ciphertext.to_vec();
    match cipher.decrypt_in_place(&aes_gcm::aead::Nonce::<Aes128Gcm>::from(*nonce), aad, &mut buffer) {
        Ok(()) => Ok(buffer),
        Err(e) => Err(e),
    }
}

/// Calls `Generate::generate` of `aes_gcm::Key<Aes128Gcm>`: a fresh key from
/// the operating system's random number generator (the call panics only if
/// that generator fails). Nothing is promised of the bytes.
#[verifier::external_body]
pub(crate) fn generate_key() -> (key: [u8; 16])
{
    aes_gcm::Key::<Aes128Gcm>::generate().into()
}

/// Calls `Generate::generate` of `aes_gcm::aead::Nonce<Aes128Gcm>`: a fresh
/// 96-bit nonce from the operating system's random number generator (the call
/// panics only if that generator fails). Nothing is promised of the bytes.
#[verifier::external_body]
pub(crate) fn generate_nonce() -> (nonce: [u8; 12])
{
    aes_gcm::aead::Nonce::<Aes128Gcm>::generate().into()
}

/// The pre-shared AES-128 key that server and clients encrypt frames with.
pub struct Cipher {
    /// The sixteen key bytes.
    pub key: [u8; 16],
}

impl Cipher {
    /// A cipher for the given key bytes.
    pub fn new(key: [u8; 16]) -> (cipher: Cipher)
        ensures
            cipher.key@ == key@,
    {
        Cipher { key }
    }

    /// A cipher for a freshly generated random key.
    pub fn generate() -> (cipher: Cipher) {
        Cipher { key: generate_key() }
    }
}

} // verus!
