//! The cryptographic and encoding primitives that this library takes from
//! outside crates: AES-256-GCM (`aes-gcm`), Argon2id (`argon2`), URL-safe
//! base64 (`base64`), the operating system's random numbers (`getrandom`)
//! and key wiping (`zeroize`).
//!
//! Every item here is trusted: its contract is stated from the outside
//! crate's source and documentation and is not proved.
use aes_gcm::aead::{Aead, KeyInit};
use aes_gcm::{Aes256Gcm, Key};
use argon2::Argon2;
use base64::Engine;
use generic_array::GenericArray;
use vstd::prelude::*;
use zeroize::Zeroize;
use crate::encoding::{base64url_decode, base64url_encode};

verus! {

/// The error of the AEAD interface of `aes-gcm` (`aead::Error`).
#[verifier::external_type_specification]
#[verifier::external_body]
pub struct ExAeadError(aes_gcm::Error);

/// The error of `argon2`.
#[verifier::external_type_specification]
#[verifier::external_body]
pub struct ExArgon2Error(argon2::Error);

/// The error of `base64` decoding.
#[verifier::external_type_specification]
#[verifier::external_body]
pub struct ExDecodeError(base64::DecodeError);

/// The error of `getrandom`.
#[verifier::external_type_specification]
#[verifier::external_body]
pub struct ExRandomError(getrandom::Error);

/// Largest plaintext that AES-GCM in `aes-gcm` accepts (`aes_gcm::P_MAX`).
pub const GCM_MAX_PLAINTEXT: u64 = 0x10_0000_0000;

/// Length of the AES-GCM authentication tag appended to every ciphertext.
pub const TAG_LEN: usize = 16;

/// AES-256-GCM encryption, without associated data, of `plaintext` under
/// `key` and `nonce`: ciphertext followed by the 16-byte tag.
pub uninterp spec fn aes256gcm_seal(key: Seq<u8>, nonce: Seq<u8>, plaintext: Seq<u8>) -> Seq<u8>;

/// AES-256-GCM decryption, without associated data: the plaintext when the
/// tag of `ciphertext` verifies under `key` and `nonce`, else `None`.
pub uninterp spec fn aes256gcm_open(key: Seq<u8>, nonce: Seq<u8>, ciphertext: Seq<u8>) -> Option<
    Seq<u8>,
>;

/// The 32-byte Argon2id hash of `password` with `salt`, under the default
/// parameters of `argon2` 0.5 (m = 19 MiB, t = 2, p = 1, version 0x13).
pub uninterp spec fn argon2id_default(password: Seq<u8>, salt: Seq<u8>) -> Seq<u8>;

/// `Aes256Gcm::new(key).encrypt(nonce, plaintext)` of `aes-gcm` 0.10.
///
/// Claimed: the call fails exactly when `plaintext` is longer than
/// `P_MAX` (2^36 bytes); its result is the named encryption, 16 bytes longer
/// than `plaintext`; and decryption under the same key and nonce gives
/// `plaintext` back, which is the defining property of an AEAD cipher.
#[verifier::external_body]
pub fn aes_gcm_encrypt(key: &[u8; 32], nonce: &[u8; 12], plaintext: &[u8]) -> (r: Result<
    Vec<u8>,
    aes_gcm::Error,
>)
    ensures
        r is Ok <==> plaintext@.len() <= GCM_MAX_PLAINTEXT,
        r matches Ok(c) ==> c@ == aes256gcm_seal(key@, nonce@, plaintext@),
        r matches Ok(c) ==> c@.len() == plaintext@.len() + TAG_LEN,
        r matches Ok(c) ==> aes256gcm_open(key@, nonce@, c@) == Some(plaintext@),
{
    let cipher = Aes256Gcm::new(Key::<Aes256Gcm>::from_slice(key));
    cipher.encrypt(GenericArray::from_slice(nonce), plaintext)
}

/// `Aes256Gcm::new(key).decrypt(nonce, ciphertext)` of `aes-gcm` 0.10.
///
/// Claimed: the result is the named decryption, and a plaintext is 16
/// bytes shorter than its ciphertext (the tag is cut off).
#[verifier::external_body]
pub fn aes_gcm_decrypt(key: &[u8; 32], nonce: &[u8; 12], ciphertext: &[u8]) -> (r: Result<
    Vec<u8>,
    aes_gcm::Error,
>)
    ensures
        r is Ok <==> aes256gcm_open(key@, nonce@, ciphertext@) is Some,
        r matches Ok(p) ==> aes256gcm_open(key@, nonce@, ciphertext@) == Some(p@),
        r matches Ok(p) ==> p@.len() + TAG_LEN == ciphertext@.len(),
{
    let cipher = Aes256Gcm::new(Key::<Aes256Gcm>::from_slice(key));
    cipher.decrypt(GenericArray::from_slice(nonce), ciphertext)
}

/// `Argon2::default().hash_password_into(password, salt, &mut out)` of
/// `argon2` 0.5, into a 32-byte output.
///
/// Claimed: with a 16-byte salt and 32-byte output the only failure in the
/// source is a password longer than `0xFFFF_FFFF` bytes (`PwdTooLong`);
/// otherwise the output is the named Argon2id hash.
#[verifier::external_body]
pub fn argon2_hash(password: &[u8], salt: &[u8; 16]) -> (r: Result<[u8; 32], argon2::Error>)
    ensures
        r is Ok <==> password@.len() <= 0xFFFF_FFFF,
        r matches Ok(k) ==> k@ == argon2id_default(password@, salt@),
{
    let mut out = [0u8; 32];
    Argon2::default().hash_password_into(password, salt, &mut out).map(|_| out)
}

/// `URL_SAFE_NO_PAD.decode(text)` of `base64` 0.22.
///
/// Claimed: the call succeeds exactly on canonical unpadded URL-safe
/// encodings, and then gives the bytes that `text` encodes.  (`NO_PAD`
/// refuses padding, the default configuration refuses non-zero trailing
/// bits, and a length one more than a multiple of four is refused.)
#[verifier::external_body]
pub fn base64url_decode_str(text: &str) -> (r: Result<Vec<u8>, base64::DecodeError>)
    ensures
        r matches Ok(v) ==> base64url_encode(v@) == text@,
        r is Err ==> base64url_decode(text@) is None,
{
    base64::engine::general_purpose::URL_SAFE_NO_PAD.decode(text)
}

/// `URL_SAFE_NO_PAD.encode(bytes)` of `base64` 0.22.
///
/// Claimed: the result is the unpadded URL-safe encoding of `bytes`.  The
/// call panics only where the encoded length overflows `usize`, which
/// `requires` leaves out.
#[verifier::external_body]
pub fn base64url_encode_bytes(bytes: &[u8]) -> (s: String)
    requires
        bytes@.len() <= 0x1000_0000,
    ensures
        s@ == base64url_encode(bytes@),
{
    base64::engine::general_purpose::URL_SAFE_NO_PAD.encode(bytes)
}

/// `getrandom::getrandom` of `getrandom` 0.2 on a zeroed buffer of `len`
/// bytes.
///
/// Claimed: on success the buffer has `len` bytes.  What they are is left
/// unsaid: they come from the operating system's random source.
#[verifier::external_body]
pub fn os_random_bytes(len: usize) -> (r: Result<Vec<u8>, getrandom::Error>)
    ensures
        r matches Ok(v) ==> v@.len() == len,
{
    let mut buf = vec![0u8; len];
    getrandom::getrandom(&mut buf).map(|_| buf)
}

/// `Zeroize::zeroize` of `zeroize` on a `Vec<u8>`: the elements are
/// overwritten with zeros and the vector is cleared.
#[verifier::external_body]
pub fn wipe_vec(v: &mut Vec<u8>)
    ensures
        final(v)@.len() == 0,
{
    v.zeroize()
}

/// `Zeroize::zeroize` of `zeroize` on a 32-byte array: every byte becomes 0.
#[verifier::external_body]
pub fn wipe_key(k: &mut [u8; 32])
    ensures
        final(k)@ == Seq::new(32, |i: int| 0u8),
{
    k.zeroize()
}

} // verus!
