use base64::Engine;
use rust_core::crypto;
use rust_core::error::CryptError;
use rust_core::format::{CHUNK_SIZE, HEADER_LEN};
use rust_core::primitives::TAG_LEN;

fn pattern(size: usize, modulus: usize) -> Vec<u8> {
    (0..size).map(|i| (i % modulus) as u8).collect()
}

fn random_key() -> String {
    crypto::generate_random_key().unwrap()
}

#[test]
fn roundtrip_password() {
    let enc = crypto::encrypt_file(b"hello world", "secret").unwrap();
    let dec = crypto::decrypt_file(&enc, "secret").unwrap();
    assert_eq!(dec, b"hello world");
}

#[test]
fn roundtrip_empty_file() {
    let enc = crypto::encrypt_file(b"", "pw").unwrap();
    let dec = crypto::decrypt_file(&enc, "pw").unwrap();
    assert_eq!(dec, b"");
}

#[test]
fn roundtrip_large_file_multiple_chunks() {
    let data: Vec<u8> = (0..(CHUNK_SIZE * 2 + 12345) as u32)
        .map(|i| (i % 251) as u8)
        .collect();
    let enc = crypto::encrypt_file(&data, "pw").unwrap();
    let dec = crypto::decrypt_file(&enc, "pw").unwrap();
    assert_eq!(dec, data);
}

#[test]
fn wrong_password_fails() {
    let enc = crypto::encrypt_file(b"data", "right").unwrap();
    let r = crypto::decrypt_file(&enc, "wrong");
    assert!(matches!(r, Err(CryptError::InvalidPassword)));
}

#[test]
fn tampered_ciphertext_rejected() {
    let mut bytes = crypto::encrypt_file(b"tamper me", "pw").unwrap();
    let mid = bytes.len() / 2;
    bytes[mid] ^= 0x40;
    let r = crypto::decrypt_file(&bytes, "pw");
    assert!(matches!(r, Err(CryptError::InvalidPassword)));
}

#[test]
fn truncated_file_rejected() {
    let data: Vec<u8> = (0..(CHUNK_SIZE * 2) as u32).map(|i| (i % 7) as u8).collect();
    let bytes = crypto::encrypt_file(&data, "pw").unwrap();
    let cut = bytes.len() - (CHUNK_SIZE + TAG_LEN);
    let r = crypto::decrypt_file(&bytes[..cut], "pw");
    assert!(matches!(r, Err(CryptError::InvalidFormat)));
}

#[test]
fn key_roundtrip() {
    let key = random_key();
    let enc = crypto::encrypt_file_with_key(b"key mode data", &key).unwrap();
    let dec = crypto::decrypt_file_with_key(&enc, &key).unwrap();
    assert_eq!(dec, b"key mode data");
}

#[test]
fn bad_key_rejected() {
    let key = random_key();
    let enc = crypto::encrypt_file_with_key(b"x", &key).unwrap();
    let r = crypto::decrypt_file_with_key(&enc, "AAAAAAAAAAAAAAAAAAAAAAAAAAAAAAAAAAAAAAAAAAA");
    assert!(matches!(r, Err(CryptError::InvalidPassword)));
}

#[test]
fn nonce_unique_across_files_same_key() {
    let key = random_key();
    let b1 = crypto::encrypt_file_with_key(b"file one", &key).unwrap();
    let b2 = crypto::encrypt_file_with_key(b"file two", &key).unwrap();
    let nonce_offset = 4 + 1 + 8 + 16;
    let n1 = &b1[nonce_offset..nonce_offset + 12];
    let n2 = &b2[nonce_offset..nonce_offset + 12];
    assert_ne!(n1, n2);
}

#[test]
fn wrong_password_verify() {
    let enc = crypto::encrypt_file(b"verify me", "correct").unwrap();
    assert!(crypto::verify_password(&enc, "correct").unwrap());
    assert!(!crypto::verify_password(&enc, "wrong").unwrap());
}

#[test]
fn invalid_header_rejected() {
    let r = crypto::decrypt_file(b"NOPE", "pw");
    assert!(matches!(r, Err(CryptError::InvalidFormat)));
}

#[test]
fn version_mismatch_rejected() {
    let mut bytes = crypto::encrypt_file(b"v", "pw").unwrap();
    bytes[4] = 99;
    let r = crypto::decrypt_file(&bytes, "pw");
    assert!(matches!(r, Err(CryptError::InvalidFormat)));
}

#[test]
fn roundtrip_password_small_file() {
    let input = pattern(100_000, 251);
    let enc = crypto::encrypt_file(&input, "secret").unwrap();
    let dec = crypto::decrypt_file(&enc, "secret").unwrap();
    assert_eq!(input, dec);
}

#[test]
fn roundtrip_password_empty_file() {
    let input: Vec<u8> = Vec::new();
    let enc = crypto::encrypt_file(&input, "p").unwrap();
    let dec = crypto::decrypt_file(&enc, "p").unwrap();
    assert_eq!(input, dec);
}

#[test]
fn empty_file_wrong_password_rejected() {
    let enc = crypto::encrypt_file(b"", "right").unwrap();
    let e = crypto::decrypt_file(&enc, "wrong");
    assert!(e.is_err());
    let v = crypto::verify_password(&enc, "wrong").unwrap();
    assert!(!v);
}

#[test]
fn roundtrip_password_large_multichunk_file() {
    let input = pattern(3 * 1024 * 1024 + 17, 251);
    let enc = crypto::encrypt_file(&input, "s3cr3t!").unwrap();
    let dec = crypto::decrypt_file(&enc, "s3cr3t!").unwrap();
    assert_eq!(input, dec);
}

#[test]
fn roundtrip_with_key() {
    let input = pattern(64 * 1024, 251);
    let key = random_key();
    let enc = crypto::encrypt_file_with_key(&input, &key).unwrap();
    let dec = crypto::decrypt_file_with_key(&enc, &key).unwrap();
    assert_eq!(input, dec);
}

#[test]
fn wrong_password_rejected() {
    let input = pattern(5000, 251);
    let enc = crypto::encrypt_file(&input, "right").unwrap();
    let r = crypto::decrypt_file(&enc, "wrong");
    assert!(r.is_err());
}

#[test]
fn wrong_key_rejected() {
    let input = pattern(5000, 251);
    let enc = crypto::encrypt_file_with_key(&input, &random_key()).unwrap();
    let r = crypto::decrypt_file_with_key(&enc, &random_key());
    assert!(r.is_err());
}

#[test]
fn tampered_ciphertext_detected() {
    let input = pattern(100_000, 251);
    let mut data = crypto::encrypt_file(&input, "p").unwrap();
    let mid = data.len() / 2;
    data[mid] ^= 0xFF;
    let r = crypto::decrypt_file(&data, "p");
    assert!(r.is_err());
}

#[test]
fn tampered_header_detected() {
    let input = pattern(4096, 251);
    let mut data = crypto::encrypt_file(&input, "p").unwrap();
    data[4 + 16 + 5] ^= 0xFF;
    let r = crypto::decrypt_file(&data, "p");
    assert!(r.is_err());
}

#[test]
fn bad_magic_rejected() {
    let input = pattern(100, 251);
    let mut data = crypto::encrypt_file(&input, "p").unwrap();
    data[0] = b'X';
    let r = crypto::decrypt_file(&data, "p");
    assert!(matches!(r, Err(CryptError::InvalidFormat)));
}

#[test]
fn bad_version_rejected() {
    let input = pattern(100, 251);
    let mut data = crypto::encrypt_file(&input, "p").unwrap();
    data[4] = 99;
    let r = crypto::decrypt_file(&data, "p");
    assert!(matches!(r, Err(CryptError::InvalidFormat)));
}

#[test]
fn header_has_expected_layout() {
    let input = pattern(2048, 251);
    let data = crypto::encrypt_file(&input, "p").unwrap();
    assert_eq!(&data[0..4], b"ORP\0");
    assert_eq!(data[4], 1);
    assert_eq!(data.len(), 41 + 2048 + 16);
}

#[test]
fn same_file_same_password_produces_different_output() {
    let input = pattern(4096, 251);
    let a = crypto::encrypt_file(&input, "p").unwrap();
    let b = crypto::encrypt_file(&input, "p").unwrap();
    assert_ne!(a, b);
}

#[test]
fn verify_password_ok_and_fail() {
    let input = pattern(4096, 251);
    let enc = crypto::encrypt_file(&input, "pass").unwrap();
    assert!(crypto::verify_password(&enc, "pass").unwrap());
    assert!(!crypto::verify_password(&enc, "nope").unwrap());
}

#[test]
fn random_key_is_urlsafe_base64_32_bytes() {
    let key = crypto::generate_random_key().unwrap();
    assert_eq!(key.len(), 43);
    let decoded = base64::engine::general_purpose::URL_SAFE_NO_PAD
        .decode(&key)
        .unwrap();
    assert_eq!(decoded.len(), 32);
}

#[test]
fn keys_are_unique() {
    let a = crypto::generate_random_key().unwrap();
    let b = crypto::generate_random_key().unwrap();
    assert_ne!(a, b);
}

#[test]
fn header_len_is_41() {
    assert_eq!(HEADER_LEN, 41);
}

#[test]
fn short_file_is_invalid_format() {
    assert!(matches!(crypto::decrypt_file(b"OR", "pw"), Err(CryptError::InvalidFormat)));
    assert!(matches!(crypto::verify_password(b"ORP\0\x01", "pw"), Err(CryptError::InvalidFormat)));
    let key = random_key();
    assert!(matches!(crypto::decrypt_file_with_key(b"", &key), Err(CryptError::InvalidFormat)));
}

#[test]
fn key_mode_ignores_salt_bytes() {
    let key = random_key();
    let mut enc = crypto::encrypt_file_with_key(b"salt free", &key).unwrap();
    for b in &mut enc[13..29] {
        *b ^= 0x5A;
    }
    assert_eq!(crypto::decrypt_file_with_key(&enc, &key).unwrap(), b"salt free");
}

#[test]
fn single_header_byte_changes() {
    let enc = crypto::encrypt_file(b"one byte", "pw").unwrap();
    let mut len_changed = enc.clone();
    len_changed[6] ^= 1;
    assert!(matches!(crypto::decrypt_file(&len_changed, "pw"), Err(CryptError::InvalidFormat)));
    let mut tail_changed = enc.clone();
    tail_changed[39] ^= 0xFF;
    assert_eq!(crypto::decrypt_file(&tail_changed, "pw").unwrap(), b"one byte");
    let mut prefix_changed = enc.clone();
    prefix_changed[30] ^= 0xFF;
    assert!(matches!(crypto::decrypt_file(&prefix_changed, "pw"), Err(CryptError::InvalidPassword)));
}

#[test]
fn decrypted_file_passes_password_check() {
    let enc = crypto::encrypt_file(b"checked", "pw").unwrap();
    assert!(crypto::decrypt_file(&enc, "pw").is_ok());
    assert!(crypto::verify_password(&enc, "pw").unwrap());
}
