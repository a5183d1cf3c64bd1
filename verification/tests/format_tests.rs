use rust_core::crypto::{decode_key, encode_key, seal_with_key, seal_with_password, wipe_block, wipe_step};
use rust_core::error::CryptError;
use rust_core::format::{make_nonce, read_header, write_header, Header, CHUNK_SIZE, MAGIC};

fn hex(s: &str) -> Vec<u8> {
    (0..s.len()).step_by(2).map(|i| u8::from_str_radix(&s[i..i + 2], 16).unwrap()).collect()
}

#[test]
fn header_roundtrip() {
    let h = Header { plaintext_len: 0x0102_0304_0506_0708, salt: [7u8; 16], nonce: [9u8; 12] };
    let bytes = write_header(&h);
    assert_eq!(bytes.len(), 41);
    assert_eq!(&bytes[0..4], &MAGIC);
    assert_eq!(bytes[4], 1);
    assert_eq!(&bytes[5..13], &[8, 7, 6, 5, 4, 3, 2, 1]);
    let back = read_header(&bytes).unwrap();
    assert_eq!(back.plaintext_len, h.plaintext_len);
    assert_eq!(back.salt, h.salt);
    assert_eq!(back.nonce, h.nonce);
}

#[test]
fn short_or_foreign_headers_are_invalid_format() {
    assert!(matches!(read_header(b"OR"), Err(CryptError::InvalidFormat)));
    assert!(matches!(read_header(b"ORP\0"), Err(CryptError::InvalidFormat)));
    assert!(matches!(read_header(b"ORP\0\x01\x00\x00"), Err(CryptError::InvalidFormat)));
    let mut good = write_header(&Header { plaintext_len: 5, salt: [0; 16], nonce: [0; 12] });
    assert!(read_header(&good).is_ok());
    good[2] = b'X';
    assert!(matches!(read_header(&good), Err(CryptError::InvalidFormat)));
    good[2] = b'P';
    good[4] = 2;
    assert!(matches!(read_header(&good), Err(CryptError::InvalidFormat)));
}

#[test]
fn chunk_nonce_keeps_prefix_and_counts_big_endian() {
    let base = [1u8, 2, 3, 4, 5, 6, 7, 8, 9, 10, 11, 12];
    assert_eq!(make_nonce(&base, 0), [1, 2, 3, 4, 5, 6, 7, 8, 0, 0, 0, 0]);
    assert_eq!(make_nonce(&base, 0x0A0B0C0D), [1, 2, 3, 4, 5, 6, 7, 8, 0x0A, 0x0B, 0x0C, 0x0D]);
    assert_ne!(make_nonce(&base, 1), make_nonce(&base, 256));
}

#[test]
fn aes_gcm_known_answer_empty_chunk() {
    let out = seal_with_key(b"", &[0u8; 32], &[0u8; 16], &[0u8; 12]);
    assert_eq!(out.len(), 41 + 16);
    assert_eq!(&out[41..], &hex("530f8afbc74536b9a963b4f1c4cb738b")[..]);
}

#[test]
fn aes_gcm_known_answer_one_block() {
    let out = seal_with_key(&[0u8; 16], &[0u8; 32], &[0u8; 16], &[0u8; 12]);
    assert_eq!(
        &out[41..],
        &hex("cea7403d4d606b6e074ec5d3baf39d18d0d1c8a799996bf0265b98b5d48ab919")[..]
    );
}

#[test]
fn sealed_size_counts_one_tag_per_chunk() {
    let key = [3u8; 32];
    let exact = vec![0u8; CHUNK_SIZE];
    assert_eq!(seal_with_key(&exact, &key, &[0; 16], &[0; 12]).len(), 41 + CHUNK_SIZE + 16);
    let more = vec![0u8; CHUNK_SIZE + 1];
    assert_eq!(seal_with_key(&more, &key, &[0; 16], &[0; 12]).len(), 41 + CHUNK_SIZE + 1 + 32);
}

#[test]
fn password_sealing_is_deterministic_in_salt_and_nonce() {
    let a = seal_with_password(b"abc", "pw", &[1u8; 16], &[2u8; 12]).unwrap();
    let b = seal_with_password(b"abc", "pw", &[1u8; 16], &[2u8; 12]).unwrap();
    assert_eq!(a, b);
    let c = seal_with_password(b"abc", "pw", &[5u8; 16], &[2u8; 12]).unwrap();
    assert_ne!(&a[41..], &c[41..]);
    let d = seal_with_password(b"abc", "pw2", &[1u8; 16], &[2u8; 12]).unwrap();
    assert_ne!(&a[41..], &d[41..]);
}

#[test]
fn key_text_decodes_to_raw_key() {
    assert_eq!(decode_key("AAAAAAAAAAAAAAAAAAAAAAAAAAAAAAAAAAAAAAAAAAA").unwrap(), [0u8; 32]);
    assert!(matches!(decode_key("AAAA"), Err(CryptError::InvalidParam)));
    assert!(matches!(decode_key("not base64!"), Err(CryptError::InvalidParam)));
}

#[test]
fn wipe_steps_cover_the_file() {
    assert_eq!(wipe_step(0), 0);
    assert_eq!(wipe_step(10), 10);
    assert_eq!(wipe_step(65536), 65536);
    assert_eq!(wipe_step(200_000), 65536);
    assert_eq!(wipe_block().unwrap().len(), 65536);
}

#[test]
fn key_text_encoding_known_answers() {
    assert_eq!(encode_key(&[0u8; 32]), "A".repeat(43));
    let ff = encode_key(&[0xFFu8; 32]);
    assert_eq!(ff, format!("{}8", "_".repeat(42)));
    assert_eq!(decode_key(&ff).unwrap(), [0xFFu8; 32]);
}

#[test]
fn key_text_must_be_canonical() {
    // 32 bytes end in a group of two, whose third character has two unused
    // low bits: they must be zero.
    let trailing = format!("{}B", "A".repeat(42));
    assert!(matches!(decode_key(&trailing), Err(CryptError::InvalidParam)));
    let padded = format!("{}=", "A".repeat(43));
    assert!(matches!(decode_key(&padded), Err(CryptError::InvalidParam)));
    let standard_alphabet = format!("{}+", "A".repeat(42));
    assert!(matches!(decode_key(&standard_alphabet), Err(CryptError::InvalidParam)));
    let mut key = [0u8; 32];
    key[0] = 0xFB;
    key[31] = 0x01;
    let text = encode_key(&key);
    assert_eq!(text, format!("-w{}E", "A".repeat(40)));
    assert_eq!(decode_key(&text).unwrap(), key);
}
