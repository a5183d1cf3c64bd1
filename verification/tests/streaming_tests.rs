use rust_core::crypto::{
    begin_encryption, begin_key_encryption, decode_key, decrypt_file, decrypt_file_with_key,
    derive_key, encode_key,
};
use rust_core::error::CryptError;
use rust_core::format::{
    check_plaintext_len, encrypt_stream, open_piece, read_header, seal_chunk, Header, CHUNK_SIZE,
    HEADER_LEN, SEALED_CHUNK_LEN,
};

fn pattern(size: usize) -> Vec<u8> {
    (0..size).map(|i| (i % 251) as u8).collect()
}

/// Seals `pt` chunk by chunk, as a streaming writer does.
fn seal_in_chunks(key: &[u8; 32], nonce: &[u8; 12], pt: &[u8]) -> Vec<u8> {
    let mut body = Vec::new();
    let mut counter: u32 = 0;
    let mut offset = 0;
    loop {
        let end = (offset + CHUNK_SIZE).min(pt.len());
        if end == offset && counter > 0 {
            break;
        }
        body.extend_from_slice(&seal_chunk(key, nonce, counter, &pt[offset..end]));
        offset = end;
        counter += 1;
    }
    body
}

/// Opens `body` piece by piece, as a streaming reader does.
fn open_in_pieces(key: &[u8; 32], header: &Header, body: &[u8]) -> Result<Vec<u8>, CryptError> {
    let mut out = Vec::new();
    for (i, piece) in body.chunks(SEALED_CHUNK_LEN).enumerate() {
        out.extend_from_slice(&open_piece(key, &header.nonce, i as u32, piece)?);
    }
    check_plaintext_len(header, out.len() as u64)?;
    Ok(out)
}

#[test]
fn chunks_sealed_one_by_one_form_the_body() {
    let key = [7u8; 32];
    let nonce = [3u8; 12];
    for size in [0, 10, CHUNK_SIZE, CHUNK_SIZE + 1, 2 * CHUNK_SIZE + 5] {
        let pt = pattern(size);
        let whole = encrypt_stream(&key, &nonce, &pt).unwrap();
        assert_eq!(seal_in_chunks(&key, &nonce, &pt), whole, "size {}", size);
    }
}

#[test]
fn sealed_chunk_is_sixteen_bytes_longer_and_opens() {
    let key = [1u8; 32];
    let nonce = [2u8; 12];
    let c = seal_chunk(&key, &nonce, 5, b"chunk");
    assert_eq!(c.len(), 5 + 16);
    assert_eq!(open_piece(&key, &nonce, 5, &c).unwrap(), b"chunk");
    assert!(matches!(open_piece(&key, &nonce, 6, &c), Err(CryptError::InvalidPassword)));
    assert_ne!(seal_chunk(&key, &nonce, 6, b"chunk"), c);
}

#[test]
fn streamed_password_encryption_decrypts() {
    let pt = pattern(CHUNK_SIZE + 777);
    let (head, key, nonce) = begin_encryption(pt.len() as u64, "pw").unwrap();
    assert_eq!(head.len(), HEADER_LEN);
    let header = read_header(&head).unwrap();
    assert_eq!(header.plaintext_len, pt.len() as u64);
    assert_eq!(header.nonce, nonce);
    assert_eq!(derive_key(b"pw", &header.salt).unwrap(), key);
    let mut file = head.clone();
    file.extend_from_slice(&seal_in_chunks(&key, &nonce, &pt));
    assert_eq!(decrypt_file(&file, "pw").unwrap(), pt);
    assert!(matches!(decrypt_file(&file, "other"), Err(CryptError::InvalidPassword)));
    assert_eq!(open_in_pieces(&key, &header, &file[HEADER_LEN..]).unwrap(), pt);
}

#[test]
fn streamed_key_encryption_decrypts() {
    let text = encode_key(&[9u8; 32]);
    let pt = pattern(100);
    let (head, key, nonce) = begin_key_encryption(pt.len() as u64, &text).unwrap();
    assert_eq!(key, decode_key(&text).unwrap());
    let mut file = head;
    file.extend_from_slice(&seal_in_chunks(&key, &nonce, &pt));
    assert_eq!(decrypt_file_with_key(&file, &text).unwrap(), pt);
    assert!(matches!(begin_key_encryption(1, "AAAA"), Err(CryptError::InvalidParam)));
}

#[test]
fn piecewise_opening_checks_the_length() {
    let key = [4u8; 32];
    let pt = pattern(50);
    let (head, _, nonce) = begin_key_encryption(pt.len() as u64, &encode_key(&key)).unwrap();
    let header = read_header(&head).unwrap();
    let body = seal_in_chunks(&key, &nonce, &pt);
    assert_eq!(open_in_pieces(&key, &header, &body).unwrap(), pt);
    let short = Header { plaintext_len: 49, salt: header.salt, nonce: header.nonce };
    assert!(matches!(open_in_pieces(&key, &short, &body), Err(CryptError::InvalidFormat)));
    assert!(check_plaintext_len(&header, 50).is_ok());
    let mut tampered = body.clone();
    tampered[0] ^= 1;
    assert!(matches!(open_in_pieces(&key, &header, &tampered), Err(CryptError::InvalidPassword)));
}
