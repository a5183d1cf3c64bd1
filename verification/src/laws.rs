//! Properties of `.ocrypt` files that relate the library's operations:
//! what encryption produces is accepted by decryption and by the password
//! check, key mode ignores the salt, and which single-byte changes of the
//! header are caught, and how; and that encrypting and decrypting a file
//! chunk by chunk gives what the whole-file operations give.
use crate::crypto::{
    derived_key, file_fits, key_from_text, open_with_key, open_with_key_text, open_with_password,
    password_check, sealed_file, sealed_with_key, sealed_with_password,
};
use crate::error::ErrorKind;
use crate::format::{
    body_fits, chunk_count, chunk_nonce, header_bytes, lemma_chunk_count_bounds,
    lemma_open_body_pieces, lemma_seal_body_chunks, magic, open_body, open_checked, opened_pieces,
    parse_header, piece_count, piece_len, plaintext_fits, sealed_chunks, HeaderModel, CHUNK_SIZE,
    FORMAT_VERSION, HEADER_LEN, MAGIC_LEN, NONCE_LEN, SALT_LEN, SEALED_CHUNK_LEN,
};
use crate::primitives::{aes256gcm_open, argon2id_default, TAG_LEN};
use vstd::bytes::{
    lemma_auto_spec_u64_to_from_le_bytes, spec_u64_from_le_bytes, spec_u64_to_le_bytes,
};
use vstd::prelude::*;

verus! {

/// The password check accepts every password with which a file decrypts:
/// decryption opens every piece of the body, the first one included, which
/// is the only piece that the check opens.
pub proof fn lemma_decrypt_implies_password_check(data: Seq<u8>, password: Seq<u8>)
    requires
        open_with_password(data, password) is Ok,
    ensures
        password_check(data, password) == Ok::<bool, ErrorKind>(true),
{
    let h = parse_header(data)->Ok_0;
    let key = derived_key(password, h.salt)->0;
    let body = data.skip(HEADER_LEN as int);
    if body.len() > 0 {
        let n = piece_len(body.len());
        assert(open_body(key, h.nonce, 0, body) is Some);
        assert(chunk_nonce(h.nonce, 0nat as u32) == chunk_nonce(h.nonce, 0));
        assert(aes256gcm_open(key, chunk_nonce(h.nonce, 0), body.take(n as int)) is Some);
    }
}

/// What password-mode encryption returns (a file of the sealed length that
/// opens to the plaintext) meets the requirement of decryption: its body
/// can be numbered by the 32-bit chunk counter.  So decrypting it gives the
/// plaintext back, and the password check accepts it.
pub proof fn lemma_encryption_is_decryptable(out: Seq<u8>, password: Seq<u8>, plaintext: Seq<u8>)
    requires
        plaintext_fits(plaintext.len()),
        out.len() == HEADER_LEN + plaintext.len() + TAG_LEN * chunk_count(plaintext.len()),
        open_with_password(out, password) == Ok::<Seq<u8>, ErrorKind>(plaintext),
    ensures
        file_fits(out.len()),
        password_check(out, password) == Ok::<bool, ErrorKind>(true),
{
    lemma_body_of_plaintext_fits(plaintext.len());
    lemma_decrypt_implies_password_check(out, password);
}

/// What key-mode encryption returns (a file of the sealed length that opens
/// to the plaintext) meets the requirement of decryption, which therefore
/// gives the plaintext back.
pub proof fn lemma_key_encryption_is_decryptable(out: Seq<u8>, text: Seq<char>, plaintext: Seq<u8>)
    requires
        plaintext_fits(plaintext.len()),
        out.len() == HEADER_LEN + plaintext.len() + TAG_LEN * chunk_count(plaintext.len()),
        open_with_key_text(out, text) == Ok::<Seq<u8>, ErrorKind>(plaintext),
    ensures
        file_fits(out.len()),
{
    lemma_body_of_plaintext_fits(plaintext.len());
}

/// The sealed body of a plaintext that fits the chunk counter fits it too.
proof fn lemma_body_of_plaintext_fits(n: nat)
    requires
        plaintext_fits(n),
    ensures
        body_fits((n + TAG_LEN * chunk_count(n)) as nat),
{
    lemma_chunk_count_bounds(n, 0xFFFF_FFFF);
    let c = chunk_count(n);
    assert(n + TAG_LEN * c <= c * SEALED_CHUNK_LEN) by (nonlinear_arith)
        requires
            n <= c * CHUNK_SIZE,
            SEALED_CHUNK_LEN == CHUNK_SIZE + TAG_LEN,
    ;
    assert(c * SEALED_CHUNK_LEN <= SEALED_CHUNK_LEN * 0xFFFF_FFFFnat) by (nonlinear_arith)
        requires
            c <= 0xFFFF_FFFF,
    ;
}

/// `data` with its salt (bytes 13 to 28) replaced by `salt`.
pub open spec fn with_salt(data: Seq<u8>, salt: Seq<u8>) -> Seq<u8> {
    data.subrange(0, 13) + salt + data.skip(29)
}

/// Key mode ignores the salt: decrypting with a key gives the same result
/// whatever the header's salt bytes are.
pub proof fn lemma_key_mode_ignores_salt(key: Seq<u8>, data: Seq<u8>, salt: Seq<u8>)
    requires
        data.len() >= HEADER_LEN,
        salt.len() == 16,
    ensures
        open_with_key(key, with_salt(data, salt)) == open_with_key(key, data),
{
    let d2 = with_salt(data, salt);
    assert(d2.len() == data.len());
    assert(d2.subrange(0, MAGIC_LEN as int) =~= data.subrange(0, MAGIC_LEN as int));
    assert(d2[MAGIC_LEN as int] == data[MAGIC_LEN as int]);
    assert(d2.subrange(5, 13) =~= data.subrange(5, 13));
    assert(d2.subrange(29, 41) =~= data.subrange(29, 41));
    assert(d2.skip(HEADER_LEN as int) =~= data.skip(HEADER_LEN as int));
}

/// Key mode ignores the salt, for a key given as text.
pub proof fn lemma_key_text_mode_ignores_salt(text: Seq<char>, data: Seq<u8>, salt: Seq<u8>)
    requires
        data.len() >= HEADER_LEN,
        salt.len() == 16,
    ensures
        open_with_key_text(with_salt(data, salt), text) == open_with_key_text(data, text),
{
    match key_from_text(text) {
        None => {},
        Some(key) => lemma_key_mode_ignores_salt(key, data, salt),
    }
}

/// A single changed byte in the header of a file that decrypts: in the
/// magic, the version or the plaintext length (bytes 0 to 12) it makes the
/// file `InvalidFormat`; in the last four bytes of the base nonce (bytes 37
/// to 40), which no chunk nonce uses, the file still decrypts to the same
/// plaintext.  (A changed salt, base-nonce prefix or chunk byte is caught
/// by the AES-GCM tag, which no contract here can promise.)
pub proof fn lemma_header_byte_changes(data: Seq<u8>, password: Seq<u8>, plaintext: Seq<u8>, j: int, b: u8)
    requires
        open_with_password(data, password) == Ok::<Seq<u8>, ErrorKind>(plaintext),
        0 <= j < 13 || 37 <= j < 41,
        b != data[j],
    ensures
        j < 13 ==> open_with_password(data.update(j, b), password) == Err::<Seq<u8>, ErrorKind>(
            ErrorKind::InvalidFormat,
        ),
        37 <= j ==> open_with_password(data.update(j, b), password) == Ok::<Seq<u8>, ErrorKind>(
            plaintext,
        ),
{
    let d2 = data.update(j, b);
    let h = parse_header(data)->Ok_0;
    assert(data.len() >= HEADER_LEN);
    assert(d2.skip(HEADER_LEN as int) =~= data.skip(HEADER_LEN as int));
    assert(d2.subrange(13, 29) =~= data.subrange(13, 29));
    if j < MAGIC_LEN {
        assert(d2.subrange(0, MAGIC_LEN as int)[j] != magic()[j]);
    } else if j == MAGIC_LEN {
        assert(d2[MAGIC_LEN as int] != FORMAT_VERSION);
    } else if j < 13 {
        assert(d2.subrange(0, MAGIC_LEN as int) =~= data.subrange(0, MAGIC_LEN as int));
        let old_len = data.subrange(5, 13);
        let new_len = d2.subrange(5, 13);
        assert(new_len[j - 5] != old_len[j - 5]);
        assert(new_len != old_len);
        lemma_auto_spec_u64_to_from_le_bytes();
        assert(spec_u64_to_le_bytes(spec_u64_from_le_bytes(new_len)) == new_len);
        assert(spec_u64_to_le_bytes(spec_u64_from_le_bytes(old_len)) == old_len);
        assert(spec_u64_from_le_bytes(new_len) != spec_u64_from_le_bytes(old_len));
        let h2 = parse_header(d2)->Ok_0;
        assert(h2.salt == h.salt && h2.nonce == h.nonce);
    } else {
        assert(d2.subrange(0, MAGIC_LEN as int) =~= data.subrange(0, MAGIC_LEN as int));
        assert(d2.subrange(5, 13) =~= data.subrange(5, 13));
        let h2 = parse_header(d2)->Ok_0;
        assert(h2.nonce.subrange(0, 8) =~= h.nonce.subrange(0, 8));
        lemma_open_body_uses_nonce_prefix(
            derived_key(password, h.salt)->0,
            h.nonce,
            h2.nonce,
            0,
            data.skip(HEADER_LEN as int),
        );
    }
}

/// Opening a body depends on the base nonce only through its first 8 bytes.
proof fn lemma_open_body_uses_nonce_prefix(
    key: Seq<u8>,
    n1: Seq<u8>,
    n2: Seq<u8>,
    counter: nat,
    body: Seq<u8>,
)
    requires
        n1.subrange(0, 8) == n2.subrange(0, 8),
    ensures
        open_body(key, n1, counter, body) == open_body(key, n2, counter, body),
    decreases body.len(),
{
    assert(chunk_nonce(n1, counter as u32) =~= chunk_nonce(n2, counter as u32));
    if body.len() > 0 {
        let n = piece_len(body.len());
        lemma_open_body_uses_nonce_prefix(key, n1, n2, counter + 1, body.skip(n as int));
    }
}

/// Chunk-by-chunk encryption: the header, then the chunks of the
/// plaintext sealed one by one in order (chunk `i` with counter `i`), is
/// the file that whole-file sealing gives.  So, with the key that the
/// password gives with the header's salt, it is a file that password-mode
/// encryption could return; and under a key, one that key-mode encryption
/// could return.
pub proof fn lemma_streamed_encryption(
    key: Seq<u8>,
    salt: Seq<u8>,
    nonce: Seq<u8>,
    plaintext: Seq<u8>,
    password: Seq<u8>,
)
    ensures
        header_bytes(HeaderModel { plaintext_len: plaintext.len() as u64, salt, nonce })
            + sealed_chunks(key, nonce, plaintext, 0, chunk_count(plaintext.len())) == sealed_file(
            key,
            salt,
            nonce,
            plaintext,
        ),
        salt.len() == SALT_LEN && nonce.len() == NONCE_LEN ==> sealed_with_key(
            sealed_file(key, salt, nonce, plaintext),
            key,
            plaintext,
        ),
        salt.len() == SALT_LEN && nonce.len() == NONCE_LEN && derived_key(password, salt) == Some(
            key,
        ) ==> sealed_with_password(sealed_file(key, salt, nonce, plaintext), password, plaintext),
{
    lemma_seal_body_chunks(key, nonce, plaintext);
    if derived_key(password, salt) == Some(key) {
        assert(sealed_file(derived_key(password, salt)->0, salt, nonce, plaintext) == sealed_file(
            key,
            salt,
            nonce,
            plaintext,
        ));
    }
}

/// Opening a file body piece by piece: the pieces opened one by one in
/// order (piece `i` with counter `i`), stopping at the first that does not
/// open, and their plaintexts checked against the header's length, give
/// what whole-body decryption gives.
pub proof fn lemma_streamed_decryption(key: Seq<u8>, h: HeaderModel, body: Seq<u8>)
    ensures
        open_checked(key, h, body) == match opened_pieces(
            key,
            h.nonce,
            body,
            0,
            piece_count(body.len()),
        ) {
            None => Err(ErrorKind::InvalidPassword),
            Some(p) => if p.len() == h.plaintext_len {
                Ok(p)
            } else {
                Err(ErrorKind::InvalidFormat)
            },
        },
{
    lemma_open_body_pieces(key, h.nonce, body);
}

/// The key of a password is the Argon2id hash of the password's bytes
/// exactly as given (no case folding or other change), with the salt of the
/// header; a password longer than Argon2 accepts gives no key.  So decrypting
/// with a password is decrypting with that hash as the key.
pub proof fn lemma_password_key_is_argon2id(data: Seq<u8>, password: Seq<u8>, salt: Seq<u8>)
    ensures
        password.len() <= 0xFFFF_FFFF ==> derived_key(password, salt) == Some(
            argon2id_default(password, salt),
        ),
        password.len() > 0xFFFF_FFFF ==> derived_key(password, salt) is None,
        parse_header(data) matches Ok(h) ==> (password.len() <= 0xFFFF_FFFF ==> open_with_password(
            data,
            password,
        ) == open_with_key(argon2id_default(password, h.salt), data)),
        parse_header(data) matches Ok(h) ==> (password.len() > 0xFFFF_FFFF ==> open_with_password(
            data,
            password,
        ) == Err::<Seq<u8>, ErrorKind>(ErrorKind::Memory)),
{
}

/// The password check opens the first piece of the body (its first
/// `SEALED_CHUNK_LEN` bytes, or all of a shorter body) under the Argon2id
/// key of the password and the nonce of chunk 0, and answers whether it
/// opened; a file without body passes.  Its answer does not depend on the
/// rest of the body.
pub proof fn lemma_password_check_opens_first_piece(data: Seq<u8>, password: Seq<u8>)
    requires
        password.len() <= 0xFFFF_FFFF,
    ensures
        parse_header(data) matches Ok(h) ==> ({
            let body = data.skip(HEADER_LEN as int);
            let first = if body.len() <= SEALED_CHUNK_LEN {
                body
            } else {
                body.subrange(0, SEALED_CHUNK_LEN as int)
            };
            password_check(data, password) == Ok::<bool, ErrorKind>(
                body.len() == 0 || aes256gcm_open(
                    argon2id_default(password, h.salt),
                    chunk_nonce(h.nonce, 0),
                    first,
                ) is Some,
            )
        }),
{
    if let Ok(h) = parse_header(data) {
        let body = data.skip(HEADER_LEN as int);
        if body.len() <= SEALED_CHUNK_LEN {
            assert(body.take(piece_len(body.len()) as int) =~= body);
        } else {
            assert(body.take(piece_len(body.len()) as int) =~= body.subrange(
                0,
                SEALED_CHUNK_LEN as int,
            ));
        }
    }
}

} // verus!
