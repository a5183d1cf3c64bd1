//! Encryption and decryption of whole files held in memory, in password
//! mode (Argon2id key) and in key mode (a 32-byte key written as unpadded
//! URL-safe base64), plus the key generator and the overwrite schedule of
//! secure deletion.
use crate::error::{outcome, CryptError, ErrorKind};
use crate::format::{
    body_fits, chunk_count, chunk_nonce, chunk_prefix, decrypt_stream, encrypt_stream,
    header_bytes, lemma_parse_header_bytes, make_nonce, open_body, open_checked, parse_header,
    piece_len, plaintext_fits, read_header, seal_body, write_header, Header, HeaderModel,
    CHUNK_SIZE, HEADER_LEN, NONCE_LEN, SALT_LEN, SEALED_CHUNK_LEN,
};
use crate::encoding::{
    base64_unpadded_len, base64url_decode, base64url_encode, is_base64url_char,
    lemma_decode_encode, lemma_decode_is_inverse, lemma_encode_shape,
};
use crate::primitives::{
    aes256gcm_open, aes_gcm_decrypt, argon2_hash, argon2id_default, base64url_decode_str,
    base64url_encode_bytes, os_random_bytes, wipe_key, wipe_vec, TAG_LEN,
};
use vstd::prelude::*;
use vstd::slice::slice_subrange;
use vstd::string::StringSliceAdditionalSpecFns;

verus! {

/// Length of a raw key.
pub const KEY_LEN: usize = 32;

/// Length of a key written as unpadded URL-safe base64.
pub const KEY_TEXT_LEN: usize = 43;

/// Bytes overwritten per write by secure deletion.
pub const WIPE_BLOCK: usize = 65536;

/// The key that a password gives with a salt: Argon2id with the library
/// defaults; `None` when `argon2` refuses the password (longer than
/// `0xFFFF_FFFF` bytes).
pub open spec fn derived_key(password: Seq<u8>, salt: Seq<u8>) -> Option<Seq<u8>> {
    if password.len() <= 0xFFFF_FFFF {
        Some(argon2id_default(password, salt))
    } else {
        None
    }
}

/// The raw key that a key string stands for: its base64 decoding, when
/// that is exactly 32 bytes long.
pub open spec fn key_from_text(text: Seq<char>) -> Option<Seq<u8>> {
    match base64url_decode(text) {
        Some(b) => if b.len() == KEY_LEN {
            Some(b)
        } else {
            None
        },
        None => None,
    }
}

/// The file that sealing `plaintext` under `key` with this salt and base
/// nonce produces: header, then the sealed chunks.
pub open spec fn sealed_file(key: Seq<u8>, salt: Seq<u8>, nonce: Seq<u8>, plaintext: Seq<u8>) -> Seq<
    u8,
> {
    header_bytes(HeaderModel { plaintext_len: plaintext.len() as u64, salt, nonce }) + seal_body(
        key,
        nonce,
        0,
        plaintext,
    )
}

/// Decrypting `data` with a raw key: header first, then the body.
pub open spec fn open_with_key(key: Seq<u8>, data: Seq<u8>) -> Result<Seq<u8>, ErrorKind> {
    match parse_header(data) {
        Err(k) => Err(k),
        Ok(h) => open_checked(key, h, data.skip(HEADER_LEN as int)),
    }
}

/// Decrypting `data` with a password: header first, then the key derived
/// from the password and the header's salt, then the body.
pub open spec fn open_with_password(data: Seq<u8>, password: Seq<u8>) -> Result<
    Seq<u8>,
    ErrorKind,
> {
    match parse_header(data) {
        Err(k) => Err(k),
        Ok(h) => match derived_key(password, h.salt) {
            None => Err(ErrorKind::Memory),
            Some(key) => open_checked(key, h, data.skip(HEADER_LEN as int)),
        },
    }
}

/// Decrypting `data` with a key string: the key string first, then the
/// file.
pub open spec fn open_with_key_text(data: Seq<u8>, text: Seq<char>) -> Result<
    Seq<u8>,
    ErrorKind,
> {
    match key_from_text(text) {
        None => Err(ErrorKind::InvalidParam),
        Some(key) => open_with_key(key, data),
    }
}

/// Whether `password` opens `data`: the header is read and the key derived
/// as for decryption, then only the first piece of the body is opened; a
/// file without body counts as opened.
pub open spec fn password_check(data: Seq<u8>, password: Seq<u8>) -> Result<bool, ErrorKind> {
    match parse_header(data) {
        Err(k) => Err(k),
        Ok(h) => match derived_key(password, h.salt) {
            None => Err(ErrorKind::Memory),
            Some(key) => {
                let body = data.skip(HEADER_LEN as int);
                let first = body.take(piece_len(body.len()) as int);
                if first.len() == 0 {
                    Ok(true)
                } else {
                    Ok(aes256gcm_open(key, chunk_nonce(h.nonce, 0), first) is Some)
                }
            },
        },
    }
}

/// `data` is `plaintext` sealed under the key that `password` gives with
/// some salt, and some base nonce.
pub open spec fn sealed_with_password(data: Seq<u8>, password: Seq<u8>, plaintext: Seq<u8>) -> bool {
    exists|salt: Seq<u8>, nonce: Seq<u8>|
        {
            &&& salt.len() == SALT_LEN
            &&& nonce.len() == NONCE_LEN
            &&& derived_key(password, salt) is Some
            &&& data == #[trigger] sealed_file(derived_key(password, salt)->0, salt, nonce, plaintext)
        }
}

/// `data` is `plaintext` sealed under `key`, with some salt and some base
/// nonce.
pub open spec fn sealed_with_key(data: Seq<u8>, key: Seq<u8>, plaintext: Seq<u8>) -> bool {
    exists|salt: Seq<u8>, nonce: Seq<u8>|
        {
            &&& salt.len() == SALT_LEN
            &&& nonce.len() == NONCE_LEN
            &&& data == #[trigger] sealed_file(key, salt, nonce, plaintext)
        }
}

/// `data` cut right after its header and `j` sealed full chunks.
pub open spec fn cut_after_chunks(data: Seq<u8>, j: nat) -> Seq<u8> {
    data.take(HEADER_LEN + j * SEALED_CHUNK_LEN)
}

/// Files whose body pieces can all be numbered by a 32-bit counter.
pub open spec fn file_fits(n: nat) -> bool {
    n <= HEADER_LEN || body_fits((n - HEADER_LEN) as nat)
}

/// Derives the file key from a password and a salt with Argon2id.
pub fn derive_key(password: &[u8], salt: &[u8; SALT_LEN]) -> (r: Result<[u8; KEY_LEN], CryptError>)
    ensures
        match r {
            Ok(k) => derived_key(password@, salt@) == Some(k@),
            Err(e) => e.kind() == ErrorKind::Memory && derived_key(password@, salt@) is None,
        },
{
    match argon2_hash(password, salt) {
        Ok(k) => Ok(k),
        Err(_) => Err(CryptError::Memory),
    }
}

/// Copies a 32-byte vector into an array.
fn key_array(v: &Vec<u8>) -> (k: [u8; KEY_LEN])
    requires
        v@.len() == KEY_LEN,
    ensures
        k@ == v@,
{
    let mut k = [0u8; KEY_LEN];
    let mut i: usize = 0;
    while i < KEY_LEN
        invariant
            v@.len() == KEY_LEN,
            i <= KEY_LEN,
            forall|j: int| 0 <= j < i ==> k@[j] == v@[j],
        decreases KEY_LEN - i,
    {
        k[i] = v[i];
        i = i + 1;
    }
    assert(k@ =~= v@);
    k
}

/// Copies a 16-byte vector into an array.
fn salt_array(v: &Vec<u8>) -> (s: [u8; SALT_LEN])
    requires
        v@.len() == SALT_LEN,
    ensures
        s@ == v@,
{
    let mut s = [0u8; SALT_LEN];
    let mut i: usize = 0;
    while i < SALT_LEN
        invariant
            v@.len() == SALT_LEN,
            i <= SALT_LEN,
            forall|j: int| 0 <= j < i ==> s@[j] == v@[j],
        decreases SALT_LEN - i,
    {
        s[i] = v[i];
        i = i + 1;
    }
    assert(s@ =~= v@);
    s
}

/// A fresh random base nonce; `Memory` when the operating system gives no
/// random bytes.
fn random_nonce() -> (r: Result<[u8; NONCE_LEN], CryptError>)
    ensures
        r matches Err(e) ==> e.kind() == ErrorKind::Memory,
{
    let v = match os_random_bytes(NONCE_LEN) {
        Ok(v) => v,
        Err(_) => {
            return Err(CryptError::Memory);
        },
    };
    let mut n = [0u8; NONCE_LEN];
    let mut i: usize = 0;
    while i < NONCE_LEN
        invariant
            v@.len() == NONCE_LEN,
            i <= NONCE_LEN,
        decreases NONCE_LEN - i,
    {
        n[i] = v[i];
        i = i + 1;
    }
    Ok(n)
}

/// Decodes a key string into the raw key; the decoded bytes are wiped.
pub fn decode_key(b64: &str) -> (r: Result<[u8; KEY_LEN], CryptError>)
    ensures
        match r {
            Ok(k) => key_from_text(b64@) == Some(k@),
            Err(e) => e.kind() == ErrorKind::InvalidParam && key_from_text(b64@) is None,
        },
{
    let mut decoded = match base64url_decode_str(b64) {
        Ok(d) => d,
        Err(_) => {
            return Err(CryptError::InvalidParam);
        },
    };
    proof {
        lemma_decode_is_inverse(b64@, decoded@);
    }
    if decoded.len() != KEY_LEN {
        wipe_vec(&mut decoded);
        return Err(CryptError::InvalidParam);
    }
    let key = key_array(&decoded);
    wipe_vec(&mut decoded);
    Ok(key)
}

/// Seals `plaintext` under a raw key into a complete file, with the given
/// salt and base nonce written into its header.
pub fn seal_with_key(
    plaintext: &[u8],
    key: &[u8; KEY_LEN],
    salt: &[u8; SALT_LEN],
    nonce: &[u8; NONCE_LEN],
) -> (out: Vec<u8>)
    requires
        plaintext_fits(plaintext@.len()),
    ensures
        out@ == sealed_file(key@, salt@, nonce@, plaintext@),
        open_with_key(key@, out@) == Ok::<Seq<u8>, ErrorKind>(plaintext@),
        open_body(key@, nonce@, 0, out@.skip(HEADER_LEN as int)) == Some(plaintext@),
        out@.len() == HEADER_LEN + plaintext@.len() + TAG_LEN * chunk_count(plaintext@.len()),
        forall|j: nat|
            j * CHUNK_SIZE < plaintext@.len() ==> {
                &&& open_with_key(key@, #[trigger] cut_after_chunks(out@, j)) == Err::<
                    Seq<u8>,
                    ErrorKind,
                >(ErrorKind::InvalidFormat)
                &&& parse_header(cut_after_chunks(out@, j)) == Ok::<HeaderModel, ErrorKind>(
                    HeaderModel {
                        plaintext_len: plaintext@.len() as u64,
                        salt: salt@,
                        nonce: nonce@,
                    },
                )
            },
{
    let header = Header { plaintext_len: plaintext.len() as u64, salt: *salt, nonce: *nonce };
    let mut out = write_header(&header);
    // Sealing cannot fail: every chunk is far below the cipher's length limit.
    let mut body = match encrypt_stream(key, nonce, plaintext) {
        Ok(b) => b,
        Err(_) => Vec::new(),
    };
    let ghost body_v = body@;
    out.append(&mut body);
    proof {
        lemma_parse_header_bytes(header@, body_v);
        assert(header@ == HeaderModel {
            plaintext_len: plaintext@.len() as u64,
            salt: salt@,
            nonce: nonce@,
        });
        assert forall|j: nat| j * CHUNK_SIZE < plaintext@.len() implies {
            &&& open_with_key(key@, #[trigger] cut_after_chunks(out@, j)) == Err::<
                Seq<u8>,
                ErrorKind,
            >(ErrorKind::InvalidFormat)
            &&& parse_header(cut_after_chunks(out@, j)) == Ok::<HeaderModel, ErrorKind>(header@)
        } by {
            let prefix = chunk_prefix(body_v, j);
            lemma_parse_header_bytes(header@, prefix);
            assert(cut_after_chunks(out@, j) =~= header_bytes(header@) + prefix);
        }
    }
    out
}

/// Seals `plaintext` under the key that `password` gives with `salt`; the
/// derived key is wiped before returning.
pub fn seal_with_password(
    plaintext: &[u8],
    password: &str,
    salt: &[u8; SALT_LEN],
    nonce: &[u8; NONCE_LEN],
) -> (r: Result<Vec<u8>, CryptError>)
    requires
        plaintext_fits(plaintext@.len()),
    ensures
        match derived_key(password.spec_bytes(), salt@) {
            None => r matches Err(e) && e.kind() == ErrorKind::Memory,
            Some(k) => r matches Ok(out) && out@ == sealed_file(k, salt@, nonce@, plaintext@),
        },
        r matches Ok(out) ==> out@.len() == HEADER_LEN + plaintext@.len() + TAG_LEN * chunk_count(
            plaintext@.len(),
        ),
        r matches Ok(out) ==> open_with_password(out@, password.spec_bytes()) == Ok::<
            Seq<u8>,
            ErrorKind,
        >(plaintext@),
        r matches Ok(out) ==> password_check(out@, password.spec_bytes()) == Ok::<
            bool,
            ErrorKind,
        >(true),
        r matches Ok(out) ==> forall|j: nat|
            j * CHUNK_SIZE < plaintext@.len() ==> open_with_password(
                #[trigger] cut_after_chunks(out@, j),
                password.spec_bytes(),
            ) == Err::<Seq<u8>, ErrorKind>(ErrorKind::InvalidFormat),
{
    let mut key = derive_key(password.as_bytes(), salt)?;
    let out = seal_with_key(plaintext, &key, salt, nonce);
    proof {
        let h = HeaderModel { plaintext_len: plaintext@.len() as u64, salt: salt@, nonce: nonce@ };
        let body = seal_body(key@, nonce@, 0, plaintext@);
        lemma_parse_header_bytes(h, body);
        lemma_first_piece_opens(key@, nonce@, plaintext@);
        assert forall|j: nat| j * CHUNK_SIZE < plaintext@.len() implies open_with_password(
            #[trigger] cut_after_chunks(out@, j),
            password.spec_bytes(),
        ) == Err::<Seq<u8>, ErrorKind>(ErrorKind::InvalidFormat) by {
            assert(open_with_key(key@, cut_after_chunks(out@, j)) == Err::<Seq<u8>, ErrorKind>(
                ErrorKind::InvalidFormat,
            ));
        }
    }
    wipe_key(&mut key);
    Ok(out)
}

/// The first piece of a sealed body is the first sealed chunk, which opens.
proof fn lemma_first_piece_opens(key: Seq<u8>, nonce: Seq<u8>, plaintext: Seq<u8>)
    requires
        open_body(key, nonce, 0, seal_body(key, nonce, 0, plaintext)) == Some(plaintext),
        seal_body(key, nonce, 0, plaintext).len() > 0,
    ensures
        ({
            let body = seal_body(key, nonce, 0, plaintext);
            let first = body.take(piece_len(body.len()) as int);
            first.len() > 0 && aes256gcm_open(key, chunk_nonce(nonce, 0), first) is Some
        }),
{
}

/// Encrypts `plaintext` with a password into a complete `.ocrypt` file,
/// with a fresh random salt and base nonce.
pub fn encrypt_file(plaintext: &[u8], password: &str) -> (r: Result<Vec<u8>, CryptError>)
    requires
        plaintext_fits(plaintext@.len()),
    ensures
        r matches Ok(out) ==> sealed_with_password(out@, password.spec_bytes(), plaintext@),
        r matches Ok(out) ==> out@.len() == HEADER_LEN + plaintext@.len() + TAG_LEN * chunk_count(
            plaintext@.len(),
        ),
        r matches Ok(out) ==> open_with_password(out@, password.spec_bytes()) == Ok::<
            Seq<u8>,
            ErrorKind,
        >(plaintext@),
        r matches Ok(out) ==> password_check(out@, password.spec_bytes()) == Ok::<
            bool,
            ErrorKind,
        >(true),
        r matches Ok(out) ==> forall|j: nat|
            j * CHUNK_SIZE < plaintext@.len() ==> open_with_password(
                #[trigger] cut_after_chunks(out@, j),
                password.spec_bytes(),
            ) == Err::<Seq<u8>, ErrorKind>(ErrorKind::InvalidFormat),
        r matches Err(e) ==> e.kind() == ErrorKind::Memory,
        password.spec_bytes().len() > 0xFFFF_FFFF ==> r is Err,
{
    let salt_bytes = match os_random_bytes(SALT_LEN) {
        Ok(s) => s,
        Err(_) => {
            return Err(CryptError::Memory);
        },
    };
    let salt = salt_array(&salt_bytes);
    let nonce = random_nonce()?;
    let r = seal_with_password(plaintext, password, &salt, &nonce);
    proof {
        if r is Ok {
            assert(derived_key(password.spec_bytes(), salt@) is Some);
        }
    }
    r
}

/// Decrypts a complete `.ocrypt` file with a password.
pub fn decrypt_file(data: &[u8], password: &str) -> (r: Result<Vec<u8>, CryptError>)
    requires
        file_fits(data@.len()),
    ensures
        outcome(r) == open_with_password(data@, password.spec_bytes()),
{
    let header = read_header(data)?;
    let mut key = derive_key(password.as_bytes(), &header.salt)?;
    let body = slice_subrange(data, HEADER_LEN, data.len());
    let r = decrypt_stream(&key, &header, body);
    wipe_key(&mut key);
    r
}

/// Encrypts `plaintext` under a key string into a complete `.ocrypt` file,
/// with a fresh random base nonce and a random salt, which key mode does
/// not use.
pub fn encrypt_file_with_key(plaintext: &[u8], b64_key: &str) -> (r: Result<Vec<u8>, CryptError>)
    requires
        plaintext_fits(plaintext@.len()),
    ensures
        key_from_text(b64_key@) is None ==> (r matches Err(e) && e.kind() == ErrorKind::InvalidParam),
        key_from_text(b64_key@) matches Some(k) ==> match r {
            Ok(out) => sealed_with_key(out@, k, plaintext@),
            Err(e) => e.kind() == ErrorKind::Memory,
        },
        r matches Ok(out) ==> out@.len() == HEADER_LEN + plaintext@.len() + TAG_LEN * chunk_count(
            plaintext@.len(),
        ),
        r matches Ok(out) ==> open_with_key_text(out@, b64_key@) == Ok::<Seq<u8>, ErrorKind>(
            plaintext@,
        ),
        r matches Ok(out) ==> forall|j: nat|
            j * CHUNK_SIZE < plaintext@.len() ==> open_with_key_text(
                #[trigger] cut_after_chunks(out@, j),
                b64_key@,
            ) == Err::<Seq<u8>, ErrorKind>(ErrorKind::InvalidFormat),
{
    let mut raw_key = decode_key(b64_key)?;
    let nonce = match random_nonce() {
        Ok(n) => n,
        Err(e) => {
            wipe_key(&mut raw_key);
            return Err(e);
        },
    };
    let salt_bytes = match os_random_bytes(SALT_LEN) {
        Ok(s) => s,
        Err(_) => {
            wipe_key(&mut raw_key);
            return Err(CryptError::Memory);
        },
    };
    let salt = salt_array(&salt_bytes);
    let out = seal_with_key(plaintext, &raw_key, &salt, &nonce);
    wipe_key(&mut raw_key);
    Ok(out)
}

/// Decrypts a complete `.ocrypt` file with a key string.
pub fn decrypt_file_with_key(data: &[u8], b64_key: &str) -> (r: Result<Vec<u8>, CryptError>)
    requires
        file_fits(data@.len()),
    ensures
        outcome(r) == open_with_key_text(data@, b64_key@),
{
    let mut raw_key = decode_key(b64_key)?;
    let header = match read_header(data) {
        Ok(h) => h,
        Err(e) => {
            wipe_key(&mut raw_key);
            return Err(e);
        },
    };
    let body = slice_subrange(data, HEADER_LEN, data.len());
    let r = decrypt_stream(&raw_key, &header, body);
    wipe_key(&mut raw_key);
    r
}

/// Checks a password against an `.ocrypt` file by opening only its first
/// piece.  `data` may be the whole file or any prefix of it that holds the
/// header and the first sealed chunk.
pub fn verify_password(data: &[u8], password: &str) -> (r: Result<bool, CryptError>)
    ensures
        match r {
            Ok(b) => password_check(data@, password.spec_bytes()) == Ok::<bool, ErrorKind>(b),
            Err(e) => password_check(data@, password.spec_bytes()) == Err::<bool, ErrorKind>(
                e.kind(),
            ),
        },
{
    let header = read_header(data)?;
    let mut key = derive_key(password.as_bytes(), &header.salt)?;
    let rest = data.len() - HEADER_LEN;
    let n = if rest < SEALED_CHUNK_LEN { rest } else { SEALED_CHUNK_LEN };
    let first = slice_subrange(data, HEADER_LEN, HEADER_LEN + n);
    proof {
        let body = data@.skip(HEADER_LEN as int);
        assert(first@ =~= body.take(piece_len(body.len()) as int));
    }
    if n == 0 {
        wipe_key(&mut key);
        return Ok(true);
    }
    let nonce = make_nonce(&header.nonce, 0);
    let ok = aes_gcm_decrypt(&key, &nonce, first).is_ok();
    wipe_key(&mut key);
    Ok(ok)
}

/// Starts a password-mode encryption whose chunks are sealed one by one
/// (see [`crate::format::seal_chunk`]): a fresh random salt and base
/// nonce, the key derived from the password and the salt, and the header,
/// for a plaintext of `plaintext_len` bytes, that begins the file.
/// `Memory` when no random bytes can be had or the key cannot be derived.
pub fn begin_encryption(plaintext_len: u64, password: &str) -> (r: Result<
    (Vec<u8>, [u8; KEY_LEN], [u8; NONCE_LEN]),
    CryptError,
>)
    ensures
        r matches Ok((head, key, nonce)) ==> exists|salt: Seq<u8>|
            #![trigger derived_key(password.spec_bytes(), salt)]
            {
                &&& salt.len() == SALT_LEN
                &&& derived_key(password.spec_bytes(), salt) == Some(key@)
                &&& head@ == header_bytes(HeaderModel { plaintext_len, salt, nonce: nonce@ })
            },
        r matches Err(e) ==> e.kind() == ErrorKind::Memory,
        password.spec_bytes().len() > 0xFFFF_FFFF ==> r is Err,
{
    let salt_bytes = match os_random_bytes(SALT_LEN) {
        Ok(s) => s,
        Err(_) => {
            return Err(CryptError::Memory);
        },
    };
    let salt = salt_array(&salt_bytes);
    let key = derive_key(password.as_bytes(), &salt)?;
    let nonce = match random_nonce() {
        Ok(n) => n,
        Err(e) => {
            let mut key = key;
            wipe_key(&mut key);
            return Err(e);
        },
    };
    let header = Header { plaintext_len, salt, nonce };
    let head = write_header(&header);
    proof {
        assert(derived_key(password.spec_bytes(), salt@) == Some(key@));
    }
    Ok((head, key, nonce))
}

/// Starts a key-mode encryption whose chunks are sealed one by one: the
/// raw key of the key string, a fresh random base nonce, and the header,
/// for a plaintext of `plaintext_len` bytes, with a random salt that key
/// mode does not use.  `InvalidParam` for a key string that is not a key;
/// `Memory` when no random bytes can be had.
pub fn begin_key_encryption(plaintext_len: u64, b64_key: &str) -> (r: Result<
    (Vec<u8>, [u8; KEY_LEN], [u8; NONCE_LEN]),
    CryptError,
>)
    ensures
        key_from_text(b64_key@) is None ==> (r matches Err(e) && e.kind() == ErrorKind::InvalidParam),
        key_from_text(b64_key@) is Some ==> (r matches Err(e) ==> e.kind() == ErrorKind::Memory),
        r matches Ok((head, key, nonce)) ==> key_from_text(b64_key@) == Some(key@) && exists|
            salt: Seq<u8>,
        |
            #![trigger header_bytes(HeaderModel { plaintext_len, salt, nonce: nonce@ })]
            {
                &&& salt.len() == SALT_LEN
                &&& head@ == header_bytes(HeaderModel { plaintext_len, salt, nonce: nonce@ })
            },
{
    let mut key = decode_key(b64_key)?;
    let nonce = match random_nonce() {
        Ok(n) => n,
        Err(e) => {
            wipe_key(&mut key);
            return Err(e);
        },
    };
    let salt_bytes = match os_random_bytes(SALT_LEN) {
        Ok(s) => s,
        Err(_) => {
            wipe_key(&mut key);
            return Err(CryptError::Memory);
        },
    };
    let salt = salt_array(&salt_bytes);
    let header = Header { plaintext_len, salt, nonce };
    let head = write_header(&header);
    proof {
        assert(key_from_text(b64_key@) == Some(key@));
        assert(head@ == header_bytes(HeaderModel { plaintext_len, salt: salt@, nonce: nonce@ }));
        assert(salt@.len() == SALT_LEN);
    }
    let r = (head, key, nonce);
    assert(r.1@ == key@ && r.2@ == nonce@);
    Ok(r)
}

/// A raw key written as unpadded URL-safe base64: 43 characters of the
/// URL-safe alphabet that decode back to the key.
pub fn encode_key(raw: &[u8; KEY_LEN]) -> (s: String)
    ensures
        s@ == base64url_encode(raw@),
        s@.len() == KEY_TEXT_LEN,
        key_from_text(s@) == Some(raw@),
        forall|i: int| 0 <= i < s@.len() ==> is_base64url_char(#[trigger] s@[i]),
{
    let s = base64url_encode_bytes(raw.as_slice());
    proof {
        lemma_encode_shape(raw@);
        lemma_decode_encode(raw@);
        assert(base64_unpadded_len(32) == 43);
    }
    s
}

/// Generates a new random 32-byte key, written as unpadded URL-safe
/// base64; `Memory` when the operating system gives no random bytes.
pub fn generate_random_key() -> (r: Result<String, CryptError>)
    ensures
        r matches Ok(s) ==> s@.len() == KEY_TEXT_LEN,
        r matches Ok(s) ==> key_from_text(s@) is Some,
        r matches Ok(s) ==> forall|i: int| 0 <= i < s@.len() ==> is_base64url_char(#[trigger] s@[i]),
        r matches Err(e) ==> e.kind() == ErrorKind::Memory,
{
    let bytes = match os_random_bytes(KEY_LEN) {
        Ok(k) => k,
        Err(_) => {
            return Err(CryptError::Memory);
        },
    };
    let raw = key_array(&bytes);
    Ok(encode_key(&raw))
}

/// The sizes of the writes with which secure deletion overwrites a file of
/// `remaining` bytes: full blocks, then what is left.
pub open spec fn wipe_writes(remaining: nat) -> Seq<nat>
    decreases remaining,
{
    if remaining == 0 {
        Seq::empty()
    } else {
        let n: nat = if remaining < WIPE_BLOCK {
            remaining
        } else {
            WIPE_BLOCK as nat
        };
        seq![n] + wipe_writes((remaining - n) as nat)
    }
}

/// The sum of a sequence of sizes.
pub open spec fn total(s: Seq<nat>) -> nat
    decreases s.len(),
{
    if s.len() == 0 {
        0
    } else {
        s[0] + total(s.drop_first())
    }
}

/// Secure deletion writes exactly as many bytes as the file holds, so the
/// file is overwritten entirely and never grows, in writes of at most one
/// block, none of them empty.
pub proof fn lemma_wipe_covers_file(len: nat)
    ensures
        total(wipe_writes(len)) == len,
        forall|i: int|
            0 <= i < wipe_writes(len).len() ==> 0 < #[trigger] wipe_writes(len)[i] <= WIPE_BLOCK,
    decreases len,
{
    if len > 0 {
        let n: nat = if len < WIPE_BLOCK {
            len
        } else {
            WIPE_BLOCK as nat
        };
        lemma_wipe_covers_file((len - n) as nat);
        let w = wipe_writes(len);
        assert(w.drop_first() =~= wipe_writes((len - n) as nat));
        assert forall|i: int| 0 <= i < w.len() implies 0 < #[trigger] w[i] <= WIPE_BLOCK by {
            if i > 0 {
                assert(w[i] == wipe_writes((len - n) as nat)[i - 1]);
            }
        }
    }
}

/// How many bytes secure deletion writes next, with `remaining` bytes of
/// the file still to overwrite: the first of [`wipe_writes`].
pub fn wipe_step(remaining: u64) -> (n: usize)
    ensures
        n as int == if remaining < WIPE_BLOCK { remaining as int } else { WIPE_BLOCK as int },
        remaining > 0 ==> n > 0 && wipe_writes(remaining as nat) == seq![n as nat] + wipe_writes(
            (remaining - n) as nat,
        ),
{
    if remaining < WIPE_BLOCK as u64 {
        remaining as usize
    } else {
        WIPE_BLOCK
    }
}

/// The block of random bytes that secure deletion writes over a file;
/// `Memory` when the operating system gives no random bytes.
pub fn wipe_block() -> (r: Result<Vec<u8>, CryptError>)
    ensures
        r matches Ok(b) ==> b@.len() == WIPE_BLOCK,
        r matches Err(e) ==> e.kind() == ErrorKind::Memory,
{
    match os_random_bytes(WIPE_BLOCK) {
        Ok(b) => Ok(b),
        Err(_) => Err(CryptError::Memory),
    }
}

} // verus!
