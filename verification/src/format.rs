//! The `.ocrypt` file format: a 41-byte header followed by the plaintext in
//! 1 MiB chunks, each sealed with AES-256-GCM under a nonce derived from the
//! header's base nonce and the chunk's position.
//!
//! ```text
//! magic (4) | version (1) | plaintext_len (8, LE) | salt (16) | nonce (12) | chunks ...
//! ```
use crate::error::{outcome, CryptError, ErrorKind};
use crate::primitives::{aes256gcm_open, aes256gcm_seal, aes_gcm_decrypt, aes_gcm_encrypt, TAG_LEN};
use vstd::bytes::{
    lemma_auto_spec_u64_to_from_le_bytes, spec_u64_from_le_bytes, spec_u64_to_le_bytes,
    u64_from_le_bytes, u64_to_le_bytes,
};
use vstd::prelude::*;
use vstd::slice::slice_subrange;

verus! {

/// First bytes of every OpenCrypt file: `b"ORP\0"`.
pub const MAGIC: [u8; 4] = [0x4F, 0x52, 0x50, 0x00];

/// Length of [`MAGIC`].
pub const MAGIC_LEN: usize = 4;

/// The only format version that this library writes and reads.
pub const FORMAT_VERSION: u8 = 1;

/// Length of the key-derivation salt in the header.
pub const SALT_LEN: usize = 16;

/// Length of the AES-GCM nonce.
pub const NONCE_LEN: usize = 12;

/// Plaintext bytes per chunk.
pub const CHUNK_SIZE: usize = 1024 * 1024;

/// Length of the little-endian plaintext length in the header.
pub const PLAINTEXT_LEN_LEN: usize = 8;

/// Length of the header.
pub const HEADER_LEN: usize = MAGIC_LEN + 1 + PLAINTEXT_LEN_LEN + SALT_LEN + NONCE_LEN;

/// Length of a sealed full chunk: the chunk and its tag.
pub const SEALED_CHUNK_LEN: usize = CHUNK_SIZE + TAG_LEN;

/// The magic bytes as a sequence.
pub open spec fn magic() -> Seq<u8> {
    seq![0x4Fu8, 0x52u8, 0x50u8, 0x00u8]
}

/// The content of a header.
pub struct HeaderModel {
    pub plaintext_len: u64,
    pub salt: Seq<u8>,
    pub nonce: Seq<u8>,
}

/// A parsed header.
pub struct Header {
    /// Length of the original plaintext.
    pub plaintext_len: u64,
    /// Salt of the password-based key derivation.
    pub salt: [u8; SALT_LEN],
    /// Base nonce; chunk nonces are derived from it.
    pub nonce: [u8; NONCE_LEN],
}

impl View for Header {
    type V = HeaderModel;

    open spec fn view(&self) -> HeaderModel {
        HeaderModel { plaintext_len: self.plaintext_len, salt: self.salt@, nonce: self.nonce@ }
    }
}

/// The 41 bytes that encode a header.
pub open spec fn header_bytes(h: HeaderModel) -> Seq<u8> {
    magic() + seq![FORMAT_VERSION] + spec_u64_to_le_bytes(h.plaintext_len) + h.salt + h.nonce
}

/// What reading a header from the start of `data` gives: the header, or
/// `InvalidFormat` when `data` is not an OpenCrypt file of this version
/// (shorter than a header, wrong magic, or another version byte).
pub open spec fn parse_header(data: Seq<u8>) -> Result<HeaderModel, ErrorKind> {
    if data.len() < HEADER_LEN || data.subrange(0, MAGIC_LEN as int) != magic()
        || data[MAGIC_LEN as int] != FORMAT_VERSION {
        Err(ErrorKind::InvalidFormat)
    } else {
        Ok(
            HeaderModel {
                plaintext_len: spec_u64_from_le_bytes(data.subrange(5, 13)),
                salt: data.subrange(13, 29),
                nonce: data.subrange(29, 41),
            },
        )
    }
}

/// A header model whose fields have the lengths of the format.
pub open spec fn well_sized(h: HeaderModel) -> bool {
    h.salt.len() == SALT_LEN && h.nonce.len() == NONCE_LEN
}

/// Appends `bytes` to `out`.
fn push_all(out: &mut Vec<u8>, bytes: &[u8])
    ensures
        final(out)@ == old(out)@ + bytes@,
{
    let mut i: usize = 0;
    while i < bytes.len()
        invariant
            i <= bytes@.len(),
            out@ == old(out)@ + bytes@.subrange(0, i as int),
        decreases bytes@.len() - i,
    {
        out.push(bytes[i]);
        i = i + 1;
        assert(out@ =~= old(out)@ + bytes@.subrange(0, i as int));
    }
    assert(bytes@.subrange(0, bytes@.len() as int) =~= bytes@);
}

/// The encoding of `header`.
pub fn write_header(header: &Header) -> (out: Vec<u8>)
    ensures
        out@ == header_bytes(header@),
        out@.len() == HEADER_LEN,
{
    let mut out: Vec<u8> = Vec::new();
    push_all(&mut out, MAGIC.as_slice());
    out.push(FORMAT_VERSION);
    let len_bytes = u64_to_le_bytes(header.plaintext_len);
    push_all(&mut out, len_bytes.as_slice());
    push_all(&mut out, header.salt.as_slice());
    push_all(&mut out, header.nonce.as_slice());
    proof {
        assert(MAGIC@ =~= magic());
        lemma_auto_spec_u64_to_from_le_bytes();
    }
    assert(out@ =~= header_bytes(header@));
    out
}

/// Reads the header at the start of `data`.
pub fn read_header(data: &[u8]) -> (r: Result<Header, CryptError>)
    ensures
        match r {
            Ok(h) => parse_header(data@) == Ok::<HeaderModel, ErrorKind>(h@),
            Err(e) => parse_header(data@) == Err::<HeaderModel, ErrorKind>(e.kind()),
        },
{
    if data.len() < HEADER_LEN {
        return Err(CryptError::InvalidFormat);
    }
    let mut i: usize = 0;
    while i < MAGIC_LEN
        invariant
            HEADER_LEN <= data@.len(),
            i <= MAGIC_LEN,
            forall|j: int| 0 <= j < i ==> data@[j] == MAGIC@[j],
        decreases MAGIC_LEN - i,
    {
        if data[i] != MAGIC[i] {
            assert(data@.subrange(0, MAGIC_LEN as int)[i as int] != magic()[i as int]);
            return Err(CryptError::InvalidFormat);
        }
        i = i + 1;
    }
    assert(data@.subrange(0, MAGIC_LEN as int) =~= magic());
    if data[MAGIC_LEN] != FORMAT_VERSION {
        return Err(CryptError::InvalidFormat);
    }
    let plaintext_len = u64_from_le_bytes(slice_subrange(data, 5, 13));
    let mut salt = [0u8; SALT_LEN];
    let mut k: usize = 0;
    while k < SALT_LEN
        invariant
            HEADER_LEN <= data@.len(),
            k <= SALT_LEN,
            forall|j: int| 0 <= j < k ==> salt@[j] == data@[13 + j],
        decreases SALT_LEN - k,
    {
        salt[k] = data[13 + k];
        k = k + 1;
    }
    let mut nonce = [0u8; NONCE_LEN];
    let mut k: usize = 0;
    while k < NONCE_LEN
        invariant
            HEADER_LEN <= data@.len(),
            k <= NONCE_LEN,
            forall|j: int| 0 <= j < k ==> nonce@[j] == data@[29 + j],
        decreases NONCE_LEN - k,
    {
        nonce[k] = data[29 + k];
        k = k + 1;
    }
    assert(salt@ =~= data@.subrange(13, 29));
    assert(nonce@ =~= data@.subrange(29, 41));
    Ok(Header { plaintext_len, salt, nonce })
}

/// The bytes of a header, followed by anything, read back as that header.
pub proof fn lemma_parse_header_bytes(h: HeaderModel, rest: Seq<u8>)
    requires
        well_sized(h),
    ensures
        header_bytes(h).len() == HEADER_LEN,
        parse_header(header_bytes(h) + rest) == Ok::<HeaderModel, ErrorKind>(h),
        (header_bytes(h) + rest).skip(HEADER_LEN as int) == rest,
{
    lemma_auto_spec_u64_to_from_le_bytes();
    let data = header_bytes(h) + rest;
    let le = spec_u64_to_le_bytes(h.plaintext_len);
    assert(data.subrange(0, MAGIC_LEN as int) =~= magic());
    assert(data.subrange(5, 13) =~= le);
    assert(data.subrange(13, 29) =~= h.salt);
    assert(data.subrange(29, 41) =~= h.nonce);
    assert(data.skip(HEADER_LEN as int) =~= rest);
}

/// The nonce of chunk `counter`: the first 8 bytes of the base nonce, then
/// the counter as a big-endian 32-bit number.
pub open spec fn chunk_nonce(base: Seq<u8>, counter: u32) -> Seq<u8> {
    base.subrange(0, 8) + seq![
        (counter >> 24u32) as u8,
        (counter >> 16u32) as u8,
        (counter >> 8u32) as u8,
        counter as u8,
    ]
}

/// The nonce of chunk `counter` under base nonce `base`.
pub fn make_nonce(base: &[u8; NONCE_LEN], counter: u32) -> (n: [u8; NONCE_LEN])
    ensures
        n@ == chunk_nonce(base@, counter),
{
    let mut n = *base;
    n[8] = (counter >> 24) as u8;
    n[9] = (counter >> 16) as u8;
    n[10] = (counter >> 8) as u8;
    n[11] = counter as u8;
    assert(n@ =~= chunk_nonce(base@, counter));
    n
}

/// Distinct chunks of one file get distinct nonces, and every chunk nonce
/// keeps the first 8 bytes of the file's base nonce.
pub proof fn lemma_chunk_nonce_distinct(base: Seq<u8>, c1: u32, c2: u32)
    requires
        base.len() == NONCE_LEN,
    ensures
        chunk_nonce(base, c1).len() == NONCE_LEN,
        chunk_nonce(base, c1).subrange(0, 8) == base.subrange(0, 8),
        c1 != c2 ==> chunk_nonce(base, c1) != chunk_nonce(base, c2),
{
    let n1 = chunk_nonce(base, c1);
    let n2 = chunk_nonce(base, c2);
    assert(n1.subrange(0, 8) =~= base.subrange(0, 8));
    if c1 != c2 {
        assert(((c1 >> 24u32) as u8 == (c2 >> 24u32) as u8 && (c1 >> 16u32) as u8 == (c2
            >> 16u32) as u8 && (c1 >> 8u32) as u8 == (c2 >> 8u32) as u8 && c1 as u8 == c2 as u8)
            ==> c1 == c2) by (bit_vector);
        if n1 == n2 {
            assert(n1[8] == n2[8]);
            assert(n1[9] == n2[9]);
            assert(n1[10] == n2[10]);
            assert(n1[11] == n2[11]);
        }
    }
}

/// Number of chunks that a plaintext of `n` bytes is cut into: at least
/// one, so that an empty file still carries an authentication tag.
pub open spec fn chunk_count(n: nat) -> nat
    decreases n,
{
    if n <= CHUNK_SIZE {
        1
    } else {
        1 + chunk_count((n - CHUNK_SIZE) as nat)
    }
}

/// A plaintext of `n` bytes fills its chunks: at least one chunk, no more
/// bytes than the chunks hold, and no more chunks than any count `k` of
/// chunks that can hold it.
pub proof fn lemma_chunk_count_bounds(n: nat, k: nat)
    ensures
        chunk_count(n) >= 1,
        n <= chunk_count(n) * CHUNK_SIZE,
        k >= 1 && n <= k * CHUNK_SIZE ==> chunk_count(n) <= k,
    decreases n,
{
    if n > CHUNK_SIZE {
        let m = (n - CHUNK_SIZE) as nat;
        if k >= 1 {
            lemma_chunk_count_bounds(m, (k - 1) as nat);
            assert((k - 1) * CHUNK_SIZE == k * CHUNK_SIZE - CHUNK_SIZE) by (nonlinear_arith);
        } else {
            lemma_chunk_count_bounds(m, 0);
        }
        assert((chunk_count(m) + 1) * CHUNK_SIZE == chunk_count(m) * CHUNK_SIZE + CHUNK_SIZE)
            by (nonlinear_arith);
    } else {
        assert(1 * CHUNK_SIZE == CHUNK_SIZE);
        if k >= 1 {
            assert(k * CHUNK_SIZE >= CHUNK_SIZE) by (nonlinear_arith)
                requires
                    k >= 1,
            ;
        }
    }
}

/// Plaintexts whose chunks can all be numbered by a 32-bit counter.
pub open spec fn plaintext_fits(n: nat) -> bool {
    n <= CHUNK_SIZE * 0xFFFF_FFFFnat
}

/// Bodies whose pieces can all be numbered by a 32-bit counter.
pub open spec fn body_fits(n: nat) -> bool {
    n <= SEALED_CHUNK_LEN * 0xFFFF_FFFFnat
}

/// The sealed chunks of `pt`, numbered from `counter`: every chunk but the
/// last holds exactly [`CHUNK_SIZE`] bytes, and the last holds between 0 and
/// [`CHUNK_SIZE`] bytes.
pub open spec fn seal_body(key: Seq<u8>, base: Seq<u8>, counter: nat, pt: Seq<u8>) -> Seq<u8>
    decreases pt.len(),
{
    if pt.len() <= CHUNK_SIZE {
        aes256gcm_seal(key, chunk_nonce(base, counter as u32), pt)
    } else {
        aes256gcm_seal(key, chunk_nonce(base, counter as u32), pt.take(CHUNK_SIZE as int))
            + seal_body(key, base, counter + 1, pt.skip(CHUNK_SIZE as int))
    }
}

/// Length of the first piece of `body`: a sealed full chunk, or what is left.
pub open spec fn piece_len(body_len: nat) -> nat {
    if body_len < SEALED_CHUNK_LEN {
        body_len
    } else {
        SEALED_CHUNK_LEN as nat
    }
}

/// Opens the pieces of `body`, numbered from `counter`, and joins their
/// plaintexts; `None` as soon as one piece does not open.  The body is read
/// in pieces of [`SEALED_CHUNK_LEN`] bytes, the last one possibly shorter.
pub open spec fn open_body(key: Seq<u8>, base: Seq<u8>, counter: nat, body: Seq<u8>) -> Option<
    Seq<u8>,
>
    decreases body.len(),
{
    if body.len() == 0 {
        Some(Seq::empty())
    } else {
        let n = piece_len(body.len());
        match aes256gcm_open(key, chunk_nonce(base, counter as u32), body.take(n as int)) {
            None => None,
            Some(p) => match open_body(key, base, counter + 1, body.skip(n as int)) {
                None => None,
                Some(rest) => Some(p + rest),
            },
        }
    }
}

/// Opening a body of `m` sealed full chunks followed by one more piece
/// opens the full chunks, then the piece with the next counter.
pub proof fn lemma_open_body_append(
    key: Seq<u8>,
    base: Seq<u8>,
    counter: nat,
    m: nat,
    body: Seq<u8>,
    tail: Seq<u8>,
)
    requires
        body.len() == m * SEALED_CHUNK_LEN,
        0 < tail.len() <= SEALED_CHUNK_LEN,
    ensures
        open_body(key, base, counter, body + tail) == match open_body(key, base, counter, body) {
            None => None,
            Some(p) => match aes256gcm_open(key, chunk_nonce(base, (counter + m) as u32), tail) {
                None => None,
                Some(q) => Some(p + q),
            },
        },
    decreases m,
{
    let whole = body + tail;
    let s = SEALED_CHUNK_LEN as int;
    if m == 0 {
        assert(body.len() == 0) by (nonlinear_arith)
            requires
                body.len() == m * SEALED_CHUNK_LEN,
                m == 0,
        ;
        assert(body =~= Seq::<u8>::empty());
        assert(whole =~= tail);
        assert(piece_len(whole.len()) == tail.len());
        assert(whole.take(tail.len() as int) =~= tail);
        assert(whole.skip(tail.len() as int) =~= Seq::<u8>::empty());
        assert(open_body(key, base, counter + 1, Seq::<u8>::empty()) == Some(Seq::<u8>::empty()));
        assert(open_body(key, base, counter, body) == Some(Seq::<u8>::empty()));
        match aes256gcm_open(key, chunk_nonce(base, counter as u32), tail) {
            None => {},
            Some(q) => {
                assert(q + Seq::<u8>::empty() =~= q);
                assert(Seq::<u8>::empty() + q =~= q);
            },
        }
    } else {
        assert(body.len() >= SEALED_CHUNK_LEN) by (nonlinear_arith)
            requires
                body.len() == m * SEALED_CHUNK_LEN,
                m >= 1,
                SEALED_CHUNK_LEN > 0,
        ;
        let rest = body.skip(s);
        assert(rest.len() == (m - 1) * SEALED_CHUNK_LEN) by (nonlinear_arith)
            requires
                rest.len() == body.len() - SEALED_CHUNK_LEN,
                body.len() == m * SEALED_CHUNK_LEN,
        ;
        assert(whole.take(s) =~= body.take(s));
        assert(whole.skip(s) =~= rest + tail);
        assert(piece_len(whole.len()) == s);
        assert(piece_len(body.len()) == s);
        lemma_open_body_append(key, base, counter + 1, (m - 1) as nat, rest, tail);
        assert(counter + 1 + (m - 1) == counter + m);
        let first = aes256gcm_open(key, chunk_nonce(base, counter as u32), body.take(s));
        assert(open_body(key, base, counter, whole) == match first {
            None => None,
            Some(p) => match open_body(key, base, counter + 1, rest + tail) {
                None => None,
                Some(r) => Some(p + r),
            },
        });
        assert(open_body(key, base, counter, body) == match first {
            None => None,
            Some(p) => match open_body(key, base, counter + 1, rest) {
                None => None,
                Some(r) => Some(p + r),
            },
        });
        match first {
            None => {},
            Some(p) => {
                match open_body(key, base, counter + 1, rest) {
                    None => {},
                    Some(r) => {
                        match aes256gcm_open(key, chunk_nonce(base, (counter + m) as u32), tail) {
                            None => {},
                            Some(q) => {
                                assert(p + (r + q) =~= (p + r) + q);
                            },
                        }
                    },
                }
            },
        }
    }
}

/// The first `j` sealed full chunks of a body.
pub open spec fn chunk_prefix(body: Seq<u8>, j: nat) -> Seq<u8> {
    body.take((j * SEALED_CHUNK_LEN) as int)
}

/// Seals `plaintext` chunk by chunk under `key`, numbering the chunks from 0
/// in the nonces derived from `base`.
pub fn encrypt_stream(key: &[u8; 32], base: &[u8; NONCE_LEN], plaintext: &[u8]) -> (r: Result<
    Vec<u8>,
    CryptError,
>)
    requires
        plaintext_fits(plaintext@.len()),
    ensures
        r is Ok,
        r matches Ok(body) ==> body@ == seal_body(key@, base@, 0, plaintext@),
        r matches Ok(body) ==> open_body(key@, base@, 0, body@) == Some(plaintext@),
        r matches Ok(body) ==> body@.len() > 0,
        r matches Ok(body) ==> body@.len() == plaintext@.len() + TAG_LEN * chunk_count(
            plaintext@.len(),
        ),
        r matches Ok(body) ==> forall|j: nat|
            j * CHUNK_SIZE < plaintext@.len() ==> {
                &&& j * SEALED_CHUNK_LEN <= body@.len()
                &&& open_body(key@, base@, 0, #[trigger] chunk_prefix(body@, j)) == Some(
                    plaintext@.take((j * CHUNK_SIZE) as int),
                )
            },
{
    let len = plaintext.len();
    let mut body: Vec<u8> = Vec::new();
    let mut offset: usize = 0;
    let mut counter: u32 = 0;
    assert(plaintext@.skip(0) =~= plaintext@);
    assert(plaintext@.take(0) =~= Seq::<u8>::empty());
    assert(body@ + seal_body(key@, base@, 0, plaintext@) =~= seal_body(key@, base@, 0, plaintext@));
    loop
        invariant
            len == plaintext@.len(),
            plaintext_fits(len as nat),
            offset <= len,
            counter as int * CHUNK_SIZE <= len ==> offset as int == counter as int * CHUNK_SIZE,
            counter as int * CHUNK_SIZE > len ==> offset == len,
            counter == 0 ==> offset == 0,
            counter > 0 ==> body@.len() > 0,
            !(counter > 0 && offset == len) ==> {
                &&& chunk_count(len as nat) == counter + chunk_count((len - offset) as nat)
                &&& body@.len() == counter as int * SEALED_CHUNK_LEN
                &&& body@ + seal_body(key@, base@, counter as nat, plaintext@.skip(offset as int))
                    == seal_body(key@, base@, 0, plaintext@)
                &&& open_body(key@, base@, 0, body@) == Some(plaintext@.take(offset as int))
            },
            (counter > 0 && offset == len) ==> {
                &&& body@.len() == len + TAG_LEN * chunk_count(len as nat)
                &&& body@ == seal_body(key@, base@, 0, plaintext@)
                &&& open_body(key@, base@, 0, body@) == Some(plaintext@)
            },
            forall|j: nat|
                j < counter ==> {
                    &&& j * SEALED_CHUNK_LEN <= body@.len()
                    &&& open_body(key@, base@, 0, #[trigger] chunk_prefix(body@, j)) == Some(
                        plaintext@.take((j * CHUNK_SIZE) as int),
                    )
                },
        ensures
            counter > 0 && offset == len,
            body@.len() == len + TAG_LEN * chunk_count(len as nat),
            forall|j: nat|
                j < counter ==> {
                    &&& j * SEALED_CHUNK_LEN <= body@.len()
                    &&& open_body(key@, base@, 0, #[trigger] chunk_prefix(body@, j)) == Some(
                        plaintext@.take((j * CHUNK_SIZE) as int),
                    )
                },
            offset as int <= counter as int * CHUNK_SIZE,
            body@ == seal_body(key@, base@, 0, plaintext@),
            open_body(key@, base@, 0, body@) == Some(plaintext@),
            body@.len() > 0,
        decreases len - offset + (if counter == 0 { 1int } else { 0int }),
    {
        let n = if len - offset < CHUNK_SIZE { len - offset } else { CHUNK_SIZE };
        if n == 0 && counter > 0 {
            break ;
        }
        proof {
            if counter > 0 {
                assert(counter as int * CHUNK_SIZE < len);
                assert(counter < 0xFFFF_FFFFu32) by (nonlinear_arith)
                    requires
                        counter as int * CHUNK_SIZE < len,
                        len <= CHUNK_SIZE * 0xFFFF_FFFFnat,
                ;
            }
        }
        let nonce = make_nonce(base, counter);
        let chunk = slice_subrange(plaintext, offset, offset + n);
        let mut sealed = match aes_gcm_encrypt(key, &nonce, chunk) {
            Ok(c) => c,
            Err(_) => {
                return Err(CryptError::Memory);
            },
        };
        let ghost old_body = body@;
        let ghost rem = plaintext@.skip(offset as int);
        let ghost sealed_v = sealed@;
        let ghost next = (counter + 1) as nat;
        proof {
            assert(!(counter > 0 && offset == len));
            lemma_open_body_append(key@, base@, 0, counter as nat, old_body, sealed_v);
            assert(plaintext@.take(offset as int) + chunk@ =~= plaintext@.take(offset + n));
            assert(seal_body(key@, base@, counter as nat, rem) == if rem.len() <= CHUNK_SIZE {
                aes256gcm_seal(key@, chunk_nonce(base@, counter), rem)
            } else {
                aes256gcm_seal(key@, chunk_nonce(base@, counter), rem.take(CHUNK_SIZE as int))
                    + seal_body(key@, base@, next, rem.skip(CHUNK_SIZE as int))
            });
            if rem.len() <= CHUNK_SIZE {
                assert(chunk_count(rem.len()) == 1);
                assert(counter as int * SEALED_CHUNK_LEN == counter as int * CHUNK_SIZE + counter
                    as int * TAG_LEN) by (nonlinear_arith);
                assert(TAG_LEN * (counter as int + 1) == TAG_LEN * counter as int + TAG_LEN)
                    by (nonlinear_arith);
                assert(chunk@ =~= rem);
                assert(plaintext@.take(offset + n) =~= plaintext@);
                assert(old_body + sealed_v == seal_body(key@, base@, 0, plaintext@));
            } else {
                assert(chunk_count(rem.len()) == 1 + chunk_count((rem.len() - CHUNK_SIZE) as nat));
                assert(chunk@ =~= rem.take(CHUNK_SIZE as int));
                assert(rem.skip(CHUNK_SIZE as int) =~= plaintext@.skip(offset + n));
                assert(old_body + sealed_v + seal_body(key@, base@, next, plaintext@.skip(
                    offset + n,
                )) =~= old_body + (sealed_v + seal_body(
                    key@,
                    base@,
                    next,
                    plaintext@.skip(offset + n),
                )));
                assert(offset + n < len);
            }
            assert((counter as int + 1) * CHUNK_SIZE == counter as int * CHUNK_SIZE + CHUNK_SIZE)
                by (nonlinear_arith);
            assert((counter as int + 1) * SEALED_CHUNK_LEN == counter as int * SEALED_CHUNK_LEN
                + SEALED_CHUNK_LEN) by (nonlinear_arith);
        }
        body.append(&mut sealed);
        proof {
            let old_counter = counter as nat;
            assert forall|j: nat| j < old_counter + 1 implies {
                &&& j * SEALED_CHUNK_LEN <= body@.len()
                &&& open_body(key@, base@, 0, #[trigger] chunk_prefix(body@, j)) == Some(
                    plaintext@.take((j * CHUNK_SIZE) as int),
                )
            } by {
                assert(j * SEALED_CHUNK_LEN <= old_counter * SEALED_CHUNK_LEN) by (nonlinear_arith)
                    requires
                        j <= old_counter,
                ;
                assert(chunk_prefix(body@, j) =~= chunk_prefix(old_body, j));
                if j == old_counter {
                    assert(chunk_prefix(old_body, j) =~= old_body);
                }
            }
        }
        offset = offset + n;
        counter = counter + 1;
    }
    proof {
        assert forall|j: nat| j * CHUNK_SIZE < plaintext@.len() implies {
            &&& j * SEALED_CHUNK_LEN <= body@.len()
            &&& open_body(key@, base@, 0, #[trigger] chunk_prefix(body@, j)) == Some(
                plaintext@.take((j * CHUNK_SIZE) as int),
            )
        } by {
            assert(j < counter) by (nonlinear_arith)
                requires
                    j * CHUNK_SIZE < len,
                    len <= counter as int * CHUNK_SIZE,
            ;
        }
    }
    Ok(body)
}

/// What opening a file body gives: the plaintext when every piece opens
/// and the plaintexts add up to the length in the header; `InvalidPassword`
/// when a piece does not open; `InvalidFormat` when the length differs.
pub open spec fn open_checked(key: Seq<u8>, h: HeaderModel, body: Seq<u8>) -> Result<
    Seq<u8>,
    ErrorKind,
> {
    match open_body(key, h.nonce, 0, body) {
        None => Err(ErrorKind::InvalidPassword),
        Some(p) => if p.len() == h.plaintext_len {
            Ok(p)
        } else {
            Err(ErrorKind::InvalidFormat)
        },
    }
}

/// Opens the pieces of `body` under `key`, with the chunk nonces of
/// `header`, and checks the total length against the header.
pub fn decrypt_stream(key: &[u8; 32], header: &Header, body: &[u8]) -> (r: Result<
    Vec<u8>,
    CryptError,
>)
    requires
        body_fits(body@.len()),
    ensures
        outcome(r) == open_checked(key@, header@, body@),
{
    let len = body.len();
    let mut out: Vec<u8> = Vec::new();
    let mut offset: usize = 0;
    let mut counter: u32 = 0;
    assert(body@.skip(0) =~= body@);
    assert(out@ + Seq::<u8>::empty() =~= out@);
    while offset < len
        invariant
            len == body@.len(),
            body_fits(len as nat),
            offset <= len,
            offset < len ==> offset as int == counter as int * SEALED_CHUNK_LEN,
            out@.len() <= offset,
            open_body(key@, header.nonce@, 0, body@) == match open_body(
                key@,
                header.nonce@,
                counter as nat,
                body@.skip(offset as int),
            ) {
                None => None,
                Some(rest) => Some(out@ + rest),
            },
        decreases len - offset,
    {
        let n = if len - offset < SEALED_CHUNK_LEN { len - offset } else { SEALED_CHUNK_LEN };
        proof {
            assert(counter < 0xFFFF_FFFFu32) by (nonlinear_arith)
                requires
                    offset as int == counter as int * SEALED_CHUNK_LEN,
                    offset < len,
                    len <= SEALED_CHUNK_LEN * 0xFFFF_FFFFnat,
            ;
        }
        let nonce = make_nonce(&header.nonce, counter);
        let piece = slice_subrange(body, offset, offset + n);
        let ghost rem = body@.skip(offset as int);
        let ghost next = (counter + 1) as nat;
        assert(piece@ =~= rem.take(n as int));
        assert(rem.skip(n as int) =~= body@.skip(offset + n));
        assert(piece_len(rem.len()) == n);
        let mut plain = match aes_gcm_decrypt(key, &nonce, piece) {
            Ok(p) => p,
            Err(_) => {
                return Err(CryptError::InvalidPassword);
            },
        };
        let ghost pv = plain@;
        proof {
            match open_body(key@, header.nonce@, next, body@.skip(offset + n)) {
                None => {},
                Some(r2) => {
                    assert(out@ + (pv + r2) =~= (out@ + pv) + r2);
                },
            }
            assert((counter as int + 1) * SEALED_CHUNK_LEN == counter as int * SEALED_CHUNK_LEN
                + SEALED_CHUNK_LEN) by (nonlinear_arith);
        }
        out.append(&mut plain);
        offset = offset + n;
        counter = counter + 1;
    }
    assert(body@.skip(offset as int) =~= Seq::<u8>::empty());
    if out.len() as u64 != header.plaintext_len {
        return Err(CryptError::InvalidFormat);
    }
    Ok(out)
}

/// Chunk `i` of `pt` as the format cuts it: bytes `i * CHUNK_SIZE` up to
/// `(i + 1) * CHUNK_SIZE`, or up to the end of `pt`.
pub open spec fn plaintext_chunk(pt: Seq<u8>, i: nat) -> Seq<u8> {
    let start = i * CHUNK_SIZE;
    if start + CHUNK_SIZE <= pt.len() {
        pt.subrange(start as int, start + CHUNK_SIZE)
    } else if start <= pt.len() {
        pt.subrange(start as int, pt.len() as int)
    } else {
        Seq::empty()
    }
}

/// Chunks `i` up to `n` (excluded) of `pt`, each sealed with its own
/// number as the counter, one after another.
pub open spec fn sealed_chunks(key: Seq<u8>, base: Seq<u8>, pt: Seq<u8>, i: nat, n: nat) -> Seq<u8>
    decreases n - i,
{
    if i >= n {
        Seq::empty()
    } else {
        aes256gcm_seal(key, chunk_nonce(base, i as u32), plaintext_chunk(pt, i)) + sealed_chunks(
            key,
            base,
            pt,
            i + 1,
            n,
        )
    }
}

/// Sealing the rest of `pt` from chunk `i` on gives the sealed chunks from
/// `i` on.
proof fn lemma_seal_body_from(key: Seq<u8>, base: Seq<u8>, pt: Seq<u8>, i: nat)
    requires
        i * CHUNK_SIZE <= pt.len(),
        i == 0 || i * CHUNK_SIZE < pt.len(),
    ensures
        seal_body(key, base, i, pt.skip(i * CHUNK_SIZE)) == sealed_chunks(
            key,
            base,
            pt,
            i,
            i + chunk_count((pt.len() - i * CHUNK_SIZE) as nat),
        ),
    decreases pt.len() - i * CHUNK_SIZE,
{
    let c = CHUNK_SIZE as int;
    let start = i * c;
    let rem = pt.skip(start);
    assert((i + 1) * c == start + c) by (nonlinear_arith)
        requires
            start == i * c,
    ;
    if rem.len() <= CHUNK_SIZE {
        assert(rem =~= plaintext_chunk(pt, i));
        assert(sealed_chunks(key, base, pt, i + 1, i + 1) == Seq::<u8>::empty());
        assert(sealed_chunks(key, base, pt, i, i + 1) =~= aes256gcm_seal(
            key,
            chunk_nonce(base, i as u32),
            plaintext_chunk(pt, i),
        ));
    } else {
        let next = (i + 1) as nat;
        assert(rem.take(c) =~= plaintext_chunk(pt, i));
        assert(rem.skip(c) =~= pt.skip(next * c));
        lemma_seal_body_from(key, base, pt, next);
        assert(chunk_count(rem.len()) == 1 + chunk_count((rem.len() - c) as nat));
        assert((pt.len() - next * c) == rem.len() - c);
    }
}

/// The body that sealing gives is the sealed chunks of the plaintext, one
/// after another, chunk `i` sealed with counter `i`: so a writer that seals
/// the chunks one by one, in order, writes exactly the body.
pub proof fn lemma_seal_body_chunks(key: Seq<u8>, base: Seq<u8>, pt: Seq<u8>)
    ensures
        seal_body(key, base, 0, pt) == sealed_chunks(key, base, pt, 0, chunk_count(pt.len())),
{
    assert(pt.skip(0) =~= pt);
    lemma_seal_body_from(key, base, pt, 0);
}

/// Number of pieces that a body of `n` bytes is read in: pieces of
/// [`SEALED_CHUNK_LEN`] bytes, the last one possibly shorter.
pub open spec fn piece_count(n: nat) -> nat
    decreases n,
{
    if n == 0 {
        0
    } else if n <= SEALED_CHUNK_LEN {
        1
    } else {
        1 + piece_count((n - SEALED_CHUNK_LEN) as nat)
    }
}

/// Piece `i` of `body`: bytes `i * SEALED_CHUNK_LEN` up to
/// `(i + 1) * SEALED_CHUNK_LEN`, or up to the end of `body`.
pub open spec fn body_piece(body: Seq<u8>, i: nat) -> Seq<u8> {
    let start = i * SEALED_CHUNK_LEN;
    if start + SEALED_CHUNK_LEN <= body.len() {
        body.subrange(start as int, start + SEALED_CHUNK_LEN)
    } else if start <= body.len() {
        body.subrange(start as int, body.len() as int)
    } else {
        Seq::empty()
    }
}

/// Opens pieces `i` up to `n` (excluded) of `body`, each with its own
/// number as the counter, and joins their plaintexts; `None` at the first
/// piece that does not open.
pub open spec fn opened_pieces(key: Seq<u8>, base: Seq<u8>, body: Seq<u8>, i: nat, n: nat) -> Option<
    Seq<u8>,
>
    decreases n - i,
{
    if i >= n {
        Some(Seq::empty())
    } else {
        match aes256gcm_open(key, chunk_nonce(base, i as u32), body_piece(body, i)) {
            None => None,
            Some(p) => match opened_pieces(key, base, body, i + 1, n) {
                None => None,
                Some(rest) => Some(p + rest),
            },
        }
    }
}

/// Opening the rest of `body` from piece `i` on is opening the pieces from
/// `i` on.
proof fn lemma_open_body_from(key: Seq<u8>, base: Seq<u8>, body: Seq<u8>, i: nat)
    requires
        i * SEALED_CHUNK_LEN <= body.len(),
    ensures
        open_body(key, base, i, body.skip(i * SEALED_CHUNK_LEN)) == opened_pieces(
            key,
            base,
            body,
            i,
            i + piece_count((body.len() - i * SEALED_CHUNK_LEN) as nat),
        ),
    decreases body.len() - i * SEALED_CHUNK_LEN,
{
    let s = SEALED_CHUNK_LEN as int;
    let start = i * s;
    let rem = body.skip(start);
    assert((i + 1) * s == start + s) by (nonlinear_arith)
        requires
            start == i * s,
    ;
    if rem.len() == 0 {
        assert(opened_pieces(key, base, body, i, i) == Some(Seq::<u8>::empty()));
    } else if rem.len() <= SEALED_CHUNK_LEN {
        let n = piece_len(rem.len());
        assert(rem.take(n as int) =~= body_piece(body, i));
        assert(rem.skip(n as int) =~= Seq::<u8>::empty());
        assert(open_body(key, base, i + 1, Seq::<u8>::empty()) == Some(Seq::<u8>::empty()));
        assert(opened_pieces(key, base, body, i + 1, i + 1) == Some(Seq::<u8>::empty()));
        match aes256gcm_open(key, chunk_nonce(base, i as u32), body_piece(body, i)) {
            None => {},
            Some(p) => {
                assert(p + Seq::<u8>::empty() =~= p);
            },
        }
    } else {
        let next = (i + 1) as nat;
        assert(piece_len(rem.len()) == s);
        assert(rem.take(s) =~= body_piece(body, i));
        assert(rem.skip(s) =~= body.skip(next * s));
        lemma_open_body_from(key, base, body, next);
        assert((body.len() - next * s) == rem.len() - s);
    }
}

/// Opening a body is opening its pieces one after another, piece `i` with
/// counter `i`, and joining the plaintexts: so a reader that opens the
/// pieces one by one, in order, and stops at the first that does not open,
/// gets exactly what opening the body gives.
pub proof fn lemma_open_body_pieces(key: Seq<u8>, base: Seq<u8>, body: Seq<u8>)
    ensures
        open_body(key, base, 0, body) == opened_pieces(key, base, body, 0, piece_count(body.len())),
{
    assert(body.skip(0) =~= body);
    lemma_open_body_from(key, base, body, 0);
}

/// Seals one chunk of at most [`CHUNK_SIZE`] bytes with the nonce of chunk
/// `counter`.
pub fn seal_chunk(key: &[u8; 32], base: &[u8; NONCE_LEN], counter: u32, chunk: &[u8]) -> (c: Vec<
    u8,
>)
    requires
        chunk@.len() <= CHUNK_SIZE,
    ensures
        c@ == aes256gcm_seal(key@, chunk_nonce(base@, counter), chunk@),
        c@.len() == chunk@.len() + TAG_LEN,
        aes256gcm_open(key@, chunk_nonce(base@, counter), c@) == Some(chunk@),
{
    let nonce = make_nonce(base, counter);
    match aes_gcm_encrypt(key, &nonce, chunk) {
        Ok(c) => c,
        Err(_) => Vec::new(),
    }
}

/// Opens one piece of a body with the nonce of chunk `counter`;
/// `InvalidPassword` when its tag does not verify.
pub fn open_piece(key: &[u8; 32], base: &[u8; NONCE_LEN], counter: u32, piece: &[u8]) -> (r: Result<
    Vec<u8>,
    CryptError,
>)
    ensures
        match r {
            Ok(p) => aes256gcm_open(key@, chunk_nonce(base@, counter), piece@) == Some(p@),
            Err(e) => e.kind() == ErrorKind::InvalidPassword && aes256gcm_open(
                key@,
                chunk_nonce(base@, counter),
                piece@,
            ) is None,
        },
{
    let nonce = make_nonce(base, counter);
    match aes_gcm_decrypt(key, &nonce, piece) {
        Ok(p) => Ok(p),
        Err(_) => Err(CryptError::InvalidPassword),
    }
}

/// The last check of decryption: the plaintexts of the pieces add up to
/// `total` bytes, which must be the length in the header.
pub fn check_plaintext_len(header: &Header, total: u64) -> (r: Result<(), CryptError>)
    ensures
        total == header.plaintext_len ==> r is Ok,
        total != header.plaintext_len ==> (r matches Err(e) && e.kind() == ErrorKind::InvalidFormat),
{
    if total == header.plaintext_len {
        Ok(())
    } else {
        Err(CryptError::InvalidFormat)
    }
}

} // verus!
