//! Unpadded base64 with the URL-safe alphabet (RFC 4648, section 5), the
//! form in which keys are written as text.
//!
//! The encoding is stated here in full; the decoding is its inverse, which
//! exists exactly on canonical encodings: every character in the alphabet,
//! a length that is not one more than a multiple of four, and unused
//! trailing bits zero.
use vstd::prelude::*;

verus! {

/// The characters of the URL-safe base64 alphabet.
pub open spec fn is_base64url_char(c: char) -> bool {
    ('A' <= c <= 'Z') || ('a' <= c <= 'z') || ('0' <= c <= '9') || c == '-' || c == '_'
}

/// The character for the six-bit value `v`: `A`-`Z`, `a`-`z`, `0`-`9`,
/// `-`, `_`.
pub open spec fn symbol(v: int) -> char {
    if v < 26 {
        (v + 65) as char
    } else if v < 52 {
        (v + 71) as char
    } else if v < 62 {
        (v - 4) as char
    } else if v == 62 {
        '-'
    } else {
        '_'
    }
}

/// Length of the unpadded base64 encoding of `n` bytes.
pub open spec fn base64_unpadded_len(n: nat) -> nat {
    4 * (n / 3) + if n % 3 == 0 {
        0nat
    } else {
        n % 3 + 1
    }
}

/// Unpadded URL-safe base64 encoding of `bytes`: each group of three bytes
/// becomes four characters of six bits each, most significant first; a
/// last group of one or two bytes becomes two or three characters, the
/// unused low bits being zero.
pub open spec fn base64url_encode(bytes: Seq<u8>) -> Seq<char>
    decreases bytes.len(),
{
    if bytes.len() == 0 {
        Seq::empty()
    } else if bytes.len() == 1 {
        let b0 = bytes[0] as int;
        seq![symbol(b0 / 4), symbol((b0 % 4) * 16)]
    } else if bytes.len() == 2 {
        let b0 = bytes[0] as int;
        let b1 = bytes[1] as int;
        seq![symbol(b0 / 4), symbol((b0 % 4) * 16 + b1 / 16), symbol((b1 % 16) * 4)]
    } else {
        let b0 = bytes[0] as int;
        let b1 = bytes[1] as int;
        let b2 = bytes[2] as int;
        seq![
            symbol(b0 / 4),
            symbol((b0 % 4) * 16 + b1 / 16),
            symbol((b1 % 16) * 4 + b2 / 64),
            symbol(b2 % 64),
        ] + base64url_encode(bytes.subrange(3, bytes.len() as int))
    }
}

/// Decoding of `text` as unpadded URL-safe base64: the bytes whose encoding
/// `text` is, or `None` where `text` is the encoding of no bytes.
pub open spec fn base64url_decode(text: Seq<char>) -> Option<Seq<u8>> {
    if exists|b: Seq<u8>| base64url_encode(b) == text {
        Some(choose|b: Seq<u8>| base64url_encode(b) == text)
    } else {
        None
    }
}

/// Each six-bit value has its own character, and it is in the alphabet.
pub proof fn lemma_symbol(v: int, w: int)
    requires
        0 <= v < 64,
        0 <= w < 64,
    ensures
        is_base64url_char(symbol(v)),
        symbol(v) == symbol(w) ==> v == w,
{
    assert(0 <= v < 26 ==> ((v + 65) as char) as int == v + 65);
}

/// The encoding of `n` bytes has `base64_unpadded_len(n)` characters, all
/// in the alphabet.
pub proof fn lemma_encode_shape(bytes: Seq<u8>)
    ensures
        base64url_encode(bytes).len() == base64_unpadded_len(bytes.len()),
        forall|i: int|
            0 <= i < base64url_encode(bytes).len() ==> is_base64url_char(
                #[trigger] base64url_encode(bytes)[i],
            ),
    decreases bytes.len(),
{
    let e = base64url_encode(bytes);
    if bytes.len() == 0 {
    } else if bytes.len() <= 2 {
        let b0 = bytes[0] as int;
        lemma_symbol(b0 / 4, 0);
        lemma_symbol((b0 % 4) * 16, 0);
        if bytes.len() == 2 {
            let b1 = bytes[1] as int;
            lemma_symbol((b0 % 4) * 16 + b1 / 16, 0);
            lemma_symbol((b1 % 16) * 4, 0);
        }
    } else {
        let b0 = bytes[0] as int;
        let b1 = bytes[1] as int;
        let b2 = bytes[2] as int;
        let rest = bytes.subrange(3, bytes.len() as int);
        lemma_encode_shape(rest);
        lemma_symbol(b0 / 4, 0);
        lemma_symbol((b0 % 4) * 16 + b1 / 16, 0);
        lemma_symbol((b1 % 16) * 4 + b2 / 64, 0);
        lemma_symbol(b2 % 64, 0);
        let n = bytes.len();
        assert(base64_unpadded_len(n) == 4 + base64_unpadded_len((n - 3) as nat)) by {
            assert(n / 3 == (n - 3) / 3 + 1);
            assert(n % 3 == (n - 3) as nat % 3);
        }
        assert forall|i: int| 0 <= i < e.len() implies is_base64url_char(#[trigger] e[i]) by {
            if i >= 4 {
                assert(e[i] == base64url_encode(rest)[i - 4]);
            }
        }
    }
}

/// The number of bytes is fixed by the length of their encoding.
proof fn lemma_unpadded_len_injective(n: nat, m: nat)
    requires
        base64_unpadded_len(n) == base64_unpadded_len(m),
    ensures
        n == m,
{
    assert(n == 3 * (n / 3) + n % 3);
    assert(m == 3 * (m / 3) + m % 3);
}

/// Three bytes are fixed by the four six-bit values of their group.
proof fn lemma_group_injective(a0: int, a1: int, a2: int, b0: int, b1: int, b2: int)
    requires
        0 <= a0 < 256,
        0 <= a1 < 256,
        0 <= a2 < 256,
        0 <= b0 < 256,
        0 <= b1 < 256,
        0 <= b2 < 256,
        a0 / 4 == b0 / 4,
        (a0 % 4) * 16 + a1 / 16 == (b0 % 4) * 16 + b1 / 16,
        (a1 % 16) * 4 + a2 / 64 == (b1 % 16) * 4 + b2 / 64,
        a2 % 64 == b2 % 64,
    ensures
        a0 == b0,
        a1 == b1,
        a2 == b2,
{
    assert(a0 % 4 == b0 % 4 && a1 / 16 == b1 / 16);
    assert(a1 % 16 == b1 % 16 && a2 / 64 == b2 / 64);
}

/// Different bytes have different encodings.
pub proof fn lemma_encode_injective(a: Seq<u8>, b: Seq<u8>)
    requires
        base64url_encode(a) == base64url_encode(b),
    ensures
        a == b,
    decreases a.len(),
{
    lemma_encode_shape(a);
    lemma_encode_shape(b);
    lemma_unpadded_len_injective(a.len(), b.len());
    let e = base64url_encode(a);
    if a.len() == 0 {
        assert(a =~= b);
    } else if a.len() <= 2 {
        let (a0, b0) = (a[0] as int, b[0] as int);
        assert(e[0] == symbol(a0 / 4) && e[0] == symbol(b0 / 4));
        assert(e[1] == base64url_encode(b)[1]);
        lemma_symbol(a0 / 4, b0 / 4);
        if a.len() == 1 {
            lemma_symbol((a0 % 4) * 16, (b0 % 4) * 16);
        } else {
            let (a1, b1) = (a[1] as int, b[1] as int);
            assert(e[2] == base64url_encode(b)[2]);
            lemma_symbol((a0 % 4) * 16 + a1 / 16, (b0 % 4) * 16 + b1 / 16);
            lemma_symbol((a1 % 16) * 4, (b1 % 16) * 4);
            lemma_group_injective(a0, a1, 0, b0, b1, 0);
        }
        assert(a =~= b);
    } else {
        let (a0, a1, a2) = (a[0] as int, a[1] as int, a[2] as int);
        let (b0, b1, b2) = (b[0] as int, b[1] as int, b[2] as int);
        let f = base64url_encode(b);
        assert(e[0] == f[0] && e[1] == f[1] && e[2] == f[2] && e[3] == f[3]);
        lemma_symbol(a0 / 4, b0 / 4);
        lemma_symbol((a0 % 4) * 16 + a1 / 16, (b0 % 4) * 16 + b1 / 16);
        lemma_symbol((a1 % 16) * 4 + a2 / 64, (b1 % 16) * 4 + b2 / 64);
        lemma_symbol(a2 % 64, b2 % 64);
        lemma_group_injective(a0, a1, a2, b0, b1, b2);
        let ra = a.subrange(3, a.len() as int);
        let rb = b.subrange(3, b.len() as int);
        assert(base64url_encode(ra) =~= e.subrange(4, e.len() as int));
        assert(base64url_encode(rb) =~= f.subrange(4, f.len() as int));
        lemma_encode_injective(ra, rb);
        assert(a =~= b) by {
            assert forall|i: int| 0 <= i < a.len() implies a[i] == b[i] by {
                if i >= 3 {
                    assert(a[i] == ra[i - 3] && b[i] == rb[i - 3]);
                }
            }
        }
    }
}

/// Decoding an encoding gives the bytes back.
pub proof fn lemma_decode_encode(bytes: Seq<u8>)
    ensures
        base64url_decode(base64url_encode(bytes)) == Some(bytes),
{
    let text = base64url_encode(bytes);
    assert(exists|b: Seq<u8>| base64url_encode(b) == text);
    let c = choose|b: Seq<u8>| base64url_encode(b) == text;
    lemma_encode_injective(c, bytes);
}

/// Decoding gives `Some(bytes)` exactly when `text` is the encoding of
/// `bytes`.
pub proof fn lemma_decode_is_inverse(text: Seq<char>, bytes: Seq<u8>)
    ensures
        base64url_decode(text) == Some(bytes) <==> base64url_encode(bytes) == text,
{
    if base64url_encode(bytes) == text {
        lemma_decode_encode(bytes);
    }
}

} // verus!
