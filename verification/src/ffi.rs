//! The decisions of the C interface: error codes, argument checks, and the
//! entry points that need no file system.  A C string argument reaches
//! these functions as `None` when its pointer is null or its bytes are not
//! UTF-8; an output buffer or cell reaches them as `None` when its pointer is
//! null.
use crate::crypto::{generate_random_key, key_from_text, KEY_TEXT_LEN};
use crate::error::{CryptError, ErrorKind};
use crate::encoding::is_base64url_char;
use crate::registry::{is_registered, register, unregister};
use vstd::prelude::*;

verus! {

/// Result code of a C entry point.
pub type CryptResult = i32;

pub const CRYPT_SUCCESS: i32 = 0;

pub const CRYPT_ERR_IO: i32 = 1;

pub const CRYPT_ERR_INVALID_FORMAT: i32 = 2;

pub const CRYPT_ERR_INVALID_PASSWORD: i32 = 3;

pub const CRYPT_ERR_MEMORY: i32 = 4;

pub const CRYPT_ERR_INVALID_PARAM: i32 = 5;

pub const CRYPT_ERR_PANIC: i32 = 6;

pub const CRYPT_ERR_UNSUPPORTED: i32 = 7;

pub const CRYPT_ERR_OUTPUT_EXISTS: i32 = 8;

pub const CRYPT_ERR_INPUT_INVALID: i32 = 9;

/// Smallest buffer that holds a key string and its terminating NUL.
pub const KEY_BUFFER_LEN: i32 = 44;

/// The code of each kind of error, as the format documentation lists them.
pub open spec fn error_code(k: ErrorKind) -> i32 {
    match k {
        ErrorKind::Io => CRYPT_ERR_IO,
        ErrorKind::InvalidFormat => CRYPT_ERR_INVALID_FORMAT,
        ErrorKind::InvalidPassword => CRYPT_ERR_INVALID_PASSWORD,
        ErrorKind::Memory => CRYPT_ERR_MEMORY,
        ErrorKind::InvalidParam => CRYPT_ERR_INVALID_PARAM,
        ErrorKind::Unsupported => CRYPT_ERR_UNSUPPORTED,
        ErrorKind::OutputExists => CRYPT_ERR_OUTPUT_EXISTS,
        ErrorKind::InputInvalid => CRYPT_ERR_INPUT_INVALID,
    }
}

/// The code of an outcome: success, or the code of the error.
pub open spec fn outcome_code(r: Result<(), CryptError>) -> i32 {
    match r {
        Ok(()) => CRYPT_SUCCESS,
        Err(e) => error_code(e.kind()),
    }
}

/// The code of an error.
pub fn err_to_code(e: CryptError) -> (c: i32)
    ensures
        c == error_code(e.kind()),
{
    match e {
        CryptError::Io(_) => CRYPT_ERR_IO,
        CryptError::InvalidFormat => CRYPT_ERR_INVALID_FORMAT,
        CryptError::InvalidPassword => CRYPT_ERR_INVALID_PASSWORD,
        CryptError::Memory => CRYPT_ERR_MEMORY,
        CryptError::InvalidParam => CRYPT_ERR_INVALID_PARAM,
        CryptError::Unsupported => CRYPT_ERR_UNSUPPORTED,
        CryptError::OutputExists => CRYPT_ERR_OUTPUT_EXISTS,
        CryptError::InputInvalid => CRYPT_ERR_INPUT_INVALID,
    }
}

/// The code of an outcome.
pub fn result_code(r: Result<(), CryptError>) -> (c: i32)
    ensures
        c == outcome_code(r),
{
    match r {
        Ok(()) => CRYPT_SUCCESS,
        Err(e) => err_to_code(e),
    }
}

/// Error codes of distinct kinds of error are distinct, and none of them is
/// the success code or the code reserved for a caught panic.
pub proof fn lemma_error_codes_distinct(a: ErrorKind, b: ErrorKind)
    ensures
        a != b ==> error_code(a) != error_code(b),
        error_code(a) != CRYPT_SUCCESS,
        error_code(a) != CRYPT_ERR_PANIC,
{
}

/// The code of a password check: success when the password opens the
/// file, `CRYPT_ERR_INVALID_PASSWORD` when it does not, else the error's
/// code.
pub fn password_check_code(r: Result<bool, CryptError>) -> (c: i32)
    ensures
        c == match r {
            Ok(true) => CRYPT_SUCCESS,
            Ok(false) => CRYPT_ERR_INVALID_PASSWORD,
            Err(e) => error_code(e.kind()),
        },
{
    match r {
        Ok(true) => CRYPT_SUCCESS,
        Ok(false) => CRYPT_ERR_INVALID_PASSWORD,
        Err(e) => err_to_code(e),
    }
}

/// Three C string arguments, all present; `InvalidParam` for the first one
/// that is missing.
pub fn cstrs(a: Option<String>, b: Option<String>, c: Option<String>) -> (r: Result<
    (String, String, String),
    CryptError,
>)
    ensures
        match (a, b, c) {
            (Some(x), Some(y), Some(z)) => r matches Ok(t) && t.0@ == x@ && t.1@ == y@ && t.2@
                == z@,
            _ => r matches Err(e) && e.kind() == ErrorKind::InvalidParam,
        },
{
    match (a, b, c) {
        (Some(x), Some(y), Some(z)) => Ok((x, y, z)),
        _ => Err(CryptError::InvalidParam),
    }
}

/// Writes the key string `key` and a terminating NUL at the start of
/// `buffer`; the rest of the buffer stays as it was.
pub fn write_key_text(buffer: &mut Vec<u8>, key: &String)
    requires
        old(buffer)@.len() >= KEY_BUFFER_LEN,
        key@.len() == KEY_TEXT_LEN,
        forall|i: int| 0 <= i < key@.len() ==> is_base64url_char(#[trigger] key@[i]),
    ensures
        final(buffer)@.len() == old(buffer)@.len(),
        forall|i: int| 0 <= i < KEY_TEXT_LEN ==> final(buffer)@[i] == key@[i] as u8,
        final(buffer)@[KEY_TEXT_LEN as int] == 0,
        forall|i: int| KEY_TEXT_LEN < i < final(buffer)@.len() ==> final(buffer)@[i] == old(
            buffer,
        )@[i],
{
    let ghost before = buffer@;
    let mut i: usize = 0;
    while i < KEY_TEXT_LEN
        invariant
            key@.len() == KEY_TEXT_LEN,
            buffer@.len() == before.len(),
            before.len() >= KEY_BUFFER_LEN,
            i <= KEY_TEXT_LEN,
            forall|j: int| 0 <= j < i ==> buffer@[j] == key@[j] as u8,
            forall|j: int| i <= j < buffer@.len() ==> buffer@[j] == before[j],
        decreases KEY_TEXT_LEN - i,
    {
        let ch = key.as_str().get_char(i);
        buffer.set(i, ch as u8);
        i = i + 1;
    }
    buffer.set(KEY_TEXT_LEN, 0);
}

/// Writes a new key string and a terminating NUL at the start of `buffer`,
/// whose size the caller gives as `buffer_len`.  `CRYPT_ERR_INVALID_PARAM`
/// without writing when there is no buffer or it is shorter than 44 bytes;
/// `CRYPT_ERR_MEMORY` without writing when no random bytes can be had.
pub fn crypt_generate_random_key(buffer: Option<&mut Vec<u8>>, buffer_len: i32) -> (c: i32)
    requires
        buffer matches Some(b) ==> buffer_len <= b@.len(),
    ensures
        (buffer is None || buffer_len < KEY_BUFFER_LEN) ==> c == CRYPT_ERR_INVALID_PARAM,
        buffer matches Some(b) ==> {
            &&& final(b)@.len() == b@.len()
            &&& c != CRYPT_SUCCESS ==> final(b)@ == b@
            &&& c == CRYPT_SUCCESS ==> {
                &&& buffer_len >= KEY_BUFFER_LEN
                &&& final(b)@[KEY_TEXT_LEN as int] == 0
                &&& forall|i: int| KEY_TEXT_LEN < i < final(b)@.len() ==> final(b)@[i] == b@[i]
                &&& exists|key: Seq<char>|
                    {
                        &&& key.len() == KEY_TEXT_LEN
                        &&& #[trigger] key_from_text(key) is Some
                        &&& forall|i: int|
                            0 <= i < KEY_TEXT_LEN ==> is_base64url_char(key[i]) && final(b)@[i]
                                == key[i] as u8
                    }
            }
        },
        buffer_len >= KEY_BUFFER_LEN && buffer is Some ==> (c == CRYPT_SUCCESS || c
            == CRYPT_ERR_MEMORY),
{
    match buffer {
        None => CRYPT_ERR_INVALID_PARAM,
        Some(b) => {
            if buffer_len < KEY_BUFFER_LEN {
                return CRYPT_ERR_INVALID_PARAM;
            }
            let key = match generate_random_key() {
                Ok(k) => k,
                Err(e) => {
                    return err_to_code(e);
                },
            };
            write_key_text(b, &key);
            assert(key_from_text(key@) is Some);
            CRYPT_SUCCESS
        },
    }
}

/// Stores 1 in `out` when `registered`, else 0; `CRYPT_ERR_INVALID_PARAM`
/// when there is no cell to store in.
pub fn store_registered(out: Option<&mut i32>, registered: bool) -> (c: i32)
    ensures
        out is None ==> c == CRYPT_ERR_INVALID_PARAM,
        out matches Some(o) ==> c == CRYPT_SUCCESS && *final(o) == if registered {
            1i32
        } else {
            0i32
        },
{
    match out {
        None => CRYPT_ERR_INVALID_PARAM,
        Some(o) => {
            *o = if registered {
                1
            } else {
                0
            };
            CRYPT_SUCCESS
        },
    }
}

/// Stores 1 in `out` when the menu entries are registered, else 0;
/// `CRYPT_ERR_INVALID_PARAM` when there is no cell to store in.
pub fn crypt_context_menu_registered(out: Option<&mut i32>) -> (c: i32)
    ensures
        out is None ==> c == CRYPT_ERR_INVALID_PARAM,
        out matches Some(o) ==> c == CRYPT_SUCCESS && *final(o) == 0,
{
    let registered = is_registered();
    store_registered(out, registered)
}

/// Two C string arguments, both present; `InvalidParam` otherwise.
pub fn cstrs2(a: Option<String>, b: Option<String>) -> (r: Result<(String, String), CryptError>)
    ensures
        match (a, b) {
            (Some(x), Some(y)) => r matches Ok(t) && t.0@ == x@ && t.1@ == y@,
            _ => r matches Err(e) && e.kind() == ErrorKind::InvalidParam,
        },
{
    match (a, b) {
        (Some(x), Some(y)) => Ok((x, y)),
        _ => Err(CryptError::InvalidParam),
    }
}

/// The four C string arguments of menu registration, all present;
/// `InvalidParam` otherwise.
pub fn cstrs4(a: Option<String>, b: Option<String>, c: Option<String>, d: Option<String>) -> (r:
    Result<(String, String, String, String), CryptError>)
    ensures
        match (a, b, c, d) {
            (Some(w), Some(x), Some(y), Some(z)) => r matches Ok(t) && t.0@ == w@ && t.1@ == x@
                && t.2@ == y@ && t.3@ == z@,
            _ => r matches Err(e) && e.kind() == ErrorKind::InvalidParam,
        },
{
    match (a, b, c, d) {
        (Some(w), Some(x), Some(y), Some(z)) => Ok((w, x, y, z)),
        _ => Err(CryptError::InvalidParam),
    }
}

/// Registers the menu entries; `CRYPT_ERR_INVALID_PARAM` when an argument
/// is missing.
pub fn crypt_register_context_menu(
    exe_path: Option<String>,
    script_path: Option<String>,
    encrypt_label: Option<String>,
    decrypt_label: Option<String>,
) -> (c: i32)
    ensures
        (exe_path is None || script_path is None || encrypt_label is None || decrypt_label is None)
            ==> c == CRYPT_ERR_INVALID_PARAM,
        (exe_path is Some && script_path is Some && encrypt_label is Some && decrypt_label is Some)
            ==> c == CRYPT_ERR_UNSUPPORTED,
{
    match cstrs4(exe_path, script_path, encrypt_label, decrypt_label) {
        Ok((exe, script, enc, dec)) => result_code(
            register(exe.as_str(), script.as_str(), enc.as_str(), dec.as_str()),
        ),
        Err(e) => err_to_code(e),
    }
}

/// Removes the menu entries.
pub fn crypt_unregister_context_menu() -> (c: i32)
    ensures
        c == CRYPT_ERR_UNSUPPORTED,
{
    result_code(unregister())
}

} // verus!
