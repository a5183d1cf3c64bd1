use rust_core::crypto;
use rust_core::error::CryptError;
use rust_core::ffi::{
    crypt_context_menu_registered, crypt_generate_random_key, crypt_register_context_menu,
    crypt_unregister_context_menu, cstrs, cstrs2, cstrs4, err_to_code, password_check_code,
    result_code, store_registered, write_key_text,
};
use rust_core::validate::{validate_paths, InputStatus, PathFacts, PathPart};

const SUCCESS: i32 = 0;
const INVALID_PASS: i32 = 3;
const INVALID_PARAM: i32 = 5;
const UNSUPPORTED: i32 = 7;
const OUTPUT_EXISTS: i32 = 8;
const INPUT_INVALID: i32 = 9;

fn code<T>(r: Result<T, CryptError>) -> i32 {
    match r {
        Ok(_) => SUCCESS,
        Err(e) => err_to_code(e),
    }
}

fn tmp_parts(name: &str) -> Vec<PathPart> {
    vec![
        PathPart::Named("/".to_string()),
        PathPart::Named("tmp".to_string()),
        PathPart::Named(name.to_string()),
    ]
}

fn path_facts(input: InputStatus, inp: &str, out: &str, ext: &str, out_exists: bool) -> PathFacts {
    PathFacts {
        input,
        input_parts: tmp_parts(inp),
        output_parts: tmp_parts(out),
        output_exists: out_exists,
        input_extension: Some(ext.to_string()),
        output_parent_usable: true,
    }
}

#[test]
fn ffi_encrypt_decrypt_roundtrip() {
    let data = vec![7u8; 12345];
    let enc = crypto::encrypt_file(&data, "pw123");
    assert_eq!(code(crypto::encrypt_file(&data, "pw123")), SUCCESS);
    let enc = enc.unwrap();
    let dec = crypto::decrypt_file(&enc, "pw123");
    assert_eq!(code(crypto::decrypt_file(&enc, "pw123")), SUCCESS);
    assert_eq!(dec.unwrap(), vec![7u8; 12345]);
}

#[test]
fn ffi_wrong_password_fails() {
    let enc = crypto::encrypt_file(b"data", "right");
    assert_eq!(code(crypto::encrypt_file(b"data", "right")), SUCCESS);
    let enc = enc.unwrap();
    assert_eq!(code(crypto::decrypt_file(&enc, "wrong")), INVALID_PASS);
}

#[test]
fn ffi_verify_password_ok_and_fail() {
    let enc = crypto::encrypt_file(b"data", "pass").unwrap();
    assert_eq!(password_check_code(crypto::verify_password(&enc, "pass")), SUCCESS);
    assert_eq!(password_check_code(crypto::verify_password(&enc, "nope")), INVALID_PASS);
}

#[test]
fn ffi_validate_paths_codes() {
    let f = path_facts(InputStatus::Missing, "missing.bin", "out.ocrypt", "bin", false);
    assert_eq!(code(validate_paths(f, false)), INPUT_INVALID);
    let f = path_facts(InputStatus::File, "vin.txt", "out.ocrypt", "txt", false);
    assert_eq!(code(validate_paths(f, false)), SUCCESS);
    let f = path_facts(InputStatus::File, "vin.txt", "out.ocrypt", "txt", true);
    assert_eq!(code(validate_paths(f, false)), OUTPUT_EXISTS);
    let f = path_facts(InputStatus::File, "vin.txt", "vin.txt", "txt", true);
    assert_eq!(code(validate_paths(f, false)), INPUT_INVALID);
}

#[test]
fn ffi_generate_random_key_returns_null_terminated_string() {
    let mut buf = vec![0u8; 64];
    assert_eq!(crypt_generate_random_key(Some(&mut buf), 64), SUCCESS);
    let len = buf.iter().position(|&b| b == 0).expect("null terminator");
    assert_eq!(len, 43);
}

#[test]
fn ffi_generate_random_key_short_buffer_fails() {
    let mut buf = vec![0u8; 10];
    assert_eq!(crypt_generate_random_key(Some(&mut buf), 10), INVALID_PARAM);
}

#[test]
fn ffi_null_pointer_is_invalid_param() {
    let code = match cstrs(None, None, None) {
        Ok(_) => SUCCESS,
        Err(e) => err_to_code(e),
    };
    assert_eq!(code, INVALID_PARAM);
}

#[test]
fn ffi_context_menu_register_unregister() {
    let code = crypt_register_context_menu(
        Some("C:\\Windows\\System32\\notepad.exe".to_string()),
        Some("".to_string()),
        Some("Encrypt".to_string()),
        Some("Decrypt".to_string()),
    );
    assert_eq!(code, UNSUPPORTED);
}

#[test]
fn ffi_context_menu_registered_null_out_fails() {
    assert_eq!(crypt_context_menu_registered(None), INVALID_PARAM);
}

#[test]
fn generate_key_missing_buffer_is_invalid_param() {
    assert_eq!(crypt_generate_random_key(None, 64), INVALID_PARAM);
}

#[test]
fn generate_key_buffer_of_44_is_enough() {
    let mut buf = vec![0xAAu8; 50];
    assert_eq!(crypt_generate_random_key(Some(&mut buf), 44), SUCCESS);
    assert_eq!(buf[43], 0);
    assert!(buf[..43].iter().all(|&b| b.is_ascii_alphanumeric() || b == b'-' || b == b'_'));
    assert!(buf[44..].iter().all(|&b| b == 0xAA));
}

#[test]
fn short_buffer_is_left_untouched() {
    let mut buf = vec![0x55u8; 43];
    assert_eq!(crypt_generate_random_key(Some(&mut buf), 43), INVALID_PARAM);
    assert!(buf.iter().all(|&b| b == 0x55));
}

#[test]
fn context_menu_registered_reports_zero() {
    let mut out = 1i32;
    assert_eq!(crypt_context_menu_registered(Some(&mut out)), SUCCESS);
    assert_eq!(out, 0);
}

#[test]
fn register_with_missing_argument_is_invalid_param() {
    let r = crypt_register_context_menu(
        Some("a.exe".to_string()),
        None,
        Some("E".to_string()),
        Some("D".to_string()),
    );
    assert_eq!(r, INVALID_PARAM);
}

#[test]
fn unregister_is_unsupported_here() {
    assert_eq!(crypt_unregister_context_menu(), UNSUPPORTED);
}

#[test]
fn every_error_has_its_documented_code() {
    let io = CryptError::Io(std::io::Error::from(std::io::ErrorKind::NotFound));
    assert_eq!(err_to_code(io), 1);
    assert_eq!(err_to_code(CryptError::InvalidFormat), 2);
    assert_eq!(err_to_code(CryptError::InvalidPassword), 3);
    assert_eq!(err_to_code(CryptError::Memory), 4);
    assert_eq!(err_to_code(CryptError::InvalidParam), 5);
    assert_eq!(err_to_code(CryptError::Unsupported), 7);
    assert_eq!(err_to_code(CryptError::OutputExists), 8);
    assert_eq!(err_to_code(CryptError::InputInvalid), 9);
    assert_eq!(result_code(Ok(())), 0);
}

#[test]
fn cstrs_passes_present_arguments_through() {
    let r = cstrs(Some("a".to_string()), Some("b".to_string()), Some("c".to_string())).unwrap();
    assert_eq!(r, ("a".to_string(), "b".to_string(), "c".to_string()));
    assert!(matches!(cstrs(Some("a".to_string()), None, Some("c".to_string())), Err(CryptError::InvalidParam)));
}

#[test]
fn stored_flag_follows_registration_state() {
    let mut out = 7i32;
    assert_eq!(store_registered(Some(&mut out), true), SUCCESS);
    assert_eq!(out, 1);
    assert_eq!(store_registered(Some(&mut out), false), SUCCESS);
    assert_eq!(out, 0);
    assert_eq!(store_registered(None, true), INVALID_PARAM);
}

#[test]
fn argument_pairs_and_quadruples_need_every_argument() {
    assert!(cstrs2(Some("a".to_string()), Some("b".to_string())).is_ok());
    assert!(matches!(cstrs2(None, Some("b".to_string())), Err(CryptError::InvalidParam)));
    let s = || Some("x".to_string());
    assert!(cstrs4(s(), s(), s(), s()).is_ok());
    assert!(matches!(cstrs4(s(), s(), s(), None), Err(CryptError::InvalidParam)));
}

#[test]
fn key_text_is_written_with_terminator() {
    let key = crypto::encode_key(&[0u8; 32]);
    let mut buf = vec![0x11u8; 48];
    write_key_text(&mut buf, &key);
    assert!(buf[..43].iter().all(|&b| b == b'A'));
    assert_eq!(buf[43], 0);
    assert!(buf[44..].iter().all(|&b| b == 0x11));
}
