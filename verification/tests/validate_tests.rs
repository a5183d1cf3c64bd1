use rust_core::error::CryptError;
use rust_core::validate::{check_output, norm, same_path, validate_paths, InputStatus, PathFacts, PathPart};

fn parts(path: &str) -> Vec<PathPart> {
    let mut v = vec![PathPart::Named("/".to_string())];
    for c in path.split('/').filter(|c| !c.is_empty()) {
        v.push(match c {
            "." => PathPart::Current,
            ".." => PathPart::Parent,
            other => PathPart::Named(other.to_string()),
        });
    }
    v
}

fn extension(path: &str) -> Option<String> {
    let name = path.rsplit('/').next().unwrap_or("");
    match name.rfind('.') {
        Some(i) if i > 0 => Some(name[i + 1..].to_string()),
        _ => None,
    }
}

fn facts(input: InputStatus, inp: &str, out: &str, out_exists: bool, parent_ok: bool) -> PathFacts {
    PathFacts {
        input,
        input_parts: parts(inp),
        output_parts: parts(out),
        output_exists: out_exists,
        input_extension: extension(inp),
        output_parent_usable: parent_ok,
    }
}

#[test]
fn valid_encrypt_and_decrypt_paths() {
    let f = facts(InputStatus::File, "/tmp/ok.bin", "/tmp/ok.ocrypt", false, true);
    assert!(validate_paths(f, false).is_ok());
    let f = facts(InputStatus::File, "/tmp/ok.ocrypt", "/tmp/ok2.bin", false, true);
    assert!(validate_paths(f, true).is_ok());
}

#[test]
fn missing_input_rejected() {
    let f = facts(InputStatus::Missing, "/tmp/nope.bin", "/tmp/out.ocrypt", false, true);
    let r = validate_paths(f, false);
    assert!(matches!(r, Err(CryptError::InputInvalid)));
}

#[test]
fn directory_input_rejected() {
    let f = facts(InputStatus::NotAFile, "/home/user", "/tmp/out.ocrypt", false, true);
    let r = validate_paths(f, false);
    assert!(matches!(r, Err(CryptError::InputInvalid)));
}

#[test]
fn existing_output_rejected() {
    let f = facts(InputStatus::File, "/tmp/in.bin", "/tmp/out.ocrypt", true, true);
    let r = validate_paths(f, false);
    assert!(matches!(r, Err(CryptError::OutputExists)));
}

#[test]
fn validate_same_path_rejected() {
    let f = facts(InputStatus::File, "/tmp/same.bin", "/tmp/same.bin", true, true);
    let r = validate_paths(f, false);
    assert!(matches!(r, Err(CryptError::InputInvalid)));
}

#[test]
fn wrong_extension_rejected() {
    let f = facts(InputStatus::File, "/tmp/a.txt", "/tmp/b.ocrypt", false, true);
    assert!(matches!(validate_paths(f, true), Err(CryptError::InputInvalid)));
    let f = facts(InputStatus::File, "/tmp/a.ocrypt", "/tmp/c.bin", false, true);
    assert!(matches!(validate_paths(f, false), Err(CryptError::InputInvalid)));
}

#[test]
fn missing_output_parent_rejected() {
    let f = facts(InputStatus::File, "/tmp/c.bin", "/tmp/opencrypt_nodir/out.ocrypt", false, false);
    let r = validate_paths(f, false);
    assert!(matches!(r, Err(CryptError::InputInvalid)));
}

#[test]
fn validate_rejects_missing_input() {
    let f = facts(InputStatus::Missing, "/tmp/missing.bin", "/tmp/out.ocrypt", false, true);
    let r = validate_paths(f, false);
    assert!(matches!(r, Err(CryptError::InputInvalid)));
}

#[test]
fn validate_rejects_existing_output() {
    let f = facts(InputStatus::File, "/tmp/vin.txt", "/tmp/vout.ocrypt", true, true);
    let r = validate_paths(f, false);
    assert!(matches!(r, Err(CryptError::OutputExists)));
}

#[test]
fn validate_rejects_same_path() {
    let f = facts(InputStatus::File, "/tmp/vsame.txt", "/tmp/vsame.txt", true, true);
    let r = validate_paths(f, false);
    assert!(matches!(r, Err(CryptError::InputInvalid)));
}

#[test]
fn validate_rejects_wrong_extension_for_decrypt() {
    let f = facts(InputStatus::File, "/tmp/vdec.txt", "/tmp/vdec_out.txt", false, true);
    let r = validate_paths(f, true);
    assert!(matches!(r, Err(CryptError::InputInvalid)));
}

#[test]
fn unreadable_input_is_io_error() {
    let e = std::io::Error::from(std::io::ErrorKind::PermissionDenied);
    let f = facts(InputStatus::Failed(e), "/tmp/locked.bin", "/tmp/out.ocrypt", false, true);
    let r = validate_paths(f, false);
    assert!(matches!(r, Err(CryptError::Io(_))));
}

#[test]
fn extension_case_is_ignored() {
    let f = facts(InputStatus::File, "/tmp/A.OCRYPT", "/tmp/a.bin", false, true);
    assert!(validate_paths(f, true).is_ok());
    let f = facts(InputStatus::File, "/tmp/A.OcRyPt", "/tmp/a.bin", false, true);
    assert!(matches!(validate_paths(f, false), Err(CryptError::InputInvalid)));
}

#[test]
fn input_checks_come_before_output_checks() {
    let f = facts(InputStatus::Missing, "/tmp/x.bin", "/tmp/x.bin", true, false);
    assert!(matches!(validate_paths(f, false), Err(CryptError::InputInvalid)));
    let f = facts(InputStatus::File, "/tmp/x.txt", "/tmp/y.txt", true, false);
    assert!(matches!(validate_paths(f, true), Err(CryptError::OutputExists)));
}

#[test]
fn norm_drops_dots_and_lowers_case() {
    assert_eq!(norm(&parts("/Tmp/./A/../b.TXT")), "/\\tmp\\b.txt");
    assert_eq!(norm(&parts("/../x")), "x");
    assert_eq!(norm(&Vec::new()), "");
}

#[test]
fn same_path_sees_through_spelling() {
    assert!(same_path(&parts("/tmp/a/../File.bin"), &parts("/TMP/./file.BIN")));
    assert!(!same_path(&parts("/tmp/a.bin"), &parts("/tmp/b.bin")));
    let p = parts("/tmp/x");
    assert!(same_path(&p, &p));
}

#[test]
fn crypto_same_path_rejected() {
    let p = parts("/tmp/sp.txt");
    let r = check_output(&p, &p, true);
    assert!(matches!(r, Err(CryptError::InputInvalid)));
}

#[test]
fn output_exists_rejected() {
    let r = check_output(&parts("/tmp/oe_in.txt"), &parts("/tmp/oe.ocrypt"), true);
    assert!(matches!(r, Err(CryptError::OutputExists)));
    assert!(check_output(&parts("/tmp/oe_in.txt"), &parts("/tmp/oe.ocrypt"), false).is_ok());
}

#[test]
fn encrypt_rejects_existing_output_and_preserves_it() {
    let r = check_output(&parts("/tmp/oe_in.txt"), &parts("/tmp/oe.ocrypt"), true);
    assert!(matches!(r, Err(CryptError::OutputExists)));
}

#[test]
fn encrypt_rejects_same_path() {
    let p = parts("/tmp/sp.txt");
    let r = check_output(&p, &parts("/tmp/./sp.txt"), false);
    assert!(matches!(r, Err(CryptError::InputInvalid)));
}
