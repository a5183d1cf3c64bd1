use rust_core::error::CryptError;
use rust_core::registry::{
    build_cmd, is_registered, register, registered_probe_key, registration_plan, unregister,
    unregister_action, unregister_advance, unregister_next, unregister_start,
    unregistration_key_list, RegistryOutcome, UnregisterState, UnregisterStep,
};
use std::collections::BTreeSet;

#[test]
fn command_line_without_script() {
    assert_eq!(build_cmd("C:\\a.exe", "", "encrypt"), "\"C:\\a.exe\" --encrypt \"%1\"");
}

#[test]
fn command_line_with_script() {
    assert_eq!(
        build_cmd("py.exe", "C:\\m.py", "decrypt"),
        "\"py.exe\" \"C:\\m.py\" --decrypt \"%1\""
    );
}

#[test]
fn plan_lists_all_values() {
    let plan = registration_plan(true, "x.exe", "", "Enc", "Dec").unwrap();
    assert_eq!(plan.len(), 7);
    assert_eq!(plan[0].key, "*\\shell\\{8A2C5B1E-3D4F-4A6B-9C8D-1E2F3A4B5C6D}");
    assert_eq!(plan[0].name, "");
    assert_eq!(plan[0].data, "Enc");
    assert_eq!(plan[2].name, "Exclude");
    assert_eq!(plan[2].data, ".ocrypt");
    assert_eq!(plan[3].key, "*\\shell\\{8A2C5B1E-3D4F-4A6B-9C8D-1E2F3A4B5C6D}\\command");
    assert_eq!(plan[3].data, "\"x.exe\" --encrypt \"%1\"");
    assert_eq!(plan[6].key, ".ocrypt\\shell\\{9B3D6C2F-4E5A-5B7C-0D9E-2F3A4B5C6D7E}\\command");
    assert_eq!(plan[6].data, "\"x.exe\" --decrypt \"%1\"");
}

#[test]
fn plan_needs_existing_program() {
    assert!(matches!(registration_plan(false, "x.exe", "", "E", "D"), Err(CryptError::InputInvalid)));
}

#[test]
fn unregistration_visits_four_keys() {
    let keys = unregistration_key_list();
    assert_eq!(keys.len(), 4);
    assert_eq!(keys[1], ".ocrypt\\shell\\{8A2C5B1E-3D4F-4A6B-9C8D-1E2F3A4B5C6D}");
    assert_eq!(registered_probe_key(), "Software\\Classes\\*\\shell\\{8A2C5B1E-3D4F-4A6B-9C8D-1E2F3A4B5C6D}\\command");
}

#[test]
fn unregistration_tolerates_missing_keys() {
    assert!(matches!(unregister_next(UnregisterStep::OpenKey, RegistryOutcome::NotFound), Ok(None)));
    assert!(matches!(
        unregister_next(UnregisterStep::OpenKey, RegistryOutcome::Done),
        Ok(Some(UnregisterStep::DeleteCommand))
    ));
    assert!(matches!(
        unregister_next(UnregisterStep::DeleteCommand, RegistryOutcome::NotFound),
        Ok(Some(UnregisterStep::DeleteKey))
    ));
    assert!(matches!(unregister_next(UnregisterStep::DeleteKey, RegistryOutcome::Done), Ok(None)));
    let e = std::io::Error::from(std::io::ErrorKind::PermissionDenied);
    assert!(matches!(unregister_next(UnregisterStep::DeleteKey, RegistryOutcome::Failed(e)), Err(CryptError::Io(_))));
}

#[test]
fn portable_build_has_no_context_menu() {
    assert!(matches!(register("x.exe", "", "E", "D"), Err(CryptError::Unsupported)));
    assert!(matches!(unregister(), Err(CryptError::Unsupported)));
    assert!(!is_registered());
}

/// Runs unregistration against a set of key paths, as the registry would
/// answer; returns the operations made and the key paths left.
fn run_unregistration(mut keys: BTreeSet<String>) -> (Vec<(String, UnregisterStep)>, BTreeSet<String>) {
    let mut ops = Vec::new();
    let mut state = unregister_start();
    while let Some((key, step)) = unregister_action(&state) {
        ops.push((key.clone(), step));
        let command = format!("{}\\command", key);
        let found = match step {
            UnregisterStep::OpenKey => keys.contains(&key),
            UnregisterStep::DeleteCommand => {
                let found = keys.contains(&command);
                keys.retain(|p| p != &command && !p.starts_with(&format!("{}\\", command)));
                found
            }
            UnregisterStep::DeleteKey => keys.remove(&key),
        };
        let outcome = if found { RegistryOutcome::Done } else { RegistryOutcome::NotFound };
        state = unregister_advance(state, outcome).unwrap();
    }
    (ops, keys)
}

#[test]
fn unregistration_run_removes_menu_and_keeps_the_rest() {
    let enc = "*\\shell\\{8A2C5B1E-3D4F-4A6B-9C8D-1E2F3A4B5C6D}".to_string();
    let dec = ".ocrypt\\shell\\{9B3D6C2F-4E5A-5B7C-0D9E-2F3A4B5C6D7E}".to_string();
    let mut keys = BTreeSet::new();
    for k in ["*", "*\\shell", ".ocrypt", ".ocrypt\\shell", "*\\shell\\open", "*\\shell\\open\\command"] {
        keys.insert(k.to_string());
    }
    let before = keys.clone();
    keys.insert(enc.clone());
    keys.insert(format!("{}\\command", enc));
    keys.insert(format!("{}\\command\\extra", enc));
    keys.insert(dec.clone());
    keys.insert(format!("{}\\command", dec));
    let (ops, after) = run_unregistration(keys);
    assert_eq!(after, before);
    // Two keys present (three operations each), two absent (one each).
    assert_eq!(ops.len(), 8);
    assert_eq!(ops[0], (enc.clone(), UnregisterStep::OpenKey));
    assert_eq!(ops[1], (enc.clone(), UnregisterStep::DeleteCommand));
    assert_eq!(ops[2], (enc, UnregisterStep::DeleteKey));
    let (ops2, again) = run_unregistration(after.clone());
    assert_eq!(again, after);
    assert_eq!(ops2.len(), 4);
}

#[test]
fn unregistration_run_stops_at_a_failure() {
    let state = unregister_start();
    assert_eq!(state, UnregisterState { key_index: 0, step: UnregisterStep::OpenKey });
    let e = std::io::Error::from(std::io::ErrorKind::PermissionDenied);
    assert!(matches!(unregister_advance(state, RegistryOutcome::Failed(e)), Err(CryptError::Io(_))));
    let last = UnregisterState { key_index: 3, step: UnregisterStep::DeleteKey };
    let done = unregister_advance(last, RegistryOutcome::Done).unwrap();
    assert!(unregister_action(&done).is_none());
}

#[test]
fn register_then_unregister_restores_the_registry() {
    let mut keys = BTreeSet::new();
    for k in ["*", "*\\shell", ".ocrypt", ".ocrypt\\shell", "txtfile\\shell\\open"] {
        keys.insert(k.to_string());
    }
    let before = keys.clone();
    let plan = registration_plan(true, "C:\\oc.exe", "", "Encrypt", "Decrypt").unwrap();
    for value in &plan {
        // Creating a key creates every key above it.
        let parts: Vec<&str> = value.key.split('\\').collect();
        for end in 1..=parts.len() {
            keys.insert(parts[..end].join("\\"));
        }
    }
    let probe = registered_probe_key();
    assert!(keys.contains(probe.strip_prefix("Software\\Classes\\").unwrap()));
    let (_, after) = run_unregistration(keys);
    assert_eq!(after, before);
    assert!(!after.contains(probe.strip_prefix("Software\\Classes\\").unwrap()));
}
