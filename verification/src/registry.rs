//! The Explorer context-menu entries ("Encrypt with OpenCrypt" on every
//! file, "Decrypt with OpenCrypt" on `.ocrypt` files).
//!
//! The entries live in the Windows registry under
//! `HKEY_CURRENT_USER\Software\Classes`.  This module decides what is written
//! and removed there; writing is the caller's (it needs the registry of the
//! host).  Where there is no such registry, [`register`], [`unregister`] and
//! [`is_registered`] answer as the platform requires.
use crate::error::{CryptError, ErrorKind};
use vstd::prelude::*;
use vstd::string::StringExecFns;

verus! {

/// Class of the "encrypt" shell verb.
pub const ENCRYPT_GUID: &'static str = "{8A2C5B1E-3D4F-4A6B-9C8D-1E2F3A4B5C6D}";

/// Class of the "decrypt" shell verb.
pub const DECRYPT_GUID: &'static str = "{9B3D6C2F-4E5A-5B7C-0D9E-2F3A4B5C6D7E}";

/// Key under `HKEY_CURRENT_USER` that holds the classes.
pub const CLASSES_KEY: &'static str = "Software\\Classes";

/// The command line that Explorer runs for a verb: the program quoted, the
/// script quoted when there is one, the flag, and the file (`%1`) quoted.
pub open spec fn command_line(exe: Seq<char>, script: Seq<char>, flag: Seq<char>) -> Seq<char> {
    if script.len() == 0 {
        "\""@ + exe + "\" --"@ + flag + " \"%1\""@
    } else {
        "\""@ + exe + "\" \""@ + script + "\" --"@ + flag + " \"%1\""@
    }
}

/// The command line that Explorer runs for a verb.
pub fn build_cmd(exe: &str, script: &str, flag: &str) -> (s: String)
    ensures
        s@ == command_line(exe@, script@, flag@),
{
    let mut s = String::from_str("\"");
    s.append(exe);
    if script.unicode_len() == 0 {
        s.append("\" --");
    } else {
        s.append("\" \"");
        s.append(script);
        s.append("\" --");
    }
    s.append(flag);
    s.append(" \"%1\"");
    s
}

/// A value that registration writes: the key below [`CLASSES_KEY`], the
/// value's name (empty for the key's default value), and its data.
pub struct RegistryValue {
    pub key: String,
    pub name: String,
    pub data: String,
}

impl View for RegistryValue {
    type V = (Seq<char>, Seq<char>, Seq<char>);

    open spec fn view(&self) -> (Seq<char>, Seq<char>, Seq<char>) {
        (self.key@, self.name@, self.data@)
    }
}

/// Key of the "encrypt" verb, offered on every file.
pub open spec fn encrypt_key() -> Seq<char> {
    "*\\shell\\"@ + ENCRYPT_GUID@
}

/// Key of the "decrypt" verb, offered on `.ocrypt` files.
pub open spec fn decrypt_key() -> Seq<char> {
    ".ocrypt\\shell\\"@ + DECRYPT_GUID@
}

/// Subkey of a verb that holds its command line.
pub open spec fn command_key(verb: Seq<char>) -> Seq<char> {
    verb + "\\command"@
}

/// The values that registration writes, in order.
pub open spec fn registration_values(
    exe: Seq<char>,
    script: Seq<char>,
    encrypt_label: Seq<char>,
    decrypt_label: Seq<char>,
) -> Seq<(Seq<char>, Seq<char>, Seq<char>)> {
    seq![
        (encrypt_key(), Seq::empty(), encrypt_label),
        (encrypt_key(), "Icon"@, exe),
        (encrypt_key(), "Exclude"@, ".ocrypt"@),
        (command_key(encrypt_key()), Seq::empty(), command_line(exe, script, "encrypt"@)),
        (decrypt_key(), Seq::empty(), decrypt_label),
        (decrypt_key(), "Icon"@, exe),
        (command_key(decrypt_key()), Seq::empty(), command_line(exe, script, "decrypt"@)),
    ]
}

/// The text of `s` followed by the text of `t`.
fn joined2(s: &str, t: &str) -> (r: String)
    ensures
        r@ == s@ + t@,
{
    let mut r = String::from_str(s);
    r.append(t);
    r
}

/// A registry value.
fn value(key: &str, name: &str, data: &str) -> (v: RegistryValue)
    ensures
        v@ == (key@, name@, data@),
{
    RegistryValue {
        key: String::from_str(key),
        name: String::from_str(name),
        data: String::from_str(data),
    }
}

/// The values that registration of the menu entries writes, once the
/// program at `exe` is known to exist; `InputInvalid` when it does not.
pub fn registration_plan(
    exe_exists: bool,
    exe: &str,
    script: &str,
    encrypt_label: &str,
    decrypt_label: &str,
) -> (r: Result<Vec<RegistryValue>, CryptError>)
    ensures
        !exe_exists ==> (r matches Err(e) && e.kind() == ErrorKind::InputInvalid),
        exe_exists ==> (r matches Ok(values) && values@.len() == 7 && forall|i: int|
            0 <= i < 7 ==> #[trigger] values@[i]@ == registration_values(
                exe@,
                script@,
                encrypt_label@,
                decrypt_label@,
            )[i]),
{
    if !exe_exists {
        return Err(CryptError::InputInvalid);
    }
    let enc_key = joined2("*\\shell\\", ENCRYPT_GUID);
    let enc_cmd_key = joined2(enc_key.as_str(), "\\command");
    let dec_key = joined2(".ocrypt\\shell\\", DECRYPT_GUID);
    let dec_cmd_key = joined2(dec_key.as_str(), "\\command");
    let enc_cmd = build_cmd(exe, script, "encrypt");
    let dec_cmd = build_cmd(exe, script, "decrypt");
    let mut values: Vec<RegistryValue> = Vec::new();
    values.push(value(enc_key.as_str(), "", encrypt_label));
    values.push(value(enc_key.as_str(), "Icon", exe));
    values.push(value(enc_key.as_str(), "Exclude", ".ocrypt"));
    values.push(value(enc_cmd_key.as_str(), "", enc_cmd.as_str()));
    values.push(value(dec_key.as_str(), "", decrypt_label));
    values.push(value(dec_key.as_str(), "Icon", exe));
    values.push(value(dec_cmd_key.as_str(), "", dec_cmd.as_str()));
    proof {
        reveal_strlit("");
        let expected = registration_values(exe@, script@, encrypt_label@, decrypt_label@);
        assert(values@[0]@ == expected[0]);
        assert(values@[1]@ == expected[1]);
        assert(values@[2]@ == expected[2]);
        assert(values@[3]@ == expected[3]);
        assert(values@[4]@ == expected[4]);
        assert(values@[5]@ == expected[5]);
        assert(values@[6]@ == expected[6]);
    }
    Ok(values)
}

/// Each verb carries its own label.  Registration writes exactly one
/// default value on each of the two verb keys: the encrypt label on the
/// "encrypt" verb and the decrypt label on the "decrypt" verb.  What it
/// writes under the "decrypt" verb (its key and its command) does not
/// depend on the encrypt label, and what it writes under the "encrypt" verb
/// does not depend on the decrypt label.
pub proof fn lemma_labels_on_their_verbs(
    exe: Seq<char>,
    script: Seq<char>,
    encrypt_label: Seq<char>,
    decrypt_label: Seq<char>,
    other_label: Seq<char>,
)
    ensures
        ({
            let values = registration_values(exe, script, encrypt_label, decrypt_label);
            &&& exists|i: int|
                0 <= i < values.len() && (#[trigger] values[i]).0 == encrypt_key() && values[i].1
                    == Seq::<char>::empty()
            &&& exists|i: int|
                0 <= i < values.len() && (#[trigger] values[i]).0 == decrypt_key() && values[i].1
                    == Seq::<char>::empty()
            &&& forall|i: int|
                0 <= i < values.len() && (#[trigger] values[i]).0 == encrypt_key() && values[i].1
                    == Seq::<char>::empty() ==> values[i].2 == encrypt_label
            &&& forall|i: int|
                0 <= i < values.len() && (#[trigger] values[i]).0 == decrypt_key() && values[i].1
                    == Seq::<char>::empty() ==> values[i].2 == decrypt_label
        }),
        forall|i: int|
            0 <= i < 7 && ((#[trigger] registration_values(
                exe,
                script,
                encrypt_label,
                decrypt_label,
            )[i]).0 == decrypt_key() || registration_values(
                exe,
                script,
                encrypt_label,
                decrypt_label,
            )[i].0 == command_key(decrypt_key())) ==> registration_values(
                exe,
                script,
                encrypt_label,
                decrypt_label,
            )[i] == registration_values(exe, script, other_label, decrypt_label)[i],
        forall|i: int|
            0 <= i < 7 && ((#[trigger] registration_values(
                exe,
                script,
                encrypt_label,
                decrypt_label,
            )[i]).0 == encrypt_key() || registration_values(
                exe,
                script,
                encrypt_label,
                decrypt_label,
            )[i].0 == command_key(encrypt_key())) ==> registration_values(
                exe,
                script,
                encrypt_label,
                decrypt_label,
            )[i] == registration_values(exe, script, encrypt_label, other_label)[i],
{
    reveal_strlit("*\\shell\\");
    reveal_strlit(".ocrypt\\shell\\");
    reveal_strlit("\\command");
    reveal_strlit("Icon");
    reveal_strlit("Exclude");
    let values = registration_values(exe, script, encrypt_label, decrypt_label);
    assert(encrypt_key()[0] != decrypt_key()[0]);
    assert(encrypt_key() != decrypt_key());
    assert(command_key(encrypt_key()).len() != encrypt_key().len());
    assert(command_key(decrypt_key()).len() != decrypt_key().len());
    assert(command_key(encrypt_key())[0] != decrypt_key()[0]);
    assert(command_key(decrypt_key())[0] != encrypt_key()[0]);
    assert(command_key(encrypt_key())[0] != command_key(decrypt_key())[0]);
    assert("Icon"@.len() == 4 && "Exclude"@.len() == 7);
    assert(values[0].0 == encrypt_key() && values[0].1 == Seq::<char>::empty());
    assert(values[4].0 == decrypt_key() && values[4].1 == Seq::<char>::empty());
}

/// The verb keys that unregistration removes, in order: each of the two
/// classes under each of the two places where a verb can be registered.
pub open spec fn unregistration_keys() -> Seq<Seq<char>> {
    seq![
        "*\\shell\\"@ + ENCRYPT_GUID@,
        ".ocrypt\\shell\\"@ + ENCRYPT_GUID@,
        "*\\shell\\"@ + DECRYPT_GUID@,
        ".ocrypt\\shell\\"@ + DECRYPT_GUID@,
    ]
}

/// The verb keys that unregistration removes, in order.
pub fn unregistration_key_list() -> (keys: Vec<String>)
    ensures
        keys@.len() == 4,
        forall|i: int| 0 <= i < 4 ==> #[trigger] keys@[i]@ == unregistration_keys()[i],
{
    let mut keys: Vec<String> = Vec::new();
    keys.push(joined2("*\\shell\\", ENCRYPT_GUID));
    keys.push(joined2(".ocrypt\\shell\\", ENCRYPT_GUID));
    keys.push(joined2("*\\shell\\", DECRYPT_GUID));
    keys.push(joined2(".ocrypt\\shell\\", DECRYPT_GUID));
    keys
}

/// The key whose presence under `HKEY_CURRENT_USER` means that the menu
/// entries are registered: the command of the "encrypt" verb.
pub fn registered_probe_key() -> (k: String)
    ensures
        k@ == CLASSES_KEY@ + "\\"@ + command_key(encrypt_key()),
{
    let verb = joined2("*\\shell\\", ENCRYPT_GUID);
    let cmd = joined2(verb.as_str(), "\\command");
    let mut k = joined2(CLASSES_KEY, "\\");
    k.append(cmd.as_str());
    proof {
        assert(k@ =~= CLASSES_KEY@ + "\\"@ + command_key(encrypt_key()));
    }
    k
}

/// One registry operation of unregistration, made on one verb key.
#[derive(PartialEq, Eq, Structural, Clone, Copy, Debug)]
pub enum UnregisterStep {
    /// Open the verb key.
    OpenKey,
    /// Delete its `command` subkey and everything below it.
    DeleteCommand,
    /// Delete the verb key itself.
    DeleteKey,
}

/// How a registry operation ended.
pub enum RegistryOutcome {
    Done,
    NotFound,
    Failed(std::io::Error),
}

/// The step that follows `step` on the same verb key when the registry
/// operation succeeded (`found`) or found nothing there; `None` when the key
/// is done.  A key that is not there is skipped, and a missing subkey or
/// key is not an error.
pub open spec fn step_after(step: UnregisterStep, found: bool) -> Option<UnregisterStep> {
    match step {
        UnregisterStep::OpenKey => if found {
            Some(UnregisterStep::DeleteCommand)
        } else {
            None
        },
        UnregisterStep::DeleteCommand => Some(UnregisterStep::DeleteKey),
        UnregisterStep::DeleteKey => None,
    }
}

/// What unregistration does next, after `step` on a verb key ended with
/// `outcome`: the next step on the same key, `None` to go on with the next
/// key, or the error that ends unregistration.
pub fn unregister_next(step: UnregisterStep, outcome: RegistryOutcome) -> (r: Result<
    Option<UnregisterStep>,
    CryptError,
>)
    ensures
        outcome matches RegistryOutcome::Failed(e) ==> r == Err::<Option<UnregisterStep>, CryptError>(
            CryptError::Io(e),
        ),
        !(outcome is Failed) ==> r == Ok::<Option<UnregisterStep>, CryptError>(
            step_after(step, outcome is Done),
        ),
{
    match outcome {
        RegistryOutcome::Failed(e) => Err(CryptError::Io(e)),
        RegistryOutcome::NotFound => match step {
            UnregisterStep::OpenKey => Ok(None),
            UnregisterStep::DeleteCommand => Ok(Some(UnregisterStep::DeleteKey)),
            UnregisterStep::DeleteKey => Ok(None),
        },
        RegistryOutcome::Done => match step {
            UnregisterStep::OpenKey => Ok(Some(UnregisterStep::DeleteCommand)),
            UnregisterStep::DeleteCommand => Ok(Some(UnregisterStep::DeleteKey)),
            UnregisterStep::DeleteKey => Ok(None),
        },
    }
}

/// Where unregistration stands: the verb key it works on, as an index into
/// [`unregistration_keys`] (4 once all are done), and the operation due on
/// that key.
#[derive(PartialEq, Eq, Structural, Clone, Copy, Debug)]
pub struct UnregisterState {
    pub key_index: usize,
    pub step: UnregisterStep,
}

/// The state after `st`, when its operation succeeded (`found`) or found
/// nothing: the next operation on the same key, or the first one on the
/// next key.
pub open spec fn state_after(st: UnregisterState, found: bool) -> UnregisterState {
    match step_after(st.step, found) {
        Some(step) => UnregisterState { key_index: st.key_index, step },
        None => UnregisterState { key_index: (st.key_index + 1) as usize, step: UnregisterStep::OpenKey },
    }
}

/// The state in which unregistration begins: the first verb key, to be
/// opened.
pub open spec fn start_state() -> UnregisterState {
    UnregisterState { key_index: 0, step: UnregisterStep::OpenKey }
}

/// The state in which unregistration begins.
pub fn unregister_start() -> (st: UnregisterState)
    ensures
        st == start_state(),
{
    UnregisterState { key_index: 0, step: UnregisterStep::OpenKey }
}

/// The registry operation due in `st`: the verb key (below [`CLASSES_KEY`])
/// and what to do with it; `None` when unregistration is over.
pub fn unregister_action(st: &UnregisterState) -> (a: Option<(String, UnregisterStep)>)
    ensures
        st.key_index < 4 ==> (a matches Some((key, step)) && key@ == unregistration_keys()[
            st.key_index as int
        ] && step == st.step),
        st.key_index >= 4 ==> a is None,
{
    let key = if st.key_index == 0 {
        joined2("*\\shell\\", ENCRYPT_GUID)
    } else if st.key_index == 1 {
        joined2(".ocrypt\\shell\\", ENCRYPT_GUID)
    } else if st.key_index == 2 {
        joined2("*\\shell\\", DECRYPT_GUID)
    } else if st.key_index == 3 {
        joined2(".ocrypt\\shell\\", DECRYPT_GUID)
    } else {
        return None;
    };
    Some((key, st.step))
}

/// The state after the operation due in `st` ended with `outcome`; a failed
/// operation ends unregistration with its error.
pub fn unregister_advance(st: UnregisterState, outcome: RegistryOutcome) -> (r: Result<
    UnregisterState,
    CryptError,
>)
    requires
        st.key_index < 4,
    ensures
        outcome matches RegistryOutcome::Failed(e) ==> r == Err::<UnregisterState, CryptError>(
            CryptError::Io(e),
        ),
        !(outcome is Failed) ==> r == Ok::<UnregisterState, CryptError>(
            state_after(st, outcome is Done),
        ),
{
    match unregister_next(st.step, outcome)? {
        Some(step) => Ok(UnregisterState { key_index: st.key_index, step }),
        None => Ok(UnregisterState { key_index: st.key_index + 1, step: UnregisterStep::OpenKey }),
    }
}

/// `path` is `key` or lies below it.
pub open spec fn is_under(path: Seq<char>, key: Seq<char>) -> bool {
    path == key || (path.len() > key.len() && path.subrange(0, key.len() as int) == key
        && path[key.len() as int] == '\\')
}

/// A registry operation of unregistration on the key paths below
/// [`CLASSES_KEY`] that exist, `keys`: whether it found what it acts on, and
/// the key paths that exist afterwards.  Opening changes nothing; deleting
/// the command removes it and everything below it; deleting the verb key
/// removes the key itself.
pub open spec fn registry_effect(keys: Set<Seq<char>>, verb: Seq<char>, step: UnregisterStep) -> (
    bool,
    Set<Seq<char>>,
) {
    match step {
        UnregisterStep::OpenKey => (keys.contains(verb), keys),
        UnregisterStep::DeleteCommand => (
            keys.contains(command_key(verb)),
            keys.filter(|p: Seq<char>| !is_under(p, command_key(verb))),
        ),
        UnregisterStep::DeleteKey => (keys.contains(verb), keys.remove(verb)),
    }
}

/// The key paths left after unregistration has run its steps, as
/// [`step_after`] chains them, on one verb key, with registry operations
/// that do not fail.
pub open spec fn unregister_key_effect(keys: Set<Seq<char>>, verb: Seq<char>) -> Set<Seq<char>> {
    let (found1, keys1) = registry_effect(keys, verb, UnregisterStep::OpenKey);
    match step_after(UnregisterStep::OpenKey, found1) {
        None => keys1,
        Some(step2) => {
            let (found2, keys2) = registry_effect(keys1, verb, step2);
            match step_after(step2, found2) {
                None => keys2,
                Some(step3) => {
                    let (found3, keys3) = registry_effect(keys2, verb, step3);
                    keys3
                },
            }
        },
    }
}

/// The key paths left after unregistration has run on each verb key of
/// `verbs` in turn.
pub open spec fn unregister_effect(keys: Set<Seq<char>>, verbs: Seq<Seq<char>>) -> Set<Seq<char>>
    decreases verbs.len(),
{
    if verbs.len() == 0 {
        keys
    } else {
        unregister_effect(unregister_key_effect(keys, verbs[0]), verbs.drop_first())
    }
}

/// Every key path below the command of a verb of `verbs` lies inside that
/// verb's key, which therefore exists (the registry is a tree).
pub open spec fn nested(keys: Set<Seq<char>>, verbs: Seq<Seq<char>>) -> bool {
    forall|i: int, p: Seq<char>|
        0 <= i < verbs.len() && is_under(p, command_key(verbs[i])) && #[trigger] keys.contains(p)
            ==> keys.contains(#[trigger] verbs[i])
}

/// No verb key of `verbs` lies below the command of another.
pub open spec fn separate(verbs: Seq<Seq<char>>) -> bool {
    forall|i: int, j: int|
        0 <= i < verbs.len() && 0 <= j < verbs.len() ==> !is_under(
            #[trigger] verbs[j],
            command_key(#[trigger] verbs[i]),
        )
}

/// Unregistration on one verb key: the key and everything below its
/// command are gone afterwards (provided the command exists only inside
/// the key), every other key path is kept, nothing is added, and a key
/// that is not there leaves everything as it was.
proof fn lemma_unregister_key_effect(keys: Set<Seq<char>>, verb: Seq<char>)
    requires
        forall|p: Seq<char>| is_under(p, command_key(verb)) && #[trigger] keys.contains(p)
            ==> keys.contains(verb),
    ensures
        !unregister_key_effect(keys, verb).contains(verb),
        forall|p: Seq<char>|
            is_under(p, command_key(verb)) ==> !#[trigger] unregister_key_effect(keys, verb).contains(
                p,
            ),
        forall|p: Seq<char>|
            p != verb && !is_under(p, command_key(verb)) ==> (#[trigger] unregister_key_effect(
                keys,
                verb,
            ).contains(p) == keys.contains(p)),
        forall|p: Seq<char>| #[trigger] unregister_key_effect(keys, verb).contains(p) ==> keys.contains(p),
        !keys.contains(verb) ==> unregister_key_effect(keys, verb) == keys,
{
    let ck = command_key(verb);
    if keys.contains(verb) {
        let keys2 = keys.filter(|p: Seq<char>| !is_under(p, ck));
        assert(unregister_key_effect(keys, verb) == keys2.remove(verb));
    } else {
        assert(unregister_key_effect(keys, verb) == keys);
    }
}

/// A registry holding none of `verbs` is left as it is.
proof fn lemma_unregister_effect_absent(keys: Set<Seq<char>>, verbs: Seq<Seq<char>>)
    requires
        forall|i: int| 0 <= i < verbs.len() ==> !keys.contains(#[trigger] verbs[i]),
    ensures
        unregister_effect(keys, verbs) == keys,
    decreases verbs.len(),
{
    if verbs.len() > 0 {
        assert(!keys.contains(verbs[0]));
        assert(unregister_key_effect(keys, verbs[0]) == keys);
        let rest = verbs.drop_first();
        assert forall|i: int| 0 <= i < rest.len() implies !keys.contains(#[trigger] rest[i]) by {
            assert(rest[i] == verbs[i + 1]);
        }
        lemma_unregister_effect_absent(keys, rest);
    }
}

/// Unregistration over a list of verb keys, with registry operations that
/// do not fail: every verb key and everything below its command are gone,
/// every other key path is as it was, and running it again changes
/// nothing.
pub proof fn lemma_unregister_effect(keys: Set<Seq<char>>, verbs: Seq<Seq<char>>)
    requires
        nested(keys, verbs),
        separate(verbs),
    ensures
        forall|i: int|
            0 <= i < verbs.len() ==> !unregister_effect(keys, verbs).contains(#[trigger] verbs[i]),
        forall|i: int, p: Seq<char>|
            0 <= i < verbs.len() && #[trigger] is_under(p, command_key(verbs[i]))
                ==> !unregister_effect(keys, verbs).contains(p),
        forall|p: Seq<char>|
            (forall|i: int|
                0 <= i < verbs.len() ==> p != #[trigger] verbs[i] && !is_under(
                    p,
                    command_key(verbs[i]),
                )) ==> (#[trigger] unregister_effect(keys, verbs).contains(p) == keys.contains(p)),
        forall|p: Seq<char>| #[trigger] unregister_effect(keys, verbs).contains(p) ==> keys.contains(p),
        unregister_effect(unregister_effect(keys, verbs), verbs) == unregister_effect(keys, verbs),
    decreases verbs.len(),
{
    let result = unregister_effect(keys, verbs);
    if verbs.len() == 0 {
        return;
    }
    let v0 = verbs[0];
    let rest = verbs.drop_first();
    assert forall|p: Seq<char>| is_under(p, command_key(v0)) && #[trigger] keys.contains(p)
        implies keys.contains(v0) by {
        assert(keys.contains(verbs[0]));
    }
    lemma_unregister_key_effect(keys, v0);
    let k1 = unregister_key_effect(keys, v0);
    assert forall|i: int, p: Seq<char>|
        0 <= i < rest.len() && is_under(p, command_key(rest[i])) && #[trigger] k1.contains(p)
        implies k1.contains(#[trigger] rest[i]) by {
        assert(rest[i] == verbs[i + 1]);
        assert(keys.contains(p));
        assert(keys.contains(verbs[i + 1]));
        if rest[i] == v0 {
            assert(false);
        } else {
            assert(!is_under(verbs[i + 1], command_key(verbs[0])));
        }
    }
    assert forall|i: int, j: int| 0 <= i < rest.len() && 0 <= j < rest.len() implies !is_under(
        #[trigger] rest[j],
        command_key(#[trigger] rest[i]),
    ) by {
        assert(rest[i] == verbs[i + 1] && rest[j] == verbs[j + 1]);
    }
    lemma_unregister_effect(k1, rest);
    assert(result == unregister_effect(k1, rest));
    assert forall|i: int| 0 <= i < verbs.len() implies !result.contains(#[trigger] verbs[i]) by {
        if i > 0 {
            assert(verbs[i] == rest[i - 1]);
        }
    }
    assert forall|i: int, p: Seq<char>|
        0 <= i < verbs.len() && #[trigger] is_under(p, command_key(verbs[i])) implies !result.contains(
        p,
    ) by {
        if i > 0 {
            assert(verbs[i] == rest[i - 1]);
        }
    }
    assert forall|p: Seq<char>|
        (forall|i: int|
            0 <= i < verbs.len() ==> p != #[trigger] verbs[i] && !is_under(
                p,
                command_key(verbs[i]),
            )) implies (#[trigger] result.contains(p) == keys.contains(p)) by {
        assert(p != verbs[0] && !is_under(p, command_key(verbs[0])));
        assert forall|i: int| 0 <= i < rest.len() implies p != #[trigger] rest[i] && !is_under(
            p,
            command_key(rest[i]),
        ) by {
            assert(rest[i] == verbs[i + 1]);
        }
    }
    lemma_unregister_effect_absent(result, verbs);
}

/// The four verb keys of the menu, each below the command of none.
pub proof fn lemma_unregistration_keys_separate()
    ensures
        separate(unregistration_keys()),
{
    reveal_strlit("*\\shell\\");
    reveal_strlit(".ocrypt\\shell\\");
    reveal_strlit("\\command");
    reveal_strlit("{8A2C5B1E-3D4F-4A6B-9C8D-1E2F3A4B5C6D}");
    reveal_strlit("{9B3D6C2F-4E5A-5B7C-0D9E-2F3A4B5C6D7E}");
    let verbs = unregistration_keys();
    assert forall|i: int, j: int| 0 <= i < verbs.len() && 0 <= j < verbs.len() implies !is_under(
        #[trigger] verbs[j],
        command_key(#[trigger] verbs[i]),
    ) by {
        assert(verbs[j].len() <= 52);
        assert(command_key(verbs[i]).len() >= 54);
    }
}

/// Unregistration of the menu, with registry operations that do not fail:
/// the four verb keys and their commands are gone, every other key path
/// below [`CLASSES_KEY`] is as it was, and unregistering again changes
/// nothing.
pub proof fn lemma_unregister_removes_menu(keys: Set<Seq<char>>)
    requires
        nested(keys, unregistration_keys()),
    ensures
        forall|i: int|
            0 <= i < 4 ==> !unregister_effect(keys, unregistration_keys()).contains(
                #[trigger] unregistration_keys()[i],
            ),
        forall|i: int, p: Seq<char>|
            0 <= i < 4 && #[trigger] is_under(p, command_key(unregistration_keys()[i]))
                ==> !unregister_effect(keys, unregistration_keys()).contains(p),
        forall|p: Seq<char>|
            (forall|i: int|
                0 <= i < 4 ==> p != #[trigger] unregistration_keys()[i] && !is_under(
                    p,
                    command_key(unregistration_keys()[i]),
                )) ==> (#[trigger] unregister_effect(keys, unregistration_keys()).contains(p)
                == keys.contains(p)),
        unregister_effect(unregister_effect(keys, unregistration_keys()), unregistration_keys())
            == unregister_effect(keys, unregistration_keys()),
{
    lemma_unregistration_keys_separate();
    lemma_unregister_effect(keys, unregistration_keys());
}

/// How many operations are left on a verb key after `step`, at most.
pub open spec fn step_rank(step: UnregisterStep) -> nat {
    match step {
        UnregisterStep::OpenKey => 2,
        UnregisterStep::DeleteCommand => 1,
        UnregisterStep::DeleteKey => 0,
    }
}

/// The key paths left when unregistration runs from `st` to its end, each
/// operation answering as the registry `keys` does and none failing: the
/// state moves as [`unregister_advance`] moves it.
pub open spec fn unregister_run(keys: Set<Seq<char>>, st: UnregisterState) -> Set<Seq<char>>
    decreases 4 - st.key_index, step_rank(st.step),
{
    if st.key_index >= 4 {
        keys
    } else {
        let (found, after) = registry_effect(
            keys,
            unregistration_keys()[st.key_index as int],
            st.step,
        );
        unregister_run(after, state_after(st, found))
    }
}

/// Running unregistration through the operations on one verb key leaves
/// what [`unregister_key_effect`] leaves, in the state that opens the next.
proof fn lemma_run_one_key(keys: Set<Seq<char>>, i: usize)
    requires
        i < 4,
    ensures
        unregister_run(keys, UnregisterState { key_index: i, step: UnregisterStep::OpenKey })
            == unregister_run(
            unregister_key_effect(keys, unregistration_keys()[i as int]),
            UnregisterState { key_index: (i + 1) as usize, step: UnregisterStep::OpenKey },
        ),
{
    reveal_with_fuel(unregister_run, 4);
}

/// Running unregistration from the first operation on key `i` leaves what
/// [`unregister_effect`] leaves over the keys from `i` on.
proof fn lemma_run_from(keys: Set<Seq<char>>, i: usize)
    requires
        i <= 4,
    ensures
        unregister_run(keys, UnregisterState { key_index: i, step: UnregisterStep::OpenKey })
            == unregister_effect(keys, unregistration_keys().skip(i as int)),
    decreases 4 - i,
{
    let verbs = unregistration_keys();
    if i == 4 {
        assert(verbs.skip(4).len() == 0);
    } else {
        lemma_run_one_key(keys, i);
        let k1 = unregister_key_effect(keys, verbs[i as int]);
        lemma_run_from(k1, (i + 1) as usize);
        let rest = verbs.skip(i as int);
        assert(rest[0] == verbs[i as int]);
        assert(rest.drop_first() =~= verbs.skip(i + 1));
    }
}

/// Unregistration run step by step from [`unregister_start`], with each
/// registry operation answering as the registry `keys` does and none
/// failing (so that every [`unregister_advance`] answers `Ok`): it leaves
/// exactly what [`unregister_effect`] leaves over the four verb keys.  So
/// the four verb keys and their commands are gone, every other key path is
/// as it was, a registry without the menu is left as it was, and running
/// it again changes nothing.
pub proof fn lemma_unregistration_run(keys: Set<Seq<char>>)
    requires
        nested(keys, unregistration_keys()),
    ensures
        unregister_run(keys, start_state()) == unregister_effect(keys, unregistration_keys()),
        forall|i: int|
            0 <= i < 4 ==> !unregister_run(keys, start_state()).contains(
                #[trigger] unregistration_keys()[i],
            ),
        forall|i: int, p: Seq<char>|
            0 <= i < 4 && #[trigger] is_under(p, command_key(unregistration_keys()[i]))
                ==> !unregister_run(keys, start_state()).contains(p),
        forall|p: Seq<char>|
            (forall|i: int|
                0 <= i < 4 ==> p != #[trigger] unregistration_keys()[i] && !is_under(
                    p,
                    command_key(unregistration_keys()[i]),
                )) ==> (#[trigger] unregister_run(keys, start_state()).contains(p)
                == keys.contains(p)),
        (forall|i: int| 0 <= i < 4 ==> !keys.contains(#[trigger] unregistration_keys()[i]))
            ==> unregister_run(keys, start_state()) == keys,
        unregister_run(unregister_run(keys, start_state()), start_state()) == unregister_run(
            keys,
            start_state(),
        ),
{
    let verbs = unregistration_keys();
    assert(verbs.skip(0) =~= verbs);
    lemma_run_from(keys, 0);
    let once = unregister_effect(keys, verbs);
    lemma_unregister_removes_menu(keys);
    lemma_run_from(once, 0);
    if forall|i: int| 0 <= i < 4 ==> !keys.contains(#[trigger] verbs[i]) {
        lemma_unregister_effect_absent(keys, verbs);
    }
}

/// The key paths below [`CLASSES_KEY`] that registration creates: the key
/// of each value it writes (see [`registration_values`]) and every key
/// above it.
pub open spec fn registration_paths() -> Set<Seq<char>> {
    set![
        "*"@,
        "*\\shell"@,
        encrypt_key(),
        command_key(encrypt_key()),
        ".ocrypt"@,
        ".ocrypt\\shell"@,
        decrypt_key(),
        command_key(decrypt_key()),
    ]
}

/// The key paths that exist after registration, with registry operations
/// that do not fail, when `keys` existed before.
pub open spec fn registration_effect(keys: Set<Seq<char>>) -> Set<Seq<char>> {
    keys.union(registration_paths())
}

/// Registration followed by unregistration, with registry operations that
/// do not fail.  The probe key of [`registered_probe_key`] is the key of
/// the "encrypt" command that registration writes, so the entries count as
/// registered afterwards; after unregistration the probe key is gone.  A
/// registry that held none of the menu's verb keys, but had the keys above
/// them, is left exactly as it was.
pub proof fn lemma_register_then_unregister(
    keys: Set<Seq<char>>,
    exe: Seq<char>,
    script: Seq<char>,
    encrypt_label: Seq<char>,
    decrypt_label: Seq<char>,
)
    requires
        nested(keys, unregistration_keys()),
    ensures
        registration_values(exe, script, encrypt_label, decrypt_label)[3].0 == command_key(
            encrypt_key(),
        ),
        forall|i: int|
            0 <= i < 7 ==> registration_paths().contains(
                #[trigger] registration_values(exe, script, encrypt_label, decrypt_label)[i].0,
            ),
        registration_effect(keys).contains(command_key(encrypt_key())),
        nested(registration_effect(keys), unregistration_keys()),
        !unregister_run(registration_effect(keys), start_state()).contains(
            command_key(encrypt_key()),
        ),
        (forall|i: int| 0 <= i < 4 ==> !keys.contains(#[trigger] unregistration_keys()[i]))
            && keys.contains("*"@) && keys.contains("*\\shell"@) && keys.contains(".ocrypt"@)
            && keys.contains(".ocrypt\\shell"@) ==> unregister_run(
            registration_effect(keys),
            start_state(),
        ) == keys,
{
    reveal_strlit("*");
    reveal_strlit(".ocrypt");
    reveal_strlit("*\\shell");
    reveal_strlit(".ocrypt\\shell");
    reveal_strlit("*\\shell\\");
    reveal_strlit(".ocrypt\\shell\\");
    reveal_strlit("\\command");
    reveal_strlit("{8A2C5B1E-3D4F-4A6B-9C8D-1E2F3A4B5C6D}");
    reveal_strlit("{9B3D6C2F-4E5A-5B7C-0D9E-2F3A4B5C6D7E}");
    let verbs = unregistration_keys();
    let paths = registration_paths();
    let after = registration_effect(keys);
    let values = registration_values(exe, script, encrypt_label, decrypt_label);
    assert(verbs[0] == encrypt_key() && verbs[3] == decrypt_key());
    assert forall|i: int| 0 <= i < 7 implies paths.contains(#[trigger] values[i].0) by {}
    // Of the created paths, only a command key lies below a verb's command,
    // and only below its own.
    assert forall|i: int, p: Seq<char>|
        0 <= i < 4 && is_under(p, command_key(verbs[i])) && paths.contains(p) implies (
        i == 0 || i == 3) by {
        assert(command_key(verbs[i]).len() >= 53);
        if p == command_key(encrypt_key()) && i == 2 {
            assert(p[10] != command_key(verbs[i])[10]);
        }
        if p == command_key(decrypt_key()) && i == 1 {
            assert(p[16] != command_key(verbs[i])[16]);
        }
    }
    assert forall|i: int, p: Seq<char>|
        0 <= i < verbs.len() && is_under(p, command_key(verbs[i])) && #[trigger] after.contains(p)
        implies after.contains(#[trigger] verbs[i]) by {
        if keys.contains(p) {
            assert(keys.contains(verbs[i]));
        }
    }
    lemma_unregistration_run(after);
    assert(is_under(command_key(encrypt_key()), command_key(verbs[0])));
    if (forall|i: int| 0 <= i < 4 ==> !keys.contains(#[trigger] verbs[i])) && keys.contains("*"@)
        && keys.contains("*\\shell"@) && keys.contains(".ocrypt"@) && keys.contains(
        ".ocrypt\\shell"@,
    ) {
        let run = unregister_run(after, start_state());
        assert forall|p: Seq<char>| run.contains(p) == keys.contains(p) by {
            if exists|i: int| 0 <= i < 4 && (p == verbs[i] || is_under(p, command_key(verbs[i]))) {
                let i = choose|i: int|
                    0 <= i < 4 && (p == verbs[i] || is_under(p, command_key(verbs[i])));
                if p == verbs[i] {
                    assert(!run.contains(verbs[i]));
                } else {
                    assert(!run.contains(p));
                    if keys.contains(p) {
                        assert(keys.contains(verbs[i]));
                    }
                }
            } else {
                assert(forall|i: int|
                    0 <= i < 4 ==> p != #[trigger] verbs[i] && !is_under(
                        p,
                        command_key(verbs[i]),
                    ));
                assert(run.contains(p) == after.contains(p));
                assert(is_under(command_key(verbs[0]), command_key(verbs[0])));
                assert(is_under(command_key(verbs[3]), command_key(verbs[3])));
            }
        }
        assert(run =~= keys);
    }
}

/// Registers the menu entries.  This build has no registry of shell
/// handlers, so the answer is `Unsupported`.
pub fn register(exe: &str, script: &str, encrypt_label: &str, decrypt_label: &str) -> (r: Result<
    (),
    CryptError,
>)
    ensures
        r matches Err(e) && e.kind() == ErrorKind::Unsupported,
{
    Err(CryptError::Unsupported)
}

/// Removes the menu entries.  This build has no registry of shell handlers,
/// so the answer is `Unsupported`.
pub fn unregister() -> (r: Result<(), CryptError>)
    ensures
        r matches Err(e) && e.kind() == ErrorKind::Unsupported,
{
    Err(CryptError::Unsupported)
}

/// Whether the menu entries are registered.  This build has no registry of
/// shell handlers, so they never are.
pub fn is_registered() -> (r: bool)
    ensures
        !r,
{
    false
}

} // verus!
