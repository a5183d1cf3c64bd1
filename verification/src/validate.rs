//! The checks made on an input and an output path before a file is
//! encrypted or decrypted.  What the file system says about the paths is
//! gathered by the caller and handed in as plain values; the decisions are
//! made here.
use crate::error::{CryptError, ErrorKind};
use vstd::prelude::*;
use vstd::string::StringExecFns;

verus! {

/// Extension of encrypted files, compared without regard to ASCII case.
pub const OCRYPT_EXT: &'static str = "ocrypt";

/// One component of an absolute path, in the order in which
/// `std::path::Path::components` yields them.
pub enum PathPart {
    /// `.`
    Current,
    /// `..`
    Parent,
    /// Any other component (prefix, root or name), as its text.
    Named(String),
}

/// What the file system says about the input path.
pub enum InputStatus {
    /// A regular file.
    File,
    /// Something other than a regular file, such as a directory.
    NotAFile,
    /// Nothing at that path.
    Missing,
    /// The metadata could not be read for another reason.
    Failed(std::io::Error),
}

/// Everything that the path checks need to know.
pub struct PathFacts {
    /// The input, as the file system sees it.
    pub input: InputStatus,
    /// Components of the input path made absolute.
    pub input_parts: Vec<PathPart>,
    /// Components of the output path made absolute.
    pub output_parts: Vec<PathPart>,
    /// Whether something exists at the output path.
    pub output_exists: bool,
    /// Extension of the input path, if it has one.
    pub input_extension: Option<String>,
    /// Whether the output's parent is empty (the current directory) or an
    /// existing directory.
    pub output_parent_usable: bool,
}

/// A character lowered as `char::to_ascii_lowercase` does: `A`..`Z` become
/// `a`..`z`, every other character stays.
pub open spec fn ascii_lower(c: char) -> char {
    if 'A' <= c && c <= 'Z' {
        ((c as u32) + 32) as char
    } else {
        c
    }
}

/// A text lowered character by character with [`ascii_lower`].
pub open spec fn ascii_lower_text(s: Seq<char>) -> Seq<char> {
    Seq::new(s.len(), |i: int| ascii_lower(s[i]))
}

/// `str::to_ascii_lowercase` of std: a copy in which each ASCII upper-case
/// letter is replaced by its lower-case form and every other character is
/// kept, as its documentation says.
#[verifier::external_body]
fn to_ascii_lowercase(s: &str) -> (r: String)
    ensures
        r@ == ascii_lower_text(s@),
{
    s.to_ascii_lowercase()
}

/// The names that remain of a path once `.` is dropped and `..` removes the
/// name before it (at the root it removes nothing), each lowered.
pub open spec fn kept_names(parts: Seq<PathPart>) -> Seq<Seq<char>>
    decreases parts.len(),
{
    if parts.len() == 0 {
        Seq::empty()
    } else {
        let acc = kept_names(parts.drop_last());
        match parts.last() {
            PathPart::Current => acc,
            PathPart::Parent => if acc.len() == 0 {
                acc
            } else {
                acc.drop_last()
            },
            PathPart::Named(s) => acc.push(ascii_lower_text(s@)),
        }
    }
}

/// The texts of `names` joined with `sep` between them.
pub open spec fn joined(names: Seq<Seq<char>>, sep: Seq<char>) -> Seq<char>
    decreases names.len(),
{
    if names.len() == 0 {
        Seq::empty()
    } else if names.len() == 1 {
        names[0]
    } else {
        joined(names.drop_last(), sep) + sep + names.last()
    }
}

/// The single backslash that separates names in a normalized path.
pub open spec fn backslash() -> Seq<char> {
    seq!['\\']
}

/// The normalized text of a path: its kept names joined with backslashes.
pub open spec fn normalized(parts: Seq<PathPart>) -> Seq<char> {
    joined(kept_names(parts), backslash())
}

/// Paths whose kept names agree keep agreeing when the same components
/// follow.
pub proof fn lemma_kept_names_suffix(p1: Seq<PathPart>, p2: Seq<PathPart>, rest: Seq<PathPart>)
    requires
        kept_names(p1) == kept_names(p2),
    ensures
        kept_names(p1 + rest) == kept_names(p2 + rest),
    decreases rest.len(),
{
    if rest.len() == 0 {
        assert(p1 + rest =~= p1);
        assert(p2 + rest =~= p2);
    } else {
        let init = rest.drop_last();
        lemma_kept_names_suffix(p1, p2, init);
        assert((p1 + rest).drop_last() =~= p1 + init);
        assert((p2 + rest).drop_last() =~= p2 + init);
        assert((p1 + rest).last() == rest.last());
        assert((p2 + rest).last() == rest.last());
    }
}

/// Spellings of one path normalize alike: a `.` component anywhere, a
/// name followed by `..` anywhere, and a name written in another ASCII case
/// change nothing.  So [`same_path`], which compares normalized texts, holds
/// between such spellings; it is reflexive and symmetric by its contract.
pub proof fn lemma_normalized_spellings(
    before: Seq<PathPart>,
    after: Seq<PathPart>,
    name: String,
    other_case: String,
)
    ensures
        normalized(before + seq![PathPart::Current] + after) == normalized(before + after),
        normalized(before + seq![PathPart::Named(name), PathPart::Parent] + after) == normalized(
            before + after,
        ),
        ascii_lower_text(name@) == ascii_lower_text(other_case@) ==> normalized(
            before + seq![PathPart::Named(name)] + after,
        ) == normalized(before + seq![PathPart::Named(other_case)] + after),
{
    let dot = before + seq![PathPart::Current];
    assert(dot.drop_last() =~= before);
    lemma_kept_names_suffix(dot, before, after);
    let pair = before + seq![PathPart::Named(name), PathPart::Parent];
    let named = before + seq![PathPart::Named(name)];
    assert(pair.drop_last() =~= named);
    assert(named.drop_last() =~= before);
    assert(pair.last() == PathPart::Parent);
    assert(named.last() == PathPart::Named(name));
    let pushed = kept_names(before).push(ascii_lower_text(name@));
    assert(kept_names(named) == pushed);
    assert(pushed.drop_last() =~= kept_names(before));
    assert(kept_names(pair) == kept_names(before));
    lemma_kept_names_suffix(pair, before, after);
    let other = before + seq![PathPart::Named(other_case)];
    assert(other.drop_last() =~= before);
    if ascii_lower_text(name@) == ascii_lower_text(other_case@) {
        lemma_kept_names_suffix(named, other, after);
    }
}

/// The names kept of the path, lowered.
fn kept_name_list(parts: &Vec<PathPart>) -> (names: Vec<String>)
    ensures
        names@.len() == kept_names(parts@).len(),
        forall|i: int| 0 <= i < names@.len() ==> #[trigger] names@[i]@ == kept_names(parts@)[i],
{
    let mut names: Vec<String> = Vec::new();
    let mut i: usize = 0;
    while i < parts.len()
        invariant
            i <= parts@.len(),
            names@.len() == kept_names(parts@.take(i as int)).len(),
            forall|k: int|
                0 <= k < names@.len() ==> #[trigger] names@[k]@ == kept_names(
                    parts@.take(i as int),
                )[k],
        decreases parts@.len() - i,
    {
        let ghost before = parts@.take(i as int);
        assert(parts@.take(i + 1).drop_last() =~= before);
        assert(parts@.take(i + 1).last() == parts@[i as int]);
        match &parts[i] {
            PathPart::Current => {},
            PathPart::Parent => {
                names.pop();
            },
            PathPart::Named(s) => {
                let lowered = to_ascii_lowercase(s.as_str());
                names.push(lowered);
            },
        }
        i = i + 1;
    }
    assert(parts@.take(parts@.len() as int) =~= parts@);
    names
}

/// The normalized text of a path.
pub fn norm(parts: &Vec<PathPart>) -> (s: String)
    ensures
        s@ == normalized(parts@),
{
    let names = kept_name_list(parts);
    let ghost kept = kept_names(parts@);
    let mut s = String::new();
    let mut i: usize = 0;
    while i < names.len()
        invariant
            names@.len() == kept.len(),
            forall|k: int| 0 <= k < names@.len() ==> #[trigger] names@[k]@ == kept[k],
            i <= names@.len(),
            s@ == joined(kept.take(i as int), backslash()),
        decreases names@.len() - i,
    {
        assert(kept.take(i + 1).drop_last() =~= kept.take(i as int));
        assert(kept.take(i + 1).last() == kept[i as int]);
        if i != 0 {
            s.append("\\");
            proof {
                reveal_strlit("\\");
            }
        } else {
            assert(s@ =~= Seq::<char>::empty());
        }
        s.append(names[i].as_str());
        i = i + 1;
        assert(s@ =~= joined(kept.take(i as int), backslash()));
    }
    assert(kept.take(kept.len() as int) =~= kept);
    s
}

/// Whether two paths name the same file, by their normalized texts.
pub fn same_path(a: &Vec<PathPart>, b: &Vec<PathPart>) -> (r: bool)
    ensures
        r == (normalized(a@) == normalized(b@)),
{
    let na = norm(a);
    let nb = norm(b);
    na == nb
}

/// The check made on the output before encryption or decryption: not the
/// input itself, and nothing there yet.
pub fn check_output(
    input_parts: &Vec<PathPart>,
    output_parts: &Vec<PathPart>,
    output_exists: bool,
) -> (r: Result<(), CryptError>)
    ensures
        normalized(input_parts@) == normalized(output_parts@) ==> (r matches Err(e) && e.kind()
            == ErrorKind::InputInvalid),
        normalized(input_parts@) != normalized(output_parts@) && output_exists ==> (r matches Err(
            e,
        ) && e.kind() == ErrorKind::OutputExists),
        normalized(input_parts@) != normalized(output_parts@) && !output_exists ==> r is Ok,
{
    if same_path(input_parts, output_parts) {
        return Err(CryptError::InputInvalid);
    }
    if output_exists {
        return Err(CryptError::OutputExists);
    }
    Ok(())
}

/// Whether the input's extension is `ocrypt`, in any ASCII case.
pub open spec fn has_ocrypt_extension(ext: Option<String>) -> bool {
    match ext {
        Some(e) => ascii_lower_text(e@) == OCRYPT_EXT@,
        None => false,
    }
}

/// Whether the input's extension is `ocrypt`, in any ASCII case.
fn is_ocrypt_extension(ext: &Option<String>) -> (r: bool)
    ensures
        r == has_ocrypt_extension(*ext),
{
    match ext {
        Some(e) => {
            let lowered = to_ascii_lowercase(e.as_str());
            let expected = String::from_str(OCRYPT_EXT);
            lowered == expected
        },
        None => false,
    }
}

/// The error, if any, that the path checks give, in the order in which
/// they are made: input missing or not a file, input unreadable, same path,
/// output exists, wrong extension for the direction, unusable output
/// directory.
pub open spec fn path_verdict(facts: PathFacts, is_decrypt: bool) -> Option<ErrorKind> {
    match facts.input {
        InputStatus::Missing => Some(ErrorKind::InputInvalid),
        InputStatus::Failed(_) => Some(ErrorKind::Io),
        InputStatus::NotAFile => Some(ErrorKind::InputInvalid),
        InputStatus::File => if normalized(facts.input_parts@) == normalized(
            facts.output_parts@,
        ) {
            Some(ErrorKind::InputInvalid)
        } else if facts.output_exists {
            Some(ErrorKind::OutputExists)
        } else if is_decrypt != has_ocrypt_extension(facts.input_extension) {
            Some(ErrorKind::InputInvalid)
        } else if !facts.output_parent_usable {
            Some(ErrorKind::InputInvalid)
        } else {
            None
        },
    }
}

/// Checks a pair of paths before encryption (`is_decrypt` false: the input
/// must not be an `.ocrypt` file) or decryption (it must be one).
pub fn validate_paths(facts: PathFacts, is_decrypt: bool) -> (r: Result<(), CryptError>)
    ensures
        match path_verdict(facts, is_decrypt) {
            None => r is Ok,
            Some(k) => r matches Err(e) && e.kind() == k,
        },
        facts.input matches InputStatus::Failed(e) ==> r == Err::<(), CryptError>(
            CryptError::Io(e),
        ),
{
    let PathFacts {
        input,
        input_parts,
        output_parts,
        output_exists,
        input_extension,
        output_parent_usable,
    } = facts;
    match input {
        InputStatus::Missing => {
            return Err(CryptError::InputInvalid);
        },
        InputStatus::Failed(e) => {
            return Err(CryptError::Io(e));
        },
        InputStatus::NotAFile => {
            return Err(CryptError::InputInvalid);
        },
        InputStatus::File => {},
    }
    if same_path(&input_parts, &output_parts) {
        return Err(CryptError::InputInvalid);
    }
    if output_exists {
        return Err(CryptError::OutputExists);
    }
    let is_ocrypt = is_ocrypt_extension(&input_extension);
    if is_decrypt {
        if !is_ocrypt {
            return Err(CryptError::InputInvalid);
        }
    } else if is_ocrypt {
        return Err(CryptError::InputInvalid);
    }
    if !output_parent_usable {
        return Err(CryptError::InputInvalid);
    }
    Ok(())
}

/// `e` spells `ocrypt`, each letter in lower or upper case.
pub open spec fn spells_ocrypt(e: Seq<char>) -> bool {
    e.len() == 6 && forall|i: int|
        0 <= i < 6 ==> (#[trigger] e[i] == "ocrypt"@[i] || e[i] == "OCRYPT"@[i])
}

/// A character lowers to the lower-case letter `l` exactly when it is `l`
/// or the upper-case `u` of it.
proof fn lemma_lowers_to(c: char, l: char, u: char)
    requires
        'a' <= l <= 'z',
        u as u32 + 32 == l as u32,
    ensures
        ascii_lower(c) == l <==> (c == l || c == u),
{
}

/// An extension lowers to `ocrypt` exactly when it spells `ocrypt` in any
/// mix of ASCII cases.
proof fn lemma_spells_ocrypt(t: Seq<char>)
    ensures
        ascii_lower_text(t) == OCRYPT_EXT@ <==> spells_ocrypt(t),
{
    reveal_strlit("ocrypt");
    reveal_strlit("OCRYPT");
    let lo = "ocrypt"@;
    let up = "OCRYPT"@;
    assert(OCRYPT_EXT@ == lo);
    if t.len() == 6 {
        let low = ascii_lower_text(t);
        lemma_lowers_to(t[0], lo[0], up[0]);
        lemma_lowers_to(t[1], lo[1], up[1]);
        lemma_lowers_to(t[2], lo[2], up[2]);
        lemma_lowers_to(t[3], lo[3], up[3]);
        lemma_lowers_to(t[4], lo[4], up[4]);
        lemma_lowers_to(t[5], lo[5], up[5]);
        if spells_ocrypt(t) {
            assert(t[0] == lo[0] || t[0] == up[0]);
            assert(t[1] == lo[1] || t[1] == up[1]);
            assert(t[2] == lo[2] || t[2] == up[2]);
            assert(t[3] == lo[3] || t[3] == up[3]);
            assert(t[4] == lo[4] || t[4] == up[4]);
            assert(t[5] == lo[5] || t[5] == up[5]);
            assert(low =~= lo);
        }
        if low == lo {
            assert(low[0] == lo[0] && low[1] == lo[1] && low[2] == lo[2]);
            assert(low[3] == lo[3] && low[4] == lo[4] && low[5] == lo[5]);
            assert forall|i: int| 0 <= i < 6 implies (#[trigger] t[i] == lo[i] || t[i] == up[i]) by {
                if i == 0 {
                } else if i == 1 {
                } else if i == 2 {
                } else if i == 3 {
                } else if i == 4 {
                } else {
                }
            }
        }
    } else {
        assert(ascii_lower_text(t).len() != lo.len());
    }
}

/// Once the input is a file, the paths differ, the output is free and its
/// directory usable, the verdict turns on the extension alone: an input
/// counts as an `.ocrypt` file exactly when it has an extension that spells
/// `ocrypt` in any mix of ASCII cases.  Encryption is allowed exactly on
/// other inputs (those without extension among them), decryption exactly
/// on such files; the other is refused as `InputInvalid`.
pub proof fn lemma_extension_decides(facts: PathFacts, is_decrypt: bool)
    requires
        facts.input is File,
        normalized(facts.input_parts@) != normalized(facts.output_parts@),
        !facts.output_exists,
        facts.output_parent_usable,
    ensures
        ({
            let is_ocrypt = match facts.input_extension {
                None => false,
                Some(e) => spells_ocrypt(e@),
            };
            path_verdict(facts, is_decrypt) == if is_decrypt == is_ocrypt {
                None::<ErrorKind>
            } else {
                Some(ErrorKind::InputInvalid)
            }
        }),
{
    if let Some(e) = facts.input_extension {
        lemma_spells_ocrypt(e@);
    }
}

} // verus!
