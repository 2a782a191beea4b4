//! The release driver's pure core: reading the version field out of a
//! manifest document, computing the next version, and producing the rewritten
//! document together with the new version text.
//!
//! The manifest itself is handled by `toml_edit`, which preserves every part
//! of the document other than the one value it is asked to replace; those two
//! document operations are the trusted boundary of this module.

use vstd::prelude::*;
use vstd::string::*;
use crate::VersionUpgradeError;
use crate::engine::{IncrementKind, IncrementRequest, opt_text, spec_transition, transition};
use crate::version::{parse_version, serialize_version, spec_parse, spec_serialize};

verus! {

/// The string stored at `package.version` of the TOML document text `doc`,
/// or `None` when `doc` is not a TOML document holding a string there.
pub uninterp spec fn manifest_version_of(doc: Seq<char>) -> Option<Seq<char>>;

/// The text of the TOML document `doc` with the value at `package.version`
/// replaced by the string `v`, or `None` when `doc` is not a TOML document
/// holding a value there.
pub uninterp spec fn manifest_with_version(doc: Seq<char>, v: Seq<char>) -> Option<Seq<char>>;

/// Relies on `toml_edit::DocumentMut`: parsing a document text and reading
/// `package.version` with `Table::get` and `Item::as_str` yields the string
/// stored there, and fails exactly when the text is not a TOML document with
/// a string at that path.
#[verifier::external_body]
fn read_manifest_version(doc: &str) -> (r: Option<String>)
    ensures
        opt_text(r) == manifest_version_of(doc@),
{
    let d: toml_edit::DocumentMut = match doc.parse() {
        Ok(d) => d,
        Err(_) => return None,
    };
    let v = d.get("package").and_then(|p| p.get("version")).and_then(|i| i.as_str());
    v.map(|s| s.to_string())
}

/// Relies on `toml_edit::DocumentMut`: replacing the item at
/// `package.version` with a string value and rendering the document keeps
/// every other part of the document's text, succeeds whenever the path holds
/// an item (in particular whenever it holds a string), and a document so
/// produced stores exactly the new string at that path.
#[verifier::external_body]
fn write_manifest_version(doc: &str, v: &str) -> (r: Option<String>)
    ensures
        opt_text(r) == manifest_with_version(doc@, v@),
        manifest_version_of(doc@) is Some ==> r is Some,
        r matches Some(d) ==> manifest_version_of(d@) == Some(v@),
{
    let mut d: toml_edit::DocumentMut = match doc.parse() {
        Ok(d) => d,
        Err(_) => return None,
    };
    match d.get_mut("package").and_then(|p| p.get_mut("version")) {
        Some(slot) => {
            *slot = toml_edit::value(v);
        },
        None => return None,
    }
    Some(d.to_string())
}

/// The increment kind a request string selects, if any.
pub open spec fn spec_kind(s: Seq<char>) -> Option<IncrementKind> {
    if s == "patch"@ {
        Some(IncrementKind::Patch)
    } else if s == "minor"@ {
        Some(IncrementKind::Minor)
    } else if s == "major"@ {
        Some(IncrementKind::Major)
    } else if s == "pre"@ {
        Some(IncrementKind::Pre)
    } else {
        None
    }
}

/// The view of an optional borrowed text.
pub open spec fn opt_str_text(o: Option<&str>) -> Option<Seq<char>> {
    match o {
        Some(s) => Some(s@),
        None => None,
    }
}

/// Whether two texts hold the same characters.
fn str_eq(a: &str, b: &str) -> (r: bool)
    ensures
        r == (a@ == b@),
{
    let n = a.unicode_len();
    if n != b.unicode_len() {
        return false;
    }
    let mut i: usize = 0;
    while i < n
        invariant
            i <= n,
            n == a@.len(),
            n == b@.len(),
            forall|j: int| 0 <= j < i ==> a@[j] == b@[j],
        decreases n - i,
    {
        if a.get_char(i) != b.get_char(i) {
            return false;
        }
        i = i + 1;
    }
    proof {
        assert(a@ =~= b@);
    }
    true
}

/// Selects the increment kind for a request string, or rejects an
/// unrecognized one with `InvalidIncrement`.
pub fn parse_increment_kind(s: &str) -> (r: Result<IncrementKind, VersionUpgradeError>)
    ensures
        match r {
            Ok(k) => spec_kind(s@) == Some(k),
            Err(e) => spec_kind(s@) is None && e == VersionUpgradeError::InvalidIncrement,
        },
{
    if str_eq(s, "patch") {
        Ok(IncrementKind::Patch)
    } else if str_eq(s, "minor") {
        Ok(IncrementKind::Minor)
    } else if str_eq(s, "major") {
        Ok(IncrementKind::Major)
    } else if str_eq(s, "pre") {
        Ok(IncrementKind::Pre)
    } else {
        Err(VersionUpgradeError::InvalidIncrement)
    }
}

/// The outcome of one upgrade of a manifest text: the rewritten document and
/// the new version text, or the classified error of the first failing step.
pub open spec fn spec_upgrade(
    content: Seq<char>,
    increment: Seq<char>,
    tag: Option<Seq<char>>,
) -> Result<(Seq<char>, Seq<char>), VersionUpgradeError> {
    match spec_kind(increment) {
        None => Err(VersionUpgradeError::InvalidIncrement),
        Some(kind) => match manifest_version_of(content) {
            None => Err(VersionUpgradeError::InvalidVersionFormat),
            Some(vs) => match spec_parse(vs) {
                None => Err(VersionUpgradeError::InvalidVersionFormat),
                Some(v) => match spec_transition(v, kind, tag) {
                    Err(e) => Err(e),
                    Ok(next) => match manifest_with_version(content, spec_serialize(next)) {
                        Some(doc) => Ok((doc, spec_serialize(next))),
                        None => Err(VersionUpgradeError::InvalidVersionFormat),
                    },
                },
            },
        },
    }
}

/// Computes the upgraded manifest text and the new version text for a
/// manifest document text, an increment kind string and an optional
/// requested tag. On success the rewritten document stores the new version
/// text at `package.version`.
pub fn upgrade_manifest(content: &str, increment: &str, tag: Option<&str>) -> (r: Result<
    (String, String),
    VersionUpgradeError,
>)
    ensures
        match r {
            Ok(out) => spec_upgrade(content@, increment@, opt_str_text(tag)) == Ok::<
                (Seq<char>, Seq<char>),
                VersionUpgradeError,
            >((out.0@, out.1@)),
            Err(e) => spec_upgrade(content@, increment@, opt_str_text(tag)) == Err::<
                (Seq<char>, Seq<char>),
                VersionUpgradeError,
            >(e),
        },
        r matches Ok(out) ==> manifest_version_of(out.0@) == Some(out.1@),
{
    let kind = match parse_increment_kind(increment) {
        Ok(k) => k,
        Err(e) => {
            return Err(e);
        },
    };
    let version_str = match read_manifest_version(content) {
        Some(s) => s,
        None => {
            return Err(VersionUpgradeError::InvalidVersionFormat);
        },
    };
    let current = match parse_version(version_str.as_str()) {
        Ok(v) => v,
        Err(e) => {
            return Err(e);
        },
    };
    let owned_tag = match tag {
        Some(t) => Some(String::from_str(t)),
        None => None,
    };
    let req = IncrementRequest { kind, tag: owned_tag };
    let next = match transition(&current, &req) {
        Ok(n) => n,
        Err(e) => {
            return Err(e);
        },
    };
    let new_version = serialize_version(&next);
    match write_manifest_version(content, new_version.as_str()) {
        Some(doc) => Ok((doc, new_version)),
        None => Err(VersionUpgradeError::InvalidVersionFormat),
    }
}

/// Builds the commit message for a new version text: a `v` prefix before the
/// version itself.
pub fn commit_message(version_text: &str) -> (r: String)
    ensures
        r@ == seq!['v'] + version_text@,
{
    let mut s = String::from_str("v");
    s.append(version_text);
    proof {
        reveal_strlit("v");
        assert(s@ =~= seq!['v'] + version_text@);
    }
    s
}

/// An unrecognized increment kind string always fails with
/// `InvalidIncrement`, whatever the manifest content and the requested tag;
/// in particular no rewritten document is ever produced for it.
pub proof fn law_unknown_increment_rejected(
    content: Seq<char>,
    increment: Seq<char>,
    tag: Option<Seq<char>>,
)
    requires
        spec_kind(increment) is None,
    ensures
        spec_upgrade(content, increment, tag) == Err::<
            (Seq<char>, Seq<char>),
            VersionUpgradeError,
        >(VersionUpgradeError::InvalidIncrement),
{
}

} // verus!
