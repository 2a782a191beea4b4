//! The version transition engine: from a current semantic version, an
//! increment kind and an optional pre-release tag name to the next version,
//! or a classified error.
//!
//! Numeric bumps (`Patch`, `Minor`, `Major`) raise their component, reset the
//! lower ones, and start a fresh `tag.0` pre-release sequence when a tag is
//! requested, or clear any pre-release label when none is. `Pre` leaves the
//! numeric components untouched and advances the existing label's counter.

use vstd::prelude::*;
use vstd::string::*;
use crate::VersionUpgradeError;
use crate::version::{
    LabelView, PreReleaseLabel, SemanticVersion, VersionView, all_digits, valid_label_text,
    wf_version,
};

verus! {

/// The requested class of version change.
#[derive(Clone, Copy, Debug, PartialEq, Eq, Structural)]
pub enum IncrementKind {
    Patch,
    Minor,
    Major,
    Pre,
}

/// A version change request: an increment kind and an optional pre-release
/// tag name.
pub struct IncrementRequest {
    pub kind: IncrementKind,
    pub tag: Option<String>,
}

/// The view of an optional owned text.
pub open spec fn opt_text(o: Option<String>) -> Option<Seq<char>> {
    match o {
        Some(s) => Some(s@),
        None => None,
    }
}

/// A tag name a caller may request: well-formed label text that is not
/// purely numeric (a purely numeric tag would be ambiguous with the counter
/// position of a label).
pub open spec fn valid_tag(t: Seq<char>) -> bool {
    valid_label_text(t) && !all_digits(t)
}

/// The pre-release label a numeric bump produces: a fresh `tag.0` sequence
/// when a tag is requested, no label otherwise.
pub open spec fn spec_policy(tag: Option<Seq<char>>) -> Option<LabelView> {
    match tag {
        Some(t) => Some(LabelView { tag_name: t, counter: Some(0) }),
        None => None,
    }
}

/// The next version for a current version, an increment kind and an optional
/// requested tag, or the classified error.
pub open spec fn spec_transition(
    v: VersionView,
    kind: IncrementKind,
    tag: Option<Seq<char>>,
) -> Result<VersionView, VersionUpgradeError> {
    if tag matches Some(t) && !valid_tag(t) {
        Err(VersionUpgradeError::InvalidPrereleaseTag)
    } else {
        match kind {
            IncrementKind::Patch => Ok(
                VersionView {
                    major: v.major,
                    minor: v.minor,
                    patch: v.patch + 1,
                    pre: spec_policy(tag),
                },
            ),
            IncrementKind::Minor => Ok(
                VersionView { major: v.major, minor: v.minor + 1, patch: 0, pre: spec_policy(tag) },
            ),
            IncrementKind::Major => Ok(
                VersionView { major: v.major + 1, minor: 0, patch: 0, pre: spec_policy(tag) },
            ),
            IncrementKind::Pre => match v.pre {
                None => Err(VersionUpgradeError::NoActivePreRelease),
                Some(l) => match l.counter {
                    None => Err(VersionUpgradeError::MalformedPreReleaseCounter),
                    Some(c) => Ok(
                        VersionView {
                            major: v.major,
                            minor: v.minor,
                            patch: v.patch,
                            pre: Some(LabelView { tag_name: l.tag_name, counter: Some(c + 1) }),
                        },
                    ),
                },
            },
        }
    }
}

/// Whether every character of `s` is a decimal digit.
fn all_digits_exec(s: &str) -> (r: bool)
    ensures
        r == all_digits(s@),
{
    let n = s.unicode_len();
    let mut i: usize = 0;
    while i < n
        invariant
            i <= n,
            n == s@.len(),
            forall|j: int| 0 <= j < i ==> crate::version::is_digit(#[trigger] s@[j]),
        decreases n - i,
    {
        let c = s.get_char(i);
        if crate::version::digit_val_exec(c) >= 10 {
            proof {
                assert(!crate::version::is_digit(s@[i as int]));
            }
            return false;
        }
        i = i + 1;
    }
    true
}

/// Whether `s` may be requested as a pre-release tag name.
pub fn check_tag(s: &str) -> (r: bool)
    ensures
        r == valid_tag(s@),
{
    crate::version::check_label_text(s) && !all_digits_exec(s)
}

/// Computes the next version for `current` under `req`, or the classified
/// error. The headroom preconditions are forced by the machine integer
/// width; parsed versions always satisfy them.
pub fn transition(current: &SemanticVersion, req: &IncrementRequest) -> (r: Result<
    SemanticVersion,
    VersionUpgradeError,
>)
    requires
        req.kind == IncrementKind::Major ==> current.major < u64::MAX,
        req.kind == IncrementKind::Minor ==> current.minor < u64::MAX,
        req.kind == IncrementKind::Patch ==> current.patch < u64::MAX,
        req.kind == IncrementKind::Pre ==> (current.pre matches Some(l) ==> l.counter
            matches Some(c) ==> c < u64::MAX),
    ensures
        match r {
            Ok(next) => spec_transition(current@, req.kind, opt_text(req.tag)) == Ok::<
                VersionView,
                VersionUpgradeError,
            >(next@),
            Err(e) => spec_transition(current@, req.kind, opt_text(req.tag)) == Err::<
                VersionView,
                VersionUpgradeError,
            >(e),
        },
{
    match &req.tag {
        Some(t) => {
            if !check_tag(t.as_str()) {
                return Err(VersionUpgradeError::InvalidPrereleaseTag);
            }
        },
        None => {},
    }
    match req.kind {
        IncrementKind::Patch => Ok(
            SemanticVersion {
                major: current.major,
                minor: current.minor,
                patch: current.patch + 1,
                pre: fresh_label(&req.tag),
            },
        ),
        IncrementKind::Minor => Ok(
            SemanticVersion {
                major: current.major,
                minor: current.minor + 1,
                patch: 0,
                pre: fresh_label(&req.tag),
            },
        ),
        IncrementKind::Major => Ok(
            SemanticVersion { major: current.major + 1, minor: 0, patch: 0, pre: fresh_label(&req.tag) },
        ),
        IncrementKind::Pre => match &current.pre {
            None => Err(VersionUpgradeError::NoActivePreRelease),
            Some(l) => match l.counter {
                None => Err(VersionUpgradeError::MalformedPreReleaseCounter),
                Some(c) => Ok(
                    SemanticVersion {
                        major: current.major,
                        minor: current.minor,
                        patch: current.patch,
                        pre: Some(
                            PreReleaseLabel { tag_name: l.tag_name.clone(), counter: Some(c + 1) },
                        ),
                    },
                ),
            },
        },
    }
}

/// The fresh `tag.0` label of a numeric bump, if a tag was requested.
fn fresh_label(tag: &Option<String>) -> (r: Option<PreReleaseLabel>)
    ensures
        match r {
            Some(l) => spec_policy(opt_text(*tag)) == Some(l@),
            None => spec_policy(opt_text(*tag)) is None,
        },
{
    match tag {
        Some(t) => Some(PreReleaseLabel { tag_name: t.clone(), counter: Some(0) }),
        None => None,
    }
}

/// A numeric bump with no requested tag always clears the pre-release label,
/// and raises exactly its own component by one while resetting the lower
/// ones to zero, whatever the input version held.
pub proof fn law_numeric_bump_without_tag(v: VersionView, kind: IncrementKind)
    requires
        kind != IncrementKind::Pre,
    ensures
        kind == IncrementKind::Patch ==> spec_transition(v, kind, None) == Ok::<
            VersionView,
            VersionUpgradeError,
        >(VersionView { major: v.major, minor: v.minor, patch: v.patch + 1, pre: None }),
        kind == IncrementKind::Minor ==> spec_transition(v, kind, None) == Ok::<
            VersionView,
            VersionUpgradeError,
        >(VersionView { major: v.major, minor: v.minor + 1, patch: 0, pre: None }),
        kind == IncrementKind::Major ==> spec_transition(v, kind, None) == Ok::<
            VersionView,
            VersionUpgradeError,
        >(VersionView { major: v.major + 1, minor: 0, patch: 0, pre: None }),
{
}

/// A `Pre` increment on a version that carries no pre-release label fails
/// with `NoActivePreRelease`, whatever tag is requested, provided the tag
/// itself is acceptable.
pub proof fn law_pre_requires_active_label(v: VersionView, tag: Option<Seq<char>>)
    requires
        v.pre is None,
        tag matches Some(t) ==> valid_tag(t),
    ensures
        spec_transition(v, IncrementKind::Pre, tag) == Err::<VersionView, VersionUpgradeError>(
            VersionUpgradeError::NoActivePreRelease,
        ),
{
}

/// A purely numeric requested tag is rejected with `InvalidPrereleaseTag`
/// before any version arithmetic, for every increment kind and every input
/// version.
pub proof fn law_numeric_tag_rejected(v: VersionView, kind: IncrementKind, t: Seq<char>)
    requires
        t.len() > 0,
        all_digits(t),
    ensures
        spec_transition(v, kind, Some(t)) == Err::<VersionView, VersionUpgradeError>(
            VersionUpgradeError::InvalidPrereleaseTag,
        ),
{
}

/// The transition preserves structural well-formedness of versions.
pub proof fn law_transition_preserves_wf(
    v: VersionView,
    kind: IncrementKind,
    tag: Option<Seq<char>>,
)
    requires
        wf_version(v),
    ensures
        spec_transition(v, kind, tag) matches Ok(n) ==> wf_version(n),
{
}

} // verus!
