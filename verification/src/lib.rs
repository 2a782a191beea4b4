//! Semantic-version upgrade engine for a package manifest.
//!
//! The core is a pure version transition engine: given a parsed semantic
//! version, an increment kind (patch, minor, major, pre) and an optional
//! pre-release tag name, it deterministically produces the next version or a
//! classified error. Around it stand a verified parser and serializer for the
//! `major.minor.patch[-label]` form, and a driver that rewrites the version
//! field of a manifest document.

use vstd::prelude::*;

pub mod engine;
pub mod manifest;
pub mod version;

verus! {

/// The classified failures of the version upgrade pipeline.
#[derive(Clone, Copy, Debug, PartialEq, Eq, Structural)]
pub enum VersionUpgradeError {
    /// The stored version string is not of the `major.minor.patch[-label]` form.
    InvalidVersionFormat,
    /// The requested increment kind string is not one of `patch`, `minor`, `major`, `pre`.
    InvalidIncrement,
    /// The requested pre-release tag is empty or purely numeric.
    InvalidPrereleaseTag,
    /// A `pre` increment was requested on a version that carries no pre-release label.
    NoActivePreRelease,
    /// The existing pre-release label does not end in a `.`-separated numeric counter.
    MalformedPreReleaseCounter,
    /// The manifest could not be read.
    FileReadError,
    /// The manifest could not be written.
    FileWriteError,
    /// The version-control commit step failed.
    GitCommitError,
    /// The version-control tag step failed.
    GitTagError,
}

/// The fixed description of each error.
pub open spec fn error_text(e: VersionUpgradeError) -> Seq<char> {
    match e {
        VersionUpgradeError::InvalidVersionFormat => "Invalid version format"@,
        VersionUpgradeError::InvalidIncrement => "Invalid increment type"@,
        VersionUpgradeError::InvalidPrereleaseTag => "Invalid prerelease tag format"@,
        VersionUpgradeError::NoActivePreRelease => "No active prerelease to increment"@,
        VersionUpgradeError::MalformedPreReleaseCounter => "Malformed prerelease counter"@,
        VersionUpgradeError::FileReadError => "Error reading file"@,
        VersionUpgradeError::FileWriteError => "Error writing file"@,
        VersionUpgradeError::GitCommitError => "Failed to create Git commit"@,
        VersionUpgradeError::GitTagError => "Failed to create Git tag"@,
    }
}

impl VersionUpgradeError {
    /// A short, fixed description of the error.
    pub fn describe(&self) -> (r: &'static str)
        ensures
            r@ == error_text(*self),
    {
        match self {
            VersionUpgradeError::InvalidVersionFormat => "Invalid version format",
            VersionUpgradeError::InvalidIncrement => "Invalid increment type",
            VersionUpgradeError::InvalidPrereleaseTag => "Invalid prerelease tag format",
            VersionUpgradeError::NoActivePreRelease => "No active prerelease to increment",
            VersionUpgradeError::MalformedPreReleaseCounter => "Malformed prerelease counter",
            VersionUpgradeError::FileReadError => "Error reading file",
            VersionUpgradeError::FileWriteError => "Error writing file",
            VersionUpgradeError::GitCommitError => "Failed to create Git commit",
            VersionUpgradeError::GitTagError => "Failed to create Git tag",
        }
    }
}

} // verus!
