use cargo_version_upgrade::VersionUpgradeError;
use cargo_version_upgrade::engine::{IncrementKind, IncrementRequest, check_tag, transition};
use cargo_version_upgrade::manifest::{commit_message, parse_increment_kind, upgrade_manifest};
use cargo_version_upgrade::version::{
    PreReleaseLabel, SemanticVersion, parse_version, serialize_version,
};

fn bump(text: &str, kind: IncrementKind, tag: Option<&str>) -> Result<String, VersionUpgradeError> {
    let current = parse_version(text)?;
    let req = IncrementRequest { kind, tag: tag.map(|t| t.to_string()) };
    let next = transition(&current, &req)?;
    Ok(serialize_version(&next))
}

#[test]
fn numeric_bumps_without_tag_clear_pre_release() {
    assert_eq!(bump("1.2.3-beta.1", IncrementKind::Patch, None).unwrap(), "1.2.4");
    assert_eq!(bump("1.2.3-beta.1", IncrementKind::Minor, None).unwrap(), "1.3.0");
    assert_eq!(bump("1.2.3-beta.1", IncrementKind::Major, None).unwrap(), "2.0.0");
    assert_eq!(bump("1.2.3", IncrementKind::Patch, None).unwrap(), "1.2.4");
    assert_eq!(bump("1.2.3", IncrementKind::Minor, None).unwrap(), "1.3.0");
    assert_eq!(bump("1.2.3", IncrementKind::Major, None).unwrap(), "2.0.0");
}

#[test]
fn parse_serialize_round_trip_is_exact() {
    let plain = parse_version("1.2.3").unwrap();
    assert_eq!(serialize_version(&plain), "1.2.3");
    let labelled = parse_version("0.0.4-beta.4").unwrap();
    assert_eq!(serialize_version(&labelled), "0.0.4-beta.4");
    let dotted = parse_version("10.20.30-alpha.x.7").unwrap();
    assert_eq!(serialize_version(&dotted), "10.20.30-alpha.x.7");
    let bare = parse_version("1.0.0-beta").unwrap();
    assert_eq!(serialize_version(&bare), "1.0.0-beta");
}

#[test]
fn round_trip_is_idempotent() {
    for text in ["1.2.3", "0.0.4-beta.4", "1.0.0-beta", "10.0.2-rc.x.12", "0.0.0-a-b.0"] {
        let once = serialize_version(&parse_version(text).unwrap());
        assert_eq!(once, text);
        let twice = serialize_version(&parse_version(&once).unwrap());
        assert_eq!(twice, once);
    }
}

#[test]
fn pre_without_label_fails_no_active_pre_release() {
    assert_eq!(
        bump("0.0.4", IncrementKind::Pre, None).unwrap_err(),
        VersionUpgradeError::NoActivePreRelease
    );
}

#[test]
fn pre_advances_existing_counter() {
    assert_eq!(bump("0.0.4-beta.4", IncrementKind::Pre, None).unwrap(), "0.0.4-beta.5");
    assert_eq!(bump("0.4.4-tagname.4", IncrementKind::Pre, None).unwrap(), "0.4.4-tagname.5");
}

#[test]
fn patch_with_tag_starts_fresh_sequence() {
    assert_eq!(bump("0.0.4", IncrementKind::Patch, Some("beta")).unwrap(), "0.0.5-beta.0");
}

#[test]
fn minor_with_same_tag_resets_counter() {
    assert_eq!(bump("0.0.4-beta.0", IncrementKind::Minor, Some("beta")).unwrap(), "0.1.0-beta.0");
    assert_eq!(bump("0.0.4-beta.7", IncrementKind::Minor, Some("beta")).unwrap(), "0.1.0-beta.0");
}

#[test]
fn major_with_differing_tag_starts_fresh_sequence() {
    assert_eq!(bump("0.4.4-beta.4", IncrementKind::Major, Some("rc")).unwrap(), "1.0.0-rc.0");
}

#[test]
fn patch_without_tag_clears_existing_label() {
    assert_eq!(bump("0.0.4-beta.2", IncrementKind::Patch, None).unwrap(), "0.0.5");
}

#[test]
fn purely_numeric_tag_is_rejected() {
    assert!(!check_tag("123"));
    assert_eq!(
        bump("1.2.3", IncrementKind::Patch, Some("123")).unwrap_err(),
        VersionUpgradeError::InvalidPrereleaseTag
    );
    assert_eq!(
        bump("1.2.3-beta.1", IncrementKind::Pre, Some("123")).unwrap_err(),
        VersionUpgradeError::InvalidPrereleaseTag
    );
}

#[test]
fn empty_or_malformed_tag_is_rejected() {
    assert!(!check_tag(""));
    assert!(!check_tag("beta..x"));
    assert!(!check_tag(".beta"));
    assert!(!check_tag("beta."));
    assert!(!check_tag("be ta"));
    assert!(check_tag("beta"));
    assert!(check_tag("alpha.x"));
    assert_eq!(
        bump("1.2.3", IncrementKind::Minor, Some("")).unwrap_err(),
        VersionUpgradeError::InvalidPrereleaseTag
    );
}

#[test]
fn dotted_tag_names_keep_their_own_dots() {
    assert_eq!(bump("1.0.0", IncrementKind::Patch, Some("alpha.x")).unwrap(), "1.0.1-alpha.x.0");
    assert_eq!(bump("1.0.1-alpha.x.0", IncrementKind::Pre, None).unwrap(), "1.0.1-alpha.x.1");
}

#[test]
fn pre_on_counterless_label_fails_malformed_counter() {
    assert_eq!(
        bump("1.0.0-beta", IncrementKind::Pre, None).unwrap_err(),
        VersionUpgradeError::MalformedPreReleaseCounter
    );
    assert_eq!(
        bump("1.0.0-beta.x", IncrementKind::Pre, None).unwrap_err(),
        VersionUpgradeError::MalformedPreReleaseCounter
    );
    // a counter with a leading zero is not canonical and so not a counter
    assert_eq!(
        bump("1.0.0-beta.01", IncrementKind::Pre, None).unwrap_err(),
        VersionUpgradeError::MalformedPreReleaseCounter
    );
}

#[test]
fn build_metadata_is_dropped() {
    assert_eq!(serialize_version(&parse_version("1.2.3+build.5").unwrap()), "1.2.3");
    assert_eq!(bump("1.2.3+build.5", IncrementKind::Patch, None).unwrap(), "1.2.4");
    assert_eq!(serialize_version(&parse_version("1.2.3-rc.1+build").unwrap()), "1.2.3-rc.1");
}

#[test]
fn unparsable_versions_are_rejected() {
    for text in ["", "abc", "1", "1.2", "1.2.3.4", "01.2.3", "1.02.3", "-1.2.3", "1.2.3-",
        "1.2.3-..x", "1.2.3-x..y", "1.2.x", "1 .2.3", "1.2.3-be ta"] {
        assert_eq!(
            parse_version(text).unwrap_err(),
            VersionUpgradeError::InvalidVersionFormat,
            "{text:?} should be rejected"
        );
    }
}

#[test]
fn component_too_large_for_one_more_increment_is_rejected() {
    // the machine width bounds each component
    assert_eq!(
        parse_version("18446744073709551615.0.0").unwrap_err(),
        VersionUpgradeError::InvalidVersionFormat
    );
    let big = parse_version("18446744073709551614.0.0").unwrap();
    assert_eq!(big.major, u64::MAX - 1);
}

#[test]
fn parsed_fields_are_split_correctly() {
    let v = parse_version("1.22.333-beta.4").unwrap();
    assert_eq!(v.major, 1);
    assert_eq!(v.minor, 22);
    assert_eq!(v.patch, 333);
    let l = v.pre.as_ref().unwrap();
    assert_eq!(l.tag_name, "beta");
    assert_eq!(l.counter, Some(4));
    let bare = parse_version("1.0.0-beta").unwrap();
    let bl = bare.pre.as_ref().unwrap();
    assert_eq!(bl.tag_name, "beta");
    assert_eq!(bl.counter, None);
}

#[test]
fn serializer_renders_constructed_versions() {
    let v = SemanticVersion {
        major: 7,
        minor: 0,
        patch: 10,
        pre: Some(PreReleaseLabel { tag_name: "rc".to_string(), counter: Some(0) }),
    };
    assert_eq!(serialize_version(&v), "7.0.10-rc.0");
}

#[test]
fn increment_kind_strings_are_recognized_exactly() {
    assert_eq!(parse_increment_kind("patch").unwrap(), IncrementKind::Patch);
    assert_eq!(parse_increment_kind("minor").unwrap(), IncrementKind::Minor);
    assert_eq!(parse_increment_kind("major").unwrap(), IncrementKind::Major);
    assert_eq!(parse_increment_kind("pre").unwrap(), IncrementKind::Pre);
    for text in ["", "Patch", "patches", "pat", "majo", "prerelease"] {
        assert_eq!(
            parse_increment_kind(text).unwrap_err(),
            VersionUpgradeError::InvalidIncrement,
            "{text:?} should be rejected"
        );
    }
}

#[test]
fn commit_message_prefixes_v() {
    assert_eq!(commit_message("1.2.3"), "v1.2.3");
    assert_eq!(commit_message("0.1.0-beta.0"), "v0.1.0-beta.0");
}

#[test]
fn error_descriptions_are_fixed() {
    assert_eq!(VersionUpgradeError::InvalidVersionFormat.describe(), "Invalid version format");
    assert_eq!(VersionUpgradeError::InvalidIncrement.describe(), "Invalid increment type");
    assert_eq!(
        VersionUpgradeError::InvalidPrereleaseTag.describe(),
        "Invalid prerelease tag format"
    );
    assert_eq!(VersionUpgradeError::GitCommitError.describe(), "Failed to create Git commit");
    assert_eq!(VersionUpgradeError::GitTagError.describe(), "Failed to create Git tag");
}

const MANIFEST: &str = "# release demo\n[package]\nname = \"demo\" # keep me\nversion = \"0.1.0\"\nauthors = []\n\n[dependencies]\nserde = \"1\"\n";

#[test]
fn upgrade_manifest_rewrites_only_the_version_field() {
    let (new_content, new_version) = upgrade_manifest(MANIFEST, "patch", None).unwrap();
    assert_eq!(new_version, "0.1.1");
    assert_eq!(
        new_content,
        "# release demo\n[package]\nname = \"demo\" # keep me\nversion = \"0.1.1\"\nauthors = []\n\n[dependencies]\nserde = \"1\"\n"
    );
}

#[test]
fn upgrade_manifest_with_tag_and_pre() {
    let (with_tag, v1) = upgrade_manifest(MANIFEST, "minor", Some("beta")).unwrap();
    assert_eq!(v1, "0.2.0-beta.0");
    assert!(with_tag.contains("version = \"0.2.0-beta.0\""));
    let (advanced, v2) = upgrade_manifest(&with_tag, "pre", None).unwrap();
    assert_eq!(v2, "0.2.0-beta.1");
    assert!(advanced.contains("version = \"0.2.0-beta.1\""));
}

#[test]
fn upgrade_manifest_rejects_unknown_increment_kind() {
    assert_eq!(
        upgrade_manifest(MANIFEST, "foo", None).unwrap_err(),
        VersionUpgradeError::InvalidIncrement
    );
    // the rejection comes before the manifest is even consulted
    assert_eq!(
        upgrade_manifest("not toml at all ===", "foo", Some("beta")).unwrap_err(),
        VersionUpgradeError::InvalidIncrement
    );
}

#[test]
fn upgrade_manifest_rejects_bad_documents() {
    assert_eq!(
        upgrade_manifest("= not toml", "patch", None).unwrap_err(),
        VersionUpgradeError::InvalidVersionFormat
    );
    assert_eq!(
        upgrade_manifest("[package]\nname = \"demo\"\n", "patch", None).unwrap_err(),
        VersionUpgradeError::InvalidVersionFormat
    );
    assert_eq!(
        upgrade_manifest("[package]\nversion = 5\n", "patch", None).unwrap_err(),
        VersionUpgradeError::InvalidVersionFormat
    );
    assert_eq!(
        upgrade_manifest("[package]\nversion = \"zero\"\n", "patch", None).unwrap_err(),
        VersionUpgradeError::InvalidVersionFormat
    );
}

#[test]
fn upgrade_manifest_surfaces_engine_errors() {
    assert_eq!(
        upgrade_manifest("[package]\nversion = \"1.0.0\"\n", "pre", None).unwrap_err(),
        VersionUpgradeError::NoActivePreRelease
    );
    assert_eq!(
        upgrade_manifest("[package]\nversion = \"1.0.0\"\n", "patch", Some("42")).unwrap_err(),
        VersionUpgradeError::InvalidPrereleaseTag
    );
    assert_eq!(
        upgrade_manifest("[package]\nversion = \"1.0.0-beta\"\n", "pre", None).unwrap_err(),
        VersionUpgradeError::MalformedPreReleaseCounter
    );
}
