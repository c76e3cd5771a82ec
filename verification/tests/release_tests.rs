use shipper_release::release::{
    bump_kind_of_flags, check_running_directory, generate_changelog, generate_release, log_range,
    release_commit_message, GenerateError, UsageError,
};
use shipper_release::version::{BumpKind, Version};

const BASE: &str = "https://github.com/org/repo/compare";

fn sample_changelog() -> String {
    format!(
        "# Changelog\n\n[Unreleased]: {BASE}/1.2.3...HEAD\n\n# [1.2.3] - 2024-01-01\n\n- Old entry\n\n[1.2.3]: {BASE}/1.2.2...1.2.3"
    )
}

#[test]
fn bump_kind_requires_exactly_one_flag() {
    assert_eq!(bump_kind_of_flags(false, false, false), Err(UsageError::NoFlagGiven));
    assert_eq!(bump_kind_of_flags(true, true, false), Err(UsageError::ConflictingFlags));
    assert_eq!(bump_kind_of_flags(true, false, true), Err(UsageError::ConflictingFlags));
    assert_eq!(bump_kind_of_flags(false, true, true), Err(UsageError::ConflictingFlags));
    assert_eq!(bump_kind_of_flags(true, true, true), Err(UsageError::ConflictingFlags));
    assert_eq!(bump_kind_of_flags(true, false, false), Ok(BumpKind::Major));
    assert_eq!(bump_kind_of_flags(false, true, false), Ok(BumpKind::Minor));
    assert_eq!(bump_kind_of_flags(false, false, true), Ok(BumpKind::Patch));
}

#[test]
fn preflight_needs_all_three_markers() {
    assert!(check_running_directory(true, true, true));
    assert!(!check_running_directory(false, true, true));
    assert!(!check_running_directory(true, false, true));
    assert!(!check_running_directory(true, true, false));
}

#[test]
fn log_range_spans_last_version_to_head() {
    assert_eq!(log_range(&Version { major: 1, minor: 2, patch: 3 }), "1.2.3...HEAD");
}

#[test]
fn release_commit_message_has_subject_and_body() {
    let msg = release_commit_message(
        &Version { major: 1, minor: 3, patch: 3 },
        "- Fix bug\n",
    );
    assert_eq!(msg, "release: 1.3.3\n\n- Fix bug\n");
}

#[test]
fn generate_changelog_splices_dated_section() {
    let r = generate_changelog(
        &sample_changelog(),
        "1.2.3\n",
        "abc123 Fix bug\ndef456 Add feature\n",
        BumpKind::Minor,
        "2024-05-01",
        BASE,
    )
    .unwrap();
    assert_eq!(r.new_version, Version { major: 1, minor: 3, patch: 3 });
    assert_eq!(r.version_file, "1.3.3");
    let expected = format!(
        "# Changelog\n\n[Unreleased]: {BASE}/1.3.3...HEAD\n\n\n# [1.3.3] - 2024-05-01\n\n- Fix bug\n- Add feature\n\n[1.3.3]: {BASE}/1.2.3...1.3.3\n\n# [1.2.3] - 2024-01-01\n\n- Old entry\n\n[1.2.3]: {BASE}/1.2.2...1.2.3"
    );
    assert_eq!(r.changelog, expected);
}

#[test]
fn generate_changelog_rejects_bad_version_file() {
    let r = generate_changelog(
        &sample_changelog(),
        "not a version\n",
        "abc123 Fix bug\n",
        BumpKind::Minor,
        "2024-05-01",
        BASE,
    );
    assert!(matches!(r, Err(GenerateError::Parse)));
}

#[test]
fn generate_changelog_rejects_document_without_marker() {
    let r = generate_changelog(
        "# Changelog\nno marker line\n",
        "1.2.3\n",
        "abc123 Fix bug\n",
        BumpKind::Minor,
        "2024-05-01",
        BASE,
    );
    assert!(matches!(r, Err(GenerateError::MarkerMissing)));
}

#[test]
fn generate_changelog_rejects_unincrementable_component() {
    let r = generate_changelog(
        &sample_changelog(),
        "18446744073709551615.0.0\n",
        "abc123 Fix bug\n",
        BumpKind::Major,
        "2024-05-01",
        BASE,
    );
    assert!(matches!(r, Err(GenerateError::VersionOverflow)));
}

#[test]
fn generate_release_uses_a_dated_header() {
    let r = generate_release(
        &sample_changelog(),
        "1.2.3\n",
        "abc123 Fix bug\n",
        BumpKind::Patch,
        BASE,
    )
    .unwrap();
    assert_eq!(r.new_version, Version { major: 1, minor: 2, patch: 4 });
    assert_eq!(r.version_file, "1.2.4");
    let header_prefix = "# [1.2.4] - ";
    let header = r
        .changelog
        .lines()
        .find(|l| l.starts_with(header_prefix))
        .expect("generated changelog must hold the new section header");
    // the date after the header prefix is one newline-free line of >= 10 chars
    assert!(header.len() >= header_prefix.len() + 10);
}
