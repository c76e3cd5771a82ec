use shipper_release::changelog::{extract_section, insert_release};
use shipper_release::text::{join_lines, split_lines};
use shipper_release::version::Version;

const BASE: &str = "https://github.com/org/repo/compare";

fn sample_doc() -> Vec<String> {
    vec![
        "# Changelog".to_string(),
        "".to_string(),
        format!("[Unreleased]: {BASE}/1.2.3...HEAD"),
        "".to_string(),
        "# [1.2.3] - 2024-01-01".to_string(),
        "".to_string(),
        "- Old entry".to_string(),
        "".to_string(),
        format!("[1.2.3]: {BASE}/1.2.2...1.2.3"),
    ]
}

#[test]
fn insert_release_replaces_marker_with_block() {
    let doc = sample_doc();
    let entries = vec!["Fix bug".to_string(), "Add feature".to_string()];
    let out = insert_release(
        &doc,
        &Version { major: 1, minor: 3, patch: 3 },
        &Version { major: 1, minor: 2, patch: 3 },
        &entries,
        "2024-05-01",
        BASE,
    );
    let expected = vec![
        "# Changelog".to_string(),
        "".to_string(),
        format!("[Unreleased]: {BASE}/1.3.3...HEAD"),
        "".to_string(),
        "".to_string(),
        "# [1.3.3] - 2024-05-01".to_string(),
        "".to_string(),
        "- Fix bug".to_string(),
        "- Add feature".to_string(),
        "".to_string(),
        format!("[1.3.3]: {BASE}/1.2.3...1.3.3"),
        "".to_string(),
        "# [1.2.3] - 2024-01-01".to_string(),
        "".to_string(),
        "- Old entry".to_string(),
        "".to_string(),
        format!("[1.2.3]: {BASE}/1.2.2...1.2.3"),
    ];
    assert_eq!(out, expected);
}

#[test]
fn insert_release_without_marker_passes_document_through() {
    let doc = vec!["# Changelog".to_string(), "no marker here".to_string()];
    let out = insert_release(
        &doc,
        &Version { major: 1, minor: 3, patch: 3 },
        &Version { major: 1, minor: 2, patch: 3 },
        &vec!["Fix bug".to_string()],
        "2024-05-01",
        BASE,
    );
    assert_eq!(out, doc);
}

#[test]
fn insert_release_keeps_outside_lines_byte_identical() {
    let doc = sample_doc();
    let entries = vec!["Fix bug".to_string()];
    let out = insert_release(
        &doc,
        &Version { major: 1, minor: 3, patch: 3 },
        &Version { major: 1, minor: 2, patch: 3 },
        &entries,
        "2024-05-01",
        BASE,
    );
    // marker stood at index 2; the block holds the entry plus six frame lines
    assert_eq!(out.len(), doc.len() + entries.len() + 6);
    assert_eq!(&out[..2], &doc[..2]);
    assert_eq!(&out[2 + entries.len() + 7..], &doc[3..]);
}

#[test]
fn extract_section_returns_body_between_markers() {
    let doc = format!(
        "# [1.3.0] - 2024-01-01\n- Fix bug\n[1.3.0]: {BASE}/1.2.3...1.3.0\n"
    );
    let body = extract_section(&doc, &Version { major: 1, minor: 3, patch: 0 }, BASE);
    assert_eq!(body, "- Fix bug\n");
}

#[test]
fn extract_section_twice_returns_identical_results() {
    let doc = format!(
        "# [1.3.0] - 2024-01-01\n- Fix bug\n[1.3.0]: {BASE}/1.2.3...1.3.0\n"
    );
    let v = Version { major: 1, minor: 3, patch: 0 };
    let first = extract_section(&doc, &v, BASE);
    let second = extract_section(&doc, &v, BASE);
    assert_eq!(first, second);
}

#[test]
fn extract_section_missing_header_yields_empty_string() {
    let doc = format!(
        "# [1.3.0] - 2024-01-01\n- Fix bug\n[1.3.0]: {BASE}/1.2.3...1.3.0\n"
    );
    let body = extract_section(&doc, &Version { major: 9, minor: 9, patch: 9 }, BASE);
    assert_eq!(body, "");
}

#[test]
fn extract_section_stops_at_closing_link() {
    let doc = format!(
        "# [1.3.0] - 2024-01-01\n- Fix bug\n[1.3.0]: {BASE}/1.2.3...1.3.0\n\n# [1.2.3] - 2023-12-01\n- Older\n[1.2.3]: {BASE}/1.2.2...1.2.3\n"
    );
    let body = extract_section(&doc, &Version { major: 1, minor: 3, patch: 0 }, BASE);
    assert_eq!(body, "- Fix bug\n");
}

#[test]
fn insert_then_extract_round_trips_entries() {
    let doc = sample_doc();
    let entries = vec!["Fix bug".to_string(), "Add feature".to_string()];
    let new_version = Version { major: 1, minor: 3, patch: 3 };
    let out = insert_release(
        &doc,
        &new_version,
        &Version { major: 1, minor: 2, patch: 3 },
        &entries,
        "2024-05-01",
        BASE,
    );
    let text = join_lines(&out);
    let body = extract_section(&text, &new_version, BASE);
    assert_eq!(body, "\n- Fix bug\n- Add feature\n\n");
}

#[test]
fn split_and_join_lines_round_trip() {
    let text = "# Changelog\n\nline\n";
    let lines = split_lines(text);
    assert_eq!(
        lines,
        vec![
            "# Changelog".to_string(),
            "".to_string(),
            "line".to_string(),
            "".to_string()
        ]
    );
    assert_eq!(join_lines(&lines), text);
}
