use shipper_release::version::{next_version, parse_version_line, version_string, BumpKind, ParseError, Version};

#[test]
fn next_version_major_increments_major_only() {
    let v = Version { major: 1, minor: 2, patch: 3 };
    let n = next_version(&v, BumpKind::Major);
    assert_eq!(n, Version { major: 2, minor: 2, patch: 3 });
}

#[test]
fn next_version_minor_increments_minor_only() {
    let v = Version { major: 1, minor: 2, patch: 3 };
    let n = next_version(&v, BumpKind::Minor);
    assert_eq!(n, Version { major: 1, minor: 3, patch: 3 });
}

#[test]
fn next_version_patch_increments_patch_only() {
    let v = Version { major: 1, minor: 2, patch: 3 };
    let n = next_version(&v, BumpKind::Patch);
    assert_eq!(n, Version { major: 1, minor: 2, patch: 4 });
}

#[test]
fn next_version_is_strictly_greater() {
    let v = Version { major: 0, minor: 9, patch: 9 };
    let n = next_version(&v, BumpKind::Minor);
    assert!((n.major, n.minor, n.patch) > (v.major, v.minor, v.patch));
}

#[test]
fn version_string_renders_decimal() {
    assert_eq!(version_string(&Version { major: 10, minor: 0, patch: 3 }), "10.0.3");
    assert_eq!(version_string(&Version { major: 0, minor: 0, patch: 0 }), "0.0.0");
    assert_eq!(
        version_string(&Version { major: 18446744073709551615, minor: 1, patch: 2 }),
        "18446744073709551615.1.2"
    );
}

#[test]
fn parse_version_line_reads_plain_version() {
    assert_eq!(
        parse_version_line("1.2.3"),
        Ok(Version { major: 1, minor: 2, patch: 3 })
    );
}

#[test]
fn parse_version_line_trims_and_takes_first_line() {
    assert_eq!(
        parse_version_line("  4.5.6  \nsecond line is ignored"),
        Ok(Version { major: 4, minor: 5, patch: 6 })
    );
}

#[test]
fn parse_version_line_keeps_numeric_parts_of_prerelease() {
    assert_eq!(
        parse_version_line("1.2.3-alpha.1+build5\n"),
        Ok(Version { major: 1, minor: 2, patch: 3 })
    );
}

#[test]
fn parse_version_line_rejects_garbage() {
    assert_eq!(parse_version_line("not-a-version"), Err(ParseError));
    assert_eq!(parse_version_line("1.0"), Err(ParseError));
    assert_eq!(parse_version_line(""), Err(ParseError));
}
