//! Orchestration of a release: validating the bump flags, deriving the next
//! version from the stored one, harvesting the commit log, splicing the new
//! changelog section, and composing the release commit message.

use crate::changelog::{
    find_marker, has_marker, insert_release, lemma_find_prefix_bounds, marker_prefix,
    spec_insert_release,
};
use crate::commits::{extract_messages, spec_extract_messages};
use crate::text::{join_lines, spec_join_lines, spec_split_lines, split_lines};
use crate::version::{
    component_of, next_version, parse_version_line, semver_triple, spec_next_version,
    spec_version_line, spec_version_text, version_string, BumpKind, Version,
};
use vstd::prelude::*;
use vstd::string::*;

verus! {

/// The bump flags were inconsistent: none given, or more than one.
#[derive(Clone, Copy, Debug, PartialEq, Eq, Structural)]
pub enum UsageError {
    NoFlagGiven,
    ConflictingFlags,
}

/// Why a release could not be generated.
#[derive(Clone, Copy, Debug, PartialEq, Eq, Structural)]
pub enum GenerateError {
    /// The stored version string is not a valid semantic version.
    Parse,
    /// The targeted component of the stored version cannot be incremented.
    VersionOverflow,
    /// The changelog holds no Unreleased marker line to splice at.
    MarkerMissing,
}

/// A generated release: the rewritten changelog text, the new version file
/// contents, and the version itself.
pub struct Release {
    pub new_version: Version,
    pub changelog: String,
    pub version_file: String,
}

/// The bump kind that a set of command-line flags selects: exactly one flag
/// must be given.
pub open spec fn spec_bump_kind(major: bool, minor: bool, patch: bool) -> Result<
    BumpKind,
    UsageError,
> {
    if !major && !minor && !patch {
        Err(UsageError::NoFlagGiven)
    } else if (major && minor) || (major && patch) || (minor && patch) {
        Err(UsageError::ConflictingFlags)
    } else if major {
        Ok(BumpKind::Major)
    } else if minor {
        Ok(BumpKind::Minor)
    } else {
        Ok(BumpKind::Patch)
    }
}

/// Validate the version-bump flags: exactly one of `major`, `minor`, `patch`
/// must be set.
pub fn bump_kind_of_flags(major: bool, minor: bool, patch: bool) -> (r: Result<
    BumpKind,
    UsageError,
>)
    ensures
        r == spec_bump_kind(major, minor, patch),
{
    if !major && !minor && !patch {
        Err(UsageError::NoFlagGiven)
    } else if (major && minor) || (major && patch) || (minor && patch) {
        Err(UsageError::ConflictingFlags)
    } else if major {
        Ok(BumpKind::Major)
    } else if minor {
        Ok(BumpKind::Minor)
    } else {
        Ok(BumpKind::Patch)
    }
}

/// Decision part of the preflight check: the tool may run only when the
/// repository directory, the changelog file and the version file are all
/// present.
pub fn check_running_directory(
    git_dir_present: bool,
    changelog_present: bool,
    version_file_present: bool,
) -> (ok: bool)
    ensures
        ok == (git_dir_present && changelog_present && version_file_present),
{
    git_dir_present && changelog_present && version_file_present
}

/// The commit range queried from the version-control log: from the last
/// released version to HEAD.
pub fn log_range(last_version: &Version) -> (r: String)
    ensures
        r@ == spec_version_text(*last_version) + "...HEAD"@,
{
    let mut r = version_string(last_version);
    r.append("...HEAD");
    r
}

/// The release commit message: subject `release: <version>`, a blank line,
/// then the extracted section body.
pub fn release_commit_message(version: &Version, section_body: &str) -> (r: String)
    ensures
        r@ == "release: "@ + spec_version_text(*version) + "\n\n"@ + section_body@,
{
    let mut r = "release: ".to_owned();
    let vt = version_string(version);
    r.append(vt.as_str());
    r.append("\n\n");
    r.append(section_body);
    proof {
        assert(r@ =~= "release: "@ + spec_version_text(*version) + "\n\n"@ + section_body@);
    }
    r
}

/// What generating a release returns for the given inputs and date: the
/// errors, in order of precedence, or the rewritten changelog and version
/// file.
pub open spec fn generate_post(
    r: Result<Release, GenerateError>,
    changelog: Seq<char>,
    version_file: Seq<char>,
    raw_log: Seq<char>,
    kind: BumpKind,
    date: Seq<char>,
    base: Seq<char>,
) -> bool {
    let lv = spec_version_line(version_file);
    let doc = spec_split_lines(changelog);
    match semver_triple(lv) {
        Option::None => r is Err && r->Err_0 == GenerateError::Parse,
        Option::Some(t) => {
            let prev = Version { major: t.0, minor: t.1, patch: t.2 };
            if component_of(prev, kind) == u64::MAX {
                r is Err && r->Err_0 == GenerateError::VersionOverflow
            } else if !has_marker(doc, base) {
                r is Err && r->Err_0 == GenerateError::MarkerMissing
            } else {
                let next = spec_next_version(prev, kind);
                &&& r is Ok
                &&& r->Ok_0.new_version == next
                &&& r->Ok_0.changelog@ == spec_join_lines(
                    spec_insert_release(
                        doc,
                        next,
                        prev,
                        spec_extract_messages(spec_split_lines(raw_log)),
                        date,
                        base,
                    ),
                )
                &&& r->Ok_0.version_file@ == spec_version_text(next)
            }
        },
    }
}

fn component(v: &Version, kind: BumpKind) -> (c: u64)
    ensures
        c == component_of(*v, kind),
{
    match kind {
        BumpKind::Major => v.major,
        BumpKind::Minor => v.minor,
        BumpKind::Patch => v.patch,
    }
}

/// Generate a release dated `date`: parse the stored version, bump it as
/// `kind` says, turn the raw commit log into entries, and splice the new
/// section into the changelog at the Unreleased marker.
pub fn generate_changelog(
    changelog: &str,
    version_file: &str,
    raw_log: &str,
    kind: BumpKind,
    date: &str,
    compare_base: &str,
) -> (r: Result<Release, GenerateError>)
    ensures
        generate_post(r, changelog@, version_file@, raw_log@, kind, date@, compare_base@),
{
    let prev = match parse_version_line(version_file) {
        Ok(v) => v,
        Err(_) => {
            return Err(GenerateError::Parse);
        },
    };
    if component(&prev, kind) == u64::MAX {
        return Err(GenerateError::VersionOverflow);
    }
    let next = next_version(&prev, kind);
    let lines = split_lines(changelog);
    let m = find_marker(&lines, compare_base);
    proof {
        lemma_find_prefix_bounds(lines.deep_view(), marker_prefix(compare_base@));
    }
    if m == lines.len() {
        return Err(GenerateError::MarkerMissing);
    }
    let msgs = extract_messages(raw_log);
    let new_lines = insert_release(&lines, &next, &prev, &msgs, date, compare_base);
    let text = join_lines(&new_lines);
    let vf = version_string(&next);
    Ok(Release { new_version: next, changelog: text, version_file: vf })
}

/// Relies on `chrono`'s `Local::now` and its `%Y-%m-%d` format: the local
/// date as a zero-padded year, month and day separated by `-`, hence at least
/// ten characters and free of newlines.
#[verifier::external_body]
fn today_iso8601() -> (r: String)
    ensures
        r@.len() >= 10,
        forall|i: int| 0 <= i < r@.len() ==> r@[i] != '\n',
{
    chrono::Local::now().format("%Y-%m-%d").to_string()
}

/// Generate a release dated with today's local date. The result is what
/// [`generate_changelog`] returns for some newline-free date string.
pub fn generate_release(
    changelog: &str,
    version_file: &str,
    raw_log: &str,
    kind: BumpKind,
    compare_base: &str,
) -> (r: Result<Release, GenerateError>)
    ensures
        exists|date: Seq<char>|
            {
                &&& #[trigger] generate_post(
                    r,
                    changelog@,
                    version_file@,
                    raw_log@,
                    kind,
                    date,
                    compare_base@,
                )
                &&& date.len() >= 10
                &&& forall|i: int| 0 <= i < date.len() ==> date[i] != '\n'
            },
{
    let date = today_iso8601();
    let r = generate_changelog(changelog, version_file, raw_log, kind, date.as_str(), compare_base);
    proof {
        assert(generate_post(r, changelog@, version_file@, raw_log@, kind, date@, compare_base@));
    }
    r
}

} // verus!
