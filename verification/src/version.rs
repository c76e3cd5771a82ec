//! Semantic versions: the `(major, minor, patch)` triple, parsing through the
//! `semver` crate, decimal rendering, and the bump operation.

use crate::text::{lemma_split_lines_nonempty, spec_split_lines, spec_trim, split_lines, trim};
use vstd::prelude::*;
use vstd::string::*;

verus! {

/// A released version: a triple of non-negative integers.
#[derive(Clone, Copy, Debug, PartialEq, Eq, Structural)]
pub struct Version {
    pub major: u64,
    pub minor: u64,
    pub patch: u64,
}

/// Which component of a version a release increments.
#[derive(Clone, Copy, Debug, PartialEq, Eq, Structural)]
pub enum BumpKind {
    Major,
    Minor,
    Patch,
}

/// The version string could not be parsed as a semantic version.
#[derive(Clone, Copy, Debug, PartialEq, Eq, Structural)]
pub struct ParseError;

/// Strict ordering of versions: major first, then minor, then patch.
pub open spec fn version_lt(a: Version, b: Version) -> bool {
    ||| a.major < b.major
    ||| (a.major == b.major && a.minor < b.minor)
    ||| (a.major == b.major && a.minor == b.minor && a.patch < b.patch)
}

/// The component of `v` that `kind` targets.
pub open spec fn component_of(v: Version, kind: BumpKind) -> u64 {
    match kind {
        BumpKind::Major => v.major,
        BumpKind::Minor => v.minor,
        BumpKind::Patch => v.patch,
    }
}

/// The next version: the targeted component is incremented, the other two are
/// left unchanged.
pub open spec fn spec_next_version(v: Version, kind: BumpKind) -> Version {
    match kind {
        BumpKind::Major => Version { major: (v.major + 1) as u64, ..v },
        BumpKind::Minor => Version { minor: (v.minor + 1) as u64, ..v },
        BumpKind::Patch => Version { patch: (v.patch + 1) as u64, ..v },
    }
}

/// Increment the component of `current` that `kind` names, leaving the other
/// two components unchanged. The result is strictly greater than `current` in
/// version order.
pub fn next_version(current: &Version, kind: BumpKind) -> (next: Version)
    requires
        component_of(*current, kind) < u64::MAX,
    ensures
        next == spec_next_version(*current, kind),
        component_of(next, kind) == component_of(*current, kind) + 1,
        forall|other: BumpKind|
            other != kind ==> #[trigger] component_of(next, other) == component_of(
                *current,
                other,
            ),
        version_lt(*current, next),
{
    match kind {
        BumpKind::Major => Version { major: current.major + 1, ..*current },
        BumpKind::Minor => Version { minor: current.minor + 1, ..*current },
        BumpKind::Patch => Version { patch: current.patch + 1, ..*current },
    }
}

/// The decimal digit character for `d`.
pub open spec fn digit_char(d: nat) -> char {
    if d == 0 {
        '0'
    } else if d == 1 {
        '1'
    } else if d == 2 {
        '2'
    } else if d == 3 {
        '3'
    } else if d == 4 {
        '4'
    } else if d == 5 {
        '5'
    } else if d == 6 {
        '6'
    } else if d == 7 {
        '7'
    } else if d == 8 {
        '8'
    } else {
        '9'
    }
}

/// The decimal rendering of `n`, without leading zeros (except for `n == 0`).
pub open spec fn spec_dec(n: nat) -> Seq<char>
    decreases n,
{
    if n < 10 {
        seq![digit_char(n)]
    } else {
        spec_dec(n / 10).push(digit_char(n % 10))
    }
}

/// The canonical text of a version: `major.minor.patch` in decimal.
pub open spec fn spec_version_text(v: Version) -> Seq<char> {
    spec_dec(v.major as nat) + seq!['.'] + spec_dec(v.minor as nat) + seq!['.'] + spec_dec(
        v.patch as nat,
    )
}

fn digit_str(d: u64) -> (r: &'static str)
    requires
        d < 10,
    ensures
        r@ == seq![digit_char(d as nat)],
{
    proof {
        reveal_strlit("0");
        reveal_strlit("1");
        reveal_strlit("2");
        reveal_strlit("3");
        reveal_strlit("4");
        reveal_strlit("5");
        reveal_strlit("6");
        reveal_strlit("7");
        reveal_strlit("8");
        reveal_strlit("9");
        assert("0"@ =~= seq!['0']);
        assert("1"@ =~= seq!['1']);
        assert("2"@ =~= seq!['2']);
        assert("3"@ =~= seq!['3']);
        assert("4"@ =~= seq!['4']);
        assert("5"@ =~= seq!['5']);
        assert("6"@ =~= seq!['6']);
        assert("7"@ =~= seq!['7']);
        assert("8"@ =~= seq!['8']);
        assert("9"@ =~= seq!['9']);
    }
    if d == 0 {
        "0"
    } else if d == 1 {
        "1"
    } else if d == 2 {
        "2"
    } else if d == 3 {
        "3"
    } else if d == 4 {
        "4"
    } else if d == 5 {
        "5"
    } else if d == 6 {
        "6"
    } else if d == 7 {
        "7"
    } else if d == 8 {
        "8"
    } else {
        "9"
    }
}

/// Render `n` in decimal.
pub fn u64_to_string(n: u64) -> (r: String)
    ensures
        r@ == spec_dec(n as nat),
    decreases n,
{
    if n < 10 {
        digit_str(n).to_owned()
    } else {
        let mut s = u64_to_string(n / 10);
        s.append(digit_str(n % 10));
        proof {
            assert((n / 10) as nat == (n as nat) / 10);
            assert((n % 10) as nat == (n as nat) % 10);
            assert(spec_dec((n as nat) / 10) + seq![digit_char((n as nat) % 10)] =~= spec_dec(
                (n as nat) / 10,
            ).push(digit_char((n as nat) % 10)));
        }
        s
    }
}

/// Render a version as `major.minor.patch`.
pub fn version_string(v: &Version) -> (r: String)
    ensures
        r@ == spec_version_text(*v),
{
    let mut s = u64_to_string(v.major);
    s.append(".");
    let minor = u64_to_string(v.minor);
    s.append(minor.as_str());
    s.append(".");
    let patch = u64_to_string(v.patch);
    s.append(patch.as_str());
    proof {
        reveal_strlit(".");
        assert("."@ =~= seq!['.']);
        assert(s@ =~= spec_version_text(*v));
    }
    s
}

/// What `semver::Version::parse` returns on a given string: `Some` of the
/// numeric `(major, minor, patch)` triple when the string is a valid semantic
/// version, `None` when it is rejected.
pub uninterp spec fn semver_triple(s: Seq<char>) -> Option<(u64, u64, u64)>;

/// Relies on `semver::Version::parse`: whether it accepts a string and the
/// numeric components it returns are a function of the string alone.
#[verifier::external_body]
fn parse_semver(s: &str) -> (r: Result<Version, ParseError>)
    ensures
        match r {
            Ok(v) => semver_triple(s@) == Some((v.major, v.minor, v.patch)),
            Err(e) => semver_triple(s@) is None,
        },
{
    match semver::Version::parse(s) {
        Ok(v) => Ok(Version { major: v.major, minor: v.minor, patch: v.patch }),
        Err(_) => Err(ParseError),
    }
}

/// The trimmed first line of the version file's contents: the stored version
/// string.
pub open spec fn spec_version_line(file_text: Seq<char>) -> Seq<char> {
    spec_trim(spec_split_lines(file_text)[0])
}

/// Read the version stored in the version file's contents: its first line,
/// trimmed of surrounding whitespace, parsed as a semantic version.
pub fn parse_version_line(file_text: &str) -> (r: Result<Version, ParseError>)
    ensures
        match r {
            Ok(v) => semver_triple(spec_version_line(file_text@)) == Some(
                (v.major, v.minor, v.patch),
            ),
            Err(e) => semver_triple(spec_version_line(file_text@)) is None,
        },
{
    let lines = split_lines(file_text);
    proof {
        lemma_split_lines_nonempty(file_text@);
        assert(lines.deep_view()[0] == lines@[0]@);
    }
    let first = trim(lines[0].as_str());
    parse_semver(first.as_str())
}

} // verus!
