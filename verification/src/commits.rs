//! Commit-log harvesting: turning a raw line-oriented log of
//! `<hex-hash><whitespace><message>` lines into trimmed commit messages.

use crate::text::{
    is_space, is_space_exec, lemma_trim_idempotent, spec_split_lines, spec_trim, split_lines, trim,
};
use vstd::prelude::*;
use vstd::string::*;

verus! {

/// Whether `c` is a hexadecimal digit.
pub open spec fn is_hex_digit(c: char) -> bool {
    ('0' <= c && c <= '9') || ('a' <= c && c <= 'f') || ('A' <= c && c <= 'F')
}

fn is_hex_digit_exec(c: char) -> (b: bool)
    ensures
        b == is_hex_digit(c),
{
    ('0' <= c && c <= '9') || ('a' <= c && c <= 'f') || ('A' <= c && c <= 'F')
}

/// Length of the maximal prefix of `s` made of hexadecimal digits.
pub open spec fn hex_end(s: Seq<char>) -> int
    decreases s.len(),
{
    if s.len() > 0 && is_hex_digit(s[0]) {
        1 + hex_end(s.drop_first())
    } else {
        0
    }
}

proof fn lemma_hex_end_at(s: Seq<char>, k: int)
    requires
        0 <= k <= s.len(),
        forall|i: int| 0 <= i < k ==> is_hex_digit(s[i]),
        k == s.len() || !is_hex_digit(s[k]),
    ensures
        hex_end(s) == k,
    decreases k,
{
    if k > 0 {
        lemma_hex_end_at(s.drop_first(), k - 1);
    }
}

/// A well-formed log line: a non-empty hexadecimal hash, then a whitespace
/// separator, then the message.
pub open spec fn well_formed_line(s: Seq<char>) -> bool {
    0 < hex_end(s) < s.len() && is_space(s[hex_end(s)])
}

/// The commit message carried by a well-formed log line: everything after the
/// hash, trimmed of surrounding whitespace.
pub open spec fn message_of(s: Seq<char>) -> Seq<char> {
    spec_trim(s.skip(hex_end(s)))
}

/// The messages of the well-formed lines, in order; malformed lines
/// contribute nothing.
pub open spec fn spec_extract_messages(lines: Seq<Seq<char>>) -> Seq<Seq<char>>
    decreases lines.len(),
{
    if lines.len() == 0 {
        Seq::empty()
    } else {
        let rest = spec_extract_messages(lines.drop_last());
        if well_formed_line(lines.last()) {
            rest.push(message_of(lines.last()))
        } else {
            rest
        }
    }
}

/// The well-formed lines of a log, in order.
pub open spec fn well_formed_lines(lines: Seq<Seq<char>>) -> Seq<Seq<char>> {
    lines.filter(|l: Seq<char>| well_formed_line(l))
}

/// Law: extraction yields exactly one message per well-formed line,
/// order-preserving, each trimmed of surrounding whitespace; malformed lines
/// contribute nothing and do not affect the well-formed ones.
pub proof fn lemma_extract_messages_exact(lines: Seq<Seq<char>>)
    ensures
        spec_extract_messages(lines) == well_formed_lines(lines).map_values(
            |l: Seq<char>| message_of(l),
        ),
        spec_extract_messages(lines).len() == well_formed_lines(lines).len(),
        forall|j: int|
            0 <= j < spec_extract_messages(lines).len() ==> #[trigger] spec_extract_messages(
                lines,
            )[j] == spec_trim(spec_extract_messages(lines)[j]),
    decreases lines.len(),
{
    reveal(Seq::filter);
    let pred = |l: Seq<char>| well_formed_line(l);
    let f = |l: Seq<char>| message_of(l);
    if lines.len() == 0 {
        assert(spec_extract_messages(lines) =~= well_formed_lines(lines).map_values(f));
    } else {
        lemma_extract_messages_exact(lines.drop_last());
        let sub = well_formed_lines(lines.drop_last());
        if pred(lines.last()) {
            assert(well_formed_lines(lines) == sub.push(lines.last()));
            assert(sub.push(lines.last()).map_values(f) =~= sub.map_values(f).push(
                f(lines.last()),
            ));
            lemma_trim_idempotent(lines.last().skip(hex_end(lines.last())));
        } else {
            assert(well_formed_lines(lines) == sub);
        }
    }
}

/// Parse one log line: the trimmed message if the line is well formed,
/// nothing otherwise.
pub fn parse_commit_line(line: &str) -> (r: Option<String>)
    ensures
        match r {
            Some(m) => well_formed_line(line@) && m@ == message_of(line@),
            None => !well_formed_line(line@),
        },
{
    let n = line.unicode_len();
    let mut k: usize = 0;
    while k < n && is_hex_digit_exec(line.get_char(k))
        invariant
            n == line@.len(),
            0 <= k <= n,
            forall|i: int| 0 <= i < k ==> is_hex_digit(line@[i]),
        decreases n - k,
    {
        k = k + 1;
    }
    proof {
        lemma_hex_end_at(line@, k as int);
    }
    if k == 0 || k == n {
        return None;
    }
    if !is_space_exec(line.get_char(k)) {
        return None;
    }
    let rest = line.substring_char(k, n);
    proof {
        assert(line@.subrange(k as int, n as int) =~= line@.skip(k as int));
    }
    Some(trim(rest))
}

/// Extract the commit messages from a raw line-oriented log: one trimmed
/// message per well-formed line, in the order of the input lines; lines that
/// do not match `<hex-hash><whitespace><message>` are skipped.
pub fn extract_messages(raw_log: &str) -> (msgs: Vec<String>)
    ensures
        msgs.deep_view() == spec_extract_messages(spec_split_lines(raw_log@)),
{
    let lines = split_lines(raw_log);
    let ghost lv = lines.deep_view();
    let mut msgs: Vec<String> = Vec::new();
    proof {
        assert(lv.take(0) =~= Seq::<Seq<char>>::empty());
        assert(msgs.deep_view() =~= Seq::<Seq<char>>::empty());
    }
    let mut i: usize = 0;
    while i < lines.len()
        invariant
            lv == lines.deep_view(),
            lv.len() == lines@.len(),
            0 <= i <= lines@.len(),
            msgs.deep_view() == spec_extract_messages(lv.take(i as int)),
        decreases lines@.len() - i,
    {
        let ghost prev = msgs.deep_view();
        proof {
            assert(lv.take(i + 1).drop_last() =~= lv.take(i as int));
            assert(lv.take(i + 1).last() == lv[i as int]);
            assert(lv[i as int] == lines@[i as int]@);
        }
        match parse_commit_line(lines[i].as_str()) {
            Some(m) => {
                let ghost mv = m@;
                msgs.push(m);
                proof {
                    assert(msgs.deep_view() =~= prev.push(mv));
                }
            },
            None => {},
        }
        i = i + 1;
    }
    proof {
        assert(lv.take(lv.len() as int) =~= lv);
    }
    msgs
}

} // verus!
