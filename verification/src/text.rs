//! Plain-text helpers shared by the commit-log and changelog components:
//! whitespace trimming, splitting a document into lines on `'\n'`, and
//! joining lines back into a document.

use vstd::prelude::*;
use vstd::string::*;

verus! {

/// Whitespace, for the purposes of trimming commit messages and version lines.
pub open spec fn is_space(c: char) -> bool {
    c == ' ' || c == '\t' || c == '\r' || c == '\n'
}

/// `s` with its leading whitespace removed.
pub open spec fn spec_trim_start(s: Seq<char>) -> Seq<char>
    decreases s.len(),
{
    if s.len() > 0 && is_space(s[0]) {
        spec_trim_start(s.drop_first())
    } else {
        s
    }
}

/// `s` with its trailing whitespace removed.
pub open spec fn spec_trim_end(s: Seq<char>) -> Seq<char>
    decreases s.len(),
{
    if s.len() > 0 && is_space(s.last()) {
        spec_trim_end(s.drop_last())
    } else {
        s
    }
}

/// `s` with leading and trailing whitespace removed.
pub open spec fn spec_trim(s: Seq<char>) -> Seq<char> {
    spec_trim_end(spec_trim_start(s))
}

proof fn lemma_trim_start_skip(s: Seq<char>, i: int)
    requires
        0 <= i <= s.len(),
        forall|k: int| 0 <= k < i ==> is_space(s[k]),
        i == s.len() || !is_space(s[i]),
    ensures
        spec_trim_start(s) == s.skip(i),
    decreases i,
{
    if i == 0 {
        assert(s.skip(0) =~= s);
    } else {
        lemma_trim_start_skip(s.drop_first(), i - 1);
        assert(s.drop_first().skip(i - 1) =~= s.skip(i));
    }
}

proof fn lemma_trim_end_take(s: Seq<char>, j: int)
    requires
        0 <= j <= s.len(),
        forall|k: int| j <= k < s.len() ==> is_space(s[k]),
        j == 0 || !is_space(s[j - 1]),
    ensures
        spec_trim_end(s) == s.take(j),
    decreases s.len() - j,
{
    if j == s.len() {
        assert(s.take(j) =~= s);
    } else {
        lemma_trim_end_take(s.drop_last(), j);
        assert(s.drop_last().take(j) =~= s.take(j));
    }
}

proof fn lemma_trim_start_no_lead(s: Seq<char>)
    ensures
        spec_trim_start(s).len() > 0 ==> !is_space(spec_trim_start(s)[0]),
    decreases s.len(),
{
    if s.len() > 0 && is_space(s[0]) {
        lemma_trim_start_no_lead(s.drop_first());
    }
}

proof fn lemma_trim_end_props(s: Seq<char>)
    ensures
        spec_trim_end(s).len() <= s.len(),
        spec_trim_end(s) == s.take(spec_trim_end(s).len() as int),
        spec_trim_end(s).len() > 0 ==> !is_space(spec_trim_end(s).last()),
    decreases s.len(),
{
    if s.len() > 0 && is_space(s.last()) {
        lemma_trim_end_props(s.drop_last());
        let t = spec_trim_end(s.drop_last());
        assert(s.drop_last().take(t.len() as int) =~= s.take(t.len() as int));
    } else {
        assert(s.take(s.len() as int) =~= s);
    }
}

/// A trimmed string has neither leading nor trailing whitespace.
pub proof fn lemma_trim_no_edges(s: Seq<char>)
    ensures
        spec_trim(s).len() > 0 ==> !is_space(spec_trim(s)[0]),
        spec_trim(s).len() > 0 ==> !is_space(spec_trim(s).last()),
{
    let t = spec_trim_start(s);
    let r = spec_trim(s);
    lemma_trim_start_no_lead(s);
    lemma_trim_end_props(t);
    if r.len() > 0 {
        assert(r[0] == t.take(r.len() as int)[0]);
    }
}

/// Trimming is idempotent.
pub proof fn lemma_trim_idempotent(s: Seq<char>)
    ensures
        spec_trim(spec_trim(s)) == spec_trim(s),
{
    let r = spec_trim(s);
    lemma_trim_no_edges(s);
    if r.len() == 0 {
        assert(spec_trim_start(r) == r);
        assert(spec_trim_end(r) == r);
    } else {
        lemma_trim_start_skip(r, 0);
        assert(r.skip(0) =~= r);
        lemma_trim_end_take(r, r.len() as int);
        assert(r.take(r.len() as int) =~= r);
    }
}

/// Remove leading and trailing whitespace from `s`.
pub fn trim(s: &str) -> (r: String)
    ensures
        r@ == spec_trim(s@),
{
    let n = s.unicode_len();
    let mut i: usize = 0;
    while i < n && is_space_exec(s.get_char(i))
        invariant
            n == s@.len(),
            0 <= i <= n,
            forall|k: int| 0 <= k < i ==> is_space(s@[k]),
        decreases n - i,
    {
        i = i + 1;
    }
    if i == n {
        proof {
            lemma_trim_start_skip(s@, i as int);
            assert(s@.skip(n as int) =~= Seq::<char>::empty());
        }
        return String::new();
    }
    let mut j: usize = n;
    while j > i && is_space_exec(s.get_char(j - 1))
        invariant
            n == s@.len(),
            i < n,
            !is_space(s@[i as int]),
            i < j <= n,
            forall|k: int| j <= k < n ==> is_space(s@[k]),
        decreases j,
    {
        j = j - 1;
    }
    let t = s.substring_char(i, j);
    proof {
        lemma_trim_start_skip(s@, i as int);
        lemma_trim_end_take(s@.skip(i as int), j - i as int);
        assert(s@.skip(i as int).take(j - i as int) =~= s@.subrange(i as int, j as int));
    }
    t.to_owned()
}

/// Whether `c` counts as whitespace.
pub fn is_space_exec(c: char) -> (b: bool)
    ensures
        b == is_space(c),
{
    c == ' ' || c == '\t' || c == '\r' || c == '\n'
}

/// Index of the first `'\n'` in `s`, or `s.len()` if there is none.
pub open spec fn first_nl(s: Seq<char>) -> int
    decreases s.len(),
{
    if s.len() == 0 {
        0
    } else if s[0] == '\n' {
        0
    } else {
        1 + first_nl(s.drop_first())
    }
}

pub proof fn lemma_first_nl_at(s: Seq<char>, k: int)
    requires
        0 <= k <= s.len(),
        forall|i: int| 0 <= i < k ==> s[i] != '\n',
        k == s.len() || s[k] == '\n',
    ensures
        first_nl(s) == k,
    decreases k,
{
    if k > 0 {
        lemma_first_nl_at(s.drop_first(), k - 1);
    }
}

/// The lines of `s`: the segments between `'\n'` separators, in order. A
/// document with no `'\n'` is one line; a trailing `'\n'` yields a final
/// empty line.
pub open spec fn spec_split_lines(s: Seq<char>) -> Seq<Seq<char>>
    decreases s.len(),
{
    let k = first_nl(s);
    if 0 <= k < s.len() {
        seq![s.take(k)] + spec_split_lines(s.skip(k + 1))
    } else {
        seq![s]
    }
}

pub proof fn lemma_split_lines_nonempty(s: Seq<char>)
    ensures
        spec_split_lines(s).len() >= 1,
{
}

/// The lines joined with a single `'\n'` between consecutive lines.
pub open spec fn spec_join_lines(lines: Seq<Seq<char>>) -> Seq<char>
    decreases lines.len(),
{
    if lines.len() == 0 {
        Seq::empty()
    } else if lines.len() == 1 {
        lines[0]
    } else {
        spec_join_lines(lines.drop_last()) + seq!['\n'] + lines.last()
    }
}

proof fn lemma_join_lines_append(a: Seq<Seq<char>>, b: Seq<Seq<char>>)
    requires
        a.len() > 0,
        b.len() > 0,
    ensures
        spec_join_lines(a + b) == spec_join_lines(a) + seq!['\n'] + spec_join_lines(b),
    decreases b.len(),
{
    if b.len() == 1 {
        assert((a + b).drop_last() =~= a);
        assert((a + b).last() == b[0]);
    } else {
        lemma_join_lines_append(a, b.drop_last());
        assert((a + b).drop_last() =~= a + b.drop_last());
        assert((a + b).last() == b.last());
    }
}

/// Splitting a document into lines loses nothing: joining the lines back
/// gives the document byte for byte.
pub proof fn lemma_join_split_round_trip(s: Seq<char>)
    ensures
        spec_join_lines(spec_split_lines(s)) == s,
    decreases s.len(),
{
    let k = first_nl(s);
    if 0 <= k < s.len() {
        let rest = s.skip(k + 1);
        lemma_join_split_round_trip(rest);
        lemma_split_lines_nonempty(rest);
        lemma_join_lines_append(seq![s.take(k)], spec_split_lines(rest));
        assert(spec_join_lines(seq![s.take(k)]) == s.take(k));
        lemma_first_nl_bounds(s);
        assert(s.take(k) + seq!['\n'] + rest =~= s);
    }
}

proof fn lemma_first_nl_bounds(s: Seq<char>)
    ensures
        0 <= first_nl(s) <= s.len(),
        first_nl(s) < s.len() ==> s[first_nl(s)] == '\n',
    decreases s.len(),
{
    if s.len() > 0 && s[0] != '\n' {
        lemma_first_nl_bounds(s.drop_first());
    }
}

/// Split `s` into its lines on `'\n'`.
pub fn split_lines(s: &str) -> (lines: Vec<String>)
    ensures
        lines.deep_view() == spec_split_lines(s@),
{
    let n = s.unicode_len();
    let mut out: Vec<String> = Vec::new();
    let mut pos: usize = 0;
    let mut done: bool = false;
    proof {
        assert(s@.skip(0) =~= s@);
        assert(out.deep_view() =~= Seq::<Seq<char>>::empty());
        assert(out.deep_view() + spec_split_lines(s@) =~= spec_split_lines(s@));
    }
    while !done
        invariant
            n == s@.len(),
            0 <= pos <= n,
            !done ==> spec_split_lines(s@) == out.deep_view() + spec_split_lines(
                s@.skip(pos as int),
            ),
            done ==> out.deep_view() == spec_split_lines(s@),
        decreases n - pos + (if done { 0int } else { 1int }),
    {
        let ghost prev_out = out.deep_view();
        let ghost rest = s@.skip(pos as int);
        let mut j: usize = pos;
        while j < n && s.get_char(j) != '\n'
            invariant
                n == s@.len(),
                pos <= j <= n,
                forall|k: int| pos <= k < j ==> s@[k] != '\n',
            decreases n - j,
        {
            j = j + 1;
        }
        let piece = s.substring_char(pos, j);
        out.push(piece.to_owned());
        proof {
            assert(forall|i: int|
                0 <= i < rest.len() ==> rest[i] == s@[pos + i]);
            lemma_first_nl_at(rest, j - pos as int);
            assert(rest.take(j - pos as int) =~= s@.subrange(pos as int, j as int));
            assert(out.deep_view() =~= prev_out.push(piece@));
        }
        if j < n {
            proof {
                assert(rest.skip(j - pos as int + 1) =~= s@.skip(j + 1));
                assert(spec_split_lines(rest) == seq![rest.take(j - pos as int)]
                    + spec_split_lines(rest.skip(j - pos as int + 1)));
                assert(prev_out.push(piece@) + spec_split_lines(s@.skip(j + 1)) =~= prev_out + (
                seq![piece@] + spec_split_lines(s@.skip(j + 1))));
            }
            pos = j + 1;
        } else {
            proof {
                assert(first_nl(rest) == rest.len());
                assert(spec_split_lines(rest) =~= seq![rest]);
                assert(rest =~= piece@);
                assert(prev_out.push(piece@) =~= prev_out + seq![piece@]);
            }
            done = true;
        }
    }
    out
}

/// Join `lines` with a single `'\n'` between consecutive lines.
pub fn join_lines(lines: &Vec<String>) -> (r: String)
    ensures
        r@ == spec_join_lines(lines.deep_view()),
{
    let ghost dv = lines.deep_view();
    let mut r = String::new();
    if lines.len() == 0 {
        return r;
    }
    r.append(lines[0].as_str());
    proof {
        assert(dv.take(1) =~= seq![dv[0]]);
        assert(r@ == spec_join_lines(dv.take(1)));
    }
    let mut i: usize = 1;
    while i < lines.len()
        invariant
            dv == lines.deep_view(),
            dv.len() == lines@.len(),
            1 <= i <= lines@.len(),
            r@ == spec_join_lines(dv.take(i as int)),
        decreases lines@.len() - i,
    {
        r.append("\n");
        r.append(lines[i].as_str());
        proof {
            reveal_strlit("\n");
            assert("\n"@ =~= seq!['\n']);
            assert(dv.take(i + 1).drop_last() =~= dv.take(i as int));
            assert(dv.take(i + 1).last() == dv[i as int]);
            assert(dv[i as int] == lines@[i as int]@);
            assert(spec_join_lines(dv.take(i + 1)) == spec_join_lines(dv.take(i as int))
                + seq!['\n'] + dv[i as int]);
        }
        i = i + 1;
    }
    proof {
        assert(dv.take(dv.len() as int) =~= dv);
    }
    r
}

} // verus!
