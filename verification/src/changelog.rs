//! The changelog document model: a document is an ordered sequence of lines
//! with structural marker lines (the Unreleased comparison link, a version
//! section header, a version section's closing comparison link). A release is
//! spliced in at the Unreleased marker; a released section can be extracted
//! back out verbatim.

use crate::text::{spec_split_lines, split_lines};
use crate::version::{spec_version_text, version_string, Version};
use vstd::prelude::*;
use vstd::string::*;

verus! {

/// Prefix that identifies the Unreleased marker line.
pub open spec fn marker_prefix(base: Seq<char>) -> Seq<char> {
    "[Unreleased]: "@ + base
}

/// Prefix that identifies the section header line of `v`.
pub open spec fn header_prefix(v: Version) -> Seq<char> {
    "# ["@ + spec_version_text(v) + "] - "@
}

/// Prefix that identifies the closing comparison-link line of `v`.
pub open spec fn closing_prefix(v: Version, base: Seq<char>) -> Seq<char> {
    "["@ + spec_version_text(v) + "]: "@ + base
}

/// The new Unreleased marker line, pointing from `v` to HEAD.
pub open spec fn marker_line(v: Version, base: Seq<char>) -> Seq<char> {
    marker_prefix(base) + "/"@ + spec_version_text(v) + "...HEAD"@
}

/// The section header line of `v`, dated `date`.
pub open spec fn header_line(v: Version, date: Seq<char>) -> Seq<char> {
    header_prefix(v) + date
}

/// The closing comparison-link line of `v`, comparing from `prev`.
pub open spec fn closing_line(v: Version, prev: Version, base: Seq<char>) -> Seq<char> {
    closing_prefix(v, base) + "/"@ + spec_version_text(prev) + "..."@ + spec_version_text(v)
}

/// A changelog entry line for one commit message.
pub open spec fn entry_line(e: Seq<char>) -> Seq<char> {
    "- "@ + e
}

/// The block of lines that a release inserts in place of the Unreleased
/// marker: the new marker, two blank lines, the dated header, a blank line,
/// one entry line per message, a blank line, and the closing link.
pub open spec fn release_block(
    v: Version,
    prev: Version,
    entries: Seq<Seq<char>>,
    date: Seq<char>,
    base: Seq<char>,
) -> Seq<Seq<char>> {
    seq![
        marker_line(v, base),
        Seq::<char>::empty(),
        Seq::<char>::empty(),
        header_line(v, date),
        Seq::<char>::empty(),
    ] + entries.map_values(|e: Seq<char>| entry_line(e)) + seq![
        Seq::<char>::empty(),
        closing_line(v, prev, base),
    ]
}

/// Index of the first line that starts with `p`, or `lines.len()` if none
/// does.
pub open spec fn find_prefix(lines: Seq<Seq<char>>, p: Seq<char>) -> int
    decreases lines.len(),
{
    if lines.len() == 0 {
        0
    } else if p.is_prefix_of(lines[0]) {
        0
    } else {
        1 + find_prefix(lines.drop_first(), p)
    }
}

pub proof fn lemma_find_prefix_bounds(lines: Seq<Seq<char>>, p: Seq<char>)
    ensures
        0 <= find_prefix(lines, p) <= lines.len(),
        find_prefix(lines, p) < lines.len() ==> p.is_prefix_of(lines[find_prefix(lines, p)]),
        forall|i: int| 0 <= i < find_prefix(lines, p) ==> !p.is_prefix_of(lines[i]),
    decreases lines.len(),
{
    if lines.len() > 0 && !p.is_prefix_of(lines[0]) {
        lemma_find_prefix_bounds(lines.drop_first(), p);
        assert forall|i: int| 0 <= i < find_prefix(lines, p) implies !p.is_prefix_of(
            lines[i],
        ) by {
            if i > 0 {
                assert(lines[i] == lines.drop_first()[i - 1]);
            }
        }
    }
}

pub proof fn lemma_find_prefix_at(lines: Seq<Seq<char>>, p: Seq<char>, k: int)
    requires
        0 <= k <= lines.len(),
        forall|i: int| 0 <= i < k ==> !p.is_prefix_of(lines[i]),
        k == lines.len() || p.is_prefix_of(lines[k]),
    ensures
        find_prefix(lines, p) == k,
    decreases k,
{
    if k > 0 {
        lemma_find_prefix_at(lines.drop_first(), p, k - 1);
    }
}

/// Whether the document holds an Unreleased marker line.
pub open spec fn has_marker(lines: Seq<Seq<char>>, base: Seq<char>) -> bool {
    find_prefix(lines, marker_prefix(base)) < lines.len()
}

/// The document after a release is spliced in: the first Unreleased marker
/// line is replaced by the release block; every other line is unchanged. A
/// document without a marker passes through unchanged.
pub open spec fn spec_insert_release(
    lines: Seq<Seq<char>>,
    v: Version,
    prev: Version,
    entries: Seq<Seq<char>>,
    date: Seq<char>,
    base: Seq<char>,
) -> Seq<Seq<char>> {
    let m = find_prefix(lines, marker_prefix(base));
    if m < lines.len() {
        lines.take(m) + release_block(v, prev, entries, date, base) + lines.skip(m + 1)
    } else {
        lines
    }
}

/// Whether `s` starts with `p`.
pub fn starts_with(s: &str, p: &str) -> (b: bool)
    ensures
        b == p@.is_prefix_of(s@),
{
    let n = s.unicode_len();
    let m = p.unicode_len();
    if m > n {
        return false;
    }
    let mut i: usize = 0;
    while i < m
        invariant
            n == s@.len(),
            m == p@.len(),
            m <= n,
            0 <= i <= m,
            forall|k: int| 0 <= k < i ==> s@[k] == p@[k],
        decreases m - i,
    {
        if s.get_char(i) != p.get_char(i) {
            proof {
                assert(!p@.is_prefix_of(s@)) by {
                    if p@.is_prefix_of(s@) {
                        assert(p@[i as int] == s@.subrange(0, m as int)[i as int]);
                    }
                }
            }
            return false;
        }
        i = i + 1;
    }
    proof {
        assert(p@ =~= s@.subrange(0, m as int));
    }
    true
}

/// Index of the first line of `doc` that is an Unreleased marker for
/// `compare_base`, or `doc.len()` if there is none.
pub fn find_marker(doc: &Vec<String>, compare_base: &str) -> (m: usize)
    ensures
        m as int == find_prefix(doc.deep_view(), marker_prefix(compare_base@)),
{
    let ghost dv = doc.deep_view();
    let mut mp = "[Unreleased]: ".to_owned();
    mp.append(compare_base);
    let mut m: usize = 0;
    while m < doc.len()
        invariant
            dv == doc.deep_view(),
            dv.len() == doc@.len(),
            mp@ == marker_prefix(compare_base@),
            0 <= m <= doc@.len(),
            forall|i: int| 0 <= i < m ==> !marker_prefix(compare_base@).is_prefix_of(dv[i]),
        decreases doc@.len() - m,
    {
        if starts_with(doc[m].as_str(), mp.as_str()) {
            proof {
                assert(dv[m as int] == doc@[m as int]@);
                lemma_find_prefix_at(dv, mp@, m as int);
            }
            return m;
        }
        proof {
            assert(dv[m as int] == doc@[m as int]@);
        }
        m = m + 1;
    }
    proof {
        lemma_find_prefix_at(dv, mp@, dv.len() as int);
    }
    m
}

/// Splice a new release into the document: replace the first Unreleased
/// marker line with the release block for `new_version`, leaving every line
/// before and after the marker byte-identical. A document without a marker is
/// returned unchanged.
pub fn insert_release(
    doc: &Vec<String>,
    new_version: &Version,
    previous_version: &Version,
    entries: &Vec<String>,
    date: &str,
    compare_base: &str,
) -> (out: Vec<String>)
    ensures
        out.deep_view() == spec_insert_release(
            doc.deep_view(),
            *new_version,
            *previous_version,
            entries.deep_view(),
            date@,
            compare_base@,
        ),
{
    let ghost dv = doc.deep_view();
    let ghost ev = entries.deep_view();
    let ghost base = compare_base@;
    let m = find_marker(doc, compare_base);
    let mut out: Vec<String> = Vec::new();
    let mut i: usize = 0;
    proof {
        assert(out.deep_view() =~= Seq::<Seq<char>>::empty());
        assert(Seq::<Seq<char>>::empty() =~= dv.take(0));
    }
    while i < doc.len() && i < m
        invariant
            dv == doc.deep_view(),
            dv.len() == doc@.len(),
            0 <= i <= doc@.len(),
            i <= m,
            out.deep_view() == dv.take(i as int),
        decreases doc@.len() - i,
    {
        let ghost prev = out.deep_view();
        out.push(doc[i].clone());
        proof {
            assert(dv[i as int] == doc@[i as int]@);
            assert(out.deep_view() =~= prev.push(dv[i as int]));
            assert(prev.push(dv[i as int]) =~= dv.take(i + 1));
        }
        i = i + 1;
    }
    if i == doc.len() {
        // no marker line: the document passes through unchanged
        proof {
            assert(dv.take(dv.len() as int) =~= dv);
        }
        return out;
    }
    // i == m < doc.len(): replace the marker line with the release block
    let nv = version_string(new_version);
    let pv = version_string(previous_version);
    let ghost head = out.deep_view();

    let mut marker = "[Unreleased]: ".to_owned();
    marker.append(compare_base);
    marker.append("/");
    marker.append(nv.as_str());
    marker.append("...HEAD");
    proof {
        assert(marker@ =~= marker_line(*new_version, base));
    }
    out.push(marker);

    out.push(String::new());
    out.push(String::new());

    let mut header = "# [".to_owned();
    header.append(nv.as_str());
    header.append("] - ");
    header.append(date);
    proof {
        assert(header@ =~= header_line(*new_version, date@));
    }
    out.push(header);

    out.push(String::new());

    let ghost block_head = seq![
        marker_line(*new_version, base),
        Seq::<char>::empty(),
        Seq::<char>::empty(),
        header_line(*new_version, date@),
        Seq::<char>::empty(),
    ];
    proof {
        assert(out.deep_view() =~= head + block_head);
        assert(ev.map_values(|e: Seq<char>| entry_line(e)).take(0) =~= Seq::<Seq<char>>::empty());
        assert(out.deep_view() =~= head + block_head + ev.map_values(
            |e: Seq<char>| entry_line(e),
        ).take(0));
    }
    let mut j: usize = 0;
    while j < entries.len()
        invariant
            ev == entries.deep_view(),
            ev.len() == entries@.len(),
            0 <= j <= entries@.len(),
            out.deep_view() == head + block_head + ev.map_values(
                |e: Seq<char>| entry_line(e),
            ).take(j as int),
        decreases entries@.len() - j,
    {
        let ghost prev = out.deep_view();
        let mut l = "- ".to_owned();
        l.append(entries[j].as_str());
        proof {
            assert(ev[j as int] == entries@[j as int]@);
            assert(l@ == entry_line(ev[j as int]));
        }
        out.push(l);
        proof {
            assert(out.deep_view() =~= prev.push(entry_line(ev[j as int])));
            assert(ev.map_values(|e: Seq<char>| entry_line(e))[j as int] == entry_line(
                ev[j as int],
            ));
            assert(prev.push(entry_line(ev[j as int])) =~= head + block_head + ev.map_values(
                |e: Seq<char>| entry_line(e),
            ).take(j + 1));
        }
        j = j + 1;
    }

    let ghost mapped = ev.map_values(|e: Seq<char>| entry_line(e));
    proof {
        assert(mapped.take(ev.len() as int) =~= mapped);
        assert(out.deep_view() == head + block_head + mapped);
    }
    let ghost p1 = out.deep_view();
    out.push(String::new());
    proof {
        assert(out.deep_view() =~= p1.push(Seq::<char>::empty()));
    }
    let ghost p2 = out.deep_view();

    let mut closing = "[".to_owned();
    closing.append(nv.as_str());
    closing.append("]: ");
    closing.append(compare_base);
    closing.append("/");
    closing.append(pv.as_str());
    closing.append("...");
    closing.append(nv.as_str());
    proof {
        assert(closing@ =~= closing_line(*new_version, *previous_version, base));
    }
    out.push(closing);

    proof {
        assert(out.deep_view() =~= p2.push(closing_line(*new_version, *previous_version, base)));
        assert(release_block(*new_version, *previous_version, ev, date@, base) =~= block_head
            + mapped + seq![
            Seq::<char>::empty(),
            closing_line(*new_version, *previous_version, base),
        ]);
        assert(out.deep_view() =~= dv.take(m as int) + release_block(
            *new_version,
            *previous_version,
            ev,
            date@,
            base,
        ) + dv.subrange(m + 1, m + 1));
    }

    let mut k: usize = m + 1;
    while k < doc.len()
        invariant
            dv == doc.deep_view(),
            dv.len() == doc@.len(),
            m < doc@.len(),
            m + 1 <= k <= doc@.len(),
            out.deep_view() == dv.take(m as int) + release_block(
                *new_version,
                *previous_version,
                ev,
                date@,
                base,
            ) + dv.subrange(m + 1, k as int),
        decreases doc@.len() - k,
    {
        let ghost prev = out.deep_view();
        out.push(doc[k].clone());
        proof {
            assert(dv[k as int] == doc@[k as int]@);
            assert(out.deep_view() =~= prev.push(dv[k as int]));
            assert(prev.push(dv[k as int]) =~= dv.take(m as int) + release_block(
                *new_version,
                *previous_version,
                ev,
                date@,
                base,
            ) + dv.subrange(m + 1, k + 1));
        }
        k = k + 1;
    }
    proof {
        assert(dv.subrange(m + 1, dv.len() as int) =~= dv.skip(m + 1));
    }
    out
}

/// The lines joined, each line followed by `'\n'`.
pub open spec fn lines_text(lines: Seq<Seq<char>>) -> Seq<char>
    decreases lines.len(),
{
    if lines.len() == 0 {
        Seq::empty()
    } else {
        lines_text(lines.drop_last()) + lines.last() + seq!['\n']
    }
}

/// The verbatim body of `v`'s section: the lines strictly between the first
/// header line of `v` and the first closing-link line of `v` after it (or the
/// end of the document), each followed by `'\n'`. A document without a header
/// line for `v` yields the empty string.
pub open spec fn spec_extract_section(lines: Seq<Seq<char>>, v: Version, base: Seq<char>) -> Seq<
    char,
> {
    let h = find_prefix(lines, header_prefix(v));
    if h < lines.len() {
        let rest = lines.skip(h + 1);
        let e = find_prefix(rest, closing_prefix(v, base));
        lines_text(rest.take(e))
    } else {
        Seq::empty()
    }
}

/// Extract the body of `version`'s section from the document text: the lines
/// between its header line (exclusive) and its closing comparison-link line
/// (exclusive), joined with a trailing newline each. Returns the empty string
/// when the document has no header line for `version`.
pub fn extract_section(document: &str, version: &Version, compare_base: &str) -> (r: String)
    ensures
        r@ == spec_extract_section(spec_split_lines(document@), *version, compare_base@),
{
    let lines = split_lines(document);
    let ghost dv = lines.deep_view();
    proof {
        assert(forall|i: int| 0 <= i < dv.len() ==> dv[i] == lines@[i]@);
    }
    let vt = version_string(version);
    let mut hp = "# [".to_owned();
    hp.append(vt.as_str());
    hp.append("] - ");
    proof {
        assert(hp@ =~= header_prefix(*version));
    }
    let mut cp = "[".to_owned();
    cp.append(vt.as_str());
    cp.append("]: ");
    cp.append(compare_base);
    proof {
        assert(cp@ =~= closing_prefix(*version, compare_base@));
    }
    let n = lines.len();
    let mut h: usize = 0;
    while h < n && !starts_with(lines[h].as_str(), hp.as_str())
        invariant
            dv == lines.deep_view(),
            dv.len() == lines@.len(),
            n == lines@.len(),
            hp@ == header_prefix(*version),
            0 <= h <= n,
            forall|i: int| 0 <= i < h ==> !header_prefix(*version).is_prefix_of(dv[i]),
        decreases n - h,
    {
        proof {
            assert(dv[h as int] == lines@[h as int]@);
        }
        h = h + 1;
    }
    proof {
        if h < n {
            assert(dv[h as int] == lines@[h as int]@);
        }
        lemma_find_prefix_at(dv, hp@, h as int);
    }
    if h == n {
        return String::new();
    }
    let ghost rest = dv.skip(h + 1);
    proof {
        assert(forall|i: int| 0 <= i < rest.len() ==> rest[i] == dv[h + 1 + i]);
        assert(rest.take(0) =~= Seq::<Seq<char>>::empty());
    }
    let mut acc = String::new();
    let mut j: usize = h + 1;
    while j < n && !starts_with(lines[j].as_str(), cp.as_str())
        invariant
            dv == lines.deep_view(),
            dv.len() == lines@.len(),
            n == lines@.len(),
            cp@ == closing_prefix(*version, compare_base@),
            h < n,
            rest == dv.skip(h + 1),
            h + 1 <= j <= n,
            forall|i: int| h + 1 <= i < j ==> !closing_prefix(*version, compare_base@).is_prefix_of(
                dv[i],
            ),
            acc@ == lines_text(rest.take(j - h - 1)),
        decreases n - j,
    {
        let ghost prev = acc@;
        acc.append(lines[j].as_str());
        acc.append("\n");
        proof {
            reveal_strlit("\n");
            assert("\n"@ =~= seq!['\n']);
            assert(dv[j as int] == lines@[j as int]@);
            assert(rest.take(j - h).drop_last() =~= rest.take(j - h - 1));
            assert(rest.take(j - h).last() == rest[j - h - 1]);
            assert(rest[j - h - 1] == dv[j as int]);
            assert(acc@ =~= lines_text(rest.take(j - h - 1)) + dv[j as int] + seq!['\n']);
        }
        j = j + 1;
    }
    proof {
        assert(forall|i: int| 0 <= i < j - h - 1 ==> rest[i] == dv[h + 1 + i]);
        if j < n {
            assert(dv[j as int] == lines@[j as int]@);
            assert(rest[j - h - 1] == dv[j as int]);
        }
        lemma_find_prefix_at(rest, cp@, j - h - 1);
    }
    acc
}

/// The body lines of a freshly inserted section: a blank line, one entry line
/// per message, and a blank line.
pub open spec fn section_body_lines(entries: Seq<Seq<char>>) -> Seq<Seq<char>> {
    seq![Seq::<char>::empty()] + entries.map_values(|e: Seq<char>| entry_line(e)) + seq![
        Seq::<char>::empty(),
    ]
}

/// Law (round trip): after a release for `v` is spliced into a document none
/// of whose lines before the Unreleased marker starts with `v`'s header
/// prefix, extracting `v`'s section returns exactly the inserted body: the
/// supplied entry lines, one per line, between two blank lines.
pub proof fn lemma_insert_then_extract(
    doc: Seq<Seq<char>>,
    v: Version,
    prev: Version,
    entries: Seq<Seq<char>>,
    date: Seq<char>,
    base: Seq<char>,
)
    requires
        has_marker(doc, base),
        forall|i: int|
            0 <= i < find_prefix(doc, marker_prefix(base)) ==> !header_prefix(v).is_prefix_of(
                doc[i],
            ),
    ensures
        spec_extract_section(spec_insert_release(doc, v, prev, entries, date, base), v, base)
            == lines_text(section_body_lines(entries)),
{
    let mp = marker_prefix(base);
    let hp = header_prefix(v);
    let cp = closing_prefix(v, base);
    let m = find_prefix(doc, mp);
    lemma_find_prefix_bounds(doc, mp);
    let mapped = entries.map_values(|e: Seq<char>| entry_line(e));
    let k = entries.len() as int;
    let block = release_block(v, prev, entries, date, base);
    let out = spec_insert_release(doc, v, prev, entries, date, base);
    assert(out == doc.take(m) + block + doc.skip(m + 1));
    assert(block.len() == k + 7);
    assert(out.len() == doc.len() + k + 6);

    reveal_strlit("# [");
    reveal_strlit("[Unreleased]: ");
    reveal_strlit("[");
    reveal_strlit("- ");
    assert(hp[0] == '#');
    assert(cp[0] == '[');
    assert(hp.len() >= 3);
    assert(cp.len() >= 1);
    assert(marker_line(v, base)[0] == '[');

    assert forall|i: int| 0 <= i < m + 3 implies !hp.is_prefix_of(out[i]) by {
        if i < m {
            assert(out[i] == doc[i]);
        } else if i == m {
            assert(out[i] == block[0]);
            assert(block[0] == marker_line(v, base));
            if hp.is_prefix_of(out[i]) {
                assert(hp[0] == out[i].subrange(0, hp.len() as int)[0]);
                assert(hp[0] == out[i][0]);
            }
        } else {
            assert(out[i] == block[i - m]);
            assert(block[i - m].len() == 0);
        }
    }
    assert(out[m + 3] == block[3]);
    assert(block[3] == header_line(v, date));
    assert(hp.is_prefix_of(header_line(v, date))) by {
        assert(hp =~= header_line(v, date).subrange(0, hp.len() as int));
    }
    lemma_find_prefix_at(out, hp, m + 3);

    let rest = out.skip(m + 4);
    assert(rest =~= section_body_lines(entries) + seq![closing_line(v, prev, base)] + doc.skip(
        m + 1,
    ));
    assert forall|j: int| 0 <= j < k implies #[trigger] entry_line(entries[j])[0] == '-' by {
        assert(entry_line(entries[j])[0] == "- "@[0]);
    }
    assert forall|i: int| 0 <= i < k + 2 implies !cp.is_prefix_of(rest[i]) by {
        if i == 0 || i == k + 1 {
            assert(rest[i].len() == 0);
        } else {
            assert(rest[i] == mapped[i - 1]);
            assert(mapped[i - 1] == entry_line(entries[i - 1]));
            assert(entry_line(entries[i - 1])[0] == '-');
            if cp.is_prefix_of(rest[i]) {
                assert(cp[0] == rest[i].subrange(0, cp.len() as int)[0]);
                assert(cp[0] == rest[i][0]);
            }
        }
    }
    assert(rest[k + 2] == closing_line(v, prev, base));
    assert(cp.is_prefix_of(closing_line(v, prev, base))) by {
        assert(cp =~= closing_line(v, prev, base).subrange(0, cp.len() as int));
    }
    lemma_find_prefix_at(rest, cp, k + 2);
    assert(rest.take(k + 2) =~= section_body_lines(entries));
}

/// Law: splicing a release touches only the Unreleased marker line. Every
/// line before the marker keeps its index and its bytes; every line after it
/// is shifted past the inserted block, bytes unchanged.
pub proof fn lemma_insert_preserves_outside(
    doc: Seq<Seq<char>>,
    v: Version,
    prev: Version,
    entries: Seq<Seq<char>>,
    date: Seq<char>,
    base: Seq<char>,
)
    requires
        has_marker(doc, base),
    ensures
        ({
            let m = find_prefix(doc, marker_prefix(base));
            let out = spec_insert_release(doc, v, prev, entries, date, base);
            &&& out.len() == doc.len() + entries.len() + 6
            &&& forall|i: int| 0 <= i < m ==> out[i] == doc[i]
            &&& forall|i: int|
                m < i < doc.len() ==> out[i + entries.len() + 6] == doc[i]
        }),
{
    let m = find_prefix(doc, marker_prefix(base));
    let out = spec_insert_release(doc, v, prev, entries, date, base);
    let k = entries.len() as int;
    lemma_find_prefix_bounds(doc, marker_prefix(base));
    assert(out == doc.take(m) + release_block(v, prev, entries, date, base) + doc.skip(m + 1));
    assert(release_block(v, prev, entries, date, base).len() == k + 7);
    assert forall|i: int| m < i < doc.len() implies out[i + k + 6] == doc[i] by {
        assert(out[i + k + 6] == doc.skip(m + 1)[i - m - 1]);
    }
}

/// Law: extracting a section is a pure function of the document, the version
/// and the base URL, so extracting twice from the same unmodified document
/// returns identical results.
pub proof fn lemma_extract_section_repeatable(
    lines: Seq<Seq<char>>,
    v: Version,
    base: Seq<char>,
    r1: Seq<char>,
    r2: Seq<char>,
)
    requires
        r1 == spec_extract_section(lines, v, base),
        r2 == spec_extract_section(lines, v, base),
    ensures
        r1 == r2,
{
}

} // verus!
