//! Heuristic extraction of copyright statements from a dependency's source
//! tree: which file names are worth reading, which lines carry a copyright
//! statement, and which of those are boilerplate to discard. All extraction
//! is advisory and per-file; reading the files is the caller's business.

use vstd::prelude::*;

use vstd::string::StringExecFns;

use crate::chars::{chars_of, contains_ci, find_ci, lower_char, matches_at, string_of};

verus! {

/// A file is a scan candidate when its name contains, case-insensitively,
/// one of: `license`, `copying`, `readme`, `copyright`, `notice`.
pub open spec fn spec_candidate_file_name(name: Seq<char>) -> bool {
    contains_ci(name, "license"@) || contains_ci(name, "copying"@) || contains_ci(name, "readme"@)
        || contains_ci(name, "copyright"@) || contains_ci(name, "notice"@)
}

/// Whether a file name matches the candidate pattern of the scanner.
pub fn is_candidate_file_name(name: &str) -> (b: bool)
    ensures
        b == spec_candidate_file_name(name@),
{
    let cs = chars_of(name);
    find_ci(&cs, &chars_of("license")) || find_ci(&cs, &chars_of("copying")) || find_ci(
        &cs,
        &chars_of("readme"),
    ) || find_ci(&cs, &chars_of("copyright")) || find_ci(&cs, &chars_of("notice"))
}

/// A copyright marker at position `j` of a line: the sign `©`, or `(c)` in
/// either case.
pub open spec fn marker_at(l: Seq<char>, j: int) -> bool {
    (0 <= j < l.len() && l[j] == '\u{00a9}') || (0 <= j && j + 3 <= l.len() && l[j] == '('
        && lower_char(l[j + 1]) == 'c' && l[j + 2] == ')')
}

/// A copyright statement starts at `i`: the word `copyright`
/// (case-insensitively) with a marker somewhere after it on the same line.
pub open spec fn cand_start_at(l: Seq<char>, i: int) -> bool {
    matches_at(l, i, "copyright"@) && exists|j: int| j >= i + 9 && marker_at(l, j)
}

/// The first position where a copyright statement starts, or the line
/// length when there is none.
pub open spec fn first_cand_start(l: Seq<char>, i: int) -> int
    decreases l.len() - i when 0 <= i <= l.len()
{
    if i >= l.len() {
        l.len() as int
    } else if cand_start_at(l, i) {
        i
    } else {
        first_cand_start(l, i + 1)
    }
}

/// The candidate a line yields: from the first copyright-statement start to
/// the end of the line, if there is one.
pub open spec fn line_candidate(l: Seq<char>) -> Option<Seq<char>> {
    let i = first_cand_start(l, 0);
    if i == l.len() {
        None
    } else {
        Some(l.subrange(i, l.len() as int))
    }
}

/// Template boilerplate: a candidate that names a placeholder — `year`,
/// `notice`, `holder`, `owner`, `interest` or `yyyy`, case-insensitively —
/// is a false positive and is discarded.
pub open spec fn is_false_positive(c: Seq<char>) -> bool {
    contains_ci(c, "year"@) || contains_ci(c, "notice"@) || contains_ci(c, "holder"@)
        || contains_ci(c, "owner"@) || contains_ci(c, "interest"@) || contains_ci(c, "yyyy"@)
}

/// The notice a line contributes: its candidate, unless that candidate is a
/// false positive.
pub open spec fn line_notice(l: Seq<char>) -> Option<Seq<char>> {
    match line_candidate(l) {
        Some(c) => if is_false_positive(c) {
            None
        } else {
            Some(c)
        },
        None => None,
    }
}

/// The lines of a text, split on line feeds.
pub open spec fn split_lines(s: Seq<char>) -> Seq<Seq<char>>
    decreases s.len(),
{
    if s.len() == 0 {
        seq![Seq::empty()]
    } else if s[0] == '\n' {
        seq![Seq::<char>::empty()] + split_lines(s.drop_first())
    } else {
        let rest = split_lines(s.drop_first());
        seq![seq![s[0]] + rest[0]] + rest.drop_first()
    }
}

/// A split always yields at least one line.
pub proof fn lemma_split_lines_nonempty(s: Seq<char>)
    ensures
        split_lines(s).len() >= 1,
    decreases s.len(),
{
    if s.len() != 0 {
        lemma_split_lines_nonempty(s.drop_first())
    }
}

/// The notices contributed by a sequence of lines, in order.
pub open spec fn lines_notices(ls: Seq<Seq<char>>) -> Seq<Seq<char>>
    decreases ls.len(),
{
    if ls.len() == 0 {
        Seq::empty()
    } else {
        lines_notices(ls.drop_last()) + match line_notice(ls.last()) {
            Some(c) => seq![c],
            None => Seq::empty(),
        }
    }
}

/// Every notice a text contributes: the filtered candidate of each of its
/// lines, in line order.
pub open spec fn content_notices(s: Seq<char>) -> Seq<Seq<char>> {
    lines_notices(split_lines(s))
}

/// The views of a sequence of strings.
pub open spec fn strs(v: Seq<String>) -> Seq<Seq<char>> {
    v.map_values(|s: String| s@)
}

/// Inserting one notice into the collection: a no-op when an equal string
/// is already present, else an append.
pub open spec fn insert_unique(l: Seq<Seq<char>>, x: Seq<char>) -> Seq<Seq<char>> {
    if l.contains(x) {
        l
    } else {
        l.push(x)
    }
}

/// Inserting a whole sequence of notices, left to right.
pub open spec fn insert_all(l: Seq<Seq<char>>, xs: Seq<Seq<char>>) -> Seq<Seq<char>>
    decreases xs.len(),
{
    if xs.len() == 0 {
        l
    } else {
        insert_unique(insert_all(l, xs.drop_last()), xs.last())
    }
}

/// Adds one notice string to the collection unless an equal one is already
/// there. A `NOTICE` file's entire content is added through this, verbatim,
/// as a single entry.
pub fn add_notice_text(out: &mut Vec<String>, text: String)
    ensures
        strs(final(out)@) == insert_unique(strs(old(out)@), text@),
{
    let n = out.len();
    let mut i: usize = 0;
    while i < n
        invariant
            0 <= i <= n,
            n == out@.len(),
            forall|k: int| 0 <= k < i ==> out@[k]@ != text@,
            *out == *old(out),
        decreases n - i,
    {
        if out[i] == text {
            proof {
                assert(strs(out@)[i as int] == text@);
                assert(strs(out@).contains(text@));
            }
            return ;
        }
        i += 1;
    }
    proof {
        assert(forall|k: int| 0 <= k < strs(out@).len() ==> strs(out@)[k] == out@[k]@);
    }
    let ghost pre = out@;
    out.push(text);
    proof {
        assert(strs(out@) =~= strs(pre).push(text@));
    }
}

/// Scans one file's text: every line's filtered copyright candidate is
/// added to the collection, in line order, without duplicates.
pub fn scan_text(out: &mut Vec<String>, content: &str)
    ensures
        strs(final(out)@) == insert_all(strs(old(out)@), content_notices(content@)),
{
    let cs = chars_of(content);
    let lines = split_lines_exec(&cs);
    let kw = chars_of("copyright");
    let n = lines.len();
    let ghost ls = split_lines(content@);
    let mut i: usize = 0;
    while i < n
        invariant
            0 <= i <= n,
            n == lines@.len(),
            kw@ == "copyright"@,
            ls == split_lines(content@),
            lines@.map_values(|l: Vec<char>| l@) =~= ls,
            strs(out@) == insert_all(strs(old(out)@), lines_notices(ls.subrange(0, i as int))),
        decreases n - i,
    {
        let ghost done = lines_notices(ls.subrange(0, i as int));
        proof {
            assert(ls.subrange(0, i as int + 1).drop_last() =~= ls.subrange(0, i as int));
            assert(ls.subrange(0, i as int + 1).last() == ls[i as int]);
            assert(lines@[i as int]@ == ls[i as int]);
        }
        match line_candidate_exec(&lines[i], &kw) {
            Some(cand) => {
                if !is_false_positive_exec(&cand) {
                    proof {
                        assert(line_notice(ls[i as int]) == Some(cand@));
                        assert((done + seq![cand@]).drop_last() =~= done);
                        assert((done + seq![cand@]).last() == cand@);
                    }
                    add_notice_text(out, string_of(&cand));
                } else {
                    proof {
                        assert(line_notice(ls[i as int]) is None);
                        assert(lines_notices(ls.subrange(0, i as int + 1)) =~= done);
                    }
                }
            },
            None => {
                proof {
                    assert(line_notice(ls[i as int]) is None);
                    assert(lines_notices(ls.subrange(0, i as int + 1)) =~= done);
                }
            },
        }
        i += 1;
    }
    proof {
        assert(ls.subrange(0, n as int) =~= ls);
    }
}

/// Whether a candidate line is template boilerplate.
fn is_false_positive_exec(c: &Vec<char>) -> (b: bool)
    ensures
        b == is_false_positive(c@),
{
    find_ci(c, &chars_of("year")) || find_ci(c, &chars_of("notice")) || find_ci(
        c,
        &chars_of("holder"),
    ) || find_ci(c, &chars_of("owner")) || find_ci(c, &chars_of("interest")) || find_ci(
        c,
        &chars_of("yyyy"),
    )
}

/// Characterizes [`first_cand_start`]: it is the least start position, and
/// the line length when no statement starts anywhere.
proof fn lemma_first_cand_start(l: Seq<char>, i: int)
    requires
        0 <= i <= l.len(),
    ensures
        i <= first_cand_start(l, i) <= l.len(),
        first_cand_start(l, i) < l.len() ==> cand_start_at(l, first_cand_start(l, i)),
        forall|k: int| i <= k < first_cand_start(l, i) ==> !cand_start_at(l, k),
        first_cand_start(l, i) == l.len() ==> forall|k: int| i <= k ==> !cand_start_at(l, k),
    decreases l.len() - i,
{
    if i < l.len() && !cand_start_at(l, i) {
        lemma_first_cand_start(l, i + 1);
    }
    if i >= l.len() {
        assert(forall|k: int| i <= k ==> !cand_start_at(l, k));
    }
}

/// The candidate of one line: the suffix from the first copyright-statement
/// start, if any. `kw` must hold the word `copyright`.
fn line_candidate_exec(l: &Vec<char>, kw: &Vec<char>) -> (r: Option<Vec<char>>)
    requires
        kw@ == "copyright"@,
    ensures
        r matches Some(c) ==> line_candidate(l@) == Some(c@),
        r is None ==> line_candidate(l@) is None,
{
    let n = l.len();
    proof {
        reveal_strlit("copyright");
        lemma_first_cand_start(l@, 0);
    }
    let mut i: usize = 0;
    while i < n
        invariant
            0 <= i <= n,
            n == l@.len(),
            kw@ == "copyright"@,
            kw@.len() == 9,
            forall|k: int| 0 <= k < i ==> !cand_start_at(l@, k),
        decreases n - i,
    {
        if crate::chars::match_at(l, i, kw) {
            if has_marker_from(l, i + 9) {
                proof {
                    lemma_first_cand_start(l@, 0);
                    assert(cand_start_at(l@, i as int));
                    assert(first_cand_start(l@, 0) == i as int);
                }
                let mut c: Vec<char> = Vec::new();
                let mut k: usize = i;
                while k < n
                    invariant
                        i <= k <= n,
                        n == l@.len(),
                        c@ =~= l@.subrange(i as int, k as int),
                    decreases n - k,
                {
                    c.push(l[k]);
                    k += 1;
                }
                proof {
                    assert(c@ =~= l@.subrange(i as int, n as int));
                }
                return Some(c);
            }
        }
        proof {
            if matches_at(l@, i as int, "copyright"@) {
                assert(!cand_start_at(l@, i as int));
            }
        }
        i += 1;
    }
    proof {
        lemma_first_cand_start(l@, 0);
        assert(first_cand_start(l@, 0) == n as int);
    }
    None
}

/// Is there a copyright marker at or after position `j0`?
fn has_marker_from(l: &Vec<char>, j0: usize) -> (b: bool)
    ensures
        b == exists|j: int| j >= j0 && marker_at(l@, j),
{
    let n = l.len();
    let mut j: usize = j0;
    if j0 > n {
        proof {
            assert(forall|k: int| k >= j0 ==> !marker_at(l@, k));
        }
        return false;
    }
    while j < n
        invariant
            j0 <= j <= n,
            n == l@.len(),
            forall|k: int| j0 <= k < j ==> !marker_at(l@, k),
        decreases n - j,
    {
        if l[j] == '\u{00a9}' {
            proof {
                assert(marker_at(l@, j as int));
            }
            return true;
        }
        if n - j >= 3 {
            if l[j] == '(' && crate::chars::to_lower(l[j + 1]) == 'c' && l[j + 2] == ')' {
                proof {
                    assert(marker_at(l@, j as int));
                }
                return true;
            }
        }
        proof {
            assert(!marker_at(l@, j as int));
        }
        j += 1;
    }
    proof {
        assert(forall|k: int| k >= j0 ==> !marker_at(l@, k));
    }
    false
}

/// Splits a text into its lines.
fn split_lines_exec(cs: &Vec<char>) -> (r: Vec<Vec<char>>)
    ensures
        r@.map_values(|l: Vec<char>| l@) =~= split_lines(cs@),
{
    let n = cs.len();
    let mut lines: Vec<Vec<char>> = Vec::new();
    let mut cur: Vec<char> = Vec::new();
    let mut i: usize = 0;
    proof {
        lemma_split_lines_nonempty(cs@);
        assert(cs@.subrange(0, n as int) =~= cs@);
        assert(prepend_first(Seq::empty(), split_lines(cs@)) =~~= split_lines(cs@));
    }
    while i < n
        invariant
            0 <= i <= n,
            n == cs@.len(),
            split_lines(cs@) =~~= lines@.map_values(|l: Vec<char>| l@) + prepend_first(
                cur@,
                split_lines(cs@.subrange(i as int, n as int)),
            ),
        decreases n - i,
    {
        let ghost rest = cs@.subrange(i as int, n as int);
        let ghost rest2 = cs@.subrange(i as int + 1, n as int);
        proof {
            assert(rest.drop_first() =~= rest2);
            assert(rest[0] == cs@[i as int]);
            lemma_split_lines_nonempty(rest2);
        }
        let c = cs[i];
        if c == '\n' {
            let ghost pre = lines@;
            let done = cur;
            cur = Vec::new();
            lines.push(done);
            proof {
                assert(split_lines(rest) =~~= seq![Seq::<char>::empty()] + split_lines(rest2));
                assert(prepend_first(done@, split_lines(rest)) =~~= seq![done@] + split_lines(
                    rest2,
                ));
                assert(prepend_first(Seq::empty(), split_lines(rest2)) =~~= split_lines(rest2));
                assert(lines@.map_values(|l: Vec<char>| l@) =~~= pre.map_values(
                    |l: Vec<char>| l@,
                ).push(done@));
            }
        } else {
            let ghost pre_cur = cur@;
            cur.push(c);
            proof {
                assert(split_lines(rest) =~~= seq![seq![c] + split_lines(rest2)[0]] + split_lines(
                    rest2,
                ).drop_first());
                assert(prepend_first(pre_cur, split_lines(rest)) =~~= prepend_first(
                    cur@,
                    split_lines(rest2),
                ));
            }
        }
        i += 1;
    }
    let ghost rest = cs@.subrange(n as int, n as int);
    let ghost pre = lines@;
    let ghost last = cur@;
    proof {
        assert(rest =~= Seq::<char>::empty());
        assert(split_lines(rest) =~= seq![Seq::<char>::empty()]);
        assert(prepend_first(cur@, split_lines(rest)) =~= seq![cur@]);
    }
    lines.push(cur);
    proof {
        assert(lines@.map_values(|l: Vec<char>| l@) =~= pre.map_values(|l: Vec<char>| l@).push(
            last,
        ));
    }
    lines
}

/// A sequence of lines with extra characters put before its first line.
pub open spec fn prepend_first(p: Seq<char>, ls: Seq<Seq<char>>) -> Seq<Seq<char>> {
    seq![p + ls[0]] + ls.drop_first()
}

/// The parts joined by the separator, in order, nothing before the first
/// and nothing after the last.
pub open spec fn join_with(parts: Seq<Seq<char>>, sep: Seq<char>) -> Seq<char>
    decreases parts.len(),
{
    if parts.len() == 0 {
        Seq::empty()
    } else if parts.len() == 1 {
        parts.last()
    } else {
        join_with(parts.drop_last(), sep) + sep + parts.last()
    }
}

/// The synthetic notice line naming a package's authors, present exactly
/// when the author list is non-empty.
pub fn authors_notice(authors: &Vec<String>) -> (r: Option<String>)
    ensures
        r is Some <==> authors@.len() > 0,
        r matches Some(s) ==> s@ == "Authors: "@ + join_with(strs(authors@), ", "@),
{
    if authors.len() == 0 {
        return None;
    }
    let mut s = String::new();
    s.append("Authors: ");
    s.append(authors[0].as_str());
    proof {
        assert(strs(authors@).subrange(0, 1) =~= seq![authors@[0]@]);
        assert(s@ =~= "Authors: "@ + join_with(strs(authors@).subrange(0, 1), ", "@));
    }
    let n = authors.len();
    let mut i: usize = 1;
    while i < n
        invariant
            1 <= i <= n,
            n == authors@.len(),
            s@ == "Authors: "@ + join_with(strs(authors@).subrange(0, i as int), ", "@),
        decreases n - i,
    {
        proof {
            assert(strs(authors@).subrange(0, i as int + 1).drop_last() =~= strs(
                authors@,
            ).subrange(0, i as int));
            assert(strs(authors@).subrange(0, i as int + 1).last() == authors@[i as int]@);
        }
        s.append(", ");
        s.append(authors[i].as_str());
        proof {
            assert(s@ =~= "Authors: "@ + join_with(strs(authors@).subrange(0, i as int + 1), ", "@));
        }
        i += 1;
    }
    proof {
        assert(strs(authors@).subrange(0, n as int) =~= strs(authors@));
    }
    Some(s)
}

} // verus!
