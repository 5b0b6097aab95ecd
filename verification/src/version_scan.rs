//! Version discovery in extracted text: a readme's `Stable tag:` line,
//! or a source file's `Version:` header line, matched case-insensitively
//! with optional surrounding whitespace, exactly as the marker grammar
//! below states.

use vstd::prelude::*;
use vstd::string::{StringExecFns, StrSliceExecFns};
use crate::models::opt_str_view;

verus! {

/// The whitespace characters the marker grammar skips and trims.
pub open spec fn is_space(c: char) -> bool {
    c == ' ' || c == '\t' || c == '\n' || c == '\r' || c == '\u{b}' || c == '\u{c}'
}

/// Case-insensitive match of a text character against a lowercase
/// pattern character.
pub open spec fn lower_eq(a: char, b: char) -> bool {
    a == b || (('a' as int) <= (b as int) && (b as int) <= ('z' as int) && (a as int) == (
    b as int) - 32)
}

/// The pattern is a case-insensitive prefix of the text.
pub open spec fn matches_ci(s: Seq<char>, pat: Seq<char>) -> bool {
    pat.len() <= s.len() && (forall|i: int| 0 <= i < pat.len() ==> lower_eq(s[i], pat[i]))
}

/// The sequence with its leading whitespace removed.
pub open spec fn skip_spaces(s: Seq<char>) -> Seq<char>
    decreases s.len(),
{
    if s.len() > 0 && is_space(s[0]) {
        skip_spaces(s.drop_first())
    } else {
        s
    }
}

/// The sequence with its trailing whitespace removed.
pub open spec fn trim_end(s: Seq<char>) -> Seq<char>
    decreases s.len(),
{
    if s.len() > 0 && is_space(s.last()) {
        trim_end(s.drop_last())
    } else {
        s
    }
}

/// The sequence with whitespace removed at both ends.
pub open spec fn trim_spaces(s: Seq<char>) -> Seq<char> {
    trim_end(skip_spaces(s))
}

/// The value a `Stable tag:` readme line carries: after optional
/// leading whitespace, `stable`, whitespace, `tag:` (case-insensitive),
/// the rest of the line trimmed of whitespace — absent when the line
/// does not match or the trimmed value is empty.
pub open spec fn stable_tag_value(line: Seq<char>) -> Option<Seq<char>> {
    let t = skip_spaces(line);
    if matches_ci(t, "stable"@) {
        let u = t.skip(6);
        if u.len() > 0 && is_space(u[0]) {
            let w = skip_spaces(u);
            if matches_ci(w, "tag:"@) {
                let v = trim_spaces(w.skip(4));
                if v.len() > 0 {
                    Some(v)
                } else {
                    None
                }
            } else {
                None
            }
        } else {
            None
        }
    } else {
        None
    }
}

/// The value a `Version:` header line carries: after optional leading
/// whitespace, an optional `*` with more optional whitespace, then
/// `version:` (case-insensitive) and the rest of the line trimmed of
/// whitespace — absent when the line does not match or the trimmed
/// value is empty.
pub open spec fn version_value(line: Seq<char>) -> Option<Seq<char>> {
    let t0 = skip_spaces(line);
    let t = if t0.len() > 0 && t0[0] == '*' {
        skip_spaces(t0.drop_first())
    } else {
        t0
    };
    if matches_ci(t, "version:"@) {
        let v = trim_spaces(t.skip(8));
        if v.len() > 0 {
            Some(v)
        } else {
            None
        }
    } else {
        None
    }
}

proof fn lemma_skip_spaces_at(s: Seq<char>, k: int)
    requires
        0 <= k <= s.len(),
        forall|i: int| 0 <= i < k ==> is_space(s[i]),
        k == s.len() || !is_space(s[k]),
    ensures
        skip_spaces(s) == s.skip(k),
    decreases k,
{
    if k == 0 {
        assert(s.skip(0) =~= s);
    } else {
        lemma_skip_spaces_at(s.drop_first(), k - 1);
        assert(s.drop_first().skip(k - 1) =~= s.skip(k));
    }
}

proof fn lemma_trim_end_at(s: Seq<char>, k: int)
    requires
        0 <= k <= s.len(),
        forall|i: int| k <= i < s.len() ==> is_space(s[i]),
        k == 0 || !is_space(s[k - 1]),
    ensures
        trim_end(s) == s.take(k),
    decreases s.len() - k,
{
    if k == s.len() {
        if s.len() > 0 {
            assert(!is_space(s.last()));
        }
        assert(s.take(k) =~= s);
    } else {
        assert(is_space(s.last()));
        lemma_trim_end_at(s.drop_last(), k);
        assert(s.drop_last().take(k) =~= s.take(k));
    }
}

fn is_space_char(c: char) -> (r: bool)
    ensures
        r == is_space(c),
{
    c == ' ' || c == '\t' || c == '\n' || c == '\r' || c == '\u{b}' || c == '\u{c}'
}

fn skip_spaces_index(line: &str, from: usize) -> (r: usize)
    requires
        from <= line@.len(),
    ensures
        from <= r <= line@.len(),
        forall|i: int| from <= i < r ==> is_space(line@[i]),
        r == line@.len() || !is_space(line@[r as int]),
{
    let n = line.unicode_len();
    let mut r = from;
    while r < n && is_space_char(line.get_char(r))
        invariant
            from <= r <= n,
            n == line@.len(),
            forall|i: int| from <= i < r ==> is_space(line@[i]),
        decreases n - r,
    {
        r = r + 1;
    }
    r
}

fn trim_end_index(line: &str, from: usize) -> (r: usize)
    requires
        from <= line@.len(),
    ensures
        from <= r <= line@.len(),
        forall|i: int| r <= i < line@.len() ==> is_space(line@[i]),
        r == from || !is_space(line@[r - 1]),
{
    let n = line.unicode_len();
    let mut r = n;
    while r > from && is_space_char(line.get_char(r - 1))
        invariant
            from <= r <= n,
            n == line@.len(),
            forall|i: int| r <= i < n ==> is_space(line@[i]),
        decreases r,
    {
        r = r - 1;
    }
    r
}

fn char_matches(a: char, b: char) -> (r: bool)
    ensures
        r == lower_eq(a, b),
{
    let au = a as u32;
    let bu = b as u32;
    au == bu || (97 <= bu && bu <= 122 && au + 32 == bu)
}

fn match_ci(line: &str, from: usize, pat: &str) -> (r: bool)
    requires
        from <= line@.len(),
    ensures
        r == matches_ci(line@.skip(from as int), pat@),
{
    let n = line.unicode_len();
    let m = pat.unicode_len();
    if m > n - from {
        return false;
    }
    let mut i: usize = 0;
    while i < m
        invariant
            0 <= i <= m,
            m == pat@.len(),
            n == line@.len(),
            from + m <= n,
            forall|j: int| 0 <= j < i ==> lower_eq(line@[from + j], pat@[j]),
        decreases m - i,
    {
        if !char_matches(line.get_char(from + i), pat.get_char(i)) {
            proof {
                assert(line@.skip(from as int)[i as int] == line@[from + i]);
            }
            return false;
        }
        i = i + 1;
    }
    proof {
        assert forall|j: int| 0 <= j < pat@.len() implies lower_eq(
            line@.skip(from as int)[j],
            pat@[j],
        ) by {
            assert(line@.skip(from as int)[j] == line@[from + j]);
        }
    }
    true
}

/// Extracts the `Stable tag:` value of one readme line, exactly as
/// [`stable_tag_value`] states it.
pub fn stable_tag_of_line(line: &str) -> (r: Option<String>)
    ensures
        opt_str_view(r) == stable_tag_value(line@),
{
    proof {
        reveal_strlit("stable");
        reveal_strlit("tag:");
    }
    let n = line.unicode_len();
    let i = skip_spaces_index(line, 0);
    proof {
        lemma_skip_spaces_at(line@, i as int);
    }
    let ghost t = skip_spaces(line@);
    if !match_ci(line, i, "stable") {
        return None;
    }
    let j0 = i + 6;
    proof {
        assert(t == line@.skip(i as int));
        assert(t.skip(6) =~= line@.skip(j0 as int));
    }
    let ghost u = t.skip(6);
    if j0 >= n {
        return None;
    }
    if !is_space_char(line.get_char(j0)) {
        proof {
            assert(u[0] == line@[j0 as int]);
        }
        return None;
    }
    proof {
        assert(u[0] == line@[j0 as int]);
    }
    let j = skip_spaces_index(line, j0);
    proof {
        lemma_skip_spaces_at(u, j - j0);
        assert(u.skip(j - j0) =~= line@.skip(j as int));
    }
    let ghost w = skip_spaces(u);
    if !match_ci(line, j, "tag:") {
        return None;
    }
    let p0 = j + 4;
    proof {
        assert(w == line@.skip(j as int));
        assert(w.skip(4) =~= line@.skip(p0 as int));
    }
    let a = skip_spaces_index(line, p0);
    proof {
        lemma_skip_spaces_at(line@.skip(p0 as int), a - p0);
        assert(line@.skip(p0 as int).skip(a - p0) =~= line@.skip(a as int));
    }
    let b = trim_end_index(line, a);
    proof {
        lemma_trim_end_at(line@.skip(a as int), b - a);
        assert(line@.skip(a as int).take(b - a) =~= line@.subrange(a as int, b as int));
        assert(trim_spaces(w.skip(4)) == line@.subrange(a as int, b as int));
    }
    if b <= a {
        None
    } else {
        let v = line.substring_char(a, b);
        Some(String::from_str(v))
    }
}

/// Extracts the `Version:` header value of one source line, exactly as
/// [`version_value`] states it.
pub fn version_of_line(line: &str) -> (r: Option<String>)
    ensures
        opt_str_view(r) == version_value(line@),
{
    proof {
        reveal_strlit("version:");
    }
    let n = line.unicode_len();
    let i0 = skip_spaces_index(line, 0);
    proof {
        lemma_skip_spaces_at(line@, i0 as int);
    }
    let ghost t0 = skip_spaces(line@);
    let i = if i0 < n && line.get_char(i0) == '*' {
        proof {
            assert(t0[0] == line@[i0 as int]);
        }
        let i1 = skip_spaces_index(line, i0 + 1);
        proof {
            assert(t0.drop_first() =~= line@.skip(i0 + 1));
            lemma_skip_spaces_at(t0.drop_first(), i1 - (i0 + 1));
            assert(t0.drop_first().skip(i1 - (i0 + 1)) =~= line@.skip(i1 as int));
        }
        i1
    } else {
        proof {
            if t0.len() > 0 {
                assert(t0[0] == line@[i0 as int]);
            }
        }
        i0
    };
    let ghost t = if t0.len() > 0 && t0[0] == '*' {
        skip_spaces(t0.drop_first())
    } else {
        t0
    };
    proof {
        assert(t == line@.skip(i as int));
    }
    if !match_ci(line, i, "version:") {
        return None;
    }
    let p0 = i + 8;
    proof {
        assert(t.skip(8) =~= line@.skip(p0 as int));
    }
    let a = skip_spaces_index(line, p0);
    proof {
        lemma_skip_spaces_at(line@.skip(p0 as int), a - p0);
        assert(line@.skip(p0 as int).skip(a - p0) =~= line@.skip(a as int));
    }
    let b = trim_end_index(line, a);
    proof {
        lemma_trim_end_at(line@.skip(a as int), b - a);
        assert(line@.skip(a as int).take(b - a) =~= line@.subrange(a as int, b as int));
        assert(trim_spaces(t.skip(8)) == line@.subrange(a as int, b as int));
    }
    if b <= a {
        None
    } else {
        let v = line.substring_char(a, b);
        Some(String::from_str(v))
    }
}

/// What scanning a readme's first `budget` lines yields: the value of
/// the first `Stable tag:` line whose value is not literally `trunk`.
pub open spec fn readme_version(lines: Seq<Seq<char>>, budget: nat) -> Option<Seq<char>>
    decreases lines.len(),
{
    if lines.len() == 0 || budget == 0 {
        None
    } else {
        match stable_tag_value(lines[0]) {
            Some(v) => if v != "trunk"@ {
                Some(v)
            } else {
                readme_version(lines.drop_first(), (budget - 1) as nat)
            },
            None => readme_version(lines.drop_first(), (budget - 1) as nat),
        }
    }
}

/// What scanning a source file's first `budget` lines yields: the value
/// of the first `Version:` header line.
pub open spec fn source_version(lines: Seq<Seq<char>>, budget: nat) -> Option<Seq<char>>
    decreases lines.len(),
{
    if lines.len() == 0 || budget == 0 {
        None
    } else {
        match version_value(lines[0]) {
            Some(v) => Some(v),
            None => source_version(lines.drop_first(), (budget - 1) as nat),
        }
    }
}

/// Scans at most the first 50 readme lines for an acceptable
/// `Stable tag:` value.
pub fn scan_readme(lines: &Vec<String>) -> (r: Option<String>)
    ensures
        opt_str_view(r) == readme_version(lines.deep_view(), 50),
{
    let mut i: usize = 0;
    proof {
        assert(lines.deep_view().skip(0) =~= lines.deep_view());
    }
    while i < lines.len() && i < 50
        invariant
            i <= lines.len(),
            i <= 50,
            readme_version(lines.deep_view(), 50) == readme_version(
                lines.deep_view().skip(i as int),
                (50 - i) as nat,
            ),
        decreases lines.len() - i,
    {
        let line = &lines[i];
        proof {
            assert(lines.deep_view().skip(i as int)[0] == lines.deep_view()[i as int]);
        }
        let got = stable_tag_of_line(line.as_str());
        match got {
            Some(v) => {
                let trunk = String::from_str("trunk");
                if !(v == trunk) {
                    return Some(v);
                }
            },
            None => {},
        }
        proof {
            assert(lines.deep_view().skip(i as int).drop_first() =~= lines.deep_view().skip(
                i + 1,
            ));
        }
        i = i + 1;
    }
    None
}

/// Scans at most the first 100 source lines for a `Version:` header
/// value.
pub fn scan_source(lines: &Vec<String>) -> (r: Option<String>)
    ensures
        opt_str_view(r) == source_version(lines.deep_view(), 100),
{
    let mut i: usize = 0;
    proof {
        assert(lines.deep_view().skip(0) =~= lines.deep_view());
    }
    while i < lines.len() && i < 100
        invariant
            i <= lines.len(),
            i <= 100,
            source_version(lines.deep_view(), 100) == source_version(
                lines.deep_view().skip(i as int),
                (100 - i) as nat,
            ),
        decreases lines.len() - i,
    {
        let line = &lines[i];
        proof {
            assert(lines.deep_view().skip(i as int)[0] == lines.deep_view()[i as int]);
        }
        let got = version_of_line(line.as_str());
        match got {
            Some(v) => {
                return Some(v);
            },
            None => {},
        }
        proof {
            assert(lines.deep_view().skip(i as int).drop_first() =~= lines.deep_view().skip(
                i + 1,
            ));
        }
        i = i + 1;
    }
    None
}

/// What scanning the remaining source files yields: the first file, in
/// the given order, whose scan finds a `Version:` header.
pub open spec fn others_version(files: Seq<Seq<Seq<char>>>) -> Option<Seq<char>>
    decreases files.len(),
{
    if files.len() == 0 {
        None
    } else {
        match source_version(files[0], 100) {
            Some(v) => Some(v),
            None => others_version(files.drop_first()),
        }
    }
}

/// The prioritized search: the readme's `Stable tag:` first, then the
/// item's primary source file, then the remaining source files in the
/// given order; absence of every signal is no version, not an error.
pub open spec fn find_version_view(
    readme: Option<Seq<Seq<char>>>,
    main_file: Option<Seq<Seq<char>>>,
    others: Seq<Seq<Seq<char>>>,
) -> Option<Seq<char>> {
    let r1 = match readme {
        Some(ls) => readme_version(ls, 50),
        None => None,
    };
    match r1 {
        Some(v) => Some(v),
        None => {
            let r2 = match main_file {
                Some(ls) => source_version(ls, 100),
                None => None,
            };
            match r2 {
                Some(v) => Some(v),
                None => others_version(others),
            }
        },
    }
}

/// Finds an item's version in its extracted text: `readme` holds the
/// lines of a readme found beside it, `main_file` the lines of the
/// source file named after the item, `others` the lines of the other
/// source files of the same directory, in iteration order.
pub fn find_version(
    readme: Option<Vec<String>>,
    main_file: Option<Vec<String>>,
    others: Vec<Vec<String>>,
) -> (r: Option<String>)
    ensures
        opt_str_view(r) == find_version_view(
            readme.deep_view(),
            main_file.deep_view(),
            others.deep_view(),
        ),
{
    match &readme {
        Some(ls) => {
            let got = scan_readme(ls);
            match got {
                Some(v) => {
                    return Some(v);
                },
                None => {},
            }
        },
        None => {},
    }
    match &main_file {
        Some(ls) => {
            let got = scan_source(ls);
            match got {
                Some(v) => {
                    return Some(v);
                },
                None => {},
            }
        },
        None => {},
    }
    let mut i: usize = 0;
    proof {
        assert(others.deep_view().skip(0) =~= others.deep_view());
    }
    while i < others.len()
        invariant
            i <= others.len(),
            find_version_view(readme.deep_view(), main_file.deep_view(), others.deep_view())
                == others_version(others.deep_view().skip(i as int)),
        decreases others.len() - i,
    {
        proof {
            assert(others.deep_view().skip(i as int)[0] == others.deep_view()[i as int]);
        }
        let got = scan_source(&others[i]);
        match got {
            Some(v) => {
                return Some(v);
            },
            None => {},
        }
        proof {
            assert(others.deep_view().skip(i as int).drop_first() =~= others.deep_view().skip(
                i + 1,
            ));
        }
        i = i + 1;
    }
    None
}

} // verus!
