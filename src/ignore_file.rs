//! Reading the patterns of an ignore file from its text.
use vstd::prelude::*;
use crate::pattern::{gitignore_to_glob, translate};

verus! {

/// The characters with the Unicode `White_Space` property.
pub open spec fn is_ws(c: char) -> bool {
    ('\u{9}' <= c && c <= '\u{d}') || c == ' ' || c == '\u{85}' || c == '\u{a0}' || c
        == '\u{1680}' || ('\u{2000}' <= c && c <= '\u{200a}') || c == '\u{2028}' || c
        == '\u{2029}' || c == '\u{202f}' || c == '\u{205f}' || c == '\u{3000}'
}

pub open spec fn trim_start(s: Seq<char>) -> Seq<char>
    decreases s.len(),
{
    if s.len() > 0 && is_ws(s[0]) {
        trim_start(s.drop_first())
    } else {
        s
    }
}

pub open spec fn trim_end(s: Seq<char>) -> Seq<char>
    decreases s.len(),
{
    if s.len() > 0 && is_ws(s.last()) {
        trim_end(s.drop_last())
    } else {
        s
    }
}

/// A line with the white space at both of its ends removed.
pub open spec fn trim(s: Seq<char>) -> Seq<char> {
    trim_end(trim_start(s))
}

/// The index at which the line that holds position `i` of `s` begins.
pub open spec fn line_start(s: Seq<char>, i: int) -> int
    decreases i,
{
    if i <= 0 {
        0
    } else if s[i - 1] == '\n' {
        i
    } else {
        line_start(s, i - 1)
    }
}

/// The lines of `s` that end with a line feed before position `i`.
pub open spec fn lines_before(s: Seq<char>, i: int) -> Seq<Seq<char>>
    decreases i,
{
    if i <= 0 {
        Seq::empty()
    } else if s[i - 1] == '\n' {
        lines_before(s, i - 1).push(s.subrange(line_start(s, i - 1), i - 1))
    } else {
        lines_before(s, i - 1)
    }
}

/// The lines of `s`, split at each line feed; the last one may be empty.
pub open spec fn lines(s: Seq<char>) -> Seq<Seq<char>> {
    lines_before(s, s.len() as int).push(
        s.subrange(line_start(s, s.len() as int), s.len() as int),
    )
}

/// Whether a trimmed line holds a pattern: it is neither blank nor a comment.
pub open spec fn is_pattern_line(t: Seq<char>) -> bool {
    t.len() > 0 && t[0] != '#'
}

/// The globs that a sequence of ignore-file lines gives, in order.
pub open spec fn patterns_of(ls: Seq<Seq<char>>) -> Seq<Seq<char>>
    decreases ls.len(),
{
    if ls.len() == 0 {
        Seq::empty()
    } else {
        let rest = patterns_of(ls.drop_last());
        let t = trim(ls.last());
        if is_pattern_line(t) {
            rest.push(translate(t))
        } else {
            rest
        }
    }
}

/// The globs of an ignore file's text.
pub open spec fn ignore_file_patterns(text: Seq<char>) -> Seq<Seq<char>> {
    patterns_of(lines(text))
}

pub open spec fn views(v: Seq<String>) -> Seq<Seq<char>> {
    v.map_values(|s: String| s@)
}

fn is_whitespace(c: char) -> (r: bool)
    ensures
        r == is_ws(c),
{
    ('\u{9}' <= c && c <= '\u{d}') || c == ' ' || c == '\u{85}' || c == '\u{a0}' || c
        == '\u{1680}' || ('\u{2000}' <= c && c <= '\u{200a}') || c == '\u{2028}' || c
        == '\u{2029}' || c == '\u{202f}' || c == '\u{205f}' || c == '\u{3000}'
}

/// Removes the white space at both ends of a line.
pub fn trim_line(s: &str) -> (r: &str)
    ensures
        r@ == trim(s@),
{
    let n = s.unicode_len();
    let mut i: usize = 0;
    assert(s@.subrange(0, n as int) =~= s@);
    while i < n && is_whitespace(s.get_char(i))
        invariant
            n == s@.len(),
            i <= n,
            trim_start(s@) == trim_start(s@.subrange(i as int, n as int)),
        decreases n - i,
    {
        assert(s@.subrange(i as int, n as int).drop_first() =~= s@.subrange(i + 1, n as int));
        i = i + 1;
    }
    assert(trim_start(s@.subrange(i as int, n as int)) == s@.subrange(i as int, n as int));
    let mut j: usize = n;
    while j > i && is_whitespace(s.get_char(j - 1))
        invariant
            n == s@.len(),
            i <= j <= n,
            trim(s@) == trim_end(s@.subrange(i as int, j as int)),
        decreases j,
    {
        assert(s@.subrange(i as int, j as int).drop_last() =~= s@.subrange(i as int, j - 1));
        j = j - 1;
    }
    s.substring_char(i, j)
}

/// Turns the text of an ignore file into globs: each line is trimmed, blank
/// lines and lines that start with `#` are skipped, and the rest are
/// translated, in order.
pub fn parse_gitignore(text: &str) -> (r: Vec<String>)
    ensures
        views(r@) == ignore_file_patterns(text@),
{
    let n = text.unicode_len();
    let mut out: Vec<String> = Vec::new();
    let mut start: usize = 0;
    let mut i: usize = 0;
    while i < n
        invariant
            n == text@.len(),
            i <= n,
            start <= i,
            start as int == line_start(text@, i as int),
            views(out@) == patterns_of(lines_before(text@, i as int)),
        decreases n - i,
    {
        if text.get_char(i) == '\n' {
            let ghost before = lines_before(text@, i as int);
            let line = trim_line(text.substring_char(start, i));
            let ghost ls = lines_before(text@, i + 1);
            assert(ls.drop_last() == before);
            if line.unicode_len() > 0 && line.get_char(0) != '#' {
                out.push(gitignore_to_glob(line));
                assert(views(out@) =~= views(out@.drop_last()).push(out@.last()@));
            }
            start = i + 1;
        }
        i = i + 1;
    }
    let ghost all = lines(text@);
    let line = trim_line(text.substring_char(start, n));
    assert(all.drop_last() == lines_before(text@, n as int));
    if line.unicode_len() > 0 && line.get_char(0) != '#' {
        out.push(gitignore_to_glob(line));
        assert(views(out@) =~= views(out@.drop_last()).push(out@.last()@));
    }
    out
}

} // verus!
