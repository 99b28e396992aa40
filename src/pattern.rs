//! Translation of one ignore-file line into a glob expression.
use vstd::prelude::*;
use crate::exclusion::{glob_target, join};
use crate::text::{chars_of, string_of};

verus! {

/// The prefix that lets a glob match at any directory depth.
pub open spec fn any_depth() -> Seq<char> {
    seq!['*', '*', '/']
}

pub open spec fn starts_with_char(s: Seq<char>, c: char) -> bool {
    s.len() > 0 && s[0] == c
}

pub open spec fn ends_with_char(s: Seq<char>, c: char) -> bool {
    s.len() > 0 && s.last() == c
}

/// The glob that an ignore-file line becomes; the rules are tried in order.
pub open spec fn translate(p: Seq<char>) -> Seq<char>
    decreases p.len(),
{
    if starts_with_char(p, '!') {
        seq!['!'] + translate(p.drop_first())
    } else if ends_with_char(p, '/') {
        p.drop_last() + seq!['*']
    } else if starts_with_char(p, '*') && !p.contains('/') {
        any_depth() + p
    } else if starts_with_char(p, '/') || starts_with_char(p, '*') {
        p
    } else {
        any_depth() + p
    }
}

fn contains_slash(s: &str) -> (r: bool)
    ensures
        r == s@.contains('/'),
{
    let n = s.unicode_len();
    let mut i: usize = 0;
    while i < n
        invariant
            n == s@.len(),
            i <= n,
            forall|j: int| 0 <= j < i ==> s@[j] != '/',
        decreases n - i,
    {
        if s.get_char(i) == '/' {
            return true;
        }
        i = i + 1;
    }
    false
}

/// Translates one trimmed, non-empty, non-comment ignore-file line into a glob.
pub fn gitignore_to_glob(pattern: &str) -> (r: String)
    ensures
        r@ == translate(pattern@),
    decreases pattern@.len(),
{
    let n = pattern.unicode_len();
    let prefix = "**/";
    proof {
        reveal_strlit("**/");
        reveal_strlit("!");
        reveal_strlit("*");
    }
    if n > 0 && pattern.get_char(0) == '!' {
        let rest = gitignore_to_glob(pattern.substring_char(1, n));
        assert(pattern@.subrange(1, n as int) =~= pattern@.drop_first());
        return String::from_str("!").concat(rest.as_str());
    }
    if n > 0 && pattern.get_char(n - 1) == '/' {
        let stem = pattern.substring_char(0, n - 1);
        assert(pattern@.subrange(0, n - 1) =~= pattern@.drop_last());
        return String::from_str(stem).concat("*");
    }
    let first_star = n > 0 && pattern.get_char(0) == '*';
    if first_star && !contains_slash(pattern) {
        return String::from_str(prefix).concat(pattern);
    }
    // Double wildcards are kept as they stand: splitting on them and joining
    // the pieces back gives the line itself.
    let first_slash = n > 0 && pattern.get_char(0) == '/';
    if first_slash || first_star {
        String::from_str(pattern)
    } else {
        String::from_str(prefix).concat(pattern)
    }
}

pub open spec fn forward_slashes(p: Seq<char>) -> Seq<char> {
    p.map_values(|c: char| if c == '\\' { '/' } else { c })
}

pub open spec fn trim_end_slashes(p: Seq<char>) -> Seq<char>
    decreases p.len(),
{
    if ends_with_char(p, '/') {
        trim_end_slashes(p.drop_last())
    } else {
        p
    }
}

/// An explicit pattern as a run uses it: backslashes become `/`, and the
/// separators at its end are removed.
pub fn normalize_pattern(pattern: &str) -> (r: String)
    ensures
        r@ == trim_end_slashes(forward_slashes(pattern@)),
{
    let cs = chars_of(pattern);
    let mut v: Vec<char> = Vec::new();
    let mut i: usize = 0;
    while i < cs.len()
        invariant
            cs@ == pattern@,
            i <= cs.len(),
            v@ == forward_slashes(cs@.subrange(0, i as int)),
        decreases cs.len() - i,
    {
        let c = cs[i];
        v.push(if c == '\\' { '/' } else { c });
        assert(forward_slashes(cs@.subrange(0, i + 1)) =~= forward_slashes(
            cs@.subrange(0, i as int),
        ).push(if c == '\\' { '/' } else { c }));
        i = i + 1;
    }
    assert(cs@.subrange(0, i as int) =~= cs@);
    while v.len() > 0 && v[v.len() - 1] == '/'
        invariant
            trim_end_slashes(v@) == trim_end_slashes(forward_slashes(pattern@)),
        decreases v.len(),
    {
        let ghost before = v@;
        v.pop();
        assert(v@ =~= before.drop_last());
    }
    string_of(&v)
}

/// Whether `g` opens with the double wildcard `**/`.
pub open spec fn starts_any_depth(g: Seq<char>) -> bool {
    g.len() >= 3 && g[0] == '*' && g[1] == '*' && g[2] == '/'
}

/// Whether glob `g` matches the root-relative path `t`, under the options the
/// exclusion builder uses: `*` matches any run of characters, `/` included;
/// `**/` matches any run of whole leading directories, none included; `?`
/// matches one character; every other character matches itself.
pub open spec fn glob_matches(g: Seq<char>, t: Seq<char>) -> bool
    decreases g.len(), t.len(),
{
    if g.len() == 0 {
        t.len() == 0
    } else if starts_any_depth(g) {
        // either no directory is skipped, or some run of text ending in `/` is
        glob_matches(g.subrange(3, g.len() as int), t) || glob_matches(
            g.subrange(1, g.len() as int),
            t,
        )
    } else if g[0] == '*' {
        glob_matches(g.drop_first(), t) || (t.len() > 0 && glob_matches(g, t.drop_first()))
    } else if g[0] == '?' {
        t.len() > 0 && glob_matches(g.drop_first(), t.drop_first())
    } else {
        t.len() > 0 && t[0] == g[0] && glob_matches(g.drop_first(), t.drop_first())
    }
}

/// A run of leading directories: empty, or ending in a separator.
pub open spec fn is_dir_prefix(d: Seq<char>) -> bool {
    d.len() == 0 || d.last() == '/'
}

/// Whether `s` holds no character that a glob reads as a wildcard.
pub open spec fn is_literal(s: Seq<char>) -> bool {
    !s.contains('*') && !s.contains('?')
}

/// A lone `*` matches any text.
proof fn lemma_star_matches_all(s: Seq<char>)
    ensures
        glob_matches(seq!['*'], s),
    decreases s.len(),
{
    let g = seq!['*'];
    assert(g.drop_first() =~= Seq::<char>::empty());
    assert(g.len() == 1 && g[0] == '*' && !starts_any_depth(g));
    if s.len() > 0 {
        lemma_star_matches_all(s.drop_first());
        assert(glob_matches(g, s.drop_first()));
    } else {
        assert(glob_matches(g.drop_first(), s));
    }
}

/// A glob followed by `*` matches the glob's own text followed by anything.
proof fn lemma_star_suffix(g: Seq<char>, s: Seq<char>)
    ensures
        glob_matches(g + seq!['*'], g + s),
    decreases g.len(),
{
    let gs = g + seq!['*'];
    let t = g + s;
    if g.len() == 0 {
        assert(gs =~= seq!['*']);
        assert(t =~= s);
        lemma_star_matches_all(s);
    } else if starts_any_depth(g) {
        // "*/R*" consumes the two leading stars of the text, then "/" and R
        let g3 = g.subrange(3, g.len() as int);
        let h = gs.subrange(1, gs.len() as int);
        lemma_star_suffix(g3, s);
        assert(h.drop_first().drop_first() =~= g3 + seq!['*']);
        assert(t.drop_first().drop_first().drop_first() =~= g3 + s);
        assert(glob_matches(h.drop_first(), t.drop_first().drop_first()));
        assert(glob_matches(h, t.drop_first().drop_first()));
        assert(glob_matches(h, t.drop_first()));
        assert(glob_matches(h, t));
        assert(starts_any_depth(gs));
    } else {
        let g2 = g.drop_first();
        lemma_star_suffix(g2, s);
        assert(gs.drop_first() =~= g2 + seq!['*']);
        assert(t.drop_first() =~= g2 + s);
        assert(!starts_any_depth(gs));
        if g[0] == '*' {
            assert(glob_matches(gs.drop_first(), t.drop_first()));
            assert(glob_matches(gs, t.drop_first()));
        }
    }
}

/// A literal name followed by `*` matches only paths that start with that name.
proof fn lemma_literal_star_prefix(n: Seq<char>, t: Seq<char>)
    requires
        is_literal(n),
        glob_matches(n + seq!['*'], t),
    ensures
        t.len() >= n.len(),
        t.subrange(0, n.len() as int) == n,
    decreases n.len(),
{
    if n.len() > 0 {
        let g = n + seq!['*'];
        assert(g[0] == n[0]);
        assert(n.contains(n[0]));
        assert(g.drop_first() =~= n.drop_first() + seq!['*']);
        assert forall|c: char| n.drop_first().contains(c) implies n.contains(c) by {
            let k = choose|k: int| 0 <= k < n.drop_first().len() && n.drop_first()[k] == c;
            assert(n[k + 1] == c);
        }
        lemma_literal_star_prefix(n.drop_first(), t.drop_first());
        assert(t.subrange(0, n.len() as int) =~= seq![t[0]] + t.drop_first().subrange(
            0,
            n.len() - 1,
        ));
        assert(n =~= seq![n[0]] + n.drop_first());
    } else {
        assert(t.subrange(0, 0) =~= n);
    }
}

/// A directory-only line `name/` becomes a glob that matches `name` itself and
/// every path nested under it; when `name` holds no wildcard, every path it
/// matches starts with `name`.
pub proof fn law_directory_pattern(p: Seq<char>, rest: Seq<char>, t: Seq<char>)
    requires
        ends_with_char(p, '/'),
        !starts_with_char(p, '!'),
    ensures
        glob_matches(translate(p), p.drop_last()),
        glob_matches(translate(p), p.drop_last() + seq!['/'] + rest),
        is_literal(p.drop_last()) && glob_matches(translate(p), t) ==> t.len() >= p.len() - 1
            && t.subrange(0, p.len() - 1) == p.drop_last(),
{
    let n = p.drop_last();
    lemma_star_suffix(n, Seq::<char>::empty());
    assert(n + Seq::<char>::empty() =~= n);
    lemma_star_suffix(n, seq!['/'] + rest);
    assert(n + (seq!['/'] + rest) =~= n + seq!['/'] + rest);
    if is_literal(n) && glob_matches(translate(p), t) {
        lemma_literal_star_prefix(n, t);
    }
}

/// A glob that opens with a single `*` still matches when any text is put in
/// front of what it matched.
proof fn lemma_star_absorbs(g: Seq<char>, u: Seq<char>, v: Seq<char>)
    requires
        starts_with_char(g, '*'),
        !starts_any_depth(g),
        glob_matches(g, v),
    ensures
        glob_matches(g, u + v),
    decreases u.len(),
{
    if u.len() == 0 {
        assert(u + v =~= v);
    } else {
        lemma_star_absorbs(g, u.drop_first(), v);
        assert((u + v).drop_first() =~= u.drop_first() + v);
    }
}

/// Leading directories in front of a path that a glob matches are absorbed by
/// a glob that starts with a wildcard.
proof fn lemma_wildcard_any_depth(g: Seq<char>, d: Seq<char>, t: Seq<char>)
    requires
        starts_with_char(g, '*'),
        is_dir_prefix(d),
        glob_matches(g, t),
    ensures
        glob_matches(g, d + t),
{
    if d.len() == 0 {
        assert(d + t =~= t);
    } else if starts_any_depth(g) {
        let r = g.subrange(3, g.len() as int);
        let h = g.subrange(1, g.len() as int);
        assert(!starts_any_depth(h));
        if glob_matches(h, t) {
            lemma_star_absorbs(h, d, t);
        } else {
            let st = seq!['/'] + t;
            assert(h.drop_first().drop_first() =~= r);
            assert(st.drop_first() =~= t);
            assert(glob_matches(h.drop_first(), st));
            assert(glob_matches(h, st));
            lemma_star_absorbs(h, d.drop_last(), st);
            assert(d.drop_last() + st =~= d + t);
        }
    } else {
        lemma_star_absorbs(g, d, t);
    }
}

/// A line that starts with `*` and holds no separator becomes a glob that
/// matches, under any run of leading directories, whatever the line matches
/// at the root.
pub proof fn law_suffix_pattern(p: Seq<char>, d: Seq<char>, t: Seq<char>)
    requires
        starts_with_char(p, '*'),
        !p.contains('/'),
        is_dir_prefix(d),
        glob_matches(p, t),
    ensures
        translate(p) == any_depth() + p,
        glob_matches(translate(p), d + t),
{
    let g = any_depth() + p;
    assert(p.len() > 0 && p.last() != '/') by {
        assert(p.contains(p.last()) ==> p.last() != '/');
    }
    assert(g.subrange(3, g.len() as int) =~= p);
    assert(starts_any_depth(g));
    assert(glob_matches(g, t));
    lemma_wildcard_any_depth(g, d, t);
}

/// A line that is not anchored at the root (no leading `/`) and is neither
/// negated nor directory-only becomes a glob that matches, under any run of
/// leading directories, whatever the line matches at the root.
pub proof fn law_unanchored_any_depth(p: Seq<char>, d: Seq<char>, t: Seq<char>)
    requires
        !starts_with_char(p, '/'),
        !starts_with_char(p, '!'),
        !ends_with_char(p, '/'),
        is_dir_prefix(d),
        glob_matches(p, t),
    ensures
        glob_matches(translate(p), d + t),
{
    if starts_with_char(p, '*') {
        if !p.contains('/') {
            law_suffix_pattern(p, d, t);
        } else {
            lemma_wildcard_any_depth(p, d, t);
        }
    } else {
        let g = any_depth() + p;
        assert(g.subrange(3, g.len() as int) =~= p);
        assert(starts_any_depth(g));
        assert(glob_matches(g, t));
        lemma_wildcard_any_depth(g, d, t);
    }
}

/// A line anchored at the root (leading `/`) that is not directory-only is
/// kept as it stands: no leading directories are added to it, and it is
/// expanded as the rest of the line under the scan root.
pub proof fn law_anchored_kept(p: Seq<char>, root: Seq<char>)
    requires
        starts_with_char(p, '/'),
        !ends_with_char(p, '/'),
    ensures
        translate(p) == p,
        glob_target(root, translate(p)) == join(root, p.drop_first()),
{
}

} // verus!
