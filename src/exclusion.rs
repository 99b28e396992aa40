//! The set of excluded paths, and the filter that the directory walk applies.
use vstd::prelude::*;
use crate::ignore_file::{ignore_file_patterns, parse_gitignore, views};
use crate::pattern::starts_with_char;
use crate::text::{chars_of, string_of, push_chars};

verus! {

/// `rel` resolved against `base`, as a path join does: an absolute `rel`
/// stands alone, otherwise the two are put together with one separator.
pub open spec fn join(base: Seq<char>, rel: Seq<char>) -> Seq<char> {
    if starts_with_char(rel, '/') {
        rel
    } else if base.len() == 0 || base.last() == '/' {
        base + rel
    } else {
        base + seq!['/'] + rel
    }
}

/// The glob that a pattern is expanded as: a leading `/` anchors it at the
/// root, any other pattern is taken relative to the root as well.
pub open spec fn glob_target(root: Seq<char>, g: Seq<char>) -> Seq<char> {
    if starts_with_char(g, '/') {
        join(root, g.drop_first())
    } else {
        join(root, g)
    }
}

/// Whether `a` is `p` itself or one of the directories above it.
pub open spec fn is_ancestor_or_self(a: Seq<char>, p: Seq<char>) -> bool {
    &&& a.len() <= p.len()
    &&& p.subrange(0, a.len() as int) == a
    &&& a.len() == p.len() || (a.len() > 0 && a.last() == '/') || p[a.len() as int] == '/'
}

/// Whether the walk leaves `p` out: it, or a directory above it, is in `set`.
pub open spec fn excluded(set: Seq<Seq<char>>, p: Seq<char>) -> bool {
    exists|i: int| 0 <= i < set.len() && is_ancestor_or_self(#[trigger] set[i], p)
}

/// All patterns of a run: the explicit ones first, then those of the ignore file.
pub open spec fn all_patterns(explicit: Seq<Seq<char>>, ignore_text: Option<Seq<char>>) -> Seq<
    Seq<char>,
> {
    match ignore_text {
        Some(t) => explicit + ignore_file_patterns(t),
        None => explicit,
    }
}

pub open spec fn opt_text(t: Option<&str>) -> Option<Seq<char>> {
    match t {
        Some(s) => Some(s@),
        None => None,
    }
}

pub open spec fn flatten(groups: Seq<Seq<Seq<char>>>) -> Seq<Seq<char>>
    decreases groups.len(),
{
    if groups.len() == 0 {
        Seq::empty()
    } else {
        flatten(groups.drop_last()) + groups.last()
    }
}

pub open spec fn group_views(groups: Seq<Vec<String>>) -> Seq<Seq<Seq<char>>> {
    groups.map_values(|g: Vec<String>| views(g@))
}

/// A set of absolute paths that the walk leaves out, with all that lies below them.
pub struct ExclusionSet {
    pub paths: Vec<Vec<char>>,
}

impl View for ExclusionSet {
    type V = Seq<Seq<char>>;

    open spec fn view(&self) -> Seq<Seq<char>> {
        self.paths@.map_values(|p: Vec<char>| p@)
    }
}

impl ExclusionSet {
    /// The paths in the set, in the order they were put in.
    pub fn paths(&self) -> (r: Vec<String>)
        ensures
            views(r@) == self@,
    {
        let mut r: Vec<String> = Vec::new();
        let mut i: usize = 0;
        while i < self.paths.len()
            invariant
                i <= self.paths.len(),
                views(r@) == self@.subrange(0, i as int),
            decreases self.paths.len() - i,
        {
            let ghost prev = r@;
            r.push(string_of(&self.paths[i]));
            assert(views(r@) =~= views(prev).push(self@[i as int]));
            assert(self@.subrange(0, i + 1) =~= self@.subrange(0, i as int).push(self@[i as int]));
            i = i + 1;
        }
        assert(self@.subrange(0, i as int) =~= self@);
        r
    }
}

fn ancestor_or_self(a: &Vec<char>, p: &Vec<char>) -> (r: bool)
    ensures
        r == is_ancestor_or_self(a@, p@),
{
    if a.len() > p.len() {
        return false;
    }
    let mut i: usize = 0;
    while i < a.len()
        invariant
            a.len() <= p.len(),
            i <= a.len(),
            p@.subrange(0, i as int) == a@.subrange(0, i as int),
        decreases a.len() - i,
    {
        if a[i] != p[i] {
            assert(p@.subrange(0, a.len() as int)[i as int] != a@[i as int]);
            return false;
        }
        assert(p@.subrange(0, i + 1) =~= a@.subrange(0, i + 1));
        i = i + 1;
    }
    assert(a@.subrange(0, i as int) =~= a@);
    a.len() == p.len() || (a.len() > 0 && a[a.len() - 1] == '/') || p[a.len()] == '/'
}

/// Whether the walk leaves out the entry at absolute path `path`: it is in
/// the set, or one of the directories above it is.
pub fn should_ignore(path: &str, ignore_set: &ExclusionSet) -> (r: bool)
    ensures
        r == excluded(ignore_set@, path@),
{
    let p = chars_of(path);
    let mut i: usize = 0;
    while i < ignore_set.paths.len()
        invariant
            p@ == path@,
            i <= ignore_set.paths.len(),
            forall|j: int| 0 <= j < i ==> !is_ancestor_or_self(#[trigger] ignore_set@[j], p@),
        decreases ignore_set.paths.len() - i,
    {
        if ancestor_or_self(&ignore_set.paths[i], &p) {
            assert(is_ancestor_or_self(ignore_set@[i as int], path@));
            return true;
        }
        i = i + 1;
    }
    false
}

fn join_paths(base: &str, rel: &Vec<char>) -> (r: Vec<char>)
    ensures
        r@ == join(base@, rel@),
{
    if rel.len() > 0 && rel[0] == '/' {
        return rel.clone();
    }
    let mut out = chars_of(base);
    if out.len() > 0 && out[out.len() - 1] != '/' {
        out.push('/');
    }
    push_chars(&mut out, rel);
    out
}

/// The absolute path of the output artifact: joined to the root unless it is
/// absolute already.
pub fn absolute_output(directory: &str, output_file: &str) -> (r: String)
    ensures
        r@ == join(directory@, output_file@),
{
    let o = chars_of(output_file);
    let j = join_paths(directory, &o);
    string_of(&j)
}

/// The glob text that each pattern is expanded as, one per pattern, in order.
pub fn glob_targets(directory: &str, patterns: &Vec<String>) -> (r: Vec<String>)
    ensures
        r@.len() == patterns@.len(),
        forall|i: int|
            0 <= i < r@.len() ==> #[trigger] r@[i]@ == glob_target(directory@, patterns@[i]@),
{
    let mut r: Vec<String> = Vec::new();
    let mut i: usize = 0;
    while i < patterns.len()
        invariant
            i <= patterns.len(),
            r@.len() == i,
            forall|k: int|
                0 <= k < i ==> #[trigger] r@[k]@ == glob_target(directory@, patterns@[k]@),
        decreases patterns.len() - i,
    {
        let cs = chars_of(patterns[i].as_str());
        let rel = if cs.len() > 0 && cs[0] == '/' {
            let mut rest: Vec<char> = Vec::new();
            let mut k: usize = 1;
            while k < cs.len()
                invariant
                    1 <= k <= cs.len(),
                    rest@ == cs@.subrange(1, k as int),
                decreases cs.len() - k,
            {
                rest.push(cs[k]);
                assert(cs@.subrange(1, k + 1) =~= cs@.subrange(1, k as int).push(cs@[k as int]));
                k = k + 1;
            }
            assert(rest@ =~= cs@.drop_first());
            rest
        } else {
            cs
        };
        let j = join_paths(directory, &rel);
        r.push(string_of(&j));
        i = i + 1;
    }
    r
}

/// Gathers the exclusion set: the absolute output path first, then every
/// path that the expansion of each pattern found, in order.
pub fn build_ignore_set(directory: &str, output_file: &str, expansions: &Vec<Vec<String>>) -> (r:
    ExclusionSet)
    ensures
        r@ == seq![join(directory@, output_file@)] + flatten(group_views(expansions@)),
{
    let o = chars_of(output_file);
    let mut paths: Vec<Vec<char>> = Vec::new();
    paths.push(join_paths(directory, &o));
    let mut g: usize = 0;
    while g < expansions.len()
        invariant
            g <= expansions.len(),
            paths@.map_values(|p: Vec<char>| p@) == seq![join(directory@, output_file@)]
                + flatten(group_views(expansions@.subrange(0, g as int))),
        decreases expansions.len() - g,
    {
        let group = &expansions[g];
        let ghost before = paths@.map_values(|p: Vec<char>| p@);
        let mut k: usize = 0;
        while k < group.len()
            invariant
                g < expansions.len(),
                group == &expansions@[g as int],
                k <= group.len(),
                paths@.map_values(|p: Vec<char>| p@) == before + views(group@.subrange(0, k as int)),
            decreases group.len() - k,
        {
            let ghost prev = paths@;
            paths.push(chars_of(group[k].as_str()));
            assert(paths@.map_values(|p: Vec<char>| p@) =~= prev.map_values(|p: Vec<char>| p@).push(group@[k as int]@));
            assert(views(group@.subrange(0, k + 1)) =~= views(group@.subrange(0, k as int)).push(group@[k as int]@));
            k = k + 1;
        }
        assert(group@.subrange(0, k as int) =~= group@);
        let ghost gv = group_views(expansions@.subrange(0, g + 1));
        assert(gv.drop_last() =~= group_views(expansions@.subrange(0, g as int)));
        assert(gv.last() == views(group@));
        g = g + 1;
    }
    assert(expansions@.subrange(0, g as int) =~= expansions@);
    ExclusionSet { paths }
}

/// Relies on glob::glob_with, with case-sensitive matching in which `*` also
/// crosses separators: the existing paths that match `target`. What it finds
/// depends on the disk, so nothing is stated of it; a malformed pattern, and
/// a path that could not be read, give no path.
#[verifier::external_body]
fn expand_glob(target: &str) -> (r: Vec<String>) {
    let options = glob::MatchOptions {
        case_sensitive: true,
        require_literal_separator: false,
        require_literal_leading_dot: false,
    };
    let mut found = Vec::new();
    if let Ok(paths) = glob::glob_with(target, options) {
        for entry in paths {
            if let Ok(path) = entry {
                found.push(path.to_string_lossy().into_owned());
            }
        }
    }
    found
}

/// Builds the exclusion set of a run over the absolute root `directory`: the
/// output artifact is always in it, and so is every path that the explicit
/// patterns, then those of the ignore file's text (when given), match on disk.
pub fn generate_ignore_set(
    directory: &str,
    ignore_patterns: &Vec<String>,
    output_file: &str,
    gitignore_text: Option<&str>,
) -> (r: ExclusionSet)
    ensures
        r@.len() >= 1,
        r@[0] == join(directory@, output_file@),
        excluded(r@, join(directory@, output_file@)),
        exists|found: Seq<Seq<Seq<char>>>|
            found.len() == all_patterns(views(ignore_patterns@), opt_text(gitignore_text)).len()
                && r@ == seq![join(directory@, output_file@)] + flatten(found),
{
    let mut all: Vec<String> = Vec::new();
    let mut k: usize = 0;
    while k < ignore_patterns.len()
        invariant
            k <= ignore_patterns.len(),
            views(all@) == views(ignore_patterns@.subrange(0, k as int)),
        decreases ignore_patterns.len() - k,
    {
        let ghost prev = all@;
        all.push(ignore_patterns[k].clone());
        assert(views(all@) =~= views(prev).push(ignore_patterns@[k as int]@));
        assert(views(ignore_patterns@.subrange(0, k + 1)) =~= views(
            ignore_patterns@.subrange(0, k as int),
        ).push(ignore_patterns@[k as int]@));
        k = k + 1;
    }
    assert(ignore_patterns@.subrange(0, k as int) =~= ignore_patterns@);
    match gitignore_text {
        Some(t) => {
            let ghost prev = all@;
            let mut extra = parse_gitignore(t);
            let ghost ex = extra@;
            all.append(&mut extra);
            assert(views(all@) =~= views(prev) + views(ex));
        },
        None => {},
    }
    let targets = glob_targets(directory, &all);
    let mut expansions: Vec<Vec<String>> = Vec::new();
    let mut i: usize = 0;
    while i < targets.len()
        invariant
            i <= targets.len(),
            expansions@.len() == i,
        decreases targets.len() - i,
    {
        expansions.push(expand_glob(targets[i].as_str()));
        i = i + 1;
    }
    assert(views(all@) == all_patterns(views(ignore_patterns@), opt_text(gitignore_text)));
    let ghost found = group_views(expansions@);
    let r = build_ignore_set(directory, output_file, &expansions);
    assert(found.len() == all_patterns(views(ignore_patterns@), opt_text(gitignore_text)).len());
    assert(is_ancestor_or_self(r@[0], join(directory@, output_file@))) by {
        assert(r@[0].subrange(0, r@[0].len() as int) =~= r@[0]);
    }
    r
}

proof fn lemma_ancestor_transitive(a: Seq<char>, b: Seq<char>, c: Seq<char>)
    requires
        is_ancestor_or_self(a, b),
        is_ancestor_or_self(b, c),
    ensures
        is_ancestor_or_self(a, c),
{
    assert(c.subrange(0, a.len() as int) =~= b.subrange(0, a.len() as int));
    if a.len() < b.len() && a.len() < c.len() {
        assert(c[a.len() as int] == c.subrange(0, b.len() as int)[a.len() as int]);
    }
}

/// The output artifact is in the set that the builder gathers, whatever the
/// patterns found, so the walk never lists or reads it.
pub proof fn law_output_always_excluded(
    directory: Seq<char>,
    output_file: Seq<char>,
    found: Seq<Seq<Seq<char>>>,
)
    ensures
        excluded(seq![join(directory, output_file)] + flatten(found), join(directory, output_file)),
{
    let set = seq![join(directory, output_file)] + flatten(found);
    let o = join(directory, output_file);
    assert(o.subrange(0, o.len() as int) =~= o);
    assert(is_ancestor_or_self(set[0], o));
}

/// Leaving out a path leaves out everything below it: a descendant of an
/// excluded path is excluded, whether or not a pattern names it.
pub proof fn law_descendants_excluded(set: Seq<Seq<char>>, dir: Seq<char>, p: Seq<char>)
    requires
        excluded(set, dir),
        is_ancestor_or_self(dir, p),
    ensures
        excluded(set, p),
{
    let i = choose|i: int| 0 <= i < set.len() && is_ancestor_or_self(#[trigger] set[i], dir);
    lemma_ancestor_transitive(set[i], dir, p);
}

} // verus!
