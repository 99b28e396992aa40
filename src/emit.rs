//! The two sections of the artifact: the indented tree of names, then the
//! nested blocks of directories and file contents.
use vstd::prelude::*;
use crate::ignore_file::{line_start, views};
use crate::text::{chars_of, push_chars, push_str, string_of};

verus! {

/// One entry of the walk, with what the artifact needs of it.
pub struct Entry {
    /// The entry's absolute path.
    pub path: String,
    /// The entry's base name.
    pub name: String,
    /// The components of the entry's path relative to the root; none for the root.
    pub components: Vec<String>,
    pub is_dir: bool,
    pub is_file: bool,
    /// The text of a regular file, or `None` where it could not be read as text.
    pub content: Option<String>,
}

pub struct EntryView {
    pub path: Seq<char>,
    pub name: Seq<char>,
    pub components: Seq<Seq<char>>,
    pub is_dir: bool,
    pub is_file: bool,
    pub content: Option<Seq<char>>,
}

pub open spec fn opt_view(o: Option<String>) -> Option<Seq<char>> {
    match o {
        Some(s) => Some(s@),
        None => None,
    }
}

impl View for Entry {
    type V = EntryView;

    open spec fn view(&self) -> EntryView {
        EntryView {
            path: self.path@,
            name: self.name@,
            components: views(self.components@),
            is_dir: self.is_dir,
            is_file: self.is_file,
            content: opt_view(self.content),
        }
    }
}

pub open spec fn entry_views(es: Seq<Entry>) -> Seq<EntryView> {
    es.map_values(|e: Entry| e@)
}

/// Four spaces for each level of depth.
pub open spec fn indent(d: nat) -> Seq<char>
    decreases d,
{
    if d == 0 {
        Seq::empty()
    } else {
        indent((d - 1) as nat) + seq![' ', ' ', ' ', ' ']
    }
}

/// The tree line of an entry: its name at its depth, with `/` after a directory.
pub open spec fn tree_line(e: EntryView) -> Seq<char> {
    indent(e.components.len()) + e.name + (if e.is_dir {
        seq!['/']
    } else {
        Seq::empty()
    }) + seq!['\n']
}

pub open spec fn tree_lines(es: Seq<EntryView>) -> Seq<char>
    decreases es.len(),
{
    if es.len() == 0 {
        Seq::empty()
    } else {
        tree_lines(es.drop_last()) + tree_line(es.last())
    }
}

/// The tree section: one line per entry, between `<tree>` and `</tree>`.
pub open spec fn tree_section(es: Seq<EntryView>) -> Seq<char> {
    "<tree>\n"@ + tree_lines(es) + "</tree>\n\n"@
}

/// Whether the open directories are the leading components of `c`.
pub open spec fn is_stack_prefix(open: Seq<Seq<char>>, c: Seq<Seq<char>>) -> bool {
    open.len() <= c.len() && c.subrange(0, open.len() as int) == open
}

/// The marker that closes the innermost open directory.
pub open spec fn close_marker(open: Seq<Seq<char>>) -> Seq<char> {
    indent((open.len() - 1) as nat) + seq!['<', '/'] + open.last() + seq!['>', '\n', '\n']
}

/// The open directories that stay open before the entry at `c` is written.
pub open spec fn closed(open: Seq<Seq<char>>, c: Seq<Seq<char>>) -> Seq<Seq<char>>
    decreases open.len(),
{
    if open.len() == 0 || is_stack_prefix(open, c) {
        open
    } else {
        closed(open.drop_last(), c)
    }
}

/// The closing markers written before the entry at `c`, innermost first.
pub open spec fn close_text(open: Seq<Seq<char>>, c: Seq<Seq<char>>) -> Seq<char>
    decreases open.len(),
{
    if open.len() == 0 || is_stack_prefix(open, c) {
        Seq::empty()
    } else {
        close_marker(open) + close_text(open.drop_last(), c)
    }
}

/// The closing markers of every open directory, innermost first.
pub open spec fn drain_text(open: Seq<Seq<char>>) -> Seq<char>
    decreases open.len(),
{
    if open.len() == 0 {
        Seq::empty()
    } else {
        close_marker(open) + drain_text(open.drop_last())
    }
}

pub open spec fn open_marker(c: Seq<Seq<char>>, j: int) -> Seq<char> {
    indent(j as nat) + seq!['<'] + c[j] + seq!['>', '\n']
}

/// The opening markers of the directories `c[from..to]`, outermost first.
pub open spec fn open_text(c: Seq<Seq<char>>, from: int, to: int) -> Seq<char>
    decreases to - from,
{
    if to <= from {
        Seq::empty()
    } else {
        open_text(c, from, to - 1) + open_marker(c, to - 1)
    }
}

/// The number of directories above the entry at `c`.
pub open spec fn parent_len(c: Seq<Seq<char>>) -> int {
    if c.len() == 0 {
        0
    } else {
        c.len() - 1
    }
}

pub open spec fn strip_cr(l: Seq<char>) -> Seq<char> {
    if l.len() > 0 && l.last() == '\r' {
        l.drop_last()
    } else {
        l
    }
}

/// The lines of `s` ended by a line feed before position `i`, each at the
/// indentation `ind`, with a carriage return before the line feed dropped.
pub open spec fn body_before(ind: Seq<char>, s: Seq<char>, i: int) -> Seq<char>
    decreases i,
{
    if i <= 0 {
        Seq::empty()
    } else if s[i - 1] == '\n' {
        body_before(ind, s, i - 1) + ind + strip_cr(s.subrange(line_start(s, i - 1), i - 1))
            + seq!['\n']
    } else {
        body_before(ind, s, i - 1)
    }
}

/// A file's text re-indented line by line; a last line without a line feed
/// is kept, an empty one is not.
pub open spec fn file_body(ind: Seq<char>, s: Seq<char>) -> Seq<char> {
    let n = s.len() as int;
    body_before(ind, s, n) + if line_start(s, n) < n {
        ind + s.subrange(line_start(s, n), n) + seq!['\n']
    } else {
        Seq::empty()
    }
}

/// The block of a regular file: its name as markers, around its text or the
/// placeholder of a file that could not be read as text.
pub open spec fn file_text(e: EntryView) -> Seq<char> {
    let c = e.components;
    if e.is_file && c.len() > 0 {
        let ind = indent(parent_len(c) as nat);
        ind + seq!['<'] + c.last() + seq!['>', '\n'] + file_inner(e, ind) + ind + seq!['<', '/'] + c.last() + seq!['>', '\n']
    } else {
        Seq::empty()
    }
}

/// The open directories after the entry at `e` is written.
pub open spec fn step_stack(open: Seq<Seq<char>>, e: EntryView) -> Seq<Seq<char>> {
    let k = closed(open, e.components);
    if k.len() < parent_len(e.components) {
        e.components.subrange(0, parent_len(e.components))
    } else {
        k
    }
}

/// What is written for one entry: the markers that close directories it is
/// not under, those that open the directories above it, then its file block.
pub open spec fn step_text(open: Seq<Seq<char>>, e: EntryView) -> Seq<char> {
    let c = e.components;
    let k = closed(open, c);
    close_text(open, c) + open_text(c, k.len() as int, parent_len(c)) + file_text(e)
}

pub open spec fn stack_after(es: Seq<EntryView>) -> Seq<Seq<char>>
    decreases es.len(),
{
    if es.len() == 0 {
        Seq::empty()
    } else {
        step_stack(stack_after(es.drop_last()), es.last())
    }
}

pub open spec fn content_before(es: Seq<EntryView>) -> Seq<char>
    decreases es.len(),
{
    if es.len() == 0 {
        Seq::empty()
    } else {
        content_before(es.drop_last()) + step_text(stack_after(es.drop_last()), es.last())
    }
}

/// The content section: every entry's markers and text, then the closing
/// markers of the directories still open.
pub open spec fn content_section(es: Seq<EntryView>) -> Seq<char> {
    content_before(es) + drain_text(stack_after(es))
}

/// The whole artifact: the tree section, then the content section.
pub open spec fn artifact(es: Seq<EntryView>) -> Seq<char> {
    tree_section(es) + content_section(es)
}

fn push_indent(out: &mut Vec<char>, d: usize)
    ensures
        final(out)@ == old(out)@ + indent(d as nat),
{
    let ghost start = out@;
    let mut i: usize = 0;
    while i < d
        invariant
            i <= d,
            out@ == start + indent(i as nat),
        decreases d - i,
    {
        out.push(' ');
        out.push(' ');
        out.push(' ');
        out.push(' ');
        i = i + 1;
        assert(out@ =~= start + indent(i as nat));
    }
}

fn push_range(out: &mut Vec<char>, cs: &Vec<char>, a: usize, b: usize)
    requires
        a <= b <= cs.len(),
    ensures
        final(out)@ == old(out)@ + cs@.subrange(a as int, b as int),
{
    let ghost start = out@;
    let mut i: usize = a;
    while i < b
        invariant
            a <= i <= b,
            b <= cs.len(),
            out@ == start + cs@.subrange(a as int, i as int),
        decreases b - i,
    {
        out.push(cs[i]);
        assert(cs@.subrange(a as int, i + 1) =~= cs@.subrange(a as int, i as int).push(cs@[i as int]));
        i = i + 1;
    }
}

fn push_string(out: &mut Vec<char>, s: &String)
    ensures
        final(out)@ == old(out)@ + s@,
{
    push_str(out, s.as_str());
}

/// Writes the tree section of `entries`.
pub fn write_tree(entries: &Vec<Entry>) -> (r: String)
    ensures
        r@ == tree_section(entry_views(entries@)),
{
    let mut out: Vec<char> = Vec::new();
    push_tree(&mut out, entries);
    string_of(&out)
}

fn push_tree(out: &mut Vec<char>, entries: &Vec<Entry>)
    ensures
        final(out)@ == old(out)@ + tree_section(entry_views(entries@)),
{
    let ghost start = out@;
    let ghost es = entry_views(entries@);
    push_str(out, "<tree>\n");
    let mut i: usize = 0;
    while i < entries.len()
        invariant
            i <= entries.len(),
            es == entry_views(entries@),
            out@ == start + "<tree>\n"@ + tree_lines(es.subrange(0, i as int)),
        decreases entries.len() - i,
    {
        let e = &entries[i];
        let ghost before = out@;
        push_indent(out, e.components.len());
        push_string(out, &e.name);
        if e.is_dir {
            out.push('/');
        }
        out.push('\n');
        assert(es.subrange(0, i + 1).drop_last() =~= es.subrange(0, i as int));
        assert(es[i as int] == e@);
        assert(out@ =~= before + tree_line(e@));
        i = i + 1;
    }
    assert(es.subrange(0, i as int) =~= es);
    push_str(out, "</tree>\n\n");
    assert(out@ =~= start + tree_section(es));
}

fn stack_matches(open: &Vec<String>, c: &Vec<String>) -> (r: bool)
    ensures
        r == is_stack_prefix(views(open@), views(c@)),
{
    if open.len() > c.len() {
        return false;
    }
    let mut i: usize = 0;
    while i < open.len()
        invariant
            open.len() <= c.len(),
            i <= open.len(),
            forall|k: int| 0 <= k < i ==> open@[k]@ == c@[k]@,
        decreases open.len() - i,
    {
        if open[i] != c[i] {
            assert(views(c@).subrange(0, open.len() as int)[i as int] != views(open@)[i as int]);
            return false;
        }
        i = i + 1;
    }
    assert(views(c@).subrange(0, open.len() as int) =~= views(open@));
    true
}

proof fn lemma_closed_prefix(open: Seq<Seq<char>>, c: Seq<Seq<char>>)
    ensures
        is_stack_prefix(closed(open, c), c),
        closed(open, c).len() <= open.len(),
    decreases open.len(),
{
    if open.len() == 0 {
        assert(c.subrange(0, 0) =~= open);
    } else if !is_stack_prefix(open, c) {
        lemma_closed_prefix(open.drop_last(), c);
    }
}

/// Pops and closes the open directories that the entry at `c` is not under.
fn close_phase(out: &mut Vec<char>, open: &mut Vec<String>, c: &Vec<String>)
    ensures
        views(final(open)@) == closed(views(old(open)@), views(c@)),
        final(out)@ == old(out)@ + close_text(views(old(open)@), views(c@)),
{
    let ghost start = out@;
    let ghost orig = views(open@);
    let ghost cv = views(c@);
    while open.len() > 0 && !stack_matches(open, c)
        invariant
            closed(orig, cv) == closed(views(open@), cv),
            start + close_text(orig, cv) == out@ + close_text(views(open@), cv),
            cv == views(c@),
        decreases open.len(),
    {
        let ghost cur = views(open@);
        let last = open.pop().unwrap();
        assert(views(open@) =~= cur.drop_last());
        push_indent(out, open.len());
        out.push('<');
        out.push('/');
        push_string(out, &last);
        out.push('>');
        out.push('\n');
        out.push('\n');
        assert(close_text(cur, cv) == close_marker(cur) + close_text(cur.drop_last(), cv));
        assert(out@ + close_text(views(open@), cv) =~= start + close_text(orig, cv));
    }
}

/// Opens the directories above the entry at `c` that are not open yet.
fn open_phase(out: &mut Vec<char>, open: &mut Vec<String>, c: &Vec<String>)
    requires
        is_stack_prefix(views(old(open)@), views(c@)),
    ensures
        views(final(open)@) == (if old(open)@.len() < parent_len(views(c@)) {
            views(c@).subrange(0, parent_len(views(c@)))
        } else {
            views(old(open)@)
        }),
        final(out)@ == old(out)@ + open_text(views(c@), old(open)@.len() as int, parent_len(views(c@))),
{
    let ghost start = out@;
    let ghost cv = views(c@);
    let k = open.len();
    let pl = if c.len() == 0 { 0 } else { c.len() - 1 };
    let mut j = k;
    while j < pl
        invariant
            k <= c.len(),
            pl as int == parent_len(cv),
            cv == views(c@),
            k <= j,
            j <= pl || j == k,
            views(open@) == cv.subrange(0, j as int),
            out@ == start + open_text(cv, k as int, j as int),
        decreases pl - j,
    {
        let ghost before = out@;
        push_indent(out, j);
        out.push('<');
        push_string(out, &c[j]);
        out.push('>');
        out.push('\n');
        let ghost prev = open@;
        open.push(c[j].clone());
        assert(views(open@) =~= views(prev).push(cv[j as int]));
        assert(cv.subrange(0, j + 1) =~= cv.subrange(0, j as int).push(cv[j as int]));
        assert(out@ =~= before + open_marker(cv, j as int));
        j = j + 1;
    }
    if k >= pl {
        assert(open_text(cv, k as int, pl as int) =~= Seq::<char>::empty());
        assert(out@ =~= start);
    }
}

/// Writes a file's text, each line at depth `d`.
fn push_body(out: &mut Vec<char>, d: usize, text: &String)
    ensures
        final(out)@ == old(out)@ + file_body(indent(d as nat), text@),
{
    let ghost start = out@;
    let ghost ind = indent(d as nat);
    let cs = chars_of(text.as_str());
    let n = cs.len();
    let mut start_i: usize = 0;
    let mut i: usize = 0;
    while i < n
        invariant
            n == cs.len(),
            cs@ == text@,
            ind == indent(d as nat),
            i <= n,
            start_i <= i,
            start_i as int == line_start(cs@, i as int),
            out@ == start + body_before(ind, cs@, i as int),
        decreases n - i,
    {
        if cs[i] == '\n' {
            let ghost before = out@;
            let mut e = i;
            if e > start_i && cs[e - 1] == '\r' {
                e = e - 1;
            }
            push_indent(out, d);
            let ghost a1 = out@;
            push_range(out, &cs, start_i, e);
            let ghost a2 = out@;
            out.push('\n');
            assert(out@ == a2.push('\n'));
            let ghost piece = cs@.subrange(start_i as int, i as int);
            assert(cs@.subrange(start_i as int, e as int) == strip_cr(piece)) by {
                if e < i {
                    assert(piece.drop_last() =~= cs@.subrange(start_i as int, e as int));
                } else {
                    assert(piece =~= cs@.subrange(start_i as int, e as int));
                }
            }
            assert(a1 =~= before + indent(d as nat));
            assert(a2 =~= before + ind + cs@.subrange(start_i as int, e as int));
            assert(out@ =~= before + ind + strip_cr(piece) + seq!['\n']);
            start_i = i + 1;
        }
        i = i + 1;
    }
    if start_i < n {
        push_indent(out, d);
        push_range(out, &cs, start_i, n);
        out.push('\n');
    }
    assert(out@ =~= start + file_body(ind, text@));
}

pub open spec fn file_inner(e: EntryView, ind: Seq<char>) -> Seq<char> {
    match e.content {
        Some(t) => file_body(ind, t),
        None => ind + "Binary or inaccessible file: "@ + e.path + seq!['\n'],
    }
}

fn push_file_inner(out: &mut Vec<char>, e: &Entry, d: usize)
    ensures
        final(out)@ == old(out)@ + file_inner(e@, indent(d as nat)),
{
    let ghost start = out@;
    match &e.content {
        Some(t) => {
            push_body(out, d, t);
        },
        None => {
            push_indent(out, d);
            push_str(out, "Binary or inaccessible file: ");
            push_string(out, &e.path);
            out.push('\n');
            assert(out@ =~= start + file_inner(e@, indent(d as nat)));
        },
    }
}

fn push_marker(out: &mut Vec<char>, d: usize, name: &String, closing: bool)
    ensures
        final(out)@ == old(out)@ + indent(d as nat) + (if closing {
            seq!['<', '/']
        } else {
            seq!['<']
        }) + name@ + seq!['>', '\n'],
{
    push_indent(out, d);
    out.push('<');
    if closing {
        out.push('/');
    }
    let ghost b = out@;
    push_string(out, name);
    out.push('>');
    out.push('\n');
    assert(out@ =~= b + name@ + seq!['>', '\n']);
}

/// Writes the block of a regular file; nothing for any other entry.
fn push_file(out: &mut Vec<char>, e: &Entry)
    ensures
        final(out)@ == old(out)@ + file_text(e@),
{
    let ghost start = out@;
    let ghost c = e@.components;
    if e.is_file && e.components.len() > 0 {
        let d = e.components.len() - 1;
        let name = &e.components[d];
        assert(name@ == c.last());
        let ghost ind = indent(d as nat);
        push_marker(out, d, name, false);
        let ghost a = out@;
        push_file_inner(out, e, d);
        let ghost b = out@;
        push_marker(out, d, name, true);
        assert(a =~= start + ind + seq!['<'] + c.last() + seq!['>', '\n']);
        assert(b =~= a + file_inner(e@, ind));
        assert(out@ =~= b + ind + seq!['<', '/'] + c.last() + seq!['>', '\n']);
        assert(out@ =~= start + file_text(e@));
    }
}

/// Writes the content section of `entries`: each directory that holds a
/// written entry is opened once, before its first such entry, and closed
/// after its last; each regular file is written with its text.
pub fn write_contents(entries: &Vec<Entry>) -> (r: String)
    ensures
        r@ == content_section(entry_views(entries@)),
{
    let mut out: Vec<char> = Vec::new();
    push_contents(&mut out, entries);
    string_of(&out)
}

fn push_contents(out: &mut Vec<char>, entries: &Vec<Entry>)
    ensures
        final(out)@ == old(out)@ + content_section(entry_views(entries@)),
{
    let ghost start = out@;
    let ghost es = entry_views(entries@);
    let mut open: Vec<String> = Vec::new();
    let mut i: usize = 0;
    assert(views(open@) =~= Seq::<Seq<char>>::empty());
    while i < entries.len()
        invariant
            i <= entries.len(),
            es == entry_views(entries@),
            views(open@) == stack_after(es.subrange(0, i as int)),
            out@ == start + content_before(es.subrange(0, i as int)),
        decreases entries.len() - i,
    {
        let e = &entries[i];
        let ghost before = out@;
        let ghost st = views(open@);
        assert(es[i as int] == e@);
        close_phase(out, &mut open, &e.components);
        proof {
            lemma_closed_prefix(st, e@.components);
        }
        open_phase(out, &mut open, &e.components);
        push_file(out, e);
        assert(es.subrange(0, i + 1).drop_last() =~= es.subrange(0, i as int));
        assert(out@ =~= before + step_text(st, e@));
        i = i + 1;
    }
    assert(es.subrange(0, i as int) =~= es);
    let ghost before = out@;
    while open.len() > 0
        invariant
            before + drain_text(stack_after(es)) == out@ + drain_text(views(open@)),
        decreases open.len(),
    {
        let ghost cur = views(open@);
        let last = open.pop().unwrap();
        assert(views(open@) =~= cur.drop_last());
        push_indent(out, open.len());
        out.push('<');
        out.push('/');
        push_string(out, &last);
        out.push('>');
        out.push('\n');
        out.push('\n');
        assert(out@ + drain_text(views(open@)) =~= before + drain_text(stack_after(es)));
    }
    assert(drain_text(views(open@)) =~= Seq::<char>::empty());
}

/// Writes the whole artifact of `entries`: the tree section, then the
/// content section.
pub fn render_output(entries: &Vec<Entry>) -> (r: String)
    ensures
        r@ == artifact(entry_views(entries@)),
{
    let mut out: Vec<char> = Vec::new();
    push_tree(&mut out, entries);
    push_contents(&mut out, entries);
    assert(out@ =~= artifact(entry_views(entries@)));
    string_of(&out)
}

/// The number of closing markers in `close_text(open, c)`.
pub open spec fn close_count(open: Seq<Seq<char>>, c: Seq<Seq<char>>) -> nat
    decreases open.len(),
{
    if open.len() == 0 || is_stack_prefix(open, c) {
        0
    } else {
        1 + close_count(open.drop_last(), c)
    }
}

/// The number of opening markers in `open_text(c, from, to)`.
pub open spec fn open_count(from: int, to: int) -> nat {
    if to <= from {
        0
    } else {
        (to - from) as nat
    }
}

/// The directory markers opened while the entries `es` are written.
pub open spec fn opens_written(es: Seq<EntryView>) -> nat
    decreases es.len(),
{
    if es.len() == 0 {
        0
    } else {
        let st = stack_after(es.drop_last());
        let c = es.last().components;
        opens_written(es.drop_last()) + open_count(closed(st, c).len() as int, parent_len(c))
    }
}

/// The directory markers closed while the entries `es` are written.
pub open spec fn closes_written(es: Seq<EntryView>) -> nat
    decreases es.len(),
{
    if es.len() == 0 {
        0
    } else {
        closes_written(es.drop_last()) + close_count(
            stack_after(es.drop_last()),
            es.last().components,
        )
    }
}

proof fn lemma_close_count(open: Seq<Seq<char>>, c: Seq<Seq<char>>)
    ensures
        close_count(open, c) + closed(open, c).len() == open.len(),
    decreases open.len(),
{
    if open.len() > 0 && !is_stack_prefix(open, c) {
        lemma_close_count(open.drop_last(), c);
    }
}

proof fn lemma_open_minus_close(es: Seq<EntryView>)
    ensures
        opens_written(es) == closes_written(es) + stack_after(es).len(),
    decreases es.len(),
{
    if es.len() > 0 {
        let st = stack_after(es.drop_last());
        let c = es.last().components;
        lemma_open_minus_close(es.drop_last());
        lemma_close_count(st, c);
        lemma_closed_prefix(st, c);
    }
}

/// The content section is balanced: the directory markers opened while the
/// entries are written equal those closed then together with the ones that
/// the final drain closes, one for each directory still open.
pub proof fn law_markers_balanced(es: Seq<EntryView>)
    ensures
        opens_written(es) == closes_written(es) + stack_after(es).len(),
        content_section(es) == content_before(es) + drain_text(stack_after(es)),
{
    lemma_open_minus_close(es);
}

/// The artifact is a function of the walked entries alone: the same entries,
/// with the same names, kinds and texts, give the same bytes.
pub proof fn law_same_entries_same_artifact(a: Seq<EntryView>, b: Seq<EntryView>)
    requires
        a == b,
    ensures
        artifact(a) == artifact(b),
{
}

} // verus!
