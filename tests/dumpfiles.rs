use dumpfiles::emit::{render_output, write_contents, write_tree, Entry};
use dumpfiles::exclusion::{
    absolute_output, build_ignore_set, generate_ignore_set, glob_targets, should_ignore,
};
use dumpfiles::ignore_file::{parse_gitignore, trim_line};
use dumpfiles::pattern::{gitignore_to_glob, normalize_pattern};

fn strings(v: &[&str]) -> Vec<String> {
    v.iter().map(|s| s.to_string()).collect()
}

fn dir(path: &str, name: &str, comps: &[&str]) -> Entry {
    Entry {
        path: path.to_string(),
        name: name.to_string(),
        components: strings(comps),
        is_dir: true,
        is_file: false,
        content: None,
    }
}

fn file(path: &str, name: &str, comps: &[&str], content: Option<&str>) -> Entry {
    Entry {
        path: path.to_string(),
        name: name.to_string(),
        components: strings(comps),
        is_dir: false,
        is_file: true,
        content: content.map(|c| c.to_string()),
    }
}

#[test]
fn directory_only_pattern_becomes_prefix_glob() {
    assert_eq!(gitignore_to_glob("build/"), "build*");
    assert_eq!(gitignore_to_glob("a/b/"), "a/b*");
}

#[test]
fn star_pattern_matches_at_any_depth() {
    assert_eq!(gitignore_to_glob("*.log"), "**/*.log");
    assert_eq!(gitignore_to_glob(".git*"), "**/.git*");
}

#[test]
fn unanchored_pattern_gets_any_depth_prefix() {
    assert_eq!(gitignore_to_glob("foo"), "**/foo");
    assert_eq!(gitignore_to_glob("a/**/b"), "**/a/**/b");
    assert_eq!(gitignore_to_glob("*/x"), "*/x");
    assert_eq!(gitignore_to_glob("**/x"), "**/x");
}

#[test]
fn anchored_pattern_is_kept() {
    assert_eq!(gitignore_to_glob("/foo"), "/foo");
    assert_eq!(gitignore_to_glob("/a/**/b"), "/a/**/b");
}

#[test]
fn negated_pattern_keeps_its_mark() {
    assert_eq!(gitignore_to_glob("!foo"), "!**/foo");
    assert_eq!(gitignore_to_glob("!build/"), "!build*");
}

#[test]
fn explicit_patterns_are_normalized() {
    assert_eq!(normalize_pattern("a\\b/"), "a/b");
    assert_eq!(normalize_pattern("x//"), "x");
    assert_eq!(normalize_pattern(".git*"), ".git*");
}

#[test]
fn trim_removes_white_space_at_both_ends() {
    assert_eq!(trim_line("  a b \t\r"), "a b");
    assert_eq!(trim_line("   "), "");
}

#[test]
fn ignore_file_skips_blank_and_comment_lines() {
    let text = "build/\n\n#comment\n  *.o  \r\n   # indented comment\nsrc/gen\n";
    assert_eq!(parse_gitignore(text), strings(&["build*", "**/*.o", "**/src/gen"]));
    assert_eq!(parse_gitignore(""), Vec::<String>::new());
    assert_eq!(parse_gitignore("last"), strings(&["**/last"]));
}

#[test]
fn output_path_is_resolved_against_root() {
    assert_eq!(absolute_output("/root", "out.txt"), "/root/out.txt");
    assert_eq!(absolute_output("/root/", "out.txt"), "/root/out.txt");
    assert_eq!(absolute_output("/root", "/tmp/o.txt"), "/tmp/o.txt");
}

#[test]
fn patterns_are_expanded_relative_to_root() {
    let t = glob_targets("/r", &strings(&["/a", "**/b", "build*"]));
    assert_eq!(t, strings(&["/r/a", "/r/**/b", "/r/build*"]));
}

#[test]
fn output_artifact_is_always_excluded() {
    let set = build_ignore_set("/r", "output.txt", &vec![]);
    assert_eq!(set.paths(), strings(&["/r/output.txt"]));
    assert!(should_ignore("/r/output.txt", &set));
    assert!(!should_ignore("/r/other.txt", &set));
    let gen = generate_ignore_set("/no/such/dir/here", &strings(&["x*"]), "out.txt", None);
    assert_eq!(gen.paths(), strings(&["/no/such/dir/here/out.txt"]));
}

#[test]
fn excluding_a_directory_excludes_descendants() {
    let set = build_ignore_set("/r", "o.txt", &vec![strings(&["/r/build"]), vec![]]);
    assert_eq!(set.paths(), strings(&["/r/o.txt", "/r/build"]));
    assert!(should_ignore("/r/build", &set));
    assert!(should_ignore("/r/build/x/y.txt", &set));
    assert!(!should_ignore("/r/builder", &set));
    assert!(!should_ignore("/r", &set));
}

#[test]
fn scenario_git_directory_is_omitted() {
    assert_eq!(gitignore_to_glob(".git*"), "**/.git*");
    let set = build_ignore_set("/r", "output.txt", &vec![strings(&["/r/a/.git"])]);
    assert!(should_ignore("/r/a/.git/config", &set));
    assert!(!should_ignore("/r/a/b.txt", &set));
    let entries = vec![
        dir("/r", "r", &[]),
        dir("/r/a", "a", &["a"]),
        file("/r/a/b.txt", "b.txt", &["a", "b.txt"], Some("hi")),
    ];
    assert_eq!(write_tree(&entries), "<tree>\nr/\n    a/\n        b.txt\n</tree>\n\n");
    assert_eq!(
        write_contents(&entries),
        "<a>\n    <b.txt>\n    hi\n    </b.txt>\n</a>\n\n"
    );
}

#[test]
fn scenario_build_directory_from_ignore_file() {
    let patterns = parse_gitignore("build/\n\n#comment\n");
    assert_eq!(patterns, strings(&["build*"]));
    let targets = glob_targets("/r", &patterns);
    assert_eq!(targets, strings(&["/r/build*"]));
    let set = build_ignore_set("/r", "output.txt", &vec![strings(&["/r/build"])]);
    assert!(should_ignore("/r/build/out.o", &set));
    assert!(should_ignore("/r/build/deep/x.o", &set));
    assert!(!should_ignore("/r/main.c", &set));
    let entries = vec![
        dir("/r", "r", &[]),
        file("/r/main.c", "main.c", &["main.c"], Some("int x;\n")),
    ];
    let out = render_output(&entries);
    assert!(!out.contains("build"));
    assert_eq!(
        out,
        "<tree>\nr/\n    main.c\n</tree>\n\n<main.c>\nint x;\n</main.c>\n"
    );
}

#[test]
fn scenario_unreadable_file_gets_placeholder() {
    let entries = vec![
        dir("/r", "r", &[]),
        dir("/r/a", "a", &["a"]),
        file("/r/a/bin.dat", "bin.dat", &["a", "bin.dat"], None),
    ];
    assert_eq!(
        write_contents(&entries),
        "<a>\n    <bin.dat>\n    Binary or inaccessible file: /r/a/bin.dat\n    </bin.dat>\n</a>\n\n"
    );
}

#[test]
fn directories_close_before_siblings_open() {
    let entries = vec![
        dir("/r", "r", &[]),
        dir("/r/a", "a", &["a"]),
        dir("/r/a/b", "b", &["a", "b"]),
        file("/r/a/b/c.txt", "c.txt", &["a", "b", "c.txt"], Some("c")),
        file("/r/a/d.txt", "d.txt", &["a", "d.txt"], Some("d")),
        dir("/r/e", "e", &["e"]),
        file("/r/e/f.txt", "f.txt", &["e", "f.txt"], Some("")),
    ];
    let expected = "<a>\n    <b>\n        <c.txt>\n        c\n        </c.txt>\n    </b>\n\n    <d.txt>\n    d\n    </d.txt>\n</a>\n\n<e>\n    <f.txt>\n    </f.txt>\n</e>\n\n";
    let out = write_contents(&entries);
    assert_eq!(out, expected);
    assert_eq!(out.matches("<a>").count(), out.matches("</a>").count());
    assert_eq!(out.matches("<b>").count(), out.matches("</b>").count());
    assert_eq!(out.matches("<e>").count(), out.matches("</e>").count());
}

#[test]
fn file_lines_drop_line_endings() {
    let entries = vec![file("/r/x", "x", &["x"], Some("l1\r\nl2\n\nl4\r"))];
    assert_eq!(write_contents(&entries), "<x>\nl1\nl2\n\nl4\r\n</x>\n");
}

#[test]
fn empty_directory_gets_no_block() {
    let entries = vec![dir("/r", "r", &[]), dir("/r/empty", "empty", &["empty"])];
    assert_eq!(write_contents(&entries), "");
    assert_eq!(write_tree(&entries), "<tree>\nr/\n    empty/\n</tree>\n\n");
}

#[test]
fn rendering_twice_gives_the_same_artifact() {
    let entries = vec![
        dir("/r", "r", &[]),
        file("/r/a.txt", "a.txt", &["a.txt"], Some("one\ntwo")),
    ];
    let first = render_output(&entries);
    let second = render_output(&entries);
    assert_eq!(first, second);
    assert_eq!(first, "<tree>\nr/\n    a.txt\n</tree>\n\n<a.txt>\none\ntwo\n</a.txt>\n");
}
