use rtok::outline::{
    grammar_available, grammar_for_ext, import_last_segment, markdown_digest, markdown_headings,
    render, supported, supported_with, TagHit,
};
use rtok::path::{ends_with_path, extension_of, file_name_of};
use rtok::read::{key, same_path, HookInput, Read};

#[test]
fn same_path_rejects_suffix_false_positive() {
    assert!(!same_path("/repo/main.rs", "ain.rs"));
    assert!(same_path("/repo/src/main.rs", "src/main.rs"));
    assert!(same_path("src/main.rs", "/repo/src/main.rs"));
}

#[test]
fn blank_paths_never_match() {
    assert!(!same_path("", ""));
    assert!(!same_path("  ", "a"));
    assert!(same_path(" a.rs ", "a.rs"));
}

#[test]
fn cache_key_joins_path_mode_and_range() {
    assert_eq!(key("/r/a.rs", "full", Some("1-5")), "/r/a.rs\tfull\t1-5");
    assert_eq!(key("/r/a.rs", "map", None), "/r/a.rs\tmap\t");
}

#[test]
fn paths_split_like_std() {
    assert_eq!(file_name_of("/a/b.rs"), Some("b.rs".to_string()));
    assert_eq!(file_name_of("/a/b/"), Some("b".to_string()));
    assert_eq!(file_name_of("/a/.."), None);
    assert_eq!(file_name_of("/"), None);
    assert_eq!(extension_of("a/b.tar.gz"), Some("gz".to_string()));
    assert_eq!(extension_of("a/.bashrc"), None);
    assert_eq!(extension_of("a/noext"), None);
    assert!(ends_with_path("/a/./b//c", "b/c"));
    assert!(!ends_with_path("/a/bc", "c"));
}

#[test]
fn unknown_language_falls_back() {
    let src = "hello\nworld\n";
    let out = render("a.txt", src, "map", &Vec::new());
    assert!(out.contains("1:hello"), "{out}");
    assert!(out.contains("unknown language"), "{out}");
}

#[test]
fn markdown_map_skips_fenced_headings() {
    let src = "# One\nFirst.\n```sh\n# not a heading\n```\n## Two\nSecond.\n### Three\nThird.\n";
    let hs = markdown_headings(src);
    assert_eq!(hs.len(), 3);
    assert_eq!(hs[0].body.as_deref(), Some("First."));
    assert_eq!(hs[1].text, "## Two");
    assert_eq!(hs[2].text, "### Three");
    let map = render("doc.md", src, "map", &Vec::new());
    assert!(map.contains("h1 One 1"));
    assert!(map.contains("h2 Two 6"));
    assert!(map.contains("h3 Three 8"));
    assert!(map.contains("  Second."));
    assert!(!map.contains("not a heading"), "{map}");
    let sig = render("doc.mdx", src, "signatures", &Vec::new());
    assert_eq!(sig.lines().count(), 3);
    let digest = markdown_digest(src);
    assert!(digest.contains("## Two\n  Second."));
    assert!(!digest.contains("not a heading"), "{digest}");
}

fn hit(kind: &str, name: &str, line: usize, is_def: bool, text: &str) -> TagHit {
    TagHit {
        kind: kind.to_string(),
        name: name.to_string(),
        line,
        end_line: line,
        is_def,
        line_text: text.to_string(),
    }
}

#[test]
fn tags_outline_lists_imports_once_then_definitions() {
    let hits = vec![
        hit("import", "Bar", 1, false, "use crate::foo::Bar;"),
        hit("import", "Bar", 2, false, "use other::Bar;"),
        hit("function", "main", 3, true, "fn main() {}   "),
        hit("call", "helper", 3, false, "fn main() { helper() }"),
        hit("function", "helper", 4, true, ""),
    ];
    let map = render("a.rs", "", "map", &hits);
    assert_eq!(map, "imports: Bar\nfn main 3\nfunction helper 4");
    let sig = render("a.rs", "", "signatures", &hits);
    assert_eq!(sig, "fn main() {}\n");
}

#[test]
fn import_specifiers_reduce_to_their_last_segment() {
    assert_eq!(import_last_segment("'./mod/helper'"), "helper");
    assert_eq!(import_last_segment("\"github.com/x/y\""), "y");
    assert_eq!(import_last_segment("'package:foo/bar.dart'"), "bar");
    assert_eq!(import_last_segment("pkg.mod"), "mod");
    assert_eq!(import_last_segment("Bar"), "Bar");
    assert_eq!(import_last_segment("a/b/"), "b");
    assert_eq!(import_last_segment("//"), "//");
}

#[test]
fn languages_by_extension_and_remap() {
    assert!(supported("src/main.rs"));
    assert!(supported("a.tsx"));
    assert!(!supported("a.txt"));
    assert!(!supported("Makefile"));
    assert!(grammar_available("rust"));
    assert!(!grammar_available("kotlin"));
    assert_eq!(grammar_for_ext("mjs"), Some("js"));
    let ext = vec![("mts".to_string(), "ts".to_string()), ("kt".to_string(), "kotlin".to_string())];
    assert!(supported_with("a.mts", &ext));
    assert!(!supported_with("a.kt", &ext));
    assert!(supported_with("a.rs", &ext));
}

#[test]
fn read_is_a_default_on_mcp_and_hook_plugin() {
    assert_eq!(Read.manifest().id, "read");
    assert!(Read.manifest().default_on);
}

fn comps_text(cs: Vec<rtok::path::Component>) -> String {
    let mut out = String::new();
    for c in cs {
        let s: String = match c {
            rtok::path::Component::RootDir => "/".into(),
            rtok::path::Component::CurDir => ".".into(),
            rtok::path::Component::ParentDir => "..".into(),
            rtok::path::Component::Normal(v) => v.into_iter().collect(),
        };
        if !out.is_empty() && !out.ends_with('/') {
            out.push('/');
        }
        out.push_str(&s);
    }
    out
}

#[test]
fn normalize_absolute_unix_path_still_roots() {
    assert_eq!(comps_text(rtok::path::normalize("/unused", "/tmp/a/../b")), "/tmp/b");
}

#[test]
fn normalize_resolves_a_relative_path_against_the_root() {
    assert_eq!(
        comps_text(rtok::path::normalize("/home/me/_worktrees/wt", "../../rtok/.git/worktrees/wt")),
        "/home/me/rtok/.git/worktrees/wt"
    );
    assert_eq!(comps_text(rtok::path::normalize("/a", "../../..")), "/");
    assert_eq!(comps_text(rtok::path::normalize("/a/b", "./c/.")), "/a/b/c");
}

#[test]
fn empty_allow_root_grants_nothing() {
    assert!(!rtok::path::under("/etc/passwd", "", false));
    assert!(!rtok::path::under("/etc/passwd", "", true));
}

#[test]
fn a_path_is_under_a_root_by_whole_components() {
    assert!(rtok::path::under("/home/me/proj/src/a.rs", "/home/me/proj", false));
    assert!(!rtok::path::under("/home/me/project/a.rs", "/home/me/proj", false));
    assert!(!rtok::path::under("/Home/Me/Proj/a.rs", "/home/me/proj", false));
    assert!(rtok::path::under("/Home/Me/Proj/a.rs", "/home/me/proj", true));
    assert!(rtok::path::under_ascii_case_insensitive("/Users/Me/proj/file.txt", "/users/me/proj"));
    assert!(!rtok::path::under_ascii_case_insensitive("/Users/Me/proj/file.txt", "/users/me/project"));
}

#[test]
fn an_edit_of_the_same_file_or_an_empty_row_counts_as_recent() {
    let edit = |tool: &str, path: &str| HookInput::Call { tool: tool.into(), path: Some(path.into()) };
    assert!(rtok::read::recently_edited(&vec![HookInput::Unreadable, edit("Edit", "/repo/src/main.rs")], "src/main.rs"));
    assert!(rtok::read::recently_edited(&vec![HookInput::Empty], "a.rs"));
    assert!(!rtok::read::recently_edited(&vec![edit("Read", "a.rs"), edit("Write", "b.rs"), HookInput::Unreadable], "a.rs"));
    assert!(!rtok::read::recently_edited(&vec![HookInput::Call { tool: "Edit".into(), path: None }], "a.rs"));
    assert!(!rtok::read::recently_edited(&vec![edit("Edit", "/repo/main.rs")], "ain.rs"));
}

#[test]
fn an_unchanged_reread_is_one_short_line() {
    assert_eq!(rtok::read::dedup_line("abc123", 12), "unchanged since abc123 (12 lines)");
    let long = "0123456789abcdef0123456789abcdef0123456789abcdef0123456789abcdef";
    assert_eq!(rtok::read::dedup_line(long, 3), "unchanged since 01234567 (3 lines)");
}
