use rtok::outline::{render, TagHit};
use rtok::syntax::{grammar_for_extension, stripped, Grammar};
use rtok::tags::{tag_hits, tags_grammar, tags_with_config, tags_with_extensions, RawTag, TagsConfig};

fn pad(src: &str) -> String {
    let mut s = src.to_string();
    if !s.ends_with('\n') {
        s.push('\n');
    }
    let n = s.lines().count();
    for i in n..20 {
        s.push_str(&format!("// pad {i}\n"));
    }
    s
}

fn tags(path: &str, src: &str) -> Vec<TagHit> {
    rtok::tags::tags(path, src).unwrap()
}

#[test]
fn stripped_per_language() {
    let cases = [
        ("a.rs", "/// gone\nfn keep() {}\n", "gone", "fn keep"),
        ("a.ts", "// gone\nfunction keep() { return 1; }\n", "gone", "function keep"),
        ("a.js", "// gone\nfunction keep() { return 1; }\n", "gone", "function keep"),
        ("a.py", "# gone\ndef keep():\n    return 1\n", "gone", "def keep"),
        ("a.dart", "// gone\nvoid keep() {}\n", "gone", "void keep"),
        ("a.c", "/* gone */\nint keep(void) { return 1; }\n", "gone", "int keep"),
        ("a.go", "// gone\nfunc Keep() int { return 1 }\n", "gone", "func Keep"),
    ];
    for (path, src, gone, keep) in cases {
        let src = pad(src);
        let out = stripped(path, &src).expect(path);
        assert!(!out.contains(gone), "{path} still has comment: {out}");
        assert!(out.contains(keep), "{path} lost body: {out}");
    }
}

#[test]
fn stripped_unknown_language_is_none() {
    assert!(stripped("a.txt", "// gone\nkeep\n").is_none());
}

#[test]
fn stripped_keeps_every_line() {
    let src = "/* one\n two */\nfn keep() {} // tail\n";
    let out = stripped("a.rs", src).unwrap();
    assert_eq!(out, "\n\nfn keep() {} \n");
    assert_eq!(grammar_for_extension("h"), Some(Grammar::C));
    assert_eq!(grammar_for_extension("rust"), None);
}

#[test]
fn import_queries_capture_last_segment() {
    let cases = [
        ("a.rs", "use crate::foo::Bar;\nfn main() {}\n", "Bar"),
        ("a.ts", "import { foo } from './mod/helper';\nexport function greet() {}\n", "helper"),
        ("a.js", "const x = require('pkg/util');\nfunction add(x) { return x; }\n", "util"),
        ("a.py", "from pkg.mod import helper\ndef run():\n    return 1\n", "helper"),
        ("a.go", "package p\nimport \"github.com/x/y\"\nfunc Sum() int { return 0 }\n", "y"),
        ("a.dart", "import 'package:foo/bar.dart';\nvoid start() {}\n", "bar"),
    ];
    for (path, src, name) in cases {
        let src = pad(src);
        let hits = tags(path, &src);
        let imports: Vec<_> = hits
            .iter()
            .filter(|h| h.kind == "import" && !h.is_def)
            .map(|h| h.name.as_str())
            .collect();
        assert!(imports.contains(&name), "{path} missing import {name}: {imports:?}");
        let map = render(path, &src, "map", &hits);
        assert!(map.starts_with("imports: "), "{path} outline: {map}");
        assert!(map.contains(name), "{path} outline: {map}");
    }
}

#[test]
fn tags_give_lines_and_end_lines() {
    let src = "fn main() {\n    helper();\n}\nfn helper() {}\n";
    let hits = tags("a.rs", src);
    let main = hits.iter().find(|h| h.name == "main" && h.is_def).unwrap();
    assert_eq!((main.line, main.end_line), (1, 3));
    assert_eq!(main.line_text, "fn main() {");
    let call = hits.iter().find(|h| h.name == "helper" && !h.is_def).unwrap();
    assert_eq!(call.line, 2);
}

#[test]
fn remapped_suffix_selects_its_grammar() {
    let exts = vec![("foo".to_string(), "rust".to_string())];
    assert_eq!(tags_grammar("x.foo", &exts), Some(Grammar::Rust));
    assert_eq!(tags_grammar("x.foo", &Vec::new()), None);
    assert_eq!(tags_grammar("x.h", &Vec::new()), Some(Grammar::C));
    let bad = vec![("rs".to_string(), "cobol".to_string())];
    assert_eq!(tags_grammar("x.rs", &bad), None);
}

#[test]
fn tag_hits_skip_ranges_that_are_not_text() {
    let src = "é\nab\n";
    let raw = vec![
        Some(RawTag {
            kind: "function".to_string(),
            name_start: 1,
            name_end: 2,
            line_start: 0,
            line_end: 2,
            row: 0,
            range_end: 2,
            is_def: true,
        }),
        None,
        Some(RawTag {
            kind: "import".to_string(),
            name_start: 3,
            name_end: 5,
            line_start: 3,
            line_end: 99,
            row: 1,
            range_end: 6,
            is_def: false,
        }),
    ];
    let hits = tag_hits(src, &raw);
    assert_eq!(hits.len(), 1);
    assert_eq!(hits[0].name, "ab");
    assert_eq!((hits[0].line, hits[0].end_line), (2, 2));
    assert_eq!(hits[0].line_text, "");
}

#[test]
fn references_from_tags_carry_their_enclosing_definition() {
    let src = "fn a() {\n    b();\n}\nfn b() {\n    c();\n}\nstatic S: u8 = top();\n";
    let hits = tags("chain.rs", src);
    let rows = rtok::index::scoped(&hits);
    let scope = |n: &str| -> Vec<String> {
        rows.iter().filter(|r| r.name == n && !r.is_def).map(|r| r.scope.clone()).collect()
    };
    assert_eq!(scope("c"), ["b"]);
    assert_eq!(scope("b"), ["a"]);
    assert_eq!(scope("top"), [""]);
}

#[test]
fn tags_with_a_compiled_query_match_tags_by_path() {
    let src = "fn main() {}\nfn helper() {}\n";
    let cfg = TagsConfig::new(Grammar::Rust).ok().unwrap();
    let a = tags_with_config(&cfg, src).unwrap();
    let b = tags_with_extensions("x.foo", src, &vec![("foo".to_string(), "rs".to_string())]).unwrap();
    assert_eq!(a.len(), b.len());
    assert!(a.iter().zip(&b).all(|(x, y)| x.name == y.name && x.line == y.line));
    assert!(tags("notes.txt", src).is_empty());
}

#[test]
fn a_reference_spans_one_line() {
    let src = "fn a() {\n    b(\n        1,\n    );\n}\n";
    let hits = tags("a.rs", src);
    let call = hits.iter().find(|h| h.name == "b" && !h.is_def).unwrap();
    assert_eq!((call.line, call.end_line), (2, 2));
    let def = hits.iter().find(|h| h.name == "a" && h.is_def).unwrap();
    assert_eq!((def.line, def.end_line), (1, 5));
}
